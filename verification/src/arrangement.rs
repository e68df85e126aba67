//! Editing the arrangement: the sequence of part names that the piece plays, and the range
//! of it that is selected.
use vstd::prelude::*;

use crate::history::{names_view, unique_names};
use crate::part::PartName;
use crate::change_db::{parse_u32, parsed_u32};
use crate::text::{chars_of, is_white_space, white_space_char};

verus! {

/// A selection of the arrangement, from `first` to `last` inclusive.
#[derive(Clone, Copy, Debug, PartialEq, Eq, Structural)]
pub struct SelectedRange {
    first: usize,
    last: usize,
}

impl SelectedRange {
    pub closed spec fn first_spec(self) -> usize {
        self.first
    }

    pub closed spec fn last_spec(self) -> usize {
        self.last
    }

    /// The range from `first` to `last` in an arrangement of `len` parts, when it lies in it.
    pub fn new(first: usize, last: usize, len: usize) -> (r: Option<Self>)
        ensures
            first <= last && last < len ==> (r matches Some(s) && s.first_spec() == first
                && s.last_spec() == last),
            !(first <= last && last < len) ==> r is None,
    {
        if first <= last && last < len {
            Some(SelectedRange { first, last })
        } else {
            None
        }
    }

    pub fn first(self) -> (r: usize)
        ensures
            r == self.first_spec(),
    {
        self.first
    }

    pub fn last(self) -> (r: usize)
        ensures
            r == self.last_spec(),
            self.first_spec() <= r,
    {
        proof {
            use_type_invariant(self);
        }
        self.last
    }

    #[verifier::type_invariant]
    spec fn ordered(self) -> bool {
        self.first <= self.last
    }
}

/// The arrangement with a part inserted after the selection, or at the end when nothing
/// inside it is selected.
pub open spec fn inserted_sequence(s: Seq<Seq<char>>, name: Seq<char>, selected: Option<SelectedRange>) -> (Seq<Seq<char>>, int) {
    let index = match selected {
        Some(r) => if r.last_spec() < s.len() {
            r.last_spec() + 1
        } else {
            s.len() as int
        },
        None => s.len() as int,
    };
    (s.insert(index, name), index)
}

/// The arrangement with the selection moved one place earlier (`offset` -1) or later (+1).
pub open spec fn moved_sequence(s: Seq<Seq<char>>, f: int, l: int, offset: int) -> Option<(Seq<Seq<char>>, int, int)> {
    if l >= s.len() {
        None
    } else if offset == -1 && f > 0 {
        Some((s.subrange(0, f - 1) + s.subrange(f, l + 1) + seq![s[f - 1]] + s.subrange(l + 1, s.len() as int), f - 1, l - 1))
    } else if offset == 1 && l + 1 < s.len() {
        Some((s.subrange(0, f) + seq![s[l + 1]] + s.subrange(f, l + 1) + s.subrange(l + 2, s.len() as int), f + 1, l + 1))
    } else {
        None
    }
}

/// The arrangement with a copy of the selection inserted right after it.
pub open spec fn repeated_sequence(s: Seq<Seq<char>>, f: int, l: int) -> Option<(Seq<Seq<char>>, int, int)> {
    if l >= s.len() {
        None
    } else {
        Some((s.subrange(0, l + 1) + s.subrange(f, l + 1) + s.subrange(l + 1, s.len() as int), l + 1, 2 * l + 1 - f))
    }
}

/// The arrangement without the selection, and the place selected after it.
pub open spec fn removed_sequence(s: Seq<Seq<char>>, f: int, l: int) -> Option<(Seq<Seq<char>>, Option<int>)> {
    if l >= s.len() {
        None
    } else {
        let rest = s.subrange(0, f) + s.subrange(l + 1, s.len() as int);
        Some((rest, if rest.len() == 0 {
            None
        } else if f < rest.len() - 1 {
            Some(f)
        } else {
            Some(rest.len() - 1)
        }))
    }
}

/// Copies `s[from..to]` onto the end of `out`.
fn push_names(out: &mut Vec<PartName>, s: &Vec<PartName>, from: usize, to: usize)
    requires
        from <= to <= s@.len(),
    ensures
        names_view(final(out)@) == names_view(old(out)@) + names_view(s@).subrange(from as int, to as int),
{
    let ghost start = names_view(out@);
    for i in from..to
        invariant
            from <= to <= s@.len(),
            names_view(out@) == start + names_view(s@).subrange(from as int, i as int),
    {
        let ghost before = names_view(out@);
        let name = s[i].clone();
        assert(name@ == names_view(s@)[i as int]);
        out.push(name);
        assert(names_view(out@) =~= before.push(names_view(s@)[i as int]));
        assert(names_view(s@).subrange(from as int, i + 1) =~= names_view(s@).subrange(from as int, i as int).push(names_view(s@)[i as int]));
        assert(names_view(out@) =~= start + names_view(s@).subrange(from as int, i + 1));
    }
}

/// Inserts `part_name` after the selection, or at the end when nothing inside the
/// arrangement is selected, and selects it.
pub fn sequence_with_inserted_part(
    sequence: &Vec<PartName>,
    part_name: PartName,
    selected_range: Option<SelectedRange>,
) -> (r: (Vec<PartName>, SelectedRange))
    requires
        sequence@.len() < usize::MAX,
    ensures
        ({
            let (s, index) = inserted_sequence(names_view(sequence@), part_name@, selected_range);
            &&& names_view(r.0@) == s
            &&& r.1.first_spec() == index
            &&& r.1.last_spec() == index
        }),
{
    let len = sequence.len();
    let insertion_index = match selected_range {
        Some(range) => if range.last() < len {
            range.last() + 1
        } else {
            len
        },
        None => len,
    };
    let mut updated: Vec<PartName> = Vec::new();
    push_names(&mut updated, sequence, 0, insertion_index);
    let ghost n = part_name@;
    updated.push(part_name);
    push_names(&mut updated, sequence, insertion_index, len);
    assert(names_view(updated@) =~= names_view(sequence@).insert(insertion_index as int, n));
    let selected = SelectedRange { first: insertion_index, last: insertion_index };
    (updated, selected)
}

/// Moves the selection one place earlier (`offset` -1) or later (+1), with the selection
/// following it; nothing when it cannot move that way.
pub fn sequence_with_moved_range(
    sequence: &Vec<PartName>,
    selected: SelectedRange,
    offset: isize,
) -> (r: Option<(Vec<PartName>, SelectedRange)>)
    ensures
        match moved_sequence(names_view(sequence@), selected.first_spec() as int, selected.last_spec() as int, offset as int) {
            None => r is None,
            Some((s, f, l)) => r matches Some(x) && names_view(x.0@) == s && x.1.first_spec() == f
                && x.1.last_spec() == l,
        },
{
    let len = sequence.len();
    let first = selected.first();
    let last = selected.last();
    if last >= len {
        return None;
    }
    let mut updated: Vec<PartName> = Vec::new();
    if offset == -1 && first > 0 {
        push_names(&mut updated, sequence, 0, first - 1);
        push_names(&mut updated, sequence, first, last + 1);
        push_names(&mut updated, sequence, first - 1, first);
        push_names(&mut updated, sequence, last + 1, len);
        let ghost s = names_view(sequence@);
        assert(s.subrange(first - 1, first as int) =~= seq![s[first - 1]]);
        Some((updated, SelectedRange { first: first - 1, last: last - 1 }))
    } else if offset == 1 && last + 1 < len {
        push_names(&mut updated, sequence, 0, first);
        push_names(&mut updated, sequence, last + 1, last + 2);
        push_names(&mut updated, sequence, first, last + 1);
        push_names(&mut updated, sequence, last + 2, len);
        let ghost s = names_view(sequence@);
        assert(s.subrange(last + 1, last + 2) =~= seq![s[last + 1]]);
        Some((updated, SelectedRange { first: first + 1, last: last + 1 }))
    } else {
        None
    }
}

/// The selected part names, when the selection lies inside the arrangement.
pub fn selected_sequence(sequence: &Vec<PartName>, selected: SelectedRange) -> (r: Option<Vec<PartName>>)
    ensures
        selected.last_spec() < sequence@.len() ==> (r matches Some(v) && names_view(v@) == names_view(
            sequence@,
        ).subrange(selected.first_spec() as int, selected.last_spec() + 1)),
        selected.last_spec() >= sequence@.len() ==> r is None,
{
    let last = selected.last();
    if last >= sequence.len() {
        return None;
    }
    let mut v: Vec<PartName> = Vec::new();
    assert(names_view(v@) =~= Seq::empty());
    push_names(&mut v, sequence, selected.first(), last + 1);
    assert(names_view(v@) =~= names_view(sequence@).subrange(selected.first_spec() as int, last + 1));
    Some(v)
}

/// Inserts a copy of the selection right after it, and selects the copy.
pub fn sequence_with_repeated_range(sequence: &Vec<PartName>, selected: SelectedRange) -> (r: Option<
    (Vec<PartName>, SelectedRange),
>)
    requires
        sequence@.len() + selected.last_spec() - selected.first_spec() < usize::MAX,
    ensures
        match repeated_sequence(names_view(sequence@), selected.first_spec() as int, selected.last_spec() as int) {
            None => r is None,
            Some((s, f, l)) => r matches Some(x) && names_view(x.0@) == s && x.1.first_spec() == f
                && x.1.last_spec() == l,
        },
{
    let repeated = match selected_sequence(sequence, selected) {
        Some(v) => v,
        None => {
            return None;
        },
    };
    let first = selected.first();
    let last = selected.last();
    let len = sequence.len();
    let mut updated: Vec<PartName> = Vec::new();
    push_names(&mut updated, sequence, 0, last + 1);
    push_names(&mut updated, &repeated, 0, repeated.len());
    push_names(&mut updated, sequence, last + 1, len);
    assert(names_view(repeated@).subrange(0, repeated@.len() as int) =~= names_view(repeated@));
    let repeated_first = last + 1;
    let repeated_last = repeated_first + (last - first);
    Some((updated, SelectedRange { first: repeated_first, last: repeated_last }))
}

/// Removes the selection; the part that follows it, or else the new last part, is selected.
pub fn sequence_with_removed_range(sequence: &Vec<PartName>, selected: SelectedRange) -> (r: Option<
    (Vec<PartName>, Option<SelectedRange>),
>)
    ensures
        match removed_sequence(names_view(sequence@), selected.first_spec() as int, selected.last_spec() as int) {
            None => r is None,
            Some((s, sel)) => r matches Some(x) && names_view(x.0@) == s && match sel {
                None => x.1 is None,
                Some(i) => x.1 matches Some(y) && y.first_spec() == i && y.last_spec() == i,
            },
        },
{
    let len = sequence.len();
    let first = selected.first();
    let last = selected.last();
    if last >= len {
        return None;
    }
    let mut updated: Vec<PartName> = Vec::new();
    push_names(&mut updated, sequence, 0, first);
    push_names(&mut updated, sequence, last + 1, len);
    let remaining = updated.len();
    let selected_range = if remaining == 0 {
        None
    } else {
        let index = if first < remaining - 1 {
            first
        } else {
            remaining - 1
        };
        Some(SelectedRange { first: index, last: index })
    };
    Some((updated, selected_range))
}

/// The source names without repeats (ignoring ASCII case), each at its first occurrence.
pub fn distinct_part_names(sources: &Vec<PartName>) -> (r: Vec<PartName>)
    ensures
        names_view(r@) == unique_names(names_view(sources@)),
{
    let mut distinct: Vec<PartName> = Vec::new();
    let n = sources.len();
    let ghost all = names_view(sources@);
    assert(all.take(0) =~= Seq::<Seq<char>>::empty());
    assert(names_view(distinct@) =~= Seq::<Seq<char>>::empty());
    for i in 0..n
        invariant
            n == sources@.len(),
            all == names_view(sources@),
            names_view(distinct@) == unique_names(all.take(i as int)),
    {
        crate::history::push_unique_name(&mut distinct, &sources[i]);
        assert(all.take(i + 1).drop_last() =~= all.take(i as int));
    }
    assert(all.take(n as int) =~= all);
    distinct
}

/// The sources of a combination being put together, and the one selected in its list.
#[derive(Debug)]
pub struct CombinationDraft {
    pub sources: Vec<PartName>,
    pub selected: Option<usize>,
}

/// Which controls of a combination can be used.
#[derive(Clone, Copy, Debug, PartialEq, Eq, Structural)]
pub struct CombineControls {
    pub add: bool,
    pub move_earlier: bool,
    pub move_later: bool,
    pub remove: bool,
    pub combine: bool,
}

/// The two places `i` and `j` of `s` exchanged.
pub open spec fn swapped(s: Seq<Seq<char>>, i: int, j: int) -> Seq<Seq<char>> {
    s.update(i, s[j]).update(j, s[i])
}

impl CombinationDraft {
    /// Appends `source` to the combination and selects it.
    pub fn add_source(&mut self, source: PartName)
        ensures
            names_view(final(self).sources@) == names_view(old(self).sources@).push(source@),
            final(self).selected == Some((final(self).sources@.len() - 1) as usize),
    {
        let ghost before = names_view(self.sources@);
        let ghost name = source@;
        self.sources.push(source);
        assert(names_view(self.sources@) =~= before.push(name));
        self.selected = Some(self.sources.len() - 1);
    }

    /// Moves the selected source one place earlier, with the selection; nothing happens when
    /// it is first or nothing is selected.
    pub fn move_source_earlier(&mut self)
        ensures
            match old(self).selected {
                Some(i) => if 0 < i < old(self).sources@.len() {
                    &&& names_view(final(self).sources@) == swapped(names_view(old(self).sources@), i as int, i - 1)
                    &&& final(self).selected == Some((i - 1) as usize)
                } else {
                    names_view(final(self).sources@) == names_view(old(self).sources@) && final(self).selected == old(self).selected
                },
                None => names_view(final(self).sources@) == names_view(old(self).sources@) && final(self).selected is None,
            },
    {
        let index = match self.selected {
            Some(i) => i,
            None => {
                return;
            },
        };
        if index == 0 || index >= self.sources.len() {
            return;
        }
        self.swap_sources(index, index - 1);
        self.selected = Some(index - 1);
    }

    /// Moves the selected source one place later, with the selection; nothing happens when it
    /// is last or nothing is selected.
    pub fn move_source_later(&mut self)
        ensures
            match old(self).selected {
                Some(i) => if i + 1 < old(self).sources@.len() {
                    &&& names_view(final(self).sources@) == swapped(names_view(old(self).sources@), i as int, i + 1)
                    &&& final(self).selected == Some((i + 1) as usize)
                } else {
                    names_view(final(self).sources@) == names_view(old(self).sources@) && final(self).selected == old(self).selected
                },
                None => names_view(final(self).sources@) == names_view(old(self).sources@) && final(self).selected is None,
            },
    {
        let index = match self.selected {
            Some(i) => i,
            None => {
                return;
            },
        };
        if index >= self.sources.len() || index + 1 >= self.sources.len() {
            return;
        }
        self.swap_sources(index, index + 1);
        self.selected = Some(index + 1);
    }

    /// Removes the selected source; the one after it, or else the new last one, is selected.
    pub fn remove_source(&mut self)
        ensures
            match old(self).selected {
                Some(i) => if i < old(self).sources@.len() {
                    &&& names_view(final(self).sources@) == names_view(old(self).sources@).remove(i as int)
                    &&& final(self).selected == if final(self).sources@.len() == 0 {
                        None
                    } else if i < final(self).sources@.len() {
                        Some(i)
                    } else {
                        Some((final(self).sources@.len() - 1) as usize)
                    }
                } else {
                    names_view(final(self).sources@) == names_view(old(self).sources@) && final(self).selected == old(self).selected
                },
                None => names_view(final(self).sources@) == names_view(old(self).sources@) && final(self).selected is None,
            },
    {
        let index = match self.selected {
            Some(i) => i,
            None => {
                return;
            },
        };
        if index >= self.sources.len() {
            return;
        }
        let ghost before = names_view(self.sources@);
        self.sources.remove(index);
        assert(names_view(self.sources@) =~= before.remove(index as int));
        let remaining = self.sources.len();
        self.selected = if remaining == 0 {
            None
        } else if index < remaining {
            Some(index)
        } else {
            Some(remaining - 1)
        };
    }

    /// Which of the combination's controls can be used: adding needs a part picked from the
    /// available ones, moving and removing need a selected source that can move that way,
    /// and combining needs two sources.
    pub fn controls(&self, part_available: bool) -> (r: CombineControls)
        ensures
            r.add == part_available,
            r.move_earlier == (self.selected matches Some(i) && 0 < i < self.sources@.len()),
            r.move_later == (self.selected matches Some(i) && i + 1 < self.sources@.len()),
            r.remove == (self.selected matches Some(i) && i < self.sources@.len()),
            r.combine == (self.sources@.len() >= 2),
    {
        let n = self.sources.len();
        let selected = match self.selected {
            Some(i) => if i < n {
                Some(i)
            } else {
                None
            },
            None => None,
        };
        CombineControls {
            add: part_available,
            move_earlier: match selected {
                Some(i) => i > 0,
                None => false,
            },
            move_later: match selected {
                Some(i) => i + 1 < n,
                None => false,
            },
            remove: selected.is_some(),
            combine: n >= 2,
        }
    }

    fn swap_sources(&mut self, i: usize, j: usize)
        requires
            i < old(self).sources@.len(),
            j < old(self).sources@.len(),
        ensures
            names_view(final(self).sources@) == swapped(names_view(old(self).sources@), i as int, j as int),
            final(self).selected == old(self).selected,
    {
        let ghost before = names_view(self.sources@);
        let a = self.sources[i].clone();
        let b = self.sources[j].clone();
        let ghost (va, vb) = (a@, b@);
        assert(va == before[i as int] && vb == before[j as int]);
        self.sources.set(i, b);
        self.sources.set(j, a);
        assert(names_view(self.sources@) =~= swapped(before, i as int, j as int));
    }
}

/// Moving a source one place earlier and then one place later gives the list back.
pub proof fn law_source_moves_undo(s: Seq<Seq<char>>, i: int)
    requires
        0 < i < s.len(),
    ensures
        swapped(swapped(s, i, i - 1), i - 1, i) == s,
{
    assert(swapped(swapped(s, i, i - 1), i - 1, i) =~= s);
}

/// Moving the selection one place earlier and then one place later gives the arrangement
/// and the selection back.
pub proof fn law_move_back_and_forth(s: Seq<Seq<char>>, f: int, l: int)
    requires
        0 < f <= l < s.len(),
    ensures
        moved_sequence(s, f, l, -1) matches Some((t, f2, l2)) && moved_sequence(t, f2, l2, 1) == Some(
            (s, f, l),
        ),
{
    let (t, f2, l2) = moved_sequence(s, f, l, -1)->Some_0;
    assert(t.len() == s.len());
    assert(t[l2 + 1] == s[f - 1]);
    let back = t.subrange(0, f2) + seq![t[l2 + 1]] + t.subrange(f2, l2 + 1) + t.subrange(l2 + 2, t.len() as int);
    assert(back =~= s);
}

/// Removing the copy that repeating made gives the arrangement back.
pub proof fn law_remove_repeat(s: Seq<Seq<char>>, f: int, l: int)
    requires
        0 <= f <= l < s.len(),
    ensures
        repeated_sequence(s, f, l) matches Some((t, f2, l2)) && removed_sequence(t, f2, l2) matches Some(
            (u, _),
        ) && u == s,
{
    let (t, f2, l2) = repeated_sequence(s, f, l)->Some_0;
    assert(t.len() == s.len() + (l - f + 1));
    let u = t.subrange(0, f2) + t.subrange(l2 + 1, t.len() as int);
    assert(u =~= s);
}

/// Removing the selection `f..=l` keeps every other part in order, and selects the part
/// that followed the removed range (now at `f`); when the range reached the end, the new
/// last part is selected, and nothing when no part is left.
pub proof fn law_removed_selection(s: Seq<Seq<char>>, f: int, l: int)
    requires
        0 <= f <= l < s.len(),
    ensures
        removed_sequence(s, f, l) matches Some((rest, sel)) && {
            &&& rest.len() == s.len() - (l - f + 1)
            &&& forall|i: int| 0 <= i < f ==> #[trigger] rest[i] == s[i]
            &&& forall|i: int| f <= i < rest.len() ==> #[trigger] rest[i] == s[i + (l - f + 1)]
            &&& (l + 1 < s.len() ==> sel == Some(f) && rest[f] == s[l + 1])
            &&& (l + 1 == s.len() && f > 0 ==> sel == Some(f - 1) && rest[f - 1] == s[f - 1])
            &&& (f == 0 && l + 1 == s.len() ==> sel is None)
        },
{
}

/// `s` without its leading whitespace.
pub open spec fn trimmed_start(s: Seq<char>) -> Seq<char>
    decreases s.len(),
{
    if s.len() > 0 && is_white_space(s[0]) {
        trimmed_start(s.drop_first())
    } else {
        s
    }
}

/// `s` without its trailing whitespace.
pub open spec fn trimmed_end(s: Seq<char>) -> Seq<char>
    decreases s.len(),
{
    if s.len() > 0 && is_white_space(s.last()) {
        trimmed_end(s.drop_last())
    } else {
        s
    }
}

/// `s` without leading and trailing whitespace, as `str::trim` gives it.
pub open spec fn trimmed(s: Seq<char>) -> Seq<char> {
    trimmed_end(trimmed_start(s))
}

/// Trims whitespace from both ends of `v`.
pub fn trim_chars(v: &Vec<char>) -> (r: Vec<char>)
    ensures
        r@ == trimmed(v@),
{
    let n = v.len();
    let mut a: usize = 0;
    assert(v@.skip(0) =~= v@);
    while a < n && white_space_char(v[a])
        invariant
            a <= n,
            n == v@.len(),
            trimmed_start(v@) == trimmed_start(v@.skip(a as int)),
        decreases n - a,
    {
        assert(v@.skip(a as int).drop_first() =~= v@.skip(a + 1));
        a = a + 1;
    }
    let ghost front = v@.skip(a as int);
    assert(trimmed_start(v@) == front);
    let mut b: usize = n;
    while b > a && white_space_char(v[b - 1])
        invariant
            a <= b <= n,
            n == v@.len(),
            front == v@.skip(a as int),
            trimmed_end(front) == trimmed_end(v@.subrange(a as int, b as int)),
        decreases b,
    {
        assert(v@.subrange(a as int, b as int).drop_last() =~= v@.subrange(a as int, b - 1));
        b = b - 1;
    }
    let mut r: Vec<char> = Vec::new();
    for i in a..b
        invariant
            a <= b <= n,
            n == v@.len(),
            r@ == v@.subrange(a as int, i as int),
    {
        r.push(v[i]);
        assert(v@.subrange(a as int, i + 1) =~= v@.subrange(a as int, i as int).push(v@[i as int]));
    }
    assert(v@.skip(a as int) =~= v@.subrange(a as int, n as int));
    r
}

/// A part length: a whole number of beats, at least one, with whitespace around it ignored.
pub fn parse_part_length(value: &str) -> (r: Result<u32, String>)
    ensures
        match parsed_u32(trimmed(value@)) {
            None => r matches Err(m) && m@ == "part length must be a whole number"@,
            Some(n) => if n == 0 {
                r matches Err(m) && m@ == "part length must be at least one beat"@
            } else {
                r == Ok::<u32, String>(n)
            },
        },
{
    let v = chars_of(value);
    let t = trim_chars(&v);
    match parse_u32(&t) {
        None => Err("part length must be a whole number".to_owned()),
        Some(0) => Err("part length must be at least one beat".to_owned()),
        Some(n) => Ok(n),
    }
}

} // verus!
