//! What the parts workspace says about parts and the arrangement: lengths, how often a
//! part is used, and the totals of the arrangement and of a combination of parts.
use vstd::prelude::*;

use crate::part::{Part, PartModel, PartName};
use crate::project::part_names;
use crate::history::names_view;
use crate::text::{
    decimal, eq_ignore_ascii_case, first_match, lemma_first_match, lemma_first_match_found,
    push_char, push_decimal, push_str,
};

verus! {

/// The parts of a list, as values.
pub open spec fn parts_view(parts: Seq<Part>) -> Seq<PartModel> {
    parts.map_values(|p: Part| p@)
}

/// `one` for a count of one, else `many`.
pub open spec fn plural(n: int, one: Seq<char>, many: Seq<char>) -> Seq<char> {
    if n == 1 {
        one
    } else {
        many
    }
}

/// The place of the first part whose name matches `name` without regard to ASCII case.
pub fn find_part(parts: &Vec<Part>, name: &PartName) -> (r: Option<usize>)
    ensures
        r matches Some(j) ==> j < parts@.len() && first_match(part_names(parts_view(parts@)), name@)
            == Some(j as int),
        r is None ==> first_match(part_names(parts_view(parts@)), name@) is None,
{
    let ghost names = part_names(parts_view(parts@));
    let n = parts.len();
    for i in 0..n
        invariant
            n == parts@.len(),
            names == part_names(parts_view(parts@)),
            forall|j: int| 0 <= j < i ==> !eq_ignore_ascii_case(#[trigger] names[j], name@),
    {
        assert(names[i as int] == parts@[i as int].name@);
        if parts[i].name.eq_ignore_ascii_case(name) {
            proof {
                lemma_first_match(names, name@, i as int);
            }
            return Some(i);
        }
    }
    proof {
        lemma_first_match_found(names, name@);
    }
    None
}

/// The length of the part named `name`, or nothing when no part has that name.
pub open spec fn found_length(parts: Seq<PartModel>, name: Seq<char>) -> int {
    match first_match(part_names(parts), name) {
        Some(i) => parts[i].length as int,
        None => 0,
    }
}

/// The beats of all the named parts that exist, added up.
pub open spec fn total_length(parts: Seq<PartModel>, names: Seq<Seq<char>>) -> int
    decreases names.len(),
{
    if names.len() == 0 {
        0
    } else {
        total_length(parts, names.drop_last()) + found_length(parts, names.last())
    }
}

proof fn lemma_total_length_prefix(parts: Seq<PartModel>, names: Seq<Seq<char>>, k: int)
    requires
        0 <= k <= names.len(),
    ensures
        0 <= total_length(parts, names.take(k)) <= total_length(parts, names),
    decreases names.len() - k,
{
    if k < names.len() {
        lemma_total_length_prefix(parts, names, k + 1);
        assert(names.take(k + 1).drop_last() =~= names.take(k));
        assert(names.take(k + 1).last() == names[k]);
        lemma_found_length_nonnegative(parts, names[k]);
        lemma_total_length_nonnegative(parts, names.take(k));
    } else {
        assert(names.take(k) =~= names);
        lemma_total_length_nonnegative(parts, names);
    }
}

proof fn lemma_found_length_nonnegative(parts: Seq<PartModel>, name: Seq<char>)
    ensures
        0 <= found_length(parts, name),
{
}

proof fn lemma_total_length_nonnegative(parts: Seq<PartModel>, names: Seq<Seq<char>>)
    ensures
        0 <= total_length(parts, names),
    decreases names.len(),
{
    if names.len() > 0 {
        lemma_total_length_nonnegative(parts, names.drop_last());
    }
}

/// The beats of all the named parts that exist, added up; the total must fit 64 bits.
fn sum_lengths(parts: &Vec<Part>, names: &Vec<PartName>) -> (r: u64)
    requires
        total_length(parts_view(parts@), names_view(names@)) <= u64::MAX,
    ensures
        r == total_length(parts_view(parts@), names_view(names@)),
{
    let ghost ps = parts_view(parts@);
    let ghost all = names_view(names@);
    let mut total: u64 = 0;
    let n = names.len();
    assert(all.take(0) =~= Seq::<Seq<char>>::empty());
    for i in 0..n
        invariant
            n == names@.len(),
            ps == parts_view(parts@),
            all == names_view(names@),
            total_length(ps, all) <= u64::MAX,
            total == total_length(ps, all.take(i as int)),
    {
        proof {
            assert(all.take(i + 1).drop_last() =~= all.take(i as int));
            assert(all.take(i + 1).last() == names@[i as int]@);
            lemma_total_length_prefix(ps, all, i + 1);
        }
        match find_part(parts, &names[i]) {
            Some(j) => {
                assert(parts@[j as int]@ == ps[j as int]);
                total = total + parts[j].length as u64;
            },
            None => {},
        }
    }
    assert(all.take(n as int) =~= all);
    total
}

/// `count` followed by the word for it: `1 beat`, `2 beats`.
pub open spec fn counted(count: int, one: Seq<char>, many: Seq<char>) -> Seq<char> {
    decimal(count as nat) + seq![' '] + plural(count, one, many)
}

/// How the details of a part give its length.
pub fn part_length_label(length: u32) -> (r: String)
    ensures
        r@ == counted(length as int, "beat"@, "beats"@),
{
    let mut text = String::new();
    push_decimal(&mut text, length as u128);
    push_char(&mut text, ' ');
    if length == 1 {
        push_str(&mut text, "beat");
    } else {
        push_str(&mut text, "beats");
    }
    assert(text@ =~= counted(length as int, "beat"@, "beats"@));
    text
}

/// The number of names among `names` that match `name` without regard to ASCII case.
pub open spec fn count_matches(names: Seq<Seq<char>>, name: Seq<char>) -> nat
    decreases names.len(),
{
    if names.len() == 0 {
        0
    } else {
        count_matches(names.drop_last(), name) + if eq_ignore_ascii_case(names.last(), name) {
            1nat
        } else {
            0nat
        }
    }
}

/// How the details of a part say how often the arrangement plays it.
pub open spec fn usage_text(count: nat) -> Seq<char> {
    if count == 0 {
        "not used"@
    } else if count == 1 {
        "used once"@
    } else {
        "used "@ + decimal(count) + " times"@
    }
}

/// How often the arrangement `sequence` plays the part named `part_name`.
pub fn part_usage(sequence: &Vec<PartName>, part_name: &PartName) -> (r: String)
    ensures
        r@ == usage_text(count_matches(names_view(sequence@), part_name@)),
{
    let ghost all = names_view(sequence@);
    let mut count: usize = 0;
    let n = sequence.len();
    assert(all.take(0) =~= Seq::<Seq<char>>::empty());
    for i in 0..n
        invariant
            n == sequence@.len(),
            all == names_view(sequence@),
            count == count_matches(all.take(i as int), part_name@),
            count <= i,
    {
        assert(all.take(i + 1).drop_last() =~= all.take(i as int));
        assert(all.take(i + 1).last() == sequence@[i as int]@);
        if sequence[i].eq_ignore_ascii_case(part_name) {
            count = count + 1;
        }
    }
    assert(all.take(n as int) =~= all);
    if count == 0 {
        "not used".to_owned()
    } else if count == 1 {
        "used once".to_owned()
    } else {
        let mut text = "used ".to_owned();
        push_decimal(&mut text, count as u128);
        push_str(&mut text, " times");
        assert(text@ =~= usage_text(count as nat));
        text
    }
}

/// The heading of a list of parts: how many, and how many beats they play in all.
pub open spec fn totals_text(part_count: int, beats: int) -> Seq<char> {
    counted(part_count, "part"@, "parts"@) + ", "@ + counted(beats, "beat"@, "beats"@)
}

fn totals_label(part_count: usize, beats: u64) -> (r: String)
    ensures
        r@ == totals_text(part_count as int, beats as int),
{
    let mut text = String::new();
    push_decimal(&mut text, part_count as u128);
    push_char(&mut text, ' ');
    if part_count == 1 {
        push_str(&mut text, "part");
    } else {
        push_str(&mut text, "parts");
    }
    push_str(&mut text, ", ");
    push_decimal(&mut text, beats as u128);
    push_char(&mut text, ' ');
    if beats == 1 {
        push_str(&mut text, "beat");
    } else {
        push_str(&mut text, "beats");
    }
    assert(text@ =~= totals_text(part_count as int, beats as int));
    text
}

/// The heading of the arrangement: its number of entries and of beats. The beats are added
/// in 32 bits, so their total must fit them.
pub fn arrangement_summary(parts: &Vec<Part>, sequence: &Vec<PartName>) -> (r: String)
    requires
        total_length(parts_view(parts@), names_view(sequence@)) <= u32::MAX,
    ensures
        r@ == totals_text(sequence@.len() as int, total_length(parts_view(parts@), names_view(sequence@))),
{
    let beats = sum_lengths(parts, sequence);
    totals_label(sequence.len(), beats)
}

/// The heading of a combination: its number of sources and the beats of those that exist.
/// The total must fit 64 bits.
pub fn combination_summary(parts: &Vec<Part>, sources: &Vec<PartName>) -> (r: String)
    requires
        total_length(parts_view(parts@), names_view(sources@)) <= u64::MAX,
    ensures
        r@ == totals_text(sources@.len() as int, total_length(parts_view(parts@), names_view(sources@))),
{
    let beats = sum_lengths(parts, sources);
    totals_label(sources.len(), beats)
}

/// A row of the combination's sources: its number, its name, and its part's length, or no
/// beats when no part has that name.
pub open spec fn source_row_text(parts: Seq<PartModel>, index: int, source: Seq<char>) -> Seq<char> {
    decimal((index + 1) as nat) + ". "@ + source + " · "@ + counted(found_length(parts, source), "beat"@, "beats"@)
}

pub fn combination_source_label(parts: &Vec<Part>, index: usize, source: &PartName) -> (r: String)
    requires
        index < usize::MAX,
    ensures
        r@ == source_row_text(parts_view(parts@), index as int, source@),
{
    let ghost ps = parts_view(parts@);
    let beat_count: u32 = match find_part(parts, source) {
        Some(j) => {
            assert(parts@[j as int]@ == ps[j as int]);
            parts[j].length
        },
        None => 0,
    };
    let mut text = String::new();
    push_decimal(&mut text, (index + 1) as u128);
    push_str(&mut text, ". ");
    push_str(&mut text, source.as_str());
    push_str(&mut text, " · ");
    let count = part_length_label(beat_count);
    push_str(&mut text, count.as_str());
    assert(text@ =~= source_row_text(ps, index as int, source@));
    text
}

/// A row of the parts that a combination can take: the part's name and length.
pub fn available_part_label(part: &Part) -> (r: String)
    ensures
        r@ == part.name@ + " · "@ + counted(part.length as int, "beat"@, "beats"@),
{
    let mut text = part.name.as_str().to_owned();
    push_str(&mut text, " · ");
    let count = part_length_label(part.length);
    push_str(&mut text, count.as_str());
    text
}

/// A row of the arrangement list: the entry's number and its part's name.
pub fn arrangement_row_label(index: usize, part_name: &PartName) -> (r: String)
    requires
        index < usize::MAX,
    ensures
        r@ == decimal((index + 1) as nat) + ". "@ + part_name@,
{
    let mut text = String::new();
    push_decimal(&mut text, (index + 1) as u128);
    push_str(&mut text, ". ");
    push_str(&mut text, part_name.as_str());
    text
}

/// The part selected after `deleted` left the parts: the one now at its place, else the new
/// last one; none when it was not among the parts or none are left.
pub open spec fn selected_after_delete(old_parts: Seq<PartModel>, new_parts: Seq<PartModel>, deleted: Seq<char>) -> Option<Seq<char>> {
    match first_match(part_names(old_parts), deleted) {
        None => None,
        Some(i) => if new_parts.len() == 0 {
            None
        } else if i < new_parts.len() {
            Some(new_parts[i].name)
        } else {
            Some(new_parts[new_parts.len() - 1].name)
        },
    }
}

/// The part the parts workspace selects after deleting `deleted` from `old_parts`, leaving
/// `new_parts`.
pub fn selection_after_delete(old_parts: &Vec<Part>, new_parts: &Vec<Part>, deleted: &PartName) -> (r: Option<PartName>)
    ensures
        match selected_after_delete(parts_view(old_parts@), parts_view(new_parts@), deleted@) {
            Some(n) => r matches Some(x) && x@ == n,
            None => r is None,
        },
{
    let index = match find_part(old_parts, deleted) {
        Some(i) => i,
        None => {
            return None;
        },
    };
    let n = new_parts.len();
    if n == 0 {
        return None;
    }
    let at = if index < n {
        index
    } else {
        n - 1
    };
    assert(parts_view(new_parts@)[at as int] == new_parts@[at as int]@);
    Some(new_parts[at].name.clone())
}

/// The part selected after the project changed: the selected one while it still exists,
/// else the first part.
pub open spec fn selected_after_sync(parts: Seq<PartModel>, selected: Option<Seq<char>>) -> Option<Seq<char>> {
    let kept = match selected {
        Some(s) => first_match(part_names(parts), s) is Some,
        None => false,
    };
    if kept {
        selected
    } else if parts.len() > 0 {
        Some(parts[0].name)
    } else {
        None
    }
}

/// The part the parts workspace selects when the project's parts change to `parts`.
pub fn selection_after_sync(parts: &Vec<Part>, selected: Option<PartName>) -> (r: Option<PartName>)
    ensures
        selected_after_sync(
            parts_view(parts@),
            match selected {
                Some(s) => Some(s@),
                None => None,
            },
        ) == match r {
            Some(x) => Some(x@),
            None => None,
        },
{
    let kept = match &selected {
        Some(s) => find_part(parts, s).is_some(),
        None => false,
    };
    if kept {
        selected
    } else if parts.len() > 0 {
        assert(parts_view(parts@)[0] == parts@[0]@);
        Some(parts[0].name.clone())
    } else {
        None
    }
}

} // verus!
