//! The arrangement as the player hears it: which part a beat falls in, how a loop of
//! beats is described, and how long the whole arrangement lasts.
use vstd::prelude::*;

use crate::arrangement::SelectedRange;
use crate::part::PartName;
use crate::text::{
    decimal, decimal2, eq_ignore_ascii_case, push_char, push_decimal, push_decimal2, push_str,
};

verus! {

/// What identifies an occurrence of a part while the arrangement around it changes.
#[derive(Clone, Copy, Debug, PartialEq, Eq, Structural)]
pub struct OccurrenceId(pub u64);

/// One appearance of a part in the arrangement: its identity, its place in the sequence,
/// the part, and the beats it covers, counted from one.
#[derive(Debug)]
pub struct ArrangementOccurrence {
    pub id: OccurrenceId,
    pub index: usize,
    pub part_name: PartName,
    pub first_beat: u64,
    pub last_beat: u64,
}

pub struct OccurrenceModel {
    pub id: OccurrenceId,
    pub index: usize,
    pub part_name: Seq<char>,
    pub first_beat: u64,
    pub last_beat: u64,
}

impl View for ArrangementOccurrence {
    type V = OccurrenceModel;

    open spec fn view(&self) -> OccurrenceModel {
        OccurrenceModel {
            id: self.id,
            index: self.index,
            part_name: self.part_name@,
            first_beat: self.first_beat,
            last_beat: self.last_beat,
        }
    }
}

pub open spec fn occurrences_view(v: Seq<ArrangementOccurrence>) -> Seq<OccurrenceModel> {
    v.map_values(|o: ArrangementOccurrence| o@)
}

/// A loop over beats `first` to `last` of the arrangement, counted from one.
#[derive(Clone, Copy, Debug, PartialEq, Eq, Structural)]
pub struct BeatRange {
    first: u64,
    last: u64,
}

impl BeatRange {
    pub closed spec fn first_spec(self) -> u64 {
        self.first
    }

    pub closed spec fn last_spec(self) -> u64 {
        self.last
    }

    /// Beats `first` to `last` of an arrangement of `beat_count` beats, when they lie in it.
    pub fn new(first: u64, last: u64, beat_count: u64) -> (r: Option<Self>)
        ensures
            1 <= first <= last <= beat_count ==> (r matches Some(b) && b.first_spec() == first
                && b.last_spec() == last),
            !(1 <= first <= last <= beat_count) ==> r is None,
    {
        if 1 <= first && first <= last && last <= beat_count {
            Some(BeatRange { first, last })
        } else {
            None
        }
    }

    pub fn first(self) -> (r: u64)
        ensures
            r == self.first_spec(),
            1 <= r <= self.last_spec(),
    {
        proof {
            use_type_invariant(self);
        }
        self.first
    }

    pub fn last(self) -> (r: u64)
        ensures
            r == self.last_spec(),
    {
        self.last
    }

    #[verifier::type_invariant]
    spec fn ordered(self) -> bool {
        1 <= self.first <= self.last
    }
}

/// The place of the first occurrence that satisfies `p`.
pub open spec fn first_where(occ: Seq<OccurrenceModel>, p: spec_fn(OccurrenceModel) -> bool) -> Option<int>
    decreases occ.len(),
{
    if occ.len() == 0 {
        None
    } else {
        match first_where(occ.drop_last(), p) {
            Some(i) => Some(i),
            None => if p(occ.last()) {
                Some(occ.len() - 1)
            } else {
                None
            },
        }
    }
}

/// Occurrences that start at `beat`.
pub open spec fn starts_at(beat: u64) -> spec_fn(OccurrenceModel) -> bool {
    |o: OccurrenceModel| o.first_beat == beat
}

/// Occurrences that end at `beat`.
pub open spec fn ends_at(beat: u64) -> spec_fn(OccurrenceModel) -> bool {
    |o: OccurrenceModel| o.last_beat == beat
}

/// Occurrences that cover `beat`.
pub open spec fn covers(beat: u64) -> spec_fn(OccurrenceModel) -> bool {
    |o: OccurrenceModel| o.first_beat <= beat <= o.last_beat
}

/// A match in a prefix is the first match of every longer prefix.
proof fn lemma_first_where_stays(occ: Seq<OccurrenceModel>, p: spec_fn(OccurrenceModel) -> bool, k: int, m: int)
    requires
        0 <= k <= m <= occ.len(),
        first_where(occ.take(k), p) is Some,
    ensures
        first_where(occ.take(m), p) == first_where(occ.take(k), p),
    decreases m - k,
{
    if k < m {
        assert(occ.take(k + 1).drop_last() =~= occ.take(k));
        lemma_first_where_stays(occ, p, k + 1, m);
    }
}

/// A first match is a match, with none before it.
proof fn lemma_first_where_found(occ: Seq<OccurrenceModel>, p: spec_fn(OccurrenceModel) -> bool)
    ensures
        first_where(occ, p) matches Some(i) ==> 0 <= i < occ.len() && p(occ[i]),
    decreases occ.len(),
{
    if occ.len() > 0 {
        lemma_first_where_found(occ.drop_last(), p);
    }
}

/// Finds the first occurrence that starts at `beat` (when `start`) or ends at it; `p` names
/// the test for the contract.
fn position_where(
    occurrences: &Vec<ArrangementOccurrence>,
    p: Ghost<spec_fn(OccurrenceModel) -> bool>,
    start: bool,
    beat: u64,
) -> (r: Option<usize>)
    requires
        p@ == if start { starts_at(beat) } else { ends_at(beat) },
    ensures
        r matches Some(j) ==> first_where(occurrences_view(occurrences@), p@) == Some(j as int),
        r is None ==> first_where(occurrences_view(occurrences@), p@) is None,
{
    let ghost occ = occurrences_view(occurrences@);
    let n = occurrences.len();
    assert(occ.take(0) =~= Seq::<OccurrenceModel>::empty());
    for i in 0..n
        invariant
            n == occurrences@.len(),
            occ == occurrences_view(occurrences@),
            p@ == if start { starts_at(beat) } else { ends_at(beat) },
            first_where(occ.take(i as int), p@) is None,
    {
        assert(occ.take(i + 1).drop_last() =~= occ.take(i as int));
        assert(occ.take(i + 1).last() == occurrences@[i as int]@);
        let o = &occurrences[i];
        let hit = if start {
            o.first_beat == beat
        } else {
            o.last_beat == beat
        };
        if hit {
            proof {
                lemma_first_where_stays(occ, p@, i + 1, n as int);
                assert(occ.take(n as int) =~= occ);
            }
            return Some(i);
        }
    }
    assert(occ.take(n as int) =~= occ);
    None
}

/// How the loop control describes a loop: everything, one occurrence, a run of whole
/// occurrences, or a span of beats; with no loop, an invitation to set one.
pub open spec fn loop_summary(occ: Seq<OccurrenceModel>, beat_count: u64, range: Option<BeatRange>) -> Seq<char> {
    match range {
        None => "set loop"@,
        Some(r) => if r.first_spec() == 1 && r.last_spec() == beat_count {
            "loop all"@
        } else {
            let f = first_where(occ, starts_at(r.first_spec()));
            let l = first_where(occ, ends_at(r.last_spec()));
            if f is Some && l is Some && f->0 == l->0 {
                "loop "@ + decimal((occ[f->0].index + 1) as nat) + ". "@ + occ[f->0].part_name
            } else if f is Some && l is Some && f->0 < l->0 {
                "loop parts "@ + decimal((occ[f->0].index + 1) as nat) + seq!['\u{2013}'] + decimal(
                    (occ[l->0].index + 1) as nat,
                )
            } else {
                "loop beats "@ + decimal(r.first_spec() as nat) + seq!['\u{2013}'] + decimal(
                    r.last_spec() as nat,
                )
            }
        },
    }
}

/// Describes the playback loop of an arrangement of `beat_count` beats whose part
/// occurrences are `occurrences`.
pub fn loop_range_summary(
    occurrences: &Vec<ArrangementOccurrence>,
    beat_count: u64,
    range: Option<BeatRange>,
) -> (r: String)
    requires
        forall|i: int| 0 <= i < occurrences@.len() ==> (#[trigger] occurrences@[i]).index < usize::MAX,
    ensures
        r@ == loop_summary(occurrences_view(occurrences@), beat_count, range),
{
    let ghost occ = occurrences_view(occurrences@);
    let range = match range {
        None => {
            return "set loop".to_owned();
        },
        Some(range) => range,
    };
    let first_beat = range.first();
    let last_beat = range.last();
    if first_beat == 1 && last_beat == beat_count {
        return "loop all".to_owned();
    }
    let first = position_where(occurrences, Ghost(starts_at(first_beat)), true, first_beat);
    let last = position_where(occurrences, Ghost(ends_at(last_beat)), false, last_beat);
    proof {
        lemma_first_where_found(occ, starts_at(first_beat));
        lemma_first_where_found(occ, ends_at(last_beat));
    }
    let ghost want = loop_summary(occ, beat_count, Some(range));
    let mut text = String::new();
    if first.is_some() && last.is_some() && first.unwrap() <= last.unwrap() {
        let f = first.unwrap();
        let l = last.unwrap();
        assert(occurrences@[f as int]@ == occ[f as int]);
        assert(occurrences@[l as int]@ == occ[l as int]);
        if f == l {
            push_str(&mut text, "loop ");
            push_decimal(&mut text, (occurrences[f].index + 1) as u128);
            push_str(&mut text, ". ");
            push_str(&mut text, occurrences[f].part_name.as_str());
        } else {
            push_str(&mut text, "loop parts ");
            push_decimal(&mut text, (occurrences[f].index + 1) as u128);
            push_char(&mut text, '\u{2013}');
            push_decimal(&mut text, (occurrences[l].index + 1) as u128);
        }
    } else {
        push_str(&mut text, "loop beats ");
        push_decimal(&mut text, first_beat as u128);
        push_char(&mut text, '\u{2013}');
        push_decimal(&mut text, last_beat as u128);
    }
    assert(text@ =~= want);
    text
}

/// The loop after the arrangement changed from `previous_count` beats to `count`: none for
/// an empty arrangement; all of it when the loop covered all of the old one, or there was
/// no loop; else the old loop cut to the new length.
pub open spec fn reconciled(range: Option<BeatRange>, previous_count: u64, count: u64) -> Option<(u64, u64)> {
    let followed_entire = match range {
        None => true,
        Some(r) => previous_count == 0 || (r.first_spec() == 1 && r.last_spec() == previous_count),
    };
    if count == 0 {
        None
    } else if followed_entire {
        Some((1, count))
    } else {
        let r = range->0;
        let first = if r.first_spec() < count { r.first_spec() } else { count };
        let raised = if r.last_spec() < first { first } else { r.last_spec() };
        let last = if raised < count { raised } else { count };
        Some((first, last))
    }
}

/// Keeps the playback loop inside an arrangement whose length changed from
/// `previous_count` beats to `count`.
pub fn reconcile_loop_range(range: Option<BeatRange>, previous_count: u64, count: u64) -> (r: Option<BeatRange>)
    ensures
        match reconciled(range, previous_count, count) {
            Some((first, last)) => r matches Some(b) && b.first_spec() == first && b.last_spec() == last,
            None => r is None,
        },
        r matches Some(b) ==> 1 <= b.first_spec() <= b.last_spec() <= count,
        r is None <==> count == 0,
{
    let followed_entire = match range {
        None => true,
        Some(r) => previous_count == 0 || (r.first() == 1 && r.last() == previous_count),
    };
    if count == 0 {
        None
    } else if followed_entire {
        BeatRange::new(1, count, count)
    } else {
        match range {
            Some(r) => {
                let first = if r.first() < count { r.first() } else { count };
                let raised = if r.last() < first { first } else { r.last() };
                let last = if raised < count { raised } else { count };
                BeatRange::new(first, last, count)
            },
            None => None,
        }
    }
}

/// The length of the arrangement, rounded to whole seconds, as minutes and two-digit seconds.
pub open spec fn duration_text(beat_count: u64, beat_duration_millis: u32) -> Seq<char> {
    let seconds = (beat_count * beat_duration_millis + 500) / 1000;
    decimal((seconds / 60) as nat) + seq![':'] + decimal2((seconds % 60) as nat)
}

/// How long an arrangement of `beat_count` beats plays, `m:ss`.
pub fn arrangement_duration_summary(beat_count: u64, beat_duration_millis: u32) -> (r: String)
    ensures
        r@ == duration_text(beat_count, beat_duration_millis),
{
    assert(beat_count * beat_duration_millis <= u64::MAX * u32::MAX) by (nonlinear_arith);
    let duration_millis = (beat_count as u128) * (beat_duration_millis as u128);
    let rounded_seconds = (duration_millis + 500) / 1000;
    let minutes = rounded_seconds / 60;
    let seconds = rounded_seconds % 60;
    let mut text = String::new();
    push_decimal(&mut text, minutes);
    push_char(&mut text, ':');
    push_decimal2(&mut text, seconds);
    assert(text@ =~= duration_text(beat_count, beat_duration_millis));
    text
}

/// Where a beat of the arrangement is playing: which occurrence, of which part, at which
/// row of its score.
#[derive(Debug)]
pub struct PlayingArrangementPosition {
    pub occurrence: usize,
    pub part_name: PartName,
    pub row: usize,
}

pub struct PositionModel {
    pub occurrence: usize,
    pub part_name: Seq<char>,
    pub row: usize,
}

impl View for PlayingArrangementPosition {
    type V = PositionModel;

    open spec fn view(&self) -> PositionModel {
        PositionModel { occurrence: self.occurrence, part_name: self.part_name@, row: self.row }
    }
}

/// The first occurrence that covers `beat`, and the row of its part at that beat.
pub open spec fn playing_position(occ: Seq<OccurrenceModel>, beat: u64) -> Option<PositionModel> {
    match first_where(occ, covers(beat)) {
        None => None,
        Some(i) => Some(
            PositionModel {
                occurrence: i as usize,
                part_name: occ[i].part_name,
                row: (beat - occ[i].first_beat) as usize,
            },
        ),
    }
}

/// Where beat `arrangement_beat` of the arrangement plays, if an occurrence covers it.
pub fn playing_arrangement_position(occurrences: &Vec<ArrangementOccurrence>, arrangement_beat: u64) -> (r: Option<
    PlayingArrangementPosition,
>)
    ensures
        match playing_position(occurrences_view(occurrences@), arrangement_beat) {
            None => r is None,
            Some(p) => r matches Some(x) && x@ == p,
        },
{
    let ghost occ = occurrences_view(occurrences@);
    let ghost p = covers(arrangement_beat);
    let n = occurrences.len();
    assert(occ.take(0) =~= Seq::<OccurrenceModel>::empty());
    for i in 0..n
        invariant
            n == occurrences@.len(),
            occ == occurrences_view(occurrences@),
            p == covers(arrangement_beat),
            first_where(occ.take(i as int), p) is None,
    {
        assert(occ.take(i + 1).drop_last() =~= occ.take(i as int));
        assert(occ.take(i + 1).last() == occurrences@[i as int]@);
        let o = &occurrences[i];
        if o.first_beat <= arrangement_beat && arrangement_beat <= o.last_beat {
            proof {
                lemma_first_where_stays(occ, p, i + 1, n as int);
                assert(occ.take(n as int) =~= occ);
            }
            return Some(
                PlayingArrangementPosition {
                    occurrence: i,
                    part_name: o.part_name.clone(),
                    row: (arrangement_beat - o.first_beat) as usize,
                },
            );
        }
    }
    assert(occ.take(n as int) =~= occ);
    None
}

/// What the player asked to loop: the whole arrangement, or the run of occurrences
/// from the first to the last of those chosen, wherever they now stand.
#[derive(Debug)]
pub enum LoopSelection {
    EntireArrangement,
    Occurrences(Vec<OccurrenceId>),
}

/// The occurrences a selection chose, or none for the whole arrangement.
pub open spec fn chosen_ids(selection: LoopSelection) -> Option<Seq<OccurrenceId>> {
    match selection {
        LoopSelection::EntireArrangement => None,
        LoopSelection::Occurrences(ids) => Some(ids@),
    }
}

impl Clone for LoopSelection {
    fn clone(&self) -> (r: Self)
        ensures
            chosen_ids(r) == chosen_ids(*self),
    {
        match self {
            LoopSelection::EntireArrangement => LoopSelection::EntireArrangement,
            LoopSelection::Occurrences(ids) => {
                let mut copy: Vec<OccurrenceId> = Vec::new();
                for i in 0..ids.len()
                    invariant
                        copy@ == ids@.take(i as int),
                {
                    copy.push(ids[i]);
                    assert(ids@.take(i + 1) =~= ids@.take(i as int).push(ids@[i as int]));
                }
                assert(ids@.take(ids@.len() as int) =~= ids@);
                LoopSelection::Occurrences(copy)
            },
        }
    }
}

/// The place of the last occurrence that satisfies `p`.
pub open spec fn last_where(occ: Seq<OccurrenceModel>, p: spec_fn(OccurrenceModel) -> bool) -> Option<int>
    decreases occ.len(),
{
    if occ.len() == 0 {
        None
    } else if p(occ.last()) {
        Some(occ.len() - 1)
    } else {
        last_where(occ.drop_last(), p)
    }
}

/// Occurrences whose identity is among `ids`.
pub open spec fn chosen(ids: Seq<OccurrenceId>) -> spec_fn(OccurrenceModel) -> bool {
    |o: OccurrenceModel| ids.contains(o.id)
}

/// The beats from `first` to `last`, when they make a loop of an arrangement of `total` beats.
pub open spec fn beat_range_of(first: u64, last: u64, total: u64) -> Option<(u64, u64)> {
    if 1 <= first <= last <= total {
        Some((first, last))
    } else {
        None
    }
}

/// The beats a selection loops over in the arrangement `occ`: none in an empty arrangement;
/// else all of it, or from the start of the first chosen occurrence to the end of the last.
pub open spec fn resolved(selection: LoopSelection, occ: Seq<OccurrenceModel>) -> Option<(u64, u64)> {
    if occ.len() == 0 {
        None
    } else {
        let total = occ.last().last_beat;
        match selection {
            LoopSelection::EntireArrangement => beat_range_of(1, total, total),
            LoopSelection::Occurrences(ids) => match (first_where(occ, chosen(ids@)), last_where(occ, chosen(ids@))) {
                (Some(f), Some(l)) => beat_range_of(occ[f].first_beat, occ[l].last_beat, total),
                _ => None,
            },
        }
    }
}

/// A last match is a match.
proof fn lemma_last_where_found(occ: Seq<OccurrenceModel>, p: spec_fn(OccurrenceModel) -> bool)
    ensures
        last_where(occ, p) matches Some(i) ==> 0 <= i < occ.len() && p(occ[i]),
        last_where(occ, p) is None ==> first_where(occ, p) is None,
        first_where(occ, p) is None ==> last_where(occ, p) is None,
    decreases occ.len(),
{
    if occ.len() > 0 {
        lemma_last_where_found(occ.drop_last(), p);
    }
}

/// Whether `id` is among `ids`.
fn contains_id(ids: &Vec<OccurrenceId>, id: OccurrenceId) -> (r: bool)
    ensures
        r == ids@.contains(id),
{
    let n = ids.len();
    for i in 0..n
        invariant
            n == ids@.len(),
            forall|j: int| 0 <= j < i ==> ids@[j] != id,
    {
        if ids[i] == id {
            assert(ids@[i as int] == id);
            return true;
        }
    }
    false
}

/// The places of the first and the last occurrence chosen by `ids`.
fn chosen_positions(occurrences: &Vec<ArrangementOccurrence>, ids: &Vec<OccurrenceId>) -> (r: Option<(usize, usize)>)
    ensures
        match (first_where(occurrences_view(occurrences@), chosen(ids@)), last_where(occurrences_view(occurrences@), chosen(ids@))) {
            (Some(f), Some(l)) => r == Some((f as usize, l as usize)),
            _ => r is None,
        },
{
    let ghost occ = occurrences_view(occurrences@);
    let ghost p = chosen(ids@);
    let n = occurrences.len();
    let mut first: Option<usize> = None;
    let mut last: usize = 0;
    assert(occ.take(0) =~= Seq::<OccurrenceModel>::empty());
    for i in 0..n
        invariant
            n == occurrences@.len(),
            occ == occurrences_view(occurrences@),
            p == chosen(ids@),
            match first_where(occ.take(i as int), p) {
                Some(f) => first == Some(f as usize) && last_where(occ.take(i as int), p) == Some(last as int),
                None => first is None && last_where(occ.take(i as int), p) is None,
            },
    {
        let ghost pre = occ.take(i as int);
        assert(occ.take(i + 1).drop_last() =~= pre);
        assert(occ.take(i + 1).last() == occurrences@[i as int]@);
        proof {
            lemma_first_where_found(pre, p);
            lemma_last_where_found(pre, p);
        }
        if contains_id(ids, occurrences[i].id) {
            if first.is_none() {
                first = Some(i);
            }
            last = i;
        }
    }
    assert(occ.take(n as int) =~= occ);
    match first {
        Some(f) => Some((f, last)),
        None => None,
    }
}

impl LoopSelection {
    /// The beats this selection loops over in the arrangement `occurrences`.
    pub fn resolve(&self, occurrences: &Vec<ArrangementOccurrence>) -> (r: Option<BeatRange>)
        ensures
            match resolved(*self, occurrences_view(occurrences@)) {
                Some((first, last)) => r matches Some(b) && b.first_spec() == first && b.last_spec() == last,
                None => r is None,
            },
    {
        let ghost occ = occurrences_view(occurrences@);
        let n = occurrences.len();
        if n == 0 {
            return None;
        }
        let total = occurrences[n - 1].last_beat;
        assert(occurrences@[n - 1]@ == occ.last());
        match self {
            LoopSelection::EntireArrangement => BeatRange::new(1, total, total),
            LoopSelection::Occurrences(ids) => match chosen_positions(occurrences, ids) {
                Some((f, l)) => {
                    proof {
                        lemma_first_where_found(occ, chosen(ids@));
                        lemma_last_where_found(occ, chosen(ids@));
                    }
                    assert(occurrences@[f as int]@ == occ[f as int]);
                    assert(occurrences@[l as int]@ == occ[l as int]);
                    BeatRange::new(occurrences[f].first_beat, occurrences[l].last_beat, total)
                },
                None => None,
            },
        }
    }
}

/// The rows of the loop list that a selection covers: all of them, or from the first to
/// the last chosen occurrence.
pub open spec fn selected_rows(selection: LoopSelection, occ: Seq<OccurrenceModel>) -> Option<(int, int)> {
    match selection {
        LoopSelection::EntireArrangement => if occ.len() == 0 {
            None
        } else {
            Some((0, occ.len() - 1))
        },
        LoopSelection::Occurrences(ids) => match (first_where(occ, chosen(ids@)), last_where(occ, chosen(ids@))) {
            (Some(f), Some(l)) => if f <= l {
                Some((f, l))
            } else {
                None
            },
            _ => None,
        },
    }
}

/// The range of the loop list that shows a selection.
pub fn selected_occurrence_range(occurrences: &Vec<ArrangementOccurrence>, selection: &LoopSelection) -> (r: Option<SelectedRange>)
    ensures
        match selected_rows(*selection, occurrences_view(occurrences@)) {
            Some((f, l)) => r matches Some(s) && s.first_spec() == f && s.last_spec() == l,
            None => r is None,
        },
{
    let n = occurrences.len();
    match selection {
        LoopSelection::EntireArrangement => SelectedRange::new(0, if n == 0 { 0 } else { n - 1 }, n),
        LoopSelection::Occurrences(ids) => match chosen_positions(occurrences, ids) {
            Some((f, l)) => {
                proof {
                    lemma_first_where_found(occurrences_view(occurrences@), chosen(ids@));
                    lemma_last_where_found(occurrences_view(occurrences@), chosen(ids@));
                }
                SelectedRange::new(f, l, n)
            },
            None => None,
        },
    }
}

/// A row of the arrangement list of the loop and score workspaces: the occurrence's number
/// and part, and an arrow when it plays the part being edited.
#[derive(Debug)]
pub struct OccurrenceRow {
    pub label: String,
    pub indicator: &'static str,
}

/// The label of an occurrence's row.
pub open spec fn occurrence_label(o: OccurrenceModel) -> Seq<char> {
    decimal((o.index + 1) as nat) + ". "@ + o.part_name
}

/// The occurrence plays the active part.
pub open spec fn is_active(o: OccurrenceModel, active: Option<Seq<char>>) -> bool {
    match active {
        Some(a) => eq_ignore_ascii_case(o.part_name, a),
        None => false,
    }
}

/// The rows of the arrangement list, with every occurrence of `active_part` marked.
pub fn occurrence_rows(occurrences: &Vec<ArrangementOccurrence>, active_part: &Option<PartName>) -> (r: Vec<
    OccurrenceRow,
>)
    requires
        forall|i: int| 0 <= i < occurrences@.len() ==> (#[trigger] occurrences@[i]).index < usize::MAX,
    ensures
        r@.len() == occurrences@.len(),
        forall|i: int|
            0 <= i < occurrences@.len() ==> {
                let o = occurrences@[i]@;
                let active = match active_part {
                    Some(a) => Some(a@),
                    None => None,
                };
                &&& (#[trigger] r@[i]).label@ == occurrence_label(o)
                &&& r@[i].indicator@ == if is_active(o, active) {
                    "\u{2192}"@
                } else {
                    ""@
                }
            },
{
    let mut rows: Vec<OccurrenceRow> = Vec::new();
    let n = occurrences.len();
    for i in 0..n
        invariant
            n == occurrences@.len(),
            forall|j: int| 0 <= j < occurrences@.len() ==> (#[trigger] occurrences@[j]).index < usize::MAX,
            rows@.len() == i,
            forall|j: int|
                0 <= j < i ==> {
                    let o = occurrences@[j]@;
                    let active = match active_part {
                        Some(a) => Some(a@),
                        None => None,
                    };
                    &&& (#[trigger] rows@[j]).label@ == occurrence_label(o)
                    &&& rows@[j].indicator@ == if is_active(o, active) {
                        "\u{2192}"@
                    } else {
                        ""@
                    }
                },
    {
        let o = &occurrences[i];
        let mut label = String::new();
        push_decimal(&mut label, (o.index + 1) as u128);
        push_str(&mut label, ". ");
        push_str(&mut label, o.part_name.as_str());
        let active = match active_part {
            Some(a) => o.part_name.eq_ignore_ascii_case(a),
            None => false,
        };
        let indicator = if active {
            "\u{2192}"
        } else {
            ""
        };
        rows.push(OccurrenceRow { label, indicator });
    }
    rows
}

/// The actions of the score arrangement's context menu: open the occurrence's part in each
/// panel, then remove the occurrence; none outside the score workspace.
pub open spec fn context_labels(panel_count: usize, enabled: bool) -> Seq<Seq<char>> {
    if enabled {
        Seq::new(panel_count as nat, |i: int| "open in panel "@ + decimal((i + 1) as nat)).push(
            "remove from arrangement"@,
        )
    } else {
        Seq::empty()
    }
}

/// The labels of the score arrangement's context menu, with `panel_count` score panels.
pub fn score_arrangement_context_labels(panel_count: usize, enabled: bool) -> (r: Vec<String>)
    requires
        panel_count < usize::MAX,
    ensures
        r@.map_values(|l: String| l@) == context_labels(panel_count, enabled),
{
    let mut labels: Vec<String> = Vec::new();
    if !enabled {
        assert(labels@.map_values(|l: String| l@) =~= context_labels(panel_count, enabled));
        return labels;
    }
    for i in 0..panel_count
        invariant
            panel_count < usize::MAX,
            labels@.len() == i,
            forall|j: int| 0 <= j < i ==> (#[trigger] labels@[j])@ == "open in panel "@ + decimal((j + 1) as nat),
    {
        let mut label = "open in panel ".to_owned();
        push_decimal(&mut label, (i + 1) as u128);
        labels.push(label);
    }
    labels.push("remove from arrangement".to_owned());
    assert(labels@.map_values(|l: String| l@) =~= context_labels(panel_count, enabled));
    labels
}

} // verus!
