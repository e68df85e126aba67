//! What undo and redo give back of what was recorded.
use vstd::prelude::*;

use crate::history::{
    ChangeModel, CheckModel, EntryModel, Fault, Grid, HistoryModel, MAX_CHANGES, StateModel,
    applied_backward, applied_forward, change_target, changed_entries, changed_project,
    edited_grid, entry_changed, entry_index, entry_names, history_wf, merges_with_last,
    picked_entry, project_change, pushed_undo, rebuilt_entries, recorded_cell, recorded_project,
    recorded_rows, redone, saved_after, undone, with_content, ContentModel, change_extent,
    schema_changed, unique_names, with_unique_name,
};
use crate::project::{ProjectModel, part_names};
use crate::part::PartModel;
use crate::score::{EditModel, reversed_edit};
use crate::text::{
    eq_ignore_ascii_case, lemma_eq_ignore_ascii_case_refl, lemma_eq_ignore_ascii_case_symmetric,
    lemma_eq_ignore_ascii_case_transitive, lemma_first_match, lemma_first_match_found,
};

verus! {

/// A state whose entries follow its project's parts one by one, under the parts' names,
/// and whose part names differ from each other without regard to ASCII case.
pub open spec fn state_wf(s: StateModel) -> bool {
    &&& s.scores.len() == s.project.parts.len()
    &&& forall|i: int| 0 <= i < s.scores.len() ==> (#[trigger] s.scores[i]).name == s.project.parts[i].name
    &&& forall|i: int, j: int|
        0 <= i < s.scores.len() && 0 <= j < s.scores.len() && i != j ==> !eq_ignore_ascii_case(
            #[trigger] s.scores[i].name,
            #[trigger] s.scores[j].name,
        )
}

/// Every entry kept by `changed_entries` is an entry of the source.
proof fn lemma_changed_entries_sound(x: Seq<EntryModel>, y: Seq<EntryModel>, k: int)
    requires
        0 <= k < changed_entries(x, y).len(),
    ensures
        exists|j: int| 0 <= j < x.len() && changed_entries(x, y)[k] == #[trigger] x[j],
    decreases x.len(),
{
    let p = x.drop_last();
    let cp = changed_entries(p, y);
    if k < cp.len() {
        lemma_changed_entries_sound(p, y, k);
        let j = choose|j: int| 0 <= j < p.len() && cp[k] == #[trigger] p[j];
        assert(x[j] == p[j]);
    } else {
        assert(changed_entries(x, y)[k] == x[x.len() - 1]);
    }
}

/// Every entry of the source that changed is kept by `changed_entries`.
proof fn lemma_changed_entries_complete(x: Seq<EntryModel>, y: Seq<EntryModel>, j: int)
    requires
        0 <= j < x.len(),
        entry_changed(y, x[j]),
    ensures
        exists|k: int| 0 <= k < changed_entries(x, y).len() && #[trigger] changed_entries(x, y)[k] == x[j],
    decreases x.len(),
{
    let p = x.drop_last();
    let c = changed_entries(x, y);
    let cp = changed_entries(p, y);
    if j < p.len() {
        assert(x[j] == p[j]);
        lemma_changed_entries_complete(p, y, j);
        let k = choose|k: int| 0 <= k < cp.len() && #[trigger] cp[k] == p[j];
        assert(c[k] == cp[k]);
    } else {
        assert(c[c.len() - 1] == x[j]);
    }
}

/// Under `state_wf`, the entry of `x` at `i` is the only one whose name matches its name.
proof fn lemma_unique_entry(x: StateModel, i: int, j: int)
    requires
        state_wf(x),
        0 <= i < x.scores.len(),
        0 <= j < x.scores.len(),
        eq_ignore_ascii_case(x.scores[j].name, x.scores[i].name),
    ensures
        i == j,
{
    if i != j {
        assert(!eq_ignore_ascii_case(x.scores[j].name, x.scores[i].name));
    }
}

/// The entry picked for the part at `i` carries the content of the entry of `x` at `i`.
proof fn lemma_picked_restores(x: StateModel, y: Seq<EntryModel>, i: int)
    requires
        state_wf(x),
        0 <= i < x.scores.len(),
    ensures
        picked_entry(changed_entries(x.scores, y), y, x.scores[i].name) matches Some(e) && e.content
            == x.scores[i].content,
{
    let c = changed_entries(x.scores, y);
    let name = x.scores[i].name;
    lemma_first_match_found(entry_names(c), name);
    lemma_eq_ignore_ascii_case_refl(name);
    if entry_index(c, name) is Some {
        let k = entry_index(c, name)->0;
        assert(entry_names(c)[k] == c[k].name);
        lemma_changed_entries_sound(x.scores, y, k);
        let j = choose|j: int| 0 <= j < x.scores.len() && c[k] == #[trigger] x.scores[j];
        lemma_unique_entry(x, i, j);
    } else {
        if entry_changed(y, x.scores[i]) {
            lemma_changed_entries_complete(x.scores, y, i);
            let k = choose|k: int| 0 <= k < c.len() && #[trigger] c[k] == x.scores[i];
            assert(entry_names(c)[k] == name);
            assert(false);
        }
        lemma_first_match_found(entry_names(y), name);
    }
}

/// Rebuilding the entries of a well-formed state `x` for its own parts, from the entries
/// of `x` that differ from `y` and from `y` itself, gives back the entries of `x`.
proof fn lemma_rebuilt_restores(x: StateModel, y: Seq<EntryModel>, m: int)
    requires
        state_wf(x),
        0 <= m <= x.scores.len(),
    ensures
        rebuilt_entries(x.project.parts.take(m), changed_entries(x.scores, y), y) == Ok::<
            Seq<EntryModel>,
            Fault,
        >(x.scores.take(m)),
    decreases m,
{
    let parts = x.project.parts;
    if m == 0 {
        assert(parts.take(0) =~= Seq::<PartModel>::empty());
        assert(x.scores.take(0) =~= Seq::<EntryModel>::empty());
    } else {
        let i = m - 1;
        lemma_rebuilt_restores(x, y, i);
        lemma_picked_restores(x, y, i);
        assert(parts.take(m).drop_last() =~= parts.take(i));
        assert(parts.take(m).last() == parts[i]);
        assert(x.scores[i].name == parts[i].name);
        assert(x.scores.take(m) =~= x.scores.take(i).push(
            EntryModel { name: parts.take(m).last().name, content: x.scores[i].content },
        ));
    }
}

/// Moving a state `y` on project `y_project` back to a well-formed state `x`, from the
/// entries of `x` that differ from `y`, gives `x` back.
pub proof fn lemma_project_change_restores(x: StateModel, y: StateModel)
    requires
        state_wf(x),
    ensures
        changed_project(y, y.project, x.project, changed_entries(x.scores, y.scores)) == Ok::<
            StateModel,
            Fault,
        >(x),
{
    lemma_rebuilt_restores(x, y.scores, x.scores.len() as int);
    assert(x.project.parts.take(x.scores.len() as int) =~= x.project.parts);
    assert(x.scores.take(x.scores.len() as int) =~= x.scores);
}

proof fn lemma_pushed_undo_last(undo: Seq<ChangeModel>, c: ChangeModel)
    ensures
        pushed_undo(undo, c).len() > 0,
        pushed_undo(undo, c).last() == c,
        pushed_undo(undo, c).len() <= undo.len() + 1,
{
}

/// Undoing a recorded project change gives back the state before it, and redoing it then
/// gives back the state after it, when both states are well formed.
pub proof fn law_undo_redo_project_change(h: HistoryModel, after: StateModel)
    requires
        state_wf(h.current),
        state_wf(after),
        recorded_project(h, after).1,
    ensures
        ({
            let h2 = recorded_project(h, after).0;
            &&& h2.undo.len() > 0
            &&& change_target(h2.undo.last(), h2.current, false) matches Ok(t) && t.state == h.current
            &&& change_target(h2.undo.last(), h.current, true) matches Ok(t) && t.state == after
        }),
{
    lemma_pushed_undo_last(h.undo, project_change(h.current, after));
    lemma_project_change_restores(h.current, after);
    lemma_project_change_restores(after, h.current);
}

/// Undoing a recorded rows change gives back the state before it, and redoing it then gives
/// back the state after it.
pub proof fn law_undo_redo_rows(h: HistoryModel, name: Seq<char>, score: Grid, v: CheckModel)
    requires
        recorded_rows(h, name, score, v).1 == Ok::<bool, Fault>(true),
    ensures
        ({
            let h2 = recorded_rows(h, name, score, v).0;
            &&& h2.undo.len() > 0
            &&& change_target(h2.undo.last(), h2.current, false) matches Ok(t) && t.state == h.current
            &&& change_target(h2.undo.last(), h.current, true) matches Ok(t) && t.state == h2.current
        }),
{
    let i = entry_index(h.current.scores, name)->0;
    let saved = saved_after(h, name, score, v)->Ok_0;
    let before = h.current.scores[i].content;
    let after = ContentModel { score, saved };
    let h2 = recorded_rows(h, name, score, v).0;
    lemma_pushed_undo_last(h.undo, ChangeModel::ScoreRows { name, before, after });
    lemma_first_match_found(entry_names(h.current.scores), name);
    assert(entry_names(h2.current.scores) =~= entry_names(h.current.scores));
    assert(with_content(h2.current, i, before).scores =~= h.current.scores);
}

/// A cell edit recorded as a change of its own is undone back to the state before it, and
/// redone to the state after it.
pub proof fn law_undo_redo_cell(h: HistoryModel, name: Seq<char>, e: EditModel, v: CheckModel)
    requires
        recorded_cell(h, name, e, v).1 == Ok::<bool, Fault>(true),
        !merges_with_last(h, name, e),
    ensures
        ({
            let h2 = recorded_cell(h, name, e, v).0;
            &&& h2.undo.len() > 0
            &&& change_target(h2.undo.last(), h2.current, false) matches Ok(t) && t.state == h.current
            &&& change_target(h2.undo.last(), h.current, true) matches Ok(t) && t.state == h2.current
        }),
{
    let i = entry_index(h.current.scores, name)->0;
    let old_score = h.current.scores[i].content.score;
    let score = edited_grid(old_score, name, e)->Ok_0;
    let saved = saved_after(h, name, score, v)->Ok_0;
    let before_saved = h.current.scores[i].content.saved;
    let h2 = recorded_cell(h, name, e, v).0;
    let c = ChangeModel::ScoreCell { name, edit: e, before_saved, after_saved: saved };
    lemma_pushed_undo_last(h.undo, c);
    lemma_first_match_found(entry_names(h.current.scores), name);
    assert(entry_names(h2.current.scores) =~= entry_names(h.current.scores));
    let r = reversed_edit(e);
    assert(score[e.row as int][e.column as int] == e.after);
    assert(score.update(e.row as int, score[e.row as int].update(e.column as int, r.after))
        =~= old_score) by {
        assert(score[e.row as int].update(e.column as int, r.after) =~= old_score[e.row as int]);
    }
    assert(with_content(
        h2.current,
        i,
        ContentModel { score: old_score, saved: before_saved },
    ).scores =~= h.current.scores);
}

/// `s` is a state that change `c` leads to: for a cell edit, the part's saved score is the
/// one that the change saves; for a rows change, any state; for a project change recorded
/// between two well-formed states, a state that redoing it leads to from some state.
pub open spec fn after_side(c: ChangeModel, s: StateModel) -> bool {
    match c {
        ChangeModel::ScoreCell { name, after_saved, .. } => match entry_index(s.scores, name) {
            Some(i) => s.scores[i].content.saved == after_saved,
            None => true,
        },
        ChangeModel::ScoreRows { .. } => true,
        ChangeModel::Project { .. } => exists|b: StateModel, a: StateModel, s0: StateModel|
            #![trigger project_change(b, a), applied_forward(c, s0)]
            state_wf(b) && state_wf(a) && c == project_change(b, a) && applied_forward(c, s0) == Ok::<
                StateModel,
                Fault,
            >(s),
    }
}

/// Replacing the content of entry `i` keeps the names of the entries.
proof fn lemma_with_content_names(s: StateModel, i: int, c: ContentModel)
    requires
        0 <= i < s.scores.len(),
    ensures
        entry_names(with_content(s, i, c).scores) == entry_names(s.scores),
{
    assert(entry_names(with_content(s, i, c).scores) =~= entry_names(s.scores));
}

/// Names that match each other without regard to ASCII case find the same entry.
proof fn lemma_entry_index_same(s: Seq<EntryModel>, m: Seq<char>, n: Seq<char>)
    requires
        eq_ignore_ascii_case(m, n),
    ensures
        entry_index(s, m) == entry_index(s, n),
{
    let names = entry_names(s);
    lemma_first_match_found(names, m);
    lemma_first_match_found(names, n);
    lemma_eq_ignore_ascii_case_symmetric(m, n);
    if entry_index(s, m) is Some {
        let i = entry_index(s, m)->0;
        lemma_eq_ignore_ascii_case_transitive(names[i], m, n);
        assert forall|j: int| 0 <= j < i implies !eq_ignore_ascii_case(#[trigger] names[j], n) by {
            if eq_ignore_ascii_case(names[j], n) {
                lemma_eq_ignore_ascii_case_transitive(names[j], n, m);
            }
        }
        lemma_first_match(names, n, i);
    } else if entry_index(s, n) is Some {
        let i = entry_index(s, n)->0;
        lemma_eq_ignore_ascii_case_transitive(names[i], n, m);
    }
}

/// Undoing a change from a state that it leads to, and then redoing it, gives that state
/// back; both steps report the same project change and the same affected parts.
pub proof fn law_undo_then_redo(c: ChangeModel, s: StateModel)
    requires
        after_side(c, s),
        change_target(c, s, false) is Ok,
    ensures
        ({
            let t = change_target(c, s, false)->Ok_0;
            change_target(c, t.state, true) matches Ok(r) && r.state == s && r.project_changed
                == t.project_changed && r.affected == t.affected
        }),
{
    let t = applied_backward(c, s)->Ok_0;
    match c {
        ChangeModel::ScoreCell { name, edit, before_saved, after_saved } => {
            lemma_first_match_found(entry_names(s.scores), name);
            let i = entry_index(s.scores, name)->0;
            let g = s.scores[i].content.score;
            let r = reversed_edit(edit);
            let g0 = edited_grid(g, name, r)->Ok_0;
            assert(t == with_content(s, i, ContentModel { score: g0, saved: before_saved }));
            lemma_with_content_names(s, i, ContentModel { score: g0, saved: before_saved });
            assert(g0[edit.row as int][edit.column as int] == edit.before);
            assert(g0.update(edit.row as int, g0[edit.row as int].update(edit.column as int, edit.after))
                =~= g) by {
                assert(g0[edit.row as int].update(edit.column as int, edit.after) =~= g[edit.row as int]);
            }
            assert(with_content(t, i, ContentModel { score: g, saved: after_saved }).scores =~= s.scores);
        },
        ChangeModel::ScoreRows { name, before: b, after: a } => {
            lemma_first_match_found(entry_names(s.scores), name);
            let i = entry_index(s.scores, name)->0;
            lemma_with_content_names(s, i, b);
            assert(with_content(t, i, a).scores =~= s.scores);
        },
        ChangeModel::Project { .. } => {
            let (b, a, s0) = choose|b: StateModel, a: StateModel, s0: StateModel|
                #![trigger project_change(b, a), applied_forward(c, s0)]
                state_wf(b) && state_wf(a) && c == project_change(b, a) && applied_forward(c, s0) == Ok::<
                    StateModel,
                    Fault,
                >(s);
            lemma_project_redo_cycle(b, a, s0);
        },
    }
}

/// Redoing a change leads to a state that the change leads to, from which it can be undone.
/// A project change is one recorded between two well-formed states; redone from the state
/// that it was recorded from, it leads to the state that it was recorded to.
pub proof fn law_redo_reaches_after_side(c: ChangeModel, s: StateModel, before: StateModel, after: StateModel)
    requires
        change_target(c, s, true) is Ok,
        c is Project ==> state_wf(before) && state_wf(after) && c == project_change(before, after),
    ensures
        after_side(c, change_target(c, s, true)->Ok_0.state),
        change_target(c, change_target(c, s, true)->Ok_0.state, false) is Ok,
        c is Project && s == before ==> change_target(c, s, true)->Ok_0.state == after,
{
    let t = applied_forward(c, s)->Ok_0;
    match c {
        ChangeModel::ScoreCell { name, edit, after_saved, .. } => {
            lemma_first_match_found(entry_names(s.scores), name);
            let i = entry_index(s.scores, name)->0;
            let g1 = edited_grid(s.scores[i].content.score, name, edit)->Ok_0;
            lemma_with_content_names(s, i, ContentModel { score: g1, saved: after_saved });
            assert(t == with_content(s, i, ContentModel { score: g1, saved: after_saved }));
            assert(entry_index(t.scores, name) == Some(i));
            assert(g1[edit.row as int][edit.column as int] == edit.after);
        },
        ChangeModel::ScoreRows { name, after: a, .. } => {
            lemma_first_match_found(entry_names(s.scores), name);
            let i = entry_index(s.scores, name)->0;
            lemma_with_content_names(s, i, a);
            assert(entry_index(t.scores, name) == Some(i));
        },
        ChangeModel::Project { .. } => {
            assert(state_wf(before) && state_wf(after) && c == project_change(before, after)
                && applied_forward(c, s) == Ok::<StateModel, Fault>(t));
            lemma_project_redo_cycle(before, after, s);
            if s == before {
                lemma_project_change_restores(after, before);
            }
        },
    }
}

/// Recording a project change between well-formed states leads to a state that the change
/// leads to, from which it can be undone.
pub proof fn law_record_project_reaches_after_side(h: HistoryModel, after: StateModel)
    requires
        state_wf(h.current),
        state_wf(after),
        recorded_project(h, after).1,
    ensures
        ({
            let h2 = recorded_project(h, after).0;
            &&& h2.undo.len() > 0
            &&& after_side(h2.undo.last(), h2.current)
            &&& change_target(h2.undo.last(), h2.current, false) is Ok
        }),
{
    let c = project_change(h.current, after);
    lemma_pushed_undo_last(h.undo, c);
    lemma_project_change_restores(after, h.current);
    lemma_project_change_restores(h.current, after);
    assert(state_wf(h.current) && state_wf(after) && c == project_change(h.current, after)
        && applied_forward(c, h.current) == Ok::<StateModel, Fault>(after));
}

/// Recording a rows change leads to a state that the change leads to, from which it can be
/// undone.
pub proof fn law_record_rows_reaches_after_side(h: HistoryModel, name: Seq<char>, score: Grid, v: CheckModel)
    requires
        recorded_rows(h, name, score, v).1 == Ok::<bool, Fault>(true),
    ensures
        ({
            let h2 = recorded_rows(h, name, score, v).0;
            &&& h2.undo.len() > 0
            &&& after_side(h2.undo.last(), h2.current)
            &&& change_target(h2.undo.last(), h2.current, false) is Ok
        }),
{
    law_undo_redo_rows(h, name, score, v);
}

/// Recording a cell edit that stays open for merging (every recorded edit but one that
/// merges back to the cell's old text) leads to a state that the change on top of the undo
/// stack leads to, from which it can be undone.
pub proof fn law_record_cell_reaches_after_side(h: HistoryModel, name: Seq<char>, e: EditModel, v: CheckModel)
    requires
        recorded_cell(h, name, e, v).1 == Ok::<bool, Fault>(true),
        recorded_cell(h, name, e, v).0.merging,
    ensures
        ({
            let h2 = recorded_cell(h, name, e, v).0;
            &&& h2.undo.len() > 0
            &&& after_side(h2.undo.last(), h2.current)
            &&& change_target(h2.undo.last(), h2.current, false) is Ok
        }),
{
    let h2 = recorded_cell(h, name, e, v).0;
    lemma_first_match_found(entry_names(h.current.scores), name);
    let i = entry_index(h.current.scores, name)->0;
    let score = edited_grid(h.current.scores[i].content.score, name, e)->Ok_0;
    let saved = saved_after(h, name, score, v)->Ok_0;
    lemma_with_content_names(h.current, i, ContentModel { score, saved });
    assert(entry_index(h2.current.scores, name) == Some(i));
    assert(score[e.row as int][e.column as int] == e.after);
    if merges_with_last(h, name, e) {
        let previous = h.undo.last()->ScoreCell_name;
        lemma_entry_index_same(h2.current.scores, previous, name);
        assert(h2.undo.last() == ChangeModel::ScoreCell {
            name: previous,
            edit: EditModel { after: e.after, ..h.undo.last()->ScoreCell_edit },
            before_saved: h.undo.last()->ScoreCell_before_saved,
            after_saved: saved,
        });
    } else {
        lemma_pushed_undo_last(
            h.undo,
            ChangeModel::ScoreCell { name, edit: e, before_saved: h.current.scores[i].content.saved, after_saved: saved },
        );
    }
}

/// Undoing the last change of `h` succeeds, and redo then gives back the current state of
/// `h`, with the same project change and affected parts as the undo reported.
pub open spec fn redo_after_undo_gives_back(h: HistoryModel) -> bool {
    &&& h.undo.len() > 0
    &&& change_target(h.undo.last(), h.current, false) matches Ok(t) && {
        let h2 = undone(h, t.state);
        &&& h2.redo.len() > 0
        &&& change_target(h2.redo.last(), h2.current, true) matches Ok(r) && r.state == h.current
            && r.project_changed == t.project_changed && r.affected == t.affected
    }
}

/// Redo after undo, from a state that the last change leads to, gives that state back.
pub proof fn law_redo_after_undo(h: HistoryModel)
    requires
        h.undo.len() > 0,
        after_side(h.undo.last(), h.current),
        change_target(h.undo.last(), h.current, false) is Ok,
    ensures
        redo_after_undo_gives_back(h),
{
    law_undo_then_redo(h.undo.last(), h.current);
    let t = change_target(h.undo.last(), h.current, false)->Ok_0;
    assert(undone(h, t.state).redo.last() == h.undo.last());
}

/// After a project change between well-formed states is recorded, redo after undo gives
/// back the recorded state.
pub proof fn law_redo_after_undo_of_recorded_project(h: HistoryModel, after: StateModel)
    requires
        state_wf(h.current),
        state_wf(after),
        recorded_project(h, after).1,
    ensures
        redo_after_undo_gives_back(recorded_project(h, after).0),
{
    law_record_project_reaches_after_side(h, after);
    law_redo_after_undo(recorded_project(h, after).0);
}

/// After a rows change is recorded, redo after undo gives back the recorded state.
pub proof fn law_redo_after_undo_of_recorded_rows(h: HistoryModel, name: Seq<char>, score: Grid, v: CheckModel)
    requires
        recorded_rows(h, name, score, v).1 == Ok::<bool, Fault>(true),
    ensures
        redo_after_undo_gives_back(recorded_rows(h, name, score, v).0),
{
    law_record_rows_reaches_after_side(h, name, score, v);
    law_redo_after_undo(recorded_rows(h, name, score, v).0);
}

/// After a cell edit is recorded and stays open for merging, redo after undo gives back the
/// recorded state. (An edit that merges back to the cell's old text drops its change; the
/// change then on top of the undo stack may have saved another score than the state holds.)
pub proof fn law_redo_after_undo_of_recorded_cell(h: HistoryModel, name: Seq<char>, e: EditModel, v: CheckModel)
    requires
        recorded_cell(h, name, e, v).1 == Ok::<bool, Fault>(true),
        recorded_cell(h, name, e, v).0.merging,
    ensures
        redo_after_undo_gives_back(recorded_cell(h, name, e, v).0),
{
    law_record_cell_reaches_after_side(h, name, e, v);
    law_redo_after_undo(recorded_cell(h, name, e, v).0);
}

/// Undoing and redoing a change, from whatever states, report the same project change and
/// the same affected parts: what a change touches depends on the change alone.
pub proof fn law_undo_redo_same_extent(c: ChangeModel, undo_from: StateModel, redo_from: StateModel)
    requires
        change_target(c, undo_from, false) is Ok,
        change_target(c, redo_from, true) is Ok,
    ensures
        change_target(c, undo_from, false)->Ok_0.project_changed == change_target(c, redo_from, true)->Ok_0.project_changed,
        change_target(c, undo_from, false)->Ok_0.affected == change_target(c, redo_from, true)->Ok_0.affected,
{
}

/// Redo, then undo, then redo again: the second redo gives back the state that the first
/// redo led to, and undo and redo report the same project change and affected parts. A
/// project change is one recorded between two well-formed states.
pub proof fn law_redo_undo_redo(h: HistoryModel, before: StateModel, after: StateModel)
    requires
        history_wf(h),
        h.redo.len() > 0,
        change_target(h.redo.last(), h.current, true) is Ok,
        h.redo.last() is Project ==> state_wf(before) && state_wf(after) && h.redo.last() == project_change(
            before,
            after,
        ),
    ensures
        ({
            let h1 = redone(h, change_target(h.redo.last(), h.current, true)->Ok_0.state);
            &&& after_side(h1.undo.last(), h1.current)
            &&& redo_after_undo_gives_back(h1)
        }),
{
    let c = h.redo.last();
    let s1 = change_target(c, h.current, true)->Ok_0.state;
    let h1 = redone(h, s1);
    assert(h1.undo.last() == c);
    law_redo_reaches_after_side(c, h.current, before, after);
    law_undo_then_redo(c, s1);
    let t = change_target(c, s1, false)->Ok_0;
    assert(undone(h1, t.state).redo.last() == c);
}

/// Rebuilding entries for `parts` succeeds when every part has an entry to pick, and then
/// holds, for each part in order, the picked content under the part's name.
proof fn lemma_rebuilt_ok(parts: Seq<PartModel>, target: Seq<EntryModel>, current: Seq<EntryModel>)
    ensures
        (rebuilt_entries(parts, target, current) is Ok) == (forall|k: int|
            0 <= k < parts.len() ==> (#[trigger] picked_entry(target, current, parts[k].name)) is Some),
        rebuilt_entries(parts, target, current) is Ok ==> {
            let v = rebuilt_entries(parts, target, current)->Ok_0;
            &&& v.len() == parts.len()
            &&& forall|k: int|
                0 <= k < parts.len() ==> #[trigger] v[k] == (EntryModel {
                    name: parts[k].name,
                    content: picked_entry(target, current, parts[k].name)->0.content,
                })
        },
    decreases parts.len(),
{
    if parts.len() > 0 {
        let p = parts.drop_last();
        lemma_rebuilt_ok(p, target, current);
        assert forall|k: int| 0 <= k < p.len() implies #[trigger] p[k] == parts[k] by {}
        let last = parts.len() - 1;
        if rebuilt_entries(p, target, current) is Err {
            let k = choose|k: int|
                0 <= k < p.len() && !((#[trigger] picked_entry(target, current, p[k].name)) is Some);
            assert(p[k] == parts[k]);
        } else if picked_entry(target, current, parts[last].name) is None {
        } else {
            let v = rebuilt_entries(p, target, current)->Ok_0;
            assert forall|k: int| 0 <= k < parts.len() implies (#[trigger] picked_entry(
                target,
                current,
                parts[k].name,
            )) is Some by {
                if k < p.len() {
                    assert(p[k] == parts[k]);
                    assert(picked_entry(target, current, p[k].name) is Some);
                } else {
                    assert(k == last);
                }
            }
        }
    }
}

/// In a well-formed state, a name that matches entry `j` finds entry `j`.
proof fn lemma_wf_entry_index(x: StateModel, n: Seq<char>, j: int)
    requires
        state_wf(x),
        0 <= j < x.scores.len(),
        eq_ignore_ascii_case(x.scores[j].name, n),
    ensures
        entry_index(x.scores, n) == Some(j),
{
    lemma_first_match_found(entry_names(x.scores), n);
    assert(entry_names(x.scores)[j] == x.scores[j].name);
    if entry_index(x.scores, n) is Some {
        let i = entry_index(x.scores, n)->0;
        assert(entry_names(x.scores)[i] == x.scores[i].name);
        lemma_eq_ignore_ascii_case_symmetric(x.scores[i].name, n);
        lemma_eq_ignore_ascii_case_transitive(x.scores[j].name, n, x.scores[i].name);
        lemma_unique_entry(x, i, j);
    }
}

/// Among the entries of a well-formed state `x` that differ from `y`, a name that matches
/// entry `j` of `x` finds that entry, exactly when it differs from `y`.
proof fn lemma_changed_index(x: StateModel, y: Seq<EntryModel>, n: Seq<char>, j: int)
    requires
        state_wf(x),
        0 <= j < x.scores.len(),
        eq_ignore_ascii_case(x.scores[j].name, n),
    ensures
        (entry_index(changed_entries(x.scores, y), n) is Some) == entry_changed(y, x.scores[j]),
        entry_index(changed_entries(x.scores, y), n) matches Some(m) ==> changed_entries(x.scores, y)[m]
            == x.scores[j],
{
    let c = changed_entries(x.scores, y);
    lemma_first_match_found(entry_names(c), n);
    if entry_index(c, n) is Some {
        let m = entry_index(c, n)->0;
        assert(entry_names(c)[m] == c[m].name);
        lemma_changed_entries_sound(x.scores, y, m);
        let i = choose|i: int| 0 <= i < x.scores.len() && c[m] == #[trigger] x.scores[i];
        lemma_eq_ignore_ascii_case_symmetric(x.scores[i].name, n);
        lemma_eq_ignore_ascii_case_transitive(x.scores[j].name, n, x.scores[i].name);
        lemma_unique_entry(x, i, j);
        lemma_changed_entries_keep(x.scores, y, m);
    } else if entry_changed(y, x.scores[j]) {
        lemma_changed_entries_complete(x.scores, y, j);
        let k = choose|k: int| 0 <= k < c.len() && #[trigger] c[k] == x.scores[j];
        assert(entry_names(c)[k] == c[k].name);
    }
}

/// A state on the project of a well-formed state `w`, with entries named as `w`'s, is well
/// formed and finds names as `w` does.
proof fn lemma_wf_like(w: StateModel, s: StateModel)
    requires
        state_wf(w),
        s.project == w.project,
        s.scores.len() == w.scores.len(),
        forall|k: int| 0 <= k < s.scores.len() ==> (#[trigger] s.scores[k]).name == w.scores[k].name,
    ensures
        state_wf(s),
        entry_names(s.scores) == entry_names(w.scores),
{
    assert(entry_names(s.scores) =~= entry_names(w.scores));
    assert forall|i: int, j: int|
        0 <= i < s.scores.len() && 0 <= j < s.scores.len() && i != j implies !eq_ignore_ascii_case(
        #[trigger] s.scores[i].name,
        #[trigger] s.scores[j].name,
    ) by {
        assert(!eq_ignore_ascii_case(w.scores[i].name, w.scores[j].name));
    }
}

/// A project change recorded between well-formed states, redone from any state that it can
/// be redone from: undoing it then and redoing it again gives back the state that the redo
/// led to.
proof fn lemma_project_redo_cycle(before: StateModel, after: StateModel, s0: StateModel)
    requires
        state_wf(before),
        state_wf(after),
        applied_forward(project_change(before, after), s0) is Ok,
    ensures
        ({
            let c = project_change(before, after);
            let s1 = applied_forward(c, s0)->Ok_0;
            applied_backward(c, s1) matches Ok(t) && applied_forward(c, t) == Ok::<StateModel, Fault>(s1)
        }),
{
    let c = project_change(before, after);
    let bs = changed_entries(before.scores, after.scores);
    let xs = changed_entries(after.scores, before.scores);
    let bparts = before.project.parts;
    let aparts = after.project.parts;
    lemma_rebuilt_ok(aparts, xs, s0.scores);
    let v1 = rebuilt_entries(aparts, xs, s0.scores)->Ok_0;
    let s1 = StateModel { project: after.project, scores: v1 };
    assert(applied_forward(c, s0) == Ok::<StateModel, Fault>(s1));
    assert forall|k: int| 0 <= k < v1.len() implies (#[trigger] v1[k]).name == after.scores[k].name by {}
    lemma_wf_like(after, s1);
    assert forall|j: int| 0 <= j < bparts.len() implies (#[trigger] picked_entry(bs, v1, bparts[j].name)) is Some by {
        let b = bparts[j].name;
        assert(b == before.scores[j].name);
        lemma_eq_ignore_ascii_case_refl(b);
        lemma_changed_index(before, after.scores, b, j);
        if !entry_changed(after.scores, before.scores[j]) {
            lemma_first_match_found(entry_names(after.scores), b);
        }
    }
    lemma_rebuilt_ok(bparts, bs, v1);
    let tv = rebuilt_entries(bparts, bs, v1)->Ok_0;
    let t = StateModel { project: before.project, scores: tv };
    assert(applied_backward(c, s1) == Ok::<StateModel, Fault>(t));
    assert forall|j: int| 0 <= j < tv.len() implies (#[trigger] tv[j]).name == before.scores[j].name by {}
    lemma_wf_like(before, t);
    assert forall|k: int| 0 <= k < aparts.len() implies (#[trigger] picked_entry(xs, tv, aparts[k].name))
        matches Some(e) && e.content == v1[k].content by {
        let a = aparts[k].name;
        assert(a == after.scores[k].name);
        lemma_eq_ignore_ascii_case_refl(a);
        lemma_changed_index(after, before.scores, a, k);
        if !entry_changed(before.scores, after.scores[k]) {
            lemma_first_match_found(entry_names(before.scores), a);
            let j = entry_index(before.scores, a)->0;
            assert(entry_names(before.scores)[j] == before.scores[j].name);
            let b = before.scores[j].name;
            lemma_eq_ignore_ascii_case_symmetric(b, a);
            lemma_wf_entry_index(after, b, k);
            lemma_eq_ignore_ascii_case_refl(b);
            lemma_changed_index(before, after.scores, b, j);
            assert(bparts[j].name == b);
            assert(tv[j].content == picked_entry(bs, v1, b)->0.content);
        }
    }
    lemma_rebuilt_ok(aparts, xs, tv);
    let rv = rebuilt_entries(aparts, xs, tv)->Ok_0;
    assert(rv =~= v1);
}

/// Every name has a match, without regard to ASCII case, among its names kept once each.
proof fn lemma_unique_names_cover(names: Seq<Seq<char>>, j: int)
    requires
        0 <= j < names.len(),
    ensures
        exists|k: int| 0 <= k < unique_names(names).len() && eq_ignore_ascii_case(#[trigger] unique_names(names)[k], names[j]),
    decreases names.len(),
{
    let p = names.drop_last();
    let u = unique_names(p);
    let x = names.last();
    assert(unique_names(names) == with_unique_name(u, x));
    if j < p.len() {
        lemma_unique_names_cover(p, j);
        let k = choose|k: int| 0 <= k < u.len() && eq_ignore_ascii_case(#[trigger] u[k], p[j]);
        assert(unique_names(names)[k] == u[k]);
        assert(names[j] == p[j]);
    } else {
        if exists|m: int| 0 <= m < u.len() && eq_ignore_ascii_case(#[trigger] u[m], x) {
            let m = choose|m: int| 0 <= m < u.len() && eq_ignore_ascii_case(#[trigger] u[m], x);
            assert(unique_names(names)[m] == u[m]);
        } else {
            lemma_eq_ignore_ascii_case_refl(x);
            assert(unique_names(names)[u.len() as int] == x);
        }
    }
}

/// Score files have one column per voice, headed by the voice's identifier and name. When
/// the number of voices changes, the score files' layout changes; when every voice keeps
/// its identifier and name, in order, it does not. A project change whose layout changes
/// reloads every part of both projects: each of their names is among the affected parts.
pub proof fn law_schema_change_affects_every_part(
    before: ProjectModel,
    after: ProjectModel,
    before_scores: Seq<EntryModel>,
    after_scores: Seq<EntryModel>,
    n: Seq<char>,
)
    ensures
        before.voices.len() != after.voices.len() ==> schema_changed(before, after),
        before.voices.len() == after.voices.len() && (forall|i: int|
            0 <= i < before.voices.len() ==> (#[trigger] before.voices[i]).id == after.voices[i].id
                && before.voices[i].name == after.voices[i].name) ==> !schema_changed(before, after),
        schema_changed(before, after) && (part_names(before.parts).contains(n) || part_names(after.parts).contains(n))
            ==> ({
            let affected = change_extent(
                ChangeModel::Project { before_project: before, after_project: after, before_scores, after_scores },
            ).1;
            exists|k: int| 0 <= k < affected.len() && eq_ignore_ascii_case(#[trigger] affected[k], n)
        }),
{
    let all = part_names(before.parts) + part_names(after.parts);
    let c = ChangeModel::Project { before_project: before, after_project: after, before_scores, after_scores };
    if schema_changed(before, after) && (part_names(before.parts).contains(n) || part_names(after.parts).contains(n)) {
        assert(change_extent(c).1 == unique_names(all));
        let j = if part_names(before.parts).contains(n) {
            choose|j: int| 0 <= j < part_names(before.parts).len() && part_names(before.parts)[j] == n
        } else {
            part_names(before.parts).len() + choose|j: int|
                0 <= j < part_names(after.parts).len() && part_names(after.parts)[j] == n
        };
        assert(0 <= j < all.len() && all[j] == n);
        lemma_unique_names_cover(all, j);
        let k = choose|k: int| 0 <= k < unique_names(all).len() && eq_ignore_ascii_case(#[trigger] unique_names(all)[k], all[j]);
        assert(eq_ignore_ascii_case(change_extent(c).1[k], n));
    }
}

/// A record that changes something leaves nothing to redo, so a new edit after undo
/// discards what could have been redone.
pub proof fn law_record_discards_redo(
    h: HistoryModel,
    after: StateModel,
    name: Seq<char>,
    score: Grid,
    e: EditModel,
    v: CheckModel,
)
    ensures
        recorded_project(h, after).1 ==> recorded_project(h, after).0.redo.len() == 0,
        recorded_rows(h, name, score, v).1 == Ok::<bool, Fault>(true) ==> recorded_rows(h, name, score, v).0.redo.len() == 0,
        recorded_cell(h, name, e, v).1 == Ok::<bool, Fault>(true) ==> recorded_cell(h, name, e, v).0.redo.len() == 0,
{
}

/// Consecutive edits of one cell are one change: the merged change goes from the first
/// edit's old text to the last edit's new text, and the number of changes stays the same
/// (or drops by one when the cell is back to its old text).
pub proof fn law_cell_edits_merge(h: HistoryModel, name: Seq<char>, e: EditModel, v: CheckModel)
    requires
        recorded_cell(h, name, e, v).1 == Ok::<bool, Fault>(true),
        merges_with_last(h, name, e),
    ensures
        ({
            let h2 = recorded_cell(h, name, e, v).0;
            match h.undo.last() {
                ChangeModel::ScoreCell { edit: previous, .. } => if previous.before == e.after {
                    h2.undo == h.undo.drop_last() && !h2.merging
                } else {
                    &&& h2.undo.len() == h.undo.len()
                    &&& h2.undo.last() matches ChangeModel::ScoreCell { edit: merged, .. } && merged.before
                        == previous.before && merged.after == e.after
                    &&& h2.merging
                },
                _ => false,
            }
        }),
{
}

/// A project change keeps only the scores that differ between the two states: each kept
/// entry of either side has no entry with the same content on the other side.
pub proof fn law_project_change_keeps_changed_scores(h: HistoryModel, after: StateModel, k: int)
    ensures
        0 <= k < changed_entries(h.current.scores, after.scores).len() ==> entry_changed(
            after.scores,
            changed_entries(h.current.scores, after.scores)[k],
        ),
        0 <= k < changed_entries(after.scores, h.current.scores).len() ==> entry_changed(
            h.current.scores,
            changed_entries(after.scores, h.current.scores)[k],
        ),
{
    lemma_changed_entries_keep(h.current.scores, after.scores, k);
    lemma_changed_entries_keep(after.scores, h.current.scores, k);
}

proof fn lemma_changed_entries_keep(x: Seq<EntryModel>, y: Seq<EntryModel>, k: int)
    ensures
        0 <= k < changed_entries(x, y).len() ==> entry_changed(y, changed_entries(x, y)[k]),
    decreases x.len(),
{
    if x.len() > 0 && 0 <= k < changed_entries(x, y).len() {
        let p = x.drop_last();
        if k < changed_entries(p, y).len() {
            lemma_changed_entries_keep(p, y, k);
        }
    }
}

/// Recording keeps the history bounded: at most `MAX_CHANGES` changes to undo.
pub proof fn law_bounded_undo(h: HistoryModel, after: StateModel)
    requires
        history_wf(h),
    ensures
        history_wf(recorded_project(h, after).0),
        recorded_project(h, after).0.undo.len() <= MAX_CHANGES,
{
}

} // verus!
