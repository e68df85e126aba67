//! How a project state restored from the history meets what the session shows: which open
//! score document each part of the restored project takes over, and what each score pane
//! shows afterwards.
use vstd::prelude::*;

use crate::history::names_view;
use crate::part::{Part, PartName};
use crate::parts_summary::{find_part, parts_view};
use crate::project::part_names;
use crate::text::{eq_ignore_ascii_case, first_match, lemma_first_match, lemma_first_match_found};

verus! {

/// The first index below `n` that satisfies `p`.
pub open spec fn first_index(n: int, p: spec_fn(int) -> bool) -> Option<int>
    decreases n,
{
    if n <= 0 {
        None
    } else {
        match first_index(n - 1, p) {
            Some(i) => Some(i),
            None => if p(n - 1) {
                Some(n - 1)
            } else {
                None
            },
        }
    }
}

proof fn lemma_first_index_stays(k: int, m: int, p: spec_fn(int) -> bool)
    requires
        0 <= k <= m,
        first_index(k, p) is Some,
    ensures
        first_index(m, p) == first_index(k, p),
    decreases m - k,
{
    if k < m {
        lemma_first_index_stays(k, m - 1, p);
    }
}

proof fn lemma_first_index_found(n: int, p: spec_fn(int) -> bool)
    ensures
        first_index(n, p) matches Some(i) ==> 0 <= i < n && p(i),
    decreases n,
{
    if n > 0 {
        lemma_first_index_found(n - 1, p);
    }
}

/// Finds the first of `names` that matches `name` without regard to ASCII case.
pub fn find_name(names: &Vec<PartName>, name: &PartName) -> (r: Option<usize>)
    ensures
        r matches Some(i) ==> i < names@.len() && first_match(names_view(names@), name@) == Some(
            i as int,
        ),
        r is None ==> first_match(names_view(names@), name@) is None,
{
    let ghost all = names_view(names@);
    let n = names.len();
    for i in 0..n
        invariant
            n == names@.len(),
            all == names_view(names@),
            forall|j: int| 0 <= j < i ==> !eq_ignore_ascii_case(#[trigger] all[j], name@),
    {
        assert(all[i as int] == names@[i as int]@);
        if names[i].eq_ignore_ascii_case(name) {
            proof {
                lemma_first_match(all, name@, i as int);
            }
            return Some(i);
        }
    }
    proof {
        lemma_first_match_found(all, name@);
    }
    None
}

/// Document `d` went to one of the parts planned so far.
pub open spec fn taken(plan: Seq<Option<int>>, d: int) -> bool {
    exists|i: int| 0 <= i < plan.len() && plan[i] == Some(d)
}

/// A free document of the same part as part `t` of the restored project.
pub open spec fn same_part(
    target: Seq<Seq<char>>,
    docs: Seq<Seq<char>>,
    t: int,
    plan: Seq<Option<int>>,
) -> spec_fn(int) -> bool {
    |d: int| !taken(plan, d) && eq_ignore_ascii_case(docs[d], target[t])
}

/// A free document of a part that the restored project lacks and that stood at place `t`
/// of the current project: part `t` renamed.
pub open spec fn renamed_part(
    target: Seq<Seq<char>>,
    current: Seq<Seq<char>>,
    docs: Seq<Seq<char>>,
    t: int,
    plan: Seq<Option<int>>,
) -> spec_fn(int) -> bool {
    |d: int| !taken(plan, d) && first_match(target, docs[d]) is None && first_match(current, docs[d]) == Some(t)
}

/// The document that part `t` of the restored project takes over, after the parts before
/// it took theirs (`plan`): the first free one of the same part, else of that part renamed.
pub open spec fn reused_document(
    target: Seq<Seq<char>>,
    current: Seq<Seq<char>>,
    docs: Seq<Seq<char>>,
    t: int,
    plan: Seq<Option<int>>,
) -> Option<int> {
    match first_index(docs.len() as int, same_part(target, docs, t, plan)) {
        Some(d) => Some(d),
        None => first_index(docs.len() as int, renamed_part(target, current, docs, t, plan)),
    }
}

/// The documents that the first `k` parts of the restored project take over, in order;
/// nothing for a part that gets a new document.
pub open spec fn document_plan(
    target: Seq<Seq<char>>,
    current: Seq<Seq<char>>,
    docs: Seq<Seq<char>>,
    k: int,
) -> Seq<Option<int>>
    decreases k,
{
    if k <= 0 {
        Seq::empty()
    } else {
        let plan = document_plan(target, current, docs, k - 1);
        plan.push(reused_document(target, current, docs, k - 1, plan))
    }
}

/// The place `o` names, if any, is below `m`.
pub open spec fn within(o: Option<usize>, m: int) -> bool {
    match o {
        Some(d) => d < m,
        None => true,
    }
}

pub open spec fn plan_view(v: Seq<Option<usize>>) -> Seq<Option<int>> {
    v.map_values(|o: Option<usize>| match o {
        Some(d) => Some(d as int),
        None => None,
    })
}

proof fn lemma_document_plan_len(target: Seq<Seq<char>>, current: Seq<Seq<char>>, docs: Seq<Seq<char>>, k: int)
    requires
        0 <= k,
    ensures
        document_plan(target, current, docs, k).len() == k,
    decreases k,
{
    if k > 0 {
        lemma_document_plan_len(target, current, docs, k - 1);
    }
}

/// Finds the first free document of the same part as part `t` (when `same`), or of that
/// part renamed (otherwise); `free` tells which documents are not yet taken under `plan`.
fn search_documents(
    current: &Vec<PartName>,
    target: &Vec<PartName>,
    documents: &Vec<PartName>,
    t: usize,
    free: &Vec<bool>,
    same: bool,
    Ghost(plan): Ghost<Seq<Option<int>>>,
) -> (r: Option<usize>)
    requires
        t < target@.len(),
        free@.len() == documents@.len(),
        forall|d: int| 0 <= d < documents@.len() ==> free@[d] == !taken(plan, d),
    ensures
        ({
            let p = if same {
                same_part(names_view(target@), names_view(documents@), t as int, plan)
            } else {
                renamed_part(names_view(target@), names_view(current@), names_view(documents@), t as int, plan)
            };
            &&& r matches Some(d) ==> first_index(documents@.len() as int, p) == Some(d as int)
            &&& r is None ==> first_index(documents@.len() as int, p) is None
        }),
{
    let ghost p = if same {
        same_part(names_view(target@), names_view(documents@), t as int, plan)
    } else {
        renamed_part(names_view(target@), names_view(current@), names_view(documents@), t as int, plan)
    };
    let m = documents.len();
    for d in 0..m
        invariant
            m == documents@.len(),
            t < target@.len(),
            free@.len() == documents@.len(),
            forall|e: int| 0 <= e < documents@.len() ==> free@[e] == !taken(plan, e),
            p == if same {
                same_part(names_view(target@), names_view(documents@), t as int, plan)
            } else {
                renamed_part(names_view(target@), names_view(current@), names_view(documents@), t as int, plan)
            },
            first_index(d as int, p) is None,
    {
        assert(names_view(documents@)[d as int] == documents@[d as int]@);
        assert(names_view(target@)[t as int] == target@[t as int]@);
        let hit = if !free[d] {
            false
        } else if same {
            documents[d].eq_ignore_ascii_case(&target[t])
        } else {
            let in_target = find_name(target, &documents[d]);
            let in_current = find_name(current, &documents[d]);
            in_target.is_none() && match in_current {
                Some(i) => i == t,
                None => false,
            }
        };
        assert(hit == p(d as int));
        if hit {
            proof {
                lemma_first_index_stays(d + 1, m as int, p);
            }
            return Some(d);
        }
    }
    None
}

/// For each part of the restored project `target`, the open document it takes over, by its
/// place among `documents`; nothing where the part needs a new document. `current` is the
/// project's parts before the restore.
pub fn plan_documents(current: &Vec<PartName>, target: &Vec<PartName>, documents: &Vec<PartName>) -> (r: Vec<
    Option<usize>,
>)
    ensures
        plan_view(r@) == document_plan(
            names_view(target@),
            names_view(current@),
            names_view(documents@),
            target@.len() as int,
        ),
        forall|i: int| 0 <= i < r@.len() ==> within(#[trigger] r@[i], documents@.len() as int),
{
    let ghost tv = names_view(target@);
    let ghost cv = names_view(current@);
    let ghost dv = names_view(documents@);
    let m = documents.len();
    let mut free: Vec<bool> = Vec::new();
    for d in 0..m
        invariant
            free@.len() == d,
            forall|e: int| 0 <= e < d ==> free@[e],
    {
        free.push(true);
    }
    let mut plan: Vec<Option<usize>> = Vec::new();
    let n = target.len();
    for t in 0..n
        invariant
            n == target@.len(),
            m == documents@.len(),
            tv == names_view(target@),
            cv == names_view(current@),
            dv == names_view(documents@),
            free@.len() == m,
            plan_view(plan@) == document_plan(tv, cv, dv, t as int),
            forall|e: int| 0 <= e < m ==> free@[e] == !taken(plan_view(plan@), e),
            forall|i: int| 0 <= i < plan@.len() ==> within(#[trigger] plan@[i], m as int),
    {
        let ghost before = plan_view(plan@);
        proof {
            lemma_document_plan_len(tv, cv, dv, t as int);
        }
        let chosen = match search_documents(current, target, documents, t, &free, true, Ghost(before)) {
            Some(d) => Some(d),
            None => search_documents(current, target, documents, t, &free, false, Ghost(before)),
        };
        proof {
            lemma_first_index_found(m as int, same_part(tv, dv, t as int, before));
            lemma_first_index_found(m as int, renamed_part(tv, cv, dv, t as int, before));
        }
        assert(chosen matches Some(d) ==> d < m);
        match chosen {
            Some(d) => {
                free.set(d, false);
            },
            None => {},
        }
        plan.push(chosen);
        let ghost after = plan_view(plan@);
        assert(after =~= before.push(
            match chosen {
                Some(d) => Some(d as int),
                None => None,
            },
        ));
        assert(before.len() == t);
        assert(after[t as int] == match chosen {
            Some(d) => Some(d as int),
            None => None,
        });
        assert forall|e: int| 0 <= e < m implies free@[e] == !taken(after, e) by {
            if chosen == Some(e as usize) {
                assert(after[t as int] == Some(e));
            }
            if taken(after, e) {
                let i = choose|i: int| 0 <= i < after.len() && after[i] == Some(e);
                if i < before.len() {
                    assert(before[i] == Some(e));
                }
            }
            if taken(before, e) {
                let i = choose|i: int| 0 <= i < before.len() && before[i] == Some(e);
                assert(after[i] == Some(e));
            }
        }
    }
    plan
}

/// No open document is taken over by two parts of the restored project.
pub proof fn law_documents_taken_once(
    target: Seq<Seq<char>>,
    current: Seq<Seq<char>>,
    docs: Seq<Seq<char>>,
    k: int,
)
    requires
        0 <= k,
    ensures
        ({
            let plan = document_plan(target, current, docs, k);
            forall|i: int, j: int|
                0 <= i < j < plan.len() && (#[trigger] plan[j]) is Some ==> #[trigger] plan[i] != plan[j]
        }),
    decreases k,
{
    if k > 0 {
        law_documents_taken_once(target, current, docs, k - 1);
        let before = document_plan(target, current, docs, k - 1);
        let plan = document_plan(target, current, docs, k);
        lemma_document_plan_len(target, current, docs, k - 1);
        lemma_first_index_found(docs.len() as int, same_part(target, docs, k - 1, before));
        lemma_first_index_found(docs.len() as int, renamed_part(target, current, docs, k - 1, before));
        let chosen = reused_document(target, current, docs, k - 1, before);
        assert(chosen matches Some(d) ==> !taken(before, d));
        assert forall|i: int, j: int|
            0 <= i < j < plan.len() && (#[trigger] plan[j]) is Some implies #[trigger] plan[i] != plan[j] by {
            if j == k - 1 {
                if plan[i] == plan[j] {
                    assert(before[i] == chosen);
                }
            } else {
                assert(plan[i] == before[i] && plan[j] == before[j]);
            }
        }
    }
}

/// For each part of the restored project, the name its document had (the part's own name
/// for a new document) and the part's name.
pub open spec fn name_changes(target: Seq<Seq<char>>, docs: Seq<Seq<char>>, plan: Seq<Option<int>>) -> Seq<
    (Seq<char>, Seq<char>),
> {
    Seq::new(
        target.len(),
        |t: int|
            (
                match plan[t] {
                    Some(d) => docs[d],
                    None => target[t],
                },
                target[t],
            ),
    )
}

/// What a score pane does after a restore: keep its editor under the part's new name, open
/// a part afresh, or show nothing.
#[derive(Debug)]
pub enum PaneUpdate {
    Keep(PartName),
    Open(PartName),
    Empty,
}

pub enum PaneModel {
    Keep(Seq<char>),
    Open(Seq<char>),
    Empty,
}

impl View for PaneUpdate {
    type V = PaneModel;

    open spec fn view(&self) -> PaneModel {
        match self {
            PaneUpdate::Keep(n) => PaneModel::Keep(n@),
            PaneUpdate::Open(n) => PaneModel::Open(n@),
            PaneUpdate::Empty => PaneModel::Empty,
        }
    }
}

/// The part a pane that showed `name` shows after the restore: the restored part of that
/// name, else the part its document went to, else the restored part at the same place;
/// the first part when none of these exists.
pub open spec fn desired_part(
    target: Seq<Seq<char>>,
    current: Seq<Seq<char>>,
    changes: Seq<(Seq<char>, Seq<char>)>,
    shown: Option<Seq<char>>,
) -> Option<Seq<char>> {
    let found = match shown {
        None => None,
        Some(name) => match first_match(target, name) {
            Some(k) => Some(target[k]),
            None => match first_match(changes.map_values(|c: (Seq<char>, Seq<char>)| c.0), name) {
                Some(j) => Some(changes[j].1),
                None => match first_match(current, name) {
                    Some(i) => if i < target.len() {
                        Some(target[i])
                    } else {
                        None
                    },
                    None => None,
                },
            },
        },
    };
    match found {
        Some(n) => Some(n),
        None => if target.len() > 0 {
            Some(target[0])
        } else {
            None
        },
    }
}

/// What a pane that showed `shown` does after the restore: it keeps its editor when its
/// document went on to the part it now shows.
pub open spec fn pane_update(
    target: Seq<Seq<char>>,
    current: Seq<Seq<char>>,
    changes: Seq<(Seq<char>, Seq<char>)>,
    shown: Option<Seq<char>>,
) -> PaneModel {
    match desired_part(target, current, changes, shown) {
        None => PaneModel::Empty,
        Some(d) => if shown is Some && exists|j: int|
            0 <= j < changes.len() && eq_ignore_ascii_case((#[trigger] changes[j]).0, shown->0)
                && eq_ignore_ascii_case(changes[j].1, d) {
            PaneModel::Keep(d)
        } else {
            PaneModel::Open(d)
        },
    }
}

pub open spec fn changes_view(v: Seq<(PartName, PartName)>) -> Seq<(Seq<char>, Seq<char>)> {
    v.map_values(|c: (PartName, PartName)| (c.0@, c.1@))
}

pub open spec fn shown_view(v: Option<PartName>) -> Option<Seq<char>> {
    match v {
        Some(n) => Some(n@),
        None => None,
    }
}

/// A part name after the part `source` was renamed to `updated`: names that match `source`
/// without regard to ASCII case become `updated`, others stay.
pub open spec fn name_after_rename(n: Seq<char>, source: Seq<char>, updated: Seq<char>) -> Seq<char> {
    if eq_ignore_ascii_case(n, source) {
        updated
    } else {
        n
    }
}

/// The part names of the open documents, or of the open panes, after the part `source` was
/// renamed to `updated`.
pub fn renamed_part_names(names: &Vec<PartName>, source: &PartName, updated: &PartName) -> (r: Vec<PartName>)
    ensures
        names_view(r@) == names_view(names@).map_values(|n: Seq<char>| name_after_rename(n, source@, updated@)),
{
    let mut r: Vec<PartName> = Vec::new();
    let n = names.len();
    for i in 0..n
        invariant
            n == names@.len(),
            r@.len() == i,
            forall|j: int| 0 <= j < i ==> (#[trigger] r@[j])@ == name_after_rename(names@[j]@, source@, updated@),
    {
        if names[i].eq_ignore_ascii_case(source) {
            r.push(updated.clone());
        } else {
            r.push(names[i].clone());
        }
    }
    assert(names_view(r@) =~= names_view(names@).map_values(|n: Seq<char>| name_after_rename(n, source@, updated@)));
    r
}

/// The name changes of a document plan: the old name of each part's document and the
/// part's name.
pub fn document_name_changes(target: &Vec<PartName>, documents: &Vec<PartName>, plan: &Vec<Option<usize>>) -> (r: Vec<
    (PartName, PartName),
>)
    requires
        plan@.len() == target@.len(),
        forall|i: int| 0 <= i < plan@.len() ==> within(#[trigger] plan@[i], documents@.len() as int),
    ensures
        changes_view(r@) == name_changes(names_view(target@), names_view(documents@), plan_view(plan@)),
{
    let mut changes: Vec<(PartName, PartName)> = Vec::new();
    let n = target.len();
    for t in 0..n
        invariant
            n == target@.len(),
            plan@.len() == n,
            forall|i: int| 0 <= i < plan@.len() ==> within(#[trigger] plan@[i], documents@.len() as int),
            changes_view(changes@) == name_changes(names_view(target@), names_view(documents@), plan_view(plan@)).take(
                t as int,
            ),
    {
        let ghost before = changes_view(changes@);
        let ghost all = name_changes(names_view(target@), names_view(documents@), plan_view(plan@));
        let old_name = match plan[t] {
            Some(d) => {
                assert(plan_view(plan@)[t as int] == Some(d as int));
                assert(names_view(documents@)[d as int] == documents@[d as int]@);
                documents[d].clone()
            },
            None => {
                assert(plan_view(plan@)[t as int] is None);
                target[t].clone()
            },
        };
        assert(names_view(target@)[t as int] == target@[t as int]@);
        changes.push((old_name, target[t].clone()));
        assert(changes_view(changes@) =~= before.push(all[t as int]));
        assert(all.take(t + 1) =~= all.take(t as int).push(all[t as int]));
        assert(changes_view(changes@) =~= name_changes(names_view(target@), names_view(documents@), plan_view(plan@)).take(
            t + 1,
        ));
    }
    assert(name_changes(names_view(target@), names_view(documents@), plan_view(plan@)).take(n as int) =~= name_changes(
        names_view(target@),
        names_view(documents@),
        plan_view(plan@),
    ));
    changes
}

/// Finds the first name change whose old name matches `name`.
fn find_change(changes: &Vec<(PartName, PartName)>, name: &PartName) -> (r: Option<usize>)
    ensures
        r matches Some(j) ==> j < changes@.len() && first_match(
            changes_view(changes@).map_values(|c: (Seq<char>, Seq<char>)| c.0),
            name@,
        ) == Some(j as int),
        r is None ==> first_match(changes_view(changes@).map_values(|c: (Seq<char>, Seq<char>)| c.0), name@) is None,
{
    let ghost olds = changes_view(changes@).map_values(|c: (Seq<char>, Seq<char>)| c.0);
    let n = changes.len();
    for j in 0..n
        invariant
            n == changes@.len(),
            olds == changes_view(changes@).map_values(|c: (Seq<char>, Seq<char>)| c.0),
            forall|k: int| 0 <= k < j ==> !eq_ignore_ascii_case(#[trigger] olds[k], name@),
    {
        assert(olds[j as int] == changes@[j as int].0@);
        if changes[j].0.eq_ignore_ascii_case(name) {
            proof {
                lemma_first_match(olds, name@, j as int);
            }
            return Some(j);
        }
    }
    proof {
        lemma_first_match_found(olds, name@);
    }
    None
}

/// What each score pane does after a restore, from the part it showed.
pub fn plan_panes(
    current: &Vec<PartName>,
    target: &Vec<PartName>,
    changes: &Vec<(PartName, PartName)>,
    panes: &Vec<Option<PartName>>,
) -> (r: Vec<PaneUpdate>)
    ensures
        r@.len() == panes@.len(),
        forall|i: int|
            0 <= i < panes@.len() ==> (#[trigger] r@[i])@ == pane_update(
                names_view(target@),
                names_view(current@),
                changes_view(changes@),
                shown_view(panes@[i]),
            ),
{
    let ghost tv = names_view(target@);
    let ghost cv = names_view(current@);
    let ghost chv = changes_view(changes@);
    let mut updates: Vec<PaneUpdate> = Vec::new();
    let n = panes.len();
    for i in 0..n
        invariant
            n == panes@.len(),
            tv == names_view(target@),
            cv == names_view(current@),
            chv == changes_view(changes@),
            updates@.len() == i,
            forall|k: int| 0 <= k < i ==> (#[trigger] updates@[k])@ == pane_update(tv, cv, chv, shown_view(panes@[k])),
    {
        let shown = &panes[i];
        let found: Option<PartName> = match shown {
            None => None,
            Some(name) => match find_name(target, name) {
                Some(k) => {
                    assert(tv[k as int] == target@[k as int]@);
                    Some(target[k].clone())
                },
                None => match find_change(changes, name) {
                    Some(j) => {
                        assert(chv[j as int] == (changes@[j as int].0@, changes@[j as int].1@));
                        Some(changes[j].1.clone())
                    },
                    None => match find_name(current, name) {
                        Some(k) => if k < target.len() {
                            assert(tv[k as int] == target@[k as int]@);
                            Some(target[k].clone())
                        } else {
                            None
                        },
                        None => None,
                    },
                },
            },
        };
        let desired: Option<PartName> = match found {
            Some(d) => Some(d),
            None => if target.len() > 0 {
                assert(tv[0] == target@[0]@);
                Some(target[0].clone())
            } else {
                None
            },
        };
        let ghost want = pane_update(tv, cv, chv, shown_view(*shown));
        assert(shown_view(desired) == desired_part(tv, cv, chv, shown_view(*shown)));
        let update = match desired {
            None => PaneUpdate::Empty,
            Some(d) => {
                let keep = match shown {
                    None => false,
                    Some(name) => {
                        let mut found_change = false;
                        let m = changes.len();
                        for j in 0..m
                            invariant
                                m == changes@.len(),
                                chv == changes_view(changes@),
                                found_change == exists|k: int|
                                    0 <= k < j && eq_ignore_ascii_case((#[trigger] chv[k]).0, name@)
                                        && eq_ignore_ascii_case(chv[k].1, d@),
                        {
                            assert(chv[j as int] == (changes@[j as int].0@, changes@[j as int].1@));
                            if changes[j].0.eq_ignore_ascii_case(name) && changes[j].1.eq_ignore_ascii_case(&d) {
                                found_change = true;
                            }
                        }
                        found_change
                    },
                };
                if keep {
                    PaneUpdate::Keep(d)
                } else {
                    PaneUpdate::Open(d)
                }
            },
        };
        assert(update@ == want);
        updates.push(update);
    }
    updates
}

/// The sections of a project's workspace.
#[derive(Clone, Copy, Debug, PartialEq, Eq, Structural)]
pub enum WorkspaceSectionKind {
    Score,
    Parts,
    Voices,
    Loop,
    Project,
    Build,
}

impl Default for WorkspaceSectionKind {
    fn default() -> (r: Self)
        ensures
            r == WorkspaceSectionKind::Score,
    {
        WorkspaceSectionKind::Score
    }
}

/// What a session keeps of its layout between runs: the workspace section, the score panes
/// and the parts they show, the active pane, and whether the arrangement is shown.
#[derive(Debug, PartialEq, Eq)]
pub struct UiState {
    pub workspace: WorkspaceSectionKind,
    pub score_pane_count: usize,
    pub open_score_parts: Vec<String>,
    pub active_score_pane: usize,
    pub score_arrangement_visible: bool,
}

pub struct UiModel {
    pub workspace: WorkspaceSectionKind,
    pub score_pane_count: usize,
    pub open_score_parts: Seq<Seq<char>>,
    pub active_score_pane: usize,
    pub score_arrangement_visible: bool,
}

impl View for UiState {
    type V = UiModel;

    open spec fn view(&self) -> UiModel {
        UiModel {
            workspace: self.workspace,
            score_pane_count: self.score_pane_count,
            open_score_parts: self.open_score_parts@.map_values(|s: String| s@),
            active_score_pane: self.active_score_pane,
            score_arrangement_visible: self.score_arrangement_visible,
        }
    }
}

impl Default for UiState {
    fn default() -> (r: Self)
        ensures
            r@ == (UiModel {
                workspace: WorkspaceSectionKind::Score,
                score_pane_count: 1,
                open_score_parts: Seq::empty(),
                active_score_pane: 0,
                score_arrangement_visible: true,
            }),
    {
        let r = UiState {
            workspace: WorkspaceSectionKind::Score,
            score_pane_count: 1,
            open_score_parts: Vec::new(),
            active_score_pane: 0,
            score_arrangement_visible: true,
        };
        assert(r@.open_score_parts =~= Seq::<Seq<char>>::empty());
        r
    }
}

/// The number of score panes a saved layout asks for, kept between one and three.
pub open spec fn pane_count(asked: usize) -> int {
    if asked < 1 {
        1
    } else if asked > 3 {
        3
    } else {
        asked as int
    }
}

/// The part that pane `i` shows: the part that the saved layout names for it, spelled as the
/// project spells it, else the project's first part.
pub open spec fn restored_pane(parts: Seq<crate::part::PartModel>, saved: Seq<Seq<char>>, i: int) -> Option<Seq<char>> {
    let named = if i < saved.len() {
        match first_match(part_names(parts), saved[i]) {
            Some(k) => Some(parts[k].name),
            None => None,
        }
    } else {
        None
    };
    match named {
        Some(n) => Some(n),
        None => if parts.len() > 0 {
            Some(parts[0].name)
        } else {
            None
        },
    }
}

/// The layout that a session restores from a saved one, as it saves it again: the panes
/// kept between one and three, each showing the part it names or the first part, and the
/// active pane kept among them.
pub open spec fn restored_ui(saved: UiModel, parts: Seq<crate::part::PartModel>) -> UiModel {
    let count = pane_count(saved.score_pane_count);
    UiModel {
        workspace: saved.workspace,
        score_pane_count: count as usize,
        open_score_parts: if parts.len() == 0 {
            Seq::empty()
        } else {
            Seq::new(count as nat, |i: int| restored_pane(parts, saved.open_score_parts, i)->0)
        },
        active_score_pane: if saved.active_score_pane < count {
            saved.active_score_pane
        } else {
            (count - 1) as usize
        },
        score_arrangement_visible: saved.score_arrangement_visible,
    }
}

/// Restores a saved layout against the project's parts.
pub fn restore_ui_state(saved: &UiState, parts: &Vec<Part>) -> (r: UiState)
    ensures
        r@ == restored_ui(saved@, parts_view(parts@)),
{
    let ghost ps = parts_view(parts@);
    let asked = saved.score_pane_count;
    let count: usize = if asked < 1 {
        1
    } else if asked > 3 {
        3
    } else {
        asked
    };
    let mut open: Vec<String> = Vec::new();
    if parts.len() > 0 {
        for i in 0..count
            invariant
                parts@.len() > 0,
                ps == parts_view(parts@),
                open@.len() == i,
                forall|j: int| 0 <= j < i ==> (#[trigger] open@[j])@ == restored_pane(
                    ps,
                    saved@.open_score_parts,
                    j,
                )->0,
        {
            let named: Option<usize> = if i < saved.open_score_parts.len() {
                find_part(parts, &PartName::new(saved.open_score_parts[i].as_str()))
            } else {
                None
            };
            let k = match named {
                Some(k) => k,
                None => 0,
            };
            assert(ps[k as int] == parts@[k as int]@);
            open.push(parts[k].name.as_str().to_owned());
        }
    }
    let active = if saved.active_score_pane < count {
        saved.active_score_pane
    } else {
        count - 1
    };
    let r = UiState {
        workspace: saved.workspace,
        score_pane_count: count,
        open_score_parts: open,
        active_score_pane: active,
        score_arrangement_visible: saved.score_arrangement_visible,
    };
    assert(r@.open_score_parts =~= restored_ui(saved@, ps).open_score_parts);
    r
}

} // verus!
