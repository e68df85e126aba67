//! The status line of a project session: the most pressing thing to tell the player about
//! the workspace, the open scores and playback, and what clicking it does.
use vstd::prelude::*;

use crate::document::{IssueModel, ParseIssue, issues_view};
use crate::part::PartName;
use crate::score_document::SaveState;
use crate::text::{
    decimal, eq_ignore_ascii_case, first_match, lemma_first_match, lemma_first_match_found,
    push_decimal, push_str,
};

verus! {

/// What plays: the whole arrangement, or one part.
#[derive(Debug)]
pub enum PlaybackTarget {
    Arrangement,
    Part(PartName),
}

pub enum TargetModel {
    Arrangement,
    Part(Seq<char>),
}

impl View for PlaybackTarget {
    type V = TargetModel;

    open spec fn view(&self) -> TargetModel {
        match self {
            PlaybackTarget::Arrangement => TargetModel::Arrangement,
            PlaybackTarget::Part(name) => TargetModel::Part(name@),
        }
    }
}

impl Clone for PlaybackTarget {
    fn clone(&self) -> (r: Self)
        ensures
            r@ == self@,
    {
        match self {
            PlaybackTarget::Arrangement => PlaybackTarget::Arrangement,
            PlaybackTarget::Part(name) => PlaybackTarget::Part(name.clone()),
        }
    }
}

/// Why playback could not start.
#[derive(Debug)]
pub enum TransportError {
    Message(String),
    MtsMasterAlreadyActive { message: String, retry_target: PlaybackTarget },
}

pub enum TransportModel {
    Message(Seq<char>),
    MtsMasterAlreadyActive(Seq<char>, TargetModel),
}

impl View for TransportError {
    type V = TransportModel;

    open spec fn view(&self) -> TransportModel {
        match self {
            TransportError::Message(m) => TransportModel::Message(m@),
            TransportError::MtsMasterAlreadyActive { message, retry_target } =>
                TransportModel::MtsMasterAlreadyActive(message@, retry_target@),
        }
    }
}

/// What clicking the status line does.
#[derive(Debug)]
pub enum StatusAction {
    RevealIssue { part_name: PartName, row: usize, column: usize },
    RetryScoreSave,
    ResetMtsEspAndRetry(PlaybackTarget),
}

pub enum ActionModel {
    RevealIssue(Seq<char>, int, int),
    RetryScoreSave,
    ResetMtsEspAndRetry(TargetModel),
}

impl View for StatusAction {
    type V = ActionModel;

    open spec fn view(&self) -> ActionModel {
        match self {
            StatusAction::RevealIssue { part_name, row, column } => ActionModel::RevealIssue(
                part_name@,
                *row as int,
                *column as int,
            ),
            StatusAction::RetryScoreSave => ActionModel::RetryScoreSave,
            StatusAction::ResetMtsEspAndRetry(target) => ActionModel::ResetMtsEspAndRetry(target@),
        }
    }
}

/// The status line: nothing to say, a message, a warning, or an error that clicking may act on.
#[derive(Debug)]
pub enum ProjectStatus {
    Idle,
    Message(String),
    Warning(String),
    Error { message: String, target: Option<StatusAction> },
}

pub enum StatusModel {
    Idle,
    Message(Seq<char>),
    Warning(Seq<char>),
    Error(Seq<char>, Option<ActionModel>),
}

impl View for ProjectStatus {
    type V = StatusModel;

    open spec fn view(&self) -> StatusModel {
        match self {
            ProjectStatus::Idle => StatusModel::Idle,
            ProjectStatus::Message(m) => StatusModel::Message(m@),
            ProjectStatus::Warning(m) => StatusModel::Warning(m@),
            ProjectStatus::Error { message, target } => StatusModel::Error(
                message@,
                match target {
                    Some(a) => Some(a@),
                    None => None,
                },
            ),
        }
    }
}

/// What the status line needs to know of one open score document.
#[derive(Debug)]
pub struct DocumentStatus {
    pub part_name: PartName,
    pub parse_issues: Vec<ParseIssue>,
    pub last_save_error: Option<String>,
    pub dirty: bool,
    pub save_state: SaveState,
}

pub struct DocModel {
    pub part_name: Seq<char>,
    pub issues: Seq<IssueModel>,
    pub save_error: Option<Seq<char>>,
    pub dirty: bool,
    pub save_state: SaveState,
}

/// The text of an optional string.
pub open spec fn opt_text(o: Option<String>) -> Option<Seq<char>> {
    match o {
        Some(s) => Some(s@),
        None => None,
    }
}

impl View for DocumentStatus {
    type V = DocModel;

    open spec fn view(&self) -> DocModel {
        DocModel {
            part_name: self.part_name@,
            issues: issues_view(self.parse_issues@),
            save_error: opt_text(self.last_save_error),
            dirty: self.dirty,
            save_state: self.save_state,
        }
    }
}

pub open spec fn docs_view(v: Seq<DocumentStatus>) -> Seq<DocModel> {
    v.map_values(|d: DocumentStatus| d@)
}

/// The issues of a document, each with the name of its part.
pub open spec fn named_issues(d: DocModel) -> Seq<(Seq<char>, IssueModel)> {
    d.issues.map_values(|i: IssueModel| (d.part_name, i))
}

/// The issues of all the documents, in order, each with the name of its part.
pub open spec fn all_issues(docs: Seq<DocModel>) -> Seq<(Seq<char>, IssueModel)>
    decreases docs.len(),
{
    if docs.len() == 0 {
        Seq::empty()
    } else {
        all_issues(docs.drop_last()) + named_issues(docs.last())
    }
}

pub open spec fn issue_parts(issues: Seq<(Seq<char>, IssueModel)>) -> Seq<Seq<char>> {
    issues.map_values(|p: (Seq<char>, IssueModel)| p.0)
}

/// Which issue the status shows: the first one of the active part, else the first one.
pub open spec fn shown_issue(issues: Seq<(Seq<char>, IssueModel)>, active: Option<Seq<char>>) -> int {
    match active {
        Some(a) => match first_match(issue_parts(issues), a) {
            Some(k) => k,
            None => 0,
        },
        None => 0,
    }
}

/// `parse issue`, or the number of issues and `parse issues`.
pub open spec fn issue_count_label(n: nat) -> Seq<char> {
    if n == 1 {
        "parse issue"@
    } else {
        decimal(n) + " parse issues"@
    }
}

/// The status that reports a parse issue of a part, among `n` issues.
pub open spec fn issue_status_text(n: nat, part: Seq<char>, issue: IssueModel) -> Seq<char> {
    issue_count_label(n) + " \u{b7} "@ + part + " \u{b7} beat "@ + decimal((issue.row + 1) as nat)
        + " \u{b7} "@ + issue.voice + ": "@ + issue.message + " \u{b7} click to reveal"@
}

/// The place of the first document whose last save failed.
pub open spec fn first_save_error(docs: Seq<DocModel>) -> Option<int>
    decreases docs.len(),
{
    if docs.len() == 0 {
        None
    } else {
        match first_save_error(docs.drop_last()) {
            Some(i) => Some(i),
            None => if docs.last().save_error is Some {
                Some(docs.len() - 1)
            } else {
                None
            },
        }
    }
}

/// The number of documents with unsaved changes.
pub open spec fn dirty_count(docs: Seq<DocModel>) -> nat
    decreases docs.len(),
{
    if docs.len() == 0 {
        0
    } else {
        dirty_count(docs.drop_last()) + if docs.last().dirty {
            1nat
        } else {
            0nat
        }
    }
}

/// Some document with unsaved changes is in the save state `s`.
pub open spec fn dirty_in_state(docs: Seq<DocModel>, s: SaveState) -> bool {
    exists|i: int| 0 <= i < docs.len() && (#[trigger] docs[i]).dirty && docs[i].save_state == s
}

/// Some document has just been saved.
pub open spec fn any_saved(docs: Seq<DocModel>) -> bool {
    exists|i: int| 0 <= i < docs.len() && (#[trigger] docs[i]).save_state == SaveState::Saved
}

/// The warning about unsaved changes: being saved after a recovery, being saved, kept in
/// a recovery file, or only unsaved; for one document or for several.
pub open spec fn unsaved_text(docs: Seq<DocModel>) -> Seq<char> {
    let n = dirty_count(docs);
    if dirty_in_state(docs, SaveState::SavingRecovered) {
        "saving recovered score changes\u{2026}"@
    } else if dirty_in_state(docs, SaveState::Saving) {
        if n == 1 {
            "saving score changes\u{2026}"@
        } else {
            "saving score changes in "@ + decimal(n) + " parts\u{2026}"@
        }
    } else if dirty_in_state(docs, SaveState::RecoverySaved) {
        if n == 1 {
            "score recovery saved"@
        } else {
            "score recovery saved for "@ + decimal(n) + " parts"@
        }
    } else if n == 1 {
        "unsaved score changes"@
    } else {
        "unsaved score changes in "@ + decimal(n) + " parts"@
    }
}

/// The status that reports a playback failure.
pub open spec fn transport_status(t: TransportModel) -> StatusModel {
    match t {
        TransportModel::Message(m) => StatusModel::Error(m, None),
        TransportModel::MtsMasterAlreadyActive(m, target) => StatusModel::Error(
            m + " \u{b7} reset only if no other tuning master should be active"@,
            Some(ActionModel::ResetMtsEspAndRetry(target)),
        ),
    }
}

/// The status of a session, most pressing first: a workspace error, a parse issue, a failed
/// save, a playback failure, unsaved changes, a finished save, or nothing.
pub open spec fn status_of(
    workspace_error: Option<Seq<char>>,
    docs: Seq<DocModel>,
    active: Option<Seq<char>>,
    transport: Option<TransportModel>,
) -> StatusModel {
    let issues = all_issues(docs);
    match workspace_error {
        Some(m) => StatusModel::Error(m, None),
        None => if issues.len() > 0 {
            let (part, issue) = issues[shown_issue(issues, active)];
            StatusModel::Error(
                issue_status_text(issues.len(), part, issue),
                Some(ActionModel::RevealIssue(part, issue.row, issue.column)),
            )
        } else {
            match first_save_error(docs) {
                Some(j) => StatusModel::Error(
                    docs[j].part_name + ": "@ + docs[j].save_error->0 + " \u{b7} click to retry"@,
                    Some(ActionModel::RetryScoreSave),
                ),
                None => match transport {
                    Some(t) => transport_status(t),
                    None => if dirty_count(docs) > 0 {
                        StatusModel::Warning(unsaved_text(docs))
                    } else if any_saved(docs) {
                        StatusModel::Message("score changes saved"@)
                    } else {
                        StatusModel::Idle
                    },
                },
            }
        },
    }
}

pub open spec fn flat_view(v: Seq<(PartName, ParseIssue)>) -> Seq<(Seq<char>, IssueModel)> {
    v.map_values(|p: (PartName, ParseIssue)| (p.0@, p.1@))
}

/// The issues of all the documents, each with the name of its part.
fn collect_issues(documents: &Vec<DocumentStatus>) -> (r: Vec<(PartName, ParseIssue)>)
    ensures
        flat_view(r@) == all_issues(docs_view(documents@)),
{
    let ghost docs = docs_view(documents@);
    let mut flat: Vec<(PartName, ParseIssue)> = Vec::new();
    let n = documents.len();
    assert(docs.take(0) =~= Seq::<DocModel>::empty());
    for i in 0..n
        invariant
            n == documents@.len(),
            docs == docs_view(documents@),
            flat_view(flat@) == all_issues(docs.take(i as int)),
    {
        let document = &documents[i];
        let ghost d = docs[i as int];
        assert(d == document@);
        let ghost start = flat_view(flat@);
        let m = document.parse_issues.len();
        assert(named_issues(d).take(0) =~= Seq::<(Seq<char>, IssueModel)>::empty());
        for j in 0..m
            invariant
                m == document.parse_issues@.len(),
                d == document@,
                flat_view(flat@) == start + named_issues(d).take(j as int),
        {
            let ghost before = flat_view(flat@);
            let name = document.part_name.clone();
            let issue = document.parse_issues[j].clone();
            flat.push((name, issue));
            assert(flat_view(flat@) =~= before.push((d.part_name, d.issues[j as int])));
            assert(named_issues(d).take(j + 1) =~= named_issues(d).take(j as int).push(
                (d.part_name, d.issues[j as int]),
            ));
        }
        assert(named_issues(d).take(m as int) =~= named_issues(d));
        assert(docs.take(i + 1).drop_last() =~= docs.take(i as int));
        assert(docs.take(i + 1).last() == d);
    }
    assert(docs.take(n as int) =~= docs);
    flat
}

/// Which of the collected issues the status shows.
fn choose_issue(flat: &Vec<(PartName, ParseIssue)>, active_part: &Option<PartName>) -> (r: usize)
    requires
        flat@.len() > 0,
    ensures
        r == shown_issue(
            flat_view(flat@),
            match active_part {
                Some(a) => Some(a@),
                None => None,
            },
        ),
        r < flat@.len(),
{
    let active = match active_part {
        Some(a) => a,
        None => {
            return 0;
        },
    };
    let ghost names = issue_parts(flat_view(flat@));
    let n = flat.len();
    for k in 0..n
        invariant
            n == flat@.len(),
            *active_part == Some(*active),
            names == issue_parts(flat_view(flat@)),
            forall|j: int| 0 <= j < k ==> !eq_ignore_ascii_case(#[trigger] names[j], active@),
    {
        assert(names[k as int] == flat@[k as int].0@);
        if flat[k].0.eq_ignore_ascii_case(active) {
            proof {
                lemma_first_match(names, active@, k as int);
            }
            return k;
        }
    }
    proof {
        lemma_first_match_found(names, active@);
    }
    0
}

/// The status that reports one of the collected issues.
fn issue_status(flat: &Vec<(PartName, ParseIssue)>, k: usize) -> (r: ProjectStatus)
    requires
        k < flat@.len(),
    ensures
        r@ == StatusModel::Error(
            issue_status_text(flat@.len() as nat, flat_view(flat@)[k as int].0, flat_view(flat@)[k as int].1),
            Some(
                ActionModel::RevealIssue(
                    flat_view(flat@)[k as int].0,
                    flat_view(flat@)[k as int].1.row,
                    flat_view(flat@)[k as int].1.column,
                ),
            ),
        ),
{
    let count = flat.len();
    let part_name = &flat[k].0;
    let issue = &flat[k].1;
    let mut message = String::new();
    if count == 1 {
        push_str(&mut message, "parse issue");
    } else {
        push_decimal(&mut message, count as u128);
        push_str(&mut message, " parse issues");
    }
    push_str(&mut message, " \u{b7} ");
    push_str(&mut message, part_name.as_str());
    push_str(&mut message, " \u{b7} beat ");
    push_decimal(&mut message, issue.row as u128 + 1);
    push_str(&mut message, " \u{b7} ");
    push_str(&mut message, issue.voice.as_str());
    push_str(&mut message, ": ");
    push_str(&mut message, issue.message.as_str());
    push_str(&mut message, " \u{b7} click to reveal");
    assert(message@ =~= issue_status_text(count as nat, part_name@, issue@));
    ProjectStatus::Error {
        message,
        target: Some(
            StatusAction::RevealIssue { part_name: part_name.clone(), row: issue.row, column: issue.column },
        ),
    }
}

/// The place of the first document whose last save failed.
fn find_save_error(documents: &Vec<DocumentStatus>) -> (r: Option<usize>)
    ensures
        r matches Some(j) ==> j < documents@.len() && first_save_error(docs_view(documents@)) == Some(
            j as int,
        ),
        r is None ==> first_save_error(docs_view(documents@)) is None,
{
    let ghost docs = docs_view(documents@);
    let n = documents.len();
    assert(docs.take(0) =~= Seq::<DocModel>::empty());
    for i in 0..n
        invariant
            n == documents@.len(),
            docs == docs_view(documents@),
            first_save_error(docs.take(i as int)) is None,
    {
        assert(docs.take(i + 1).drop_last() =~= docs.take(i as int));
        assert(docs.take(i + 1).last() == documents@[i as int]@);
        if documents[i].last_save_error.is_some() {
            proof {
                lemma_first_save_error_stays(docs, i + 1, n as int);
                assert(docs.take(n as int) =~= docs);
            }
            return Some(i);
        }
    }
    assert(docs.take(n as int) =~= docs);
    None
}

/// The first failed save is a failed save.
proof fn lemma_first_save_error_found(docs: Seq<DocModel>)
    ensures
        first_save_error(docs) matches Some(j) ==> 0 <= j < docs.len() && docs[j].save_error is Some,
    decreases docs.len(),
{
    if docs.len() > 0 {
        lemma_first_save_error_found(docs.drop_last());
    }
}

proof fn lemma_first_save_error_stays(docs: Seq<DocModel>, k: int, m: int)
    requires
        0 <= k <= m <= docs.len(),
        first_save_error(docs.take(k)) is Some,
    ensures
        first_save_error(docs.take(m)) == first_save_error(docs.take(k)),
    decreases m - k,
{
    if k < m {
        assert(docs.take(k + 1).drop_last() =~= docs.take(k));
        lemma_first_save_error_stays(docs, k + 1, m);
    }
}

/// The status that reports a failed save of document `j`.
fn save_error_status(documents: &Vec<DocumentStatus>, j: usize) -> (r: ProjectStatus)
    requires
        j < documents@.len(),
        documents@[j as int].last_save_error is Some,
    ensures
        r@ == StatusModel::Error(
            documents@[j as int].part_name@ + ": "@ + documents@[j as int].last_save_error->0@
                + " \u{b7} click to retry"@,
            Some(ActionModel::RetryScoreSave),
        ),
{
    let document = &documents[j];
    let mut message = document.part_name.as_str().to_owned();
    push_str(&mut message, ": ");
    match &document.last_save_error {
        Some(error) => push_str(&mut message, error.as_str()),
        None => {},
    }
    push_str(&mut message, " \u{b7} click to retry");
    ProjectStatus::Error { message, target: Some(StatusAction::RetryScoreSave) }
}

/// The status that reports a playback failure.
fn transport_error_status(error: &TransportError) -> (r: ProjectStatus)
    ensures
        r@ == transport_status(error@),
{
    match error {
        TransportError::Message(message) => ProjectStatus::Error { message: message.clone(), target: None },
        TransportError::MtsMasterAlreadyActive { message, retry_target } => {
            let mut text = message.clone();
            push_str(&mut text, " \u{b7} reset only if no other tuning master should be active");
            ProjectStatus::Error {
                message: text,
                target: Some(StatusAction::ResetMtsEspAndRetry(retry_target.clone())),
            }
        },
    }
}

/// What the documents' saving looks like: how many have unsaved changes, which save states
/// those are in, and whether any has just been saved.
struct SaveSummary {
    dirty: usize,
    saving_recovered: bool,
    saving: bool,
    recovery_saved: bool,
    saved: bool,
}

fn summarize_saves(documents: &Vec<DocumentStatus>) -> (r: SaveSummary)
    ensures
        r.dirty == dirty_count(docs_view(documents@)),
        r.saving_recovered == dirty_in_state(docs_view(documents@), SaveState::SavingRecovered),
        r.saving == dirty_in_state(docs_view(documents@), SaveState::Saving),
        r.recovery_saved == dirty_in_state(docs_view(documents@), SaveState::RecoverySaved),
        r.saved == any_saved(docs_view(documents@)),
{
    let ghost docs = docs_view(documents@);
    let mut summary = SaveSummary {
        dirty: 0,
        saving_recovered: false,
        saving: false,
        recovery_saved: false,
        saved: false,
    };
    let n = documents.len();
    assert(docs.take(0) =~= Seq::<DocModel>::empty());
    for i in 0..n
        invariant
            n == documents@.len(),
            docs == docs_view(documents@),
            summary.dirty == dirty_count(docs.take(i as int)),
            summary.dirty <= i,
            summary.saving_recovered == dirty_in_state(docs.take(i as int), SaveState::SavingRecovered),
            summary.saving == dirty_in_state(docs.take(i as int), SaveState::Saving),
            summary.recovery_saved == dirty_in_state(docs.take(i as int), SaveState::RecoverySaved),
            summary.saved == any_saved(docs.take(i as int)),
    {
        let ghost pre = docs.take(i as int);
        let ghost next = docs.take(i + 1);
        assert(next.drop_last() =~= pre);
        assert(next.last() == documents@[i as int]@);
        assert(forall|j: int| 0 <= j < i ==> next[j] == pre[j]);
        let document = &documents[i];
        if document.dirty {
            summary.dirty = summary.dirty + 1;
            if document.save_state == SaveState::SavingRecovered {
                summary.saving_recovered = true;
            }
            if document.save_state == SaveState::Saving {
                summary.saving = true;
            }
            if document.save_state == SaveState::RecoverySaved {
                summary.recovery_saved = true;
            }
        }
        if document.save_state == SaveState::Saved {
            summary.saved = true;
        }
        proof {
            assert(next[i as int] == documents@[i as int]@);
            if summary.saving_recovered != dirty_in_state(next, SaveState::SavingRecovered) {
                if summary.saving_recovered {
                    assert(!dirty_in_state(next, SaveState::SavingRecovered));
                    if dirty_in_state(pre, SaveState::SavingRecovered) {
                        let w = choose|w: int| 0 <= w < pre.len() && (#[trigger] pre[w]).dirty
                            && pre[w].save_state == SaveState::SavingRecovered;
                        assert(next[w] == pre[w]);
                    }
                } else {
                    let w = choose|w: int| 0 <= w < next.len() && (#[trigger] next[w]).dirty
                        && next[w].save_state == SaveState::SavingRecovered;
                    if w < i {
                        assert(pre[w] == next[w]);
                    }
                }
            }
            if summary.saving != dirty_in_state(next, SaveState::Saving) {
                if summary.saving {
                    if dirty_in_state(pre, SaveState::Saving) {
                        let w = choose|w: int| 0 <= w < pre.len() && (#[trigger] pre[w]).dirty
                            && pre[w].save_state == SaveState::Saving;
                        assert(next[w] == pre[w]);
                    }
                } else {
                    let w = choose|w: int| 0 <= w < next.len() && (#[trigger] next[w]).dirty
                        && next[w].save_state == SaveState::Saving;
                    if w < i {
                        assert(pre[w] == next[w]);
                    }
                }
            }
            if summary.recovery_saved != dirty_in_state(next, SaveState::RecoverySaved) {
                if summary.recovery_saved {
                    if dirty_in_state(pre, SaveState::RecoverySaved) {
                        let w = choose|w: int| 0 <= w < pre.len() && (#[trigger] pre[w]).dirty
                            && pre[w].save_state == SaveState::RecoverySaved;
                        assert(next[w] == pre[w]);
                    }
                } else {
                    let w = choose|w: int| 0 <= w < next.len() && (#[trigger] next[w]).dirty
                        && next[w].save_state == SaveState::RecoverySaved;
                    if w < i {
                        assert(pre[w] == next[w]);
                    }
                }
            }
            if summary.saved != any_saved(next) {
                if summary.saved {
                    if any_saved(pre) {
                        let w = choose|w: int| 0 <= w < pre.len() && (#[trigger] pre[w]).save_state
                            == SaveState::Saved;
                        assert(next[w] == pre[w]);
                    }
                } else {
                    let w = choose|w: int| 0 <= w < next.len() && (#[trigger] next[w]).save_state
                        == SaveState::Saved;
                    if w < i {
                        assert(pre[w] == next[w]);
                    }
                }
            }
        }
    }
    assert(docs.take(n as int) =~= docs);
    summary
}

/// The warning about unsaved changes, from the summary of the documents' saving.
fn unsaved_warning(summary: &SaveSummary, Ghost(docs): Ghost<Seq<DocModel>>) -> (r: String)
    requires
        summary.dirty == dirty_count(docs),
        summary.saving_recovered == dirty_in_state(docs, SaveState::SavingRecovered),
        summary.saving == dirty_in_state(docs, SaveState::Saving),
        summary.recovery_saved == dirty_in_state(docs, SaveState::RecoverySaved),
    ensures
        r@ == unsaved_text(docs),
{
    let n = summary.dirty;
    if summary.saving_recovered {
        "saving recovered score changes\u{2026}".to_owned()
    } else if summary.saving {
        if n == 1 {
            "saving score changes\u{2026}".to_owned()
        } else {
            let mut text = "saving score changes in ".to_owned();
            push_decimal(&mut text, n as u128);
            push_str(&mut text, " parts\u{2026}");
            text
        }
    } else if summary.recovery_saved {
        if n == 1 {
            "score recovery saved".to_owned()
        } else {
            let mut text = "score recovery saved for ".to_owned();
            push_decimal(&mut text, n as u128);
            push_str(&mut text, " parts");
            text
        }
    } else if n == 1 {
        "unsaved score changes".to_owned()
    } else {
        let mut text = "unsaved score changes in ".to_owned();
        push_decimal(&mut text, n as u128);
        push_str(&mut text, " parts");
        text
    }
}

/// The status of a session: its workspace error, its open documents, the part being
/// edited, and the last playback failure.
pub fn project_status(
    workspace_error: &Option<String>,
    documents: &Vec<DocumentStatus>,
    active_part: &Option<PartName>,
    transport_error: &Option<TransportError>,
) -> (r: ProjectStatus)
    ensures
        r@ == status_of(
            opt_text(*workspace_error),
            docs_view(documents@),
            match active_part {
                Some(a) => Some(a@),
                None => None,
            },
            match transport_error {
                Some(t) => Some(t@),
                None => None,
            },
        ),
{
    if let Some(message) = workspace_error {
        return ProjectStatus::Error { message: message.clone(), target: None };
    }
    let flat = collect_issues(documents);
    if flat.len() > 0 {
        let k = choose_issue(&flat, active_part);
        return issue_status(&flat, k);
    }
    if let Some(j) = find_save_error(documents) {
        proof {
            lemma_first_save_error_found(docs_view(documents@));
            assert(documents@[j as int]@ == docs_view(documents@)[j as int]);
        }
        return save_error_status(documents, j);
    }
    if let Some(error) = transport_error {
        return transport_error_status(error);
    }
    let summary = summarize_saves(documents);
    if summary.dirty > 0 {
        return ProjectStatus::Warning(unsaved_warning(&summary, Ghost(docs_view(documents@))));
    }
    if summary.saved {
        return ProjectStatus::Message("score changes saved".to_owned());
    }
    ProjectStatus::Idle
}

} // verus!
