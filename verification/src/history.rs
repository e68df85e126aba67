//! Undo and redo of project and score changes.
//!
//! A `ProjectState` is a project together with the current and the last saved
//! score of each of its parts. A `ProjectHistory` keeps the current state and
//! two stacks of changes: undoing applies the last change backwards, redoing
//! applies it forwards again.
use vstd::prelude::*;

use crate::part::{Part, PartModel, PartName, PartScore, row_view, rows_view};
use crate::project::{Project, ProjectModel, part_names};
use crate::score::{EditModel, ScoreCellEdit, reversed_edit};
use crate::text::{
    debug_quoted, debug_text, decimal, eq_ignore_ascii_case, first_match, lemma_first_match,
    lemma_first_match_found, push_char, push_decimal, push_str,
};

verus! {

/// The most changes that undo can go back through.
pub const MAX_CHANGES: usize = 100;

/// A grid of score cells, as text.
pub type Grid = Seq<Seq<Seq<char>>>;

/// The current score of a part and the score that was last saved for it.
#[derive(Debug, PartialEq, Eq)]
pub struct ScoreContent {
    pub score: PartScore,
    pub saved_score: PartScore,
}

pub struct ContentModel {
    pub score: Grid,
    pub saved: Grid,
}

impl View for ScoreContent {
    type V = ContentModel;

    open spec fn view(&self) -> ContentModel {
        ContentModel { score: self.score@, saved: self.saved_score@ }
    }
}

impl Clone for ScoreContent {
    fn clone(&self) -> (r: Self)
        ensures
            r@ == self@,
    {
        ScoreContent { score: self.score.clone(), saved_score: self.saved_score.clone() }
    }
}

impl ScoreContent {
    pub fn equals(&self, other: &ScoreContent) -> (r: bool)
        ensures
            r == (self@ == other@),
    {
        scores_equal(&self.score, &other.score) && scores_equal(
            &self.saved_score,
            &other.saved_score,
        )
    }
}

/// Compares two rows of cells.
fn rows_equal(a: &Vec<String>, b: &Vec<String>) -> (r: bool)
    ensures
        r == (row_view(*a) == row_view(*b)),
{
    if a.len() != b.len() {
        assert(row_view(*a).len() != row_view(*b).len());
        return false;
    }
    let n = a.len();
    for i in 0..n
        invariant
            n == a@.len(),
            n == b@.len(),
            forall|j: int| 0 <= j < i ==> (#[trigger] a@[j])@ == b@[j]@,
    {
        if a[i] != b[i] {
            assert(row_view(*a)[i as int] != row_view(*b)[i as int]);
            return false;
        }
    }
    assert(row_view(*a) =~= row_view(*b));
    true
}

/// Compares two scores cell by cell.
pub fn scores_equal(a: &PartScore, b: &PartScore) -> (r: bool)
    ensures
        r == (a@ == b@),
{
    let x = a.rows();
    let y = b.rows();
    if x.len() != y.len() {
        assert(rows_view(x@).len() != rows_view(y@).len());
        return false;
    }
    let n = x.len();
    for i in 0..n
        invariant
            n == x@.len(),
            n == y@.len(),
            rows_view(x@) == a@,
            rows_view(y@) == b@,
            forall|j: int| 0 <= j < i ==> row_view(#[trigger] x@[j]) == row_view(y@[j]),
    {
        if !rows_equal(&x[i], &y[i]) {
            assert(rows_view(x@)[i as int] != rows_view(y@)[i as int]);
            return false;
        }
    }
    assert(rows_view(x@) =~= rows_view(y@));
    true
}

/// The score content recorded for one part of a state.
#[derive(Debug, PartialEq, Eq)]
pub struct ScoreState {
    pub part_name: PartName,
    pub content: ScoreContent,
}

pub struct EntryModel {
    pub name: Seq<char>,
    pub content: ContentModel,
}

impl View for ScoreState {
    type V = EntryModel;

    open spec fn view(&self) -> EntryModel {
        EntryModel { name: self.part_name@, content: self.content@ }
    }
}

impl Clone for ScoreState {
    fn clone(&self) -> (r: Self)
        ensures
            r@ == self@,
    {
        ScoreState { part_name: self.part_name.clone(), content: self.content.clone() }
    }
}

pub open spec fn entries_view(v: Seq<ScoreState>) -> Seq<EntryModel> {
    v.map_values(|e: ScoreState| e@)
}

pub open spec fn entry_names(s: Seq<EntryModel>) -> Seq<Seq<char>> {
    s.map_values(|e: EntryModel| e.name)
}

/// The index of the first entry whose part name matches `name` without regard to ASCII case.
pub open spec fn entry_index(s: Seq<EntryModel>, name: Seq<char>) -> Option<int> {
    first_match(entry_names(s), name)
}

/// Copies a list of score entries.
pub fn copy_entries(v: &Vec<ScoreState>) -> (r: Vec<ScoreState>)
    ensures
        entries_view(r@) == entries_view(v@),
{
    let mut r: Vec<ScoreState> = Vec::new();
    let n = v.len();
    for i in 0..n
        invariant
            n == v@.len(),
            r@.len() == i,
            forall|j: int| 0 <= j < i ==> (#[trigger] r@[j])@ == v@[j]@,
    {
        r.push(v[i].clone());
    }
    assert(entries_view(r@) =~= entries_view(v@));
    r
}

/// Finds the first entry whose part name matches `name` without regard to ASCII case.
pub fn find_entry(scores: &Vec<ScoreState>, name: &PartName) -> (r: Option<usize>)
    ensures
        match entry_index(entries_view(scores@), name@) {
            Some(i) => 0 <= i < scores@.len() && (r matches Some(j) && j as int == i),
            None => r is None,
        },
{
    let n = scores.len();
    let ghost names = entry_names(entries_view(scores@));
    for i in 0..n
        invariant
            n == scores@.len(),
            names == entry_names(entries_view(scores@)),
            forall|j: int| 0 <= j < i ==> !eq_ignore_ascii_case(#[trigger] names[j], name@),
    {
        if scores[i].part_name.eq_ignore_ascii_case(name) {
            proof {
                lemma_first_match(names, name@, i as int);
            }
            return Some(i);
        }
    }
    proof {
        lemma_first_match_found(names, name@);
    }
    None
}

/// Why a history operation failed.
#[derive(Debug)]
pub enum HistoryError {
    MissingScore(PartName),
    MissingPart(PartName),
    CellOutside { part_name: PartName, row: usize, column: usize },
    CellMismatch { part_name: PartName, row: usize, column: usize, expected: String, found: String },
    ProjectMismatch,
    ScoreMismatch(PartName),
    RecordFailed { part_name: PartName, message: String },
}

pub enum Fault {
    MissingScore(Seq<char>),
    MissingPart(Seq<char>),
    CellOutside(Seq<char>, usize, usize),
    CellMismatch(Seq<char>, usize, usize, Seq<char>, Seq<char>),
    ProjectMismatch,
    ScoreMismatch(Seq<char>),
    RecordFailed(Seq<char>, Seq<char>),
}

impl View for HistoryError {
    type V = Fault;

    open spec fn view(&self) -> Fault {
        match self {
            HistoryError::MissingScore(n) => Fault::MissingScore(n@),
            HistoryError::MissingPart(n) => Fault::MissingPart(n@),
            HistoryError::CellOutside { part_name, row, column } => Fault::CellOutside(
                part_name@,
                *row,
                *column,
            ),
            HistoryError::CellMismatch { part_name, row, column, expected, found } =>
                Fault::CellMismatch(part_name@, *row, *column, expected@, found@),
            HistoryError::ProjectMismatch => Fault::ProjectMismatch,
            HistoryError::ScoreMismatch(n) => Fault::ScoreMismatch(n@),
            HistoryError::RecordFailed { part_name, message } => Fault::RecordFailed(
                part_name@,
                message@,
            ),
        }
    }
}

/// `1`-based position of a cell, as `row:column`.
pub open spec fn cell_position_text(row: usize, column: usize) -> Seq<char> {
    decimal((row + 1) as nat) + seq![':'] + decimal((column + 1) as nat)
}

/// The message that describes a history failure, with part names and cell texts quoted as
/// `{:?}` quotes them and cell positions counted from one.
pub open spec fn fault_text(f: Fault) -> Seq<char> {
    match f {
        Fault::MissingScore(n) => "history has no score for part "@ + debug_text(n),
        Fault::MissingPart(n) => "history has no part "@ + debug_text(n),
        Fault::CellOutside(n, row, column) => "history cell "@ + cell_position_text(row, column)
            + " is outside part "@ + debug_text(n),
        Fault::CellMismatch(n, row, column, expected, found) => "history expected cell "@
            + cell_position_text(row, column) + " in part "@ + debug_text(n) + " to contain "@
            + debug_text(expected) + ", but found "@ + debug_text(found),
        Fault::ProjectMismatch => "project history no longer matches the current project"@,
        Fault::ScoreMismatch(n) => "score history no longer matches part "@ + debug_text(n),
        Fault::RecordFailed(n, message) => "couldn't record score history for part "@
            + debug_text(n) + ": "@ + message,
    }
}

fn push_cell_position(s: &mut String, row: usize, column: usize)
    ensures
        final(s)@ == old(s)@ + cell_position_text(row, column),
{
    push_decimal(s, row as u128 + 1);
    push_char(s, ':');
    push_decimal(s, column as u128 + 1);
    assert(final(s)@ =~= old(s)@ + cell_position_text(row, column));
}

impl HistoryError {
    /// The message that describes this failure.
    pub fn message(&self) -> (r: String)
        ensures
            r@ == fault_text(self@),
    {
        let mut text = String::new();
        match self {
            HistoryError::MissingScore(n) => {
                push_str(&mut text, "history has no score for part ");
                push_str(&mut text, debug_quoted(n.as_str()).as_str());
            },
            HistoryError::MissingPart(n) => {
                push_str(&mut text, "history has no part ");
                push_str(&mut text, debug_quoted(n.as_str()).as_str());
            },
            HistoryError::CellOutside { part_name, row, column } => {
                push_str(&mut text, "history cell ");
                push_cell_position(&mut text, *row, *column);
                push_str(&mut text, " is outside part ");
                push_str(&mut text, debug_quoted(part_name.as_str()).as_str());
            },
            HistoryError::CellMismatch { part_name, row, column, expected, found } => {
                push_str(&mut text, "history expected cell ");
                push_cell_position(&mut text, *row, *column);
                push_str(&mut text, " in part ");
                push_str(&mut text, debug_quoted(part_name.as_str()).as_str());
                push_str(&mut text, " to contain ");
                push_str(&mut text, debug_quoted(expected.as_str()).as_str());
                push_str(&mut text, ", but found ");
                push_str(&mut text, debug_quoted(found.as_str()).as_str());
            },
            HistoryError::ProjectMismatch => {
                push_str(&mut text, "project history no longer matches the current project");
            },
            HistoryError::ScoreMismatch(n) => {
                push_str(&mut text, "score history no longer matches part ");
                push_str(&mut text, debug_quoted(n.as_str()).as_str());
            },
            HistoryError::RecordFailed { part_name, message } => {
                push_str(&mut text, "couldn't record score history for part ");
                push_str(&mut text, debug_quoted(part_name.as_str()).as_str());
                push_str(&mut text, ": ");
                push_str(&mut text, message.as_str());
            },
        }
        proof {
            reveal_strlit("history has no score for part ");
            reveal_strlit("history has no part ");
            reveal_strlit("history cell ");
            reveal_strlit(" is outside part ");
            reveal_strlit("history expected cell ");
            reveal_strlit(" in part ");
            reveal_strlit(" to contain ");
            reveal_strlit(", but found ");
            reveal_strlit("project history no longer matches the current project");
            reveal_strlit("score history no longer matches part ");
            reveal_strlit("couldn't record score history for part ");
            reveal_strlit(": ");
            assert(text@ =~= fault_text(self@));
        }
        text
    }
}

pub open spec fn fault_of<T>(r: Result<T, HistoryError>) -> Fault
    recommends
        r is Err,
{
    match r {
        Err(e) => e@,
        Ok(_) => Fault::ProjectMismatch,
    }
}

/// A project with the score content of each of its parts.
#[derive(Debug)]
pub struct ProjectState {
    pub project: Project,
    scores: Vec<ScoreState>,
}

pub struct StateModel {
    pub project: ProjectModel,
    pub scores: Seq<EntryModel>,
}

impl View for ProjectState {
    type V = StateModel;

    closed spec fn view(&self) -> StateModel {
        StateModel { project: self.project@, scores: entries_view(self.scores@) }
    }
}

impl Clone for ProjectState {
    fn clone(&self) -> (r: Self)
        ensures
            r@ == self@,
    {
        ProjectState { project: self.project.clone(), scores: copy_entries(&self.scores) }
    }
}

/// The state with the content of entry `i` replaced; the entry keeps its name.
pub open spec fn with_content(s: StateModel, i: int, c: ContentModel) -> StateModel {
    StateModel {
        project: s.project,
        scores: s.scores.update(i, EntryModel { name: s.scores[i].name, content: c }),
    }
}

/// Replacing the content of the first entry named `name`.
pub open spec fn replaced_score(s: StateModel, name: Seq<char>, c: ContentModel) -> Result<
    StateModel,
    Fault,
> {
    match entry_index(s.scores, name) {
        Some(i) => Ok(with_content(s, i, c)),
        None => Err(Fault::MissingScore(name)),
    }
}

/// Applying a cell edit to a grid: the cell must exist and hold `before`.
pub open spec fn edited_grid(g: Grid, name: Seq<char>, e: EditModel) -> Result<Grid, Fault> {
    if e.row < g.len() && e.column < g[e.row as int].len() {
        if g[e.row as int][e.column as int] == e.before {
            Ok(g.update(e.row as int, g[e.row as int].update(e.column as int, e.after)))
        } else {
            Err(Fault::CellMismatch(name, e.row, e.column, e.before, g[e.row as int][e.column as int]))
        }
    } else {
        Err(Fault::CellOutside(name, e.row, e.column))
    }
}

/// Applying a cell edit to the current score of part `name`, with the given saved score.
pub open spec fn replaced_cell(s: StateModel, name: Seq<char>, e: EditModel, saved: Grid) -> Result<
    StateModel,
    Fault,
> {
    match entry_index(s.scores, name) {
        None => Err(Fault::MissingScore(name)),
        Some(i) => match edited_grid(s.scores[i].content.score, name, e) {
            Err(f) => Err(f),
            Ok(g) => Ok(with_content(s, i, ContentModel { score: g, saved })),
        },
    }
}

/// The entry chosen for a part when a project change is applied: the one among the
/// change's own entries, else the one of the state.
pub open spec fn picked_entry(target: Seq<EntryModel>, current: Seq<EntryModel>, name: Seq<char>) -> Option<
    EntryModel,
> {
    match entry_index(target, name) {
        Some(i) => Some(target[i]),
        None => match entry_index(current, name) {
            Some(j) => Some(current[j]),
            None => None,
        },
    }
}

/// The entries of a state rebuilt for `parts`, in the order of the parts, each renamed
/// to its part's name; the first part without an entry fails.
pub open spec fn rebuilt_entries(
    parts: Seq<PartModel>,
    target: Seq<EntryModel>,
    current: Seq<EntryModel>,
) -> Result<Seq<EntryModel>, Fault>
    decreases parts.len(),
{
    if parts.len() == 0 {
        Ok(Seq::empty())
    } else {
        match rebuilt_entries(parts.drop_last(), target, current) {
            Err(f) => Err(f),
            Ok(v) => match picked_entry(target, current, parts.last().name) {
                None => Err(Fault::MissingScore(parts.last().name)),
                Some(e) => Ok(v.push(EntryModel { name: parts.last().name, content: e.content })),
            },
        }
    }
}

/// An error for a prefix of the parts is the error for every longer prefix.
pub proof fn lemma_rebuilt_error_stays(
    parts: Seq<PartModel>,
    target: Seq<EntryModel>,
    current: Seq<EntryModel>,
    k: int,
    m: int,
)
    requires
        0 <= k <= m <= parts.len(),
        rebuilt_entries(parts.take(k), target, current) is Err,
    ensures
        rebuilt_entries(parts.take(m), target, current) == rebuilt_entries(
            parts.take(k),
            target,
            current,
        ),
    decreases m - k,
{
    if k < m {
        assert(parts.take(k + 1).drop_last() =~= parts.take(k));
        lemma_rebuilt_error_stays(parts, target, current, k + 1, m);
    }
}

/// Moving a state to another project: the state must be on `expected`; the scores
/// follow the parts of `target_project`.
pub open spec fn changed_project(
    s: StateModel,
    expected: ProjectModel,
    target_project: ProjectModel,
    target: Seq<EntryModel>,
) -> Result<StateModel, Fault> {
    if s.project != expected {
        Err(Fault::ProjectMismatch)
    } else {
        match rebuilt_entries(target_project.parts, target, s.scores) {
            Err(f) => Err(f),
            Ok(v) => Ok(StateModel { project: target_project, scores: v }),
        }
    }
}

/// Two states are alike when their projects are equal, they have as many entries,
/// and each entry of the first has the same content in the second.
pub open spec fn states_alike(a: StateModel, b: StateModel) -> bool {
    &&& a.project == b.project
    &&& a.scores.len() == b.scores.len()
    &&& forall|i: int|
        0 <= i < a.scores.len() ==> match entry_index(b.scores, (#[trigger] a.scores[i]).name) {
            Some(j) => b.scores[j].content == a.scores[i].content,
            None => false,
        }
}

impl ProjectState {
    pub fn new_from_project(project: Project) -> (r: Self)
        ensures
            r@ == (StateModel { project: project@, scores: Seq::empty() }),
    {
        let r = ProjectState { project, scores: Vec::new() };
        assert(r@.scores =~= Seq::empty());
        r
    }

    pub fn new(project: Project, scores: Vec<(PartName, PartScore, PartScore)>) -> (r: Self)
        ensures
            r@.project == project@,
            r@.scores.len() == scores@.len(),
            forall|i: int|
                0 <= i < scores@.len() ==> (#[trigger] r@.scores[i]) == (EntryModel {
                    name: scores@[i].0@,
                    content: ContentModel { score: scores@[i].1@, saved: scores@[i].2@ },
                }),
    {
        let mut entries: Vec<ScoreState> = Vec::new();
        let n = scores.len();
        for i in 0..n
            invariant
                n == scores@.len(),
                entries@.len() == i,
                forall|j: int|
                    0 <= j < i ==> (#[trigger] entries@[j])@ == (EntryModel {
                        name: scores@[j].0@,
                        content: ContentModel { score: scores@[j].1@, saved: scores@[j].2@ },
                    }),
        {
            let (name, score, saved) = &scores[i];
            entries.push(
                ScoreState {
                    part_name: name.clone(),
                    content: ScoreContent { score: score.clone(), saved_score: saved.clone() },
                },
            );
        }
        ProjectState { project, scores: entries }
    }

    pub fn score_state(&self, part_name: &PartName) -> (r: Option<&ScoreState>)
        ensures
            match entry_index(self@.scores, part_name@) {
                Some(i) => r matches Some(e) && e@ == self@.scores[i],
                None => r is None,
            },
    {
        assert(self@.scores == entries_view(self.scores@));
        match find_entry(&self.scores, part_name) {
            Some(i) => {
                let e = &self.scores[i];
                assert(e@ == self@.scores[i as int]);
                Some(e)
            },
            None => None,
        }
    }

    pub fn score(&self, part_name: &PartName) -> (r: Option<&PartScore>)
        ensures
            match entry_index(self@.scores, part_name@) {
                Some(i) => r matches Some(s) && s@ == self@.scores[i].content.score,
                None => r is None,
            },
    {
        match self.score_state(part_name) {
            Some(entry) => Some(&entry.content.score),
            None => None,
        }
    }

    pub fn saved_score(&self, part_name: &PartName) -> (r: Option<&PartScore>)
        ensures
            match entry_index(self@.scores, part_name@) {
                Some(i) => r matches Some(s) && s@ == self@.scores[i].content.saved,
                None => r is None,
            },
    {
        match self.score_state(part_name) {
            Some(entry) => Some(&entry.content.saved_score),
            None => None,
        }
    }

    /// Each part name with its current and saved score, in the order of the entries.
    pub fn scores(&self) -> (r: Vec<(&PartName, &PartScore, &PartScore)>)
        ensures
            r@.len() == self@.scores.len(),
            forall|i: int|
                0 <= i < r@.len() ==> (#[trigger] r@[i]).0@ == self@.scores[i].name && r@[i].1@
                    == self@.scores[i].content.score && r@[i].2@ == self@.scores[i].content.saved,
    {
        let mut r: Vec<(&PartName, &PartScore, &PartScore)> = Vec::new();
        let n = self.scores.len();
        for i in 0..n
            invariant
                n == self.scores@.len(),
                r@.len() == i,
                forall|j: int|
                    0 <= j < i ==> (#[trigger] r@[j]).0@ == self@.scores[j].name && r@[j].1@
                        == self@.scores[j].content.score && r@[j].2@
                        == self@.scores[j].content.saved,
        {
            let entry = &self.scores[i];
            r.push((&entry.part_name, &entry.content.score, &entry.content.saved_score));
        }
        r
    }

    pub fn replace_score(&mut self, part_name: &PartName, content: ScoreContent) -> (r: Result<
        (),
        HistoryError,
    >)
        ensures
            match replaced_score(old(self)@, part_name@, content@) {
                Ok(t) => r is Ok && final(self)@ == t,
                Err(f) => r is Err && fault_of(r) == f && final(self)@ == old(self)@,
            },
    {
        match find_entry(&self.scores, part_name) {
            None => Err(HistoryError::MissingScore(part_name.clone())),
            Some(i) => {
                let name = self.scores[i].part_name.clone();
                let ghost c = content@;
                self.scores.set(i, ScoreState { part_name: name, content });
                assert(self@.scores =~= with_content(old(self)@, i as int, c).scores);
                Ok(())
            },
        }
    }

    pub fn replacing_score(&self, part_name: &PartName, content: ScoreContent) -> (r: Result<
        ProjectState,
        HistoryError,
    >)
        ensures
            match replaced_score(self@, part_name@, content@) {
                Ok(t) => r matches Ok(s) && s@ == t,
                Err(f) => r is Err && fault_of(r) == f,
            },
    {
        let mut state = self.clone();
        match state.replace_score(part_name, content) {
            Ok(()) => Ok(state),
            Err(e) => Err(e),
        }
    }

    pub fn replacing_cell(&self, part_name: &PartName, edit: &ScoreCellEdit, saved_score: PartScore) -> (r: Result<
        ProjectState,
        HistoryError,
    >)
        ensures
            match replaced_cell(self@, part_name@, edit@, saved_score@) {
                Ok(t) => r matches Ok(s) && s@ == t,
                Err(f) => r is Err && fault_of(r) == f,
            },
    {
        let current = match self.score_state(part_name) {
            Some(c) => c,
            None => {
                return Err(HistoryError::MissingScore(part_name.clone()));
            },
        };
        let score = apply_score_cell_edit(&current.content.score, part_name, edit)?;
        self.replacing_score(part_name, ScoreContent { score, saved_score })
    }

    pub fn applying_project_change(
        &self,
        expected_project: &Project,
        target_project: Project,
        target_scores: &Vec<ScoreState>,
    ) -> (r: Result<ProjectState, HistoryError>)
        ensures
            match changed_project(self@, expected_project@, target_project@, entries_view(target_scores@)) {
                Ok(t) => r matches Ok(s) && s@ == t,
                Err(f) => r is Err && fault_of(r) == f,
            },
    {
        if !self.project.equals(expected_project) {
            return Err(HistoryError::ProjectMismatch);
        }
        let ghost parts = target_project@.parts;
        let ghost target = entries_view(target_scores@);
        let mut scores: Vec<ScoreState> = Vec::new();
        let n = target_project.parts.len();
        assert(parts.take(0) =~= Seq::<PartModel>::empty());
        assert(entries_view(scores@) =~= Seq::<EntryModel>::empty());
        for i in 0..n
            invariant
                n == parts.len(),
                parts == target_project@.parts,
                self@.project == expected_project@,
                target == entries_view(target_scores@),
                rebuilt_entries(parts.take(i as int), target, self@.scores) == Ok::<
                    Seq<EntryModel>,
                    Fault,
                >(entries_view(scores@)),
        {
            let part_name = &target_project.parts[i].name;
            assert(parts.take(i + 1).drop_last() =~= parts.take(i as int));
            assert(parts.take(i + 1).last() == parts[i as int]);
            let content = match find_entry(target_scores, part_name) {
                Some(k) => target_scores[k].content.clone(),
                None => match find_entry(&self.scores, part_name) {
                    Some(k) => self.scores[k].content.clone(),
                    None => {
                        proof {
                            assert(picked_entry(target, self@.scores, parts[i as int].name) is None);
                            assert(rebuilt_entries(parts.take(i + 1), target, self@.scores) == Err::<Seq<EntryModel>, Fault>(Fault::MissingScore(part_name@)));
                            lemma_rebuilt_error_stays(parts, target, self@.scores, i + 1, n as int);
                            assert(parts.take(n as int) =~= parts);
                        }
                        return Err(HistoryError::MissingScore(part_name.clone()));
                    },
                },
            };
            let ghost before = scores@;
            scores.push(ScoreState { part_name: part_name.clone(), content });
            assert(entries_view(scores@) =~= entries_view(before).push(scores@.last()@));
        }
        assert(parts.take(n as int) =~= parts);
        Ok(ProjectState { project: target_project, scores })
    }
}

impl PartialEq for ProjectState {
    fn eq(&self, other: &Self) -> (r: bool) {
        if !self.project.equals(&other.project) || self.scores.len() != other.scores.len() {
            assert(!states_alike(self@, other@));
            return false;
        }
        let n = self.scores.len();
        for i in 0..n
            invariant
                n == self@.scores.len(),
                forall|j: int|
                    0 <= j < i ==> match entry_index(other@.scores, (#[trigger] self@.scores[j]).name) {
                        Some(k) => other@.scores[k].content == self@.scores[j].content,
                        None => false,
                    },
        {
            let entry = &self.scores[i];
            assert(entry@ == self@.scores[i as int]);
            match other.score_state(&entry.part_name) {
                Some(o) => {
                    if !o.content.equals(&entry.content) {
                        assert(!states_alike(self@, other@));
                        return false;
                    }
                },
                None => {
                    assert(!states_alike(self@, other@));
                    return false;
                },
            }
        }
        assert(states_alike(self@, other@));
        true
    }
}

impl vstd::std_specs::cmp::PartialEqSpecImpl for ProjectState {
    open spec fn obeys_eq_spec() -> bool {
        true
    }

    open spec fn eq_spec(&self, other: &ProjectState) -> bool {
        states_alike(self@, other@)
    }
}

/// One change that the history can undo and redo.
#[derive(Debug)]
pub enum HistoryChange {
    /// One cell of one part's score changed.
    ScoreCell {
        part_name: PartName,
        edit: ScoreCellEdit,
        before_saved_score: PartScore,
        after_saved_score: PartScore,
    },
    /// The rows of one part's score changed.
    ScoreRows { part_name: PartName, before: ScoreContent, after: ScoreContent },
    /// The project changed; only the scores that differ between the two states are kept.
    Project {
        before_project: Project,
        after_project: Project,
        before_scores: Vec<ScoreState>,
        after_scores: Vec<ScoreState>,
    },
}

pub enum ChangeModel {
    ScoreCell { name: Seq<char>, edit: EditModel, before_saved: Grid, after_saved: Grid },
    ScoreRows { name: Seq<char>, before: ContentModel, after: ContentModel },
    Project {
        before_project: ProjectModel,
        after_project: ProjectModel,
        before_scores: Seq<EntryModel>,
        after_scores: Seq<EntryModel>,
    },
}

impl View for HistoryChange {
    type V = ChangeModel;

    open spec fn view(&self) -> ChangeModel {
        match self {
            HistoryChange::ScoreCell { part_name, edit, before_saved_score, after_saved_score } =>
                ChangeModel::ScoreCell {
                name: part_name@,
                edit: edit@,
                before_saved: before_saved_score@,
                after_saved: after_saved_score@,
            },
            HistoryChange::ScoreRows { part_name, before, after } => ChangeModel::ScoreRows {
                name: part_name@,
                before: before@,
                after: after@,
            },
            HistoryChange::Project { before_project, after_project, before_scores, after_scores } =>
                ChangeModel::Project {
                before_project: before_project@,
                after_project: after_project@,
                before_scores: entries_view(before_scores@),
                after_scores: entries_view(after_scores@),
            },
        }
    }
}

/// The score of part `name` must hold `expected`.
pub open spec fn required_score(s: StateModel, name: Seq<char>, expected: ContentModel) -> Result<
    (),
    Fault,
> {
    match entry_index(s.scores, name) {
        None => Err(Fault::MissingScore(name)),
        Some(i) => if s.scores[i].content == expected {
            Ok(())
        } else {
            Err(Fault::ScoreMismatch(name))
        },
    }
}

/// The state before a change, from the state after it.
pub open spec fn applied_backward(c: ChangeModel, s: StateModel) -> Result<StateModel, Fault> {
    match c {
        ChangeModel::ScoreCell { name, edit, before_saved, .. } => replaced_cell(
            s,
            name,
            reversed_edit(edit),
            before_saved,
        ),
        ChangeModel::ScoreRows { name, before, after } => match required_score(s, name, after) {
            Err(f) => Err(f),
            Ok(_) => replaced_score(s, name, before),
        },
        ChangeModel::Project { before_project, after_project, before_scores, .. } =>
            changed_project(s, after_project, before_project, before_scores),
    }
}

/// The state after a change, from the state before it.
pub open spec fn applied_forward(c: ChangeModel, s: StateModel) -> Result<StateModel, Fault> {
    match c {
        ChangeModel::ScoreCell { name, edit, after_saved, .. } => replaced_cell(
            s,
            name,
            edit,
            after_saved,
        ),
        ChangeModel::ScoreRows { name, before, after } => match required_score(s, name, before) {
            Err(f) => Err(f),
            Ok(_) => replaced_score(s, name, after),
        },
        ChangeModel::Project { before_project, after_project, after_scores, .. } =>
            changed_project(s, before_project, after_project, after_scores),
    }
}

/// The voices' identifiers or names differ, so every score file has another header.
pub open spec fn schema_changed(before: ProjectModel, after: ProjectModel) -> bool {
    ||| before.voices.len() != after.voices.len()
    ||| exists|i: int|
        0 <= i < before.voices.len() && ((#[trigger] before.voices[i]).id != after.voices[i].id
            || before.voices[i].name != after.voices[i].name)
}

/// `names` with `name` added at the end unless one of them already matches it.
pub open spec fn with_unique_name(names: Seq<Seq<char>>, name: Seq<char>) -> Seq<Seq<char>> {
    if exists|j: int| 0 <= j < names.len() && eq_ignore_ascii_case(#[trigger] names[j], name) {
        names
    } else {
        names.push(name)
    }
}

/// The names in order, each kept only at its first occurrence (without regard to ASCII case).
pub open spec fn unique_names(names: Seq<Seq<char>>) -> Seq<Seq<char>>
    decreases names.len(),
{
    if names.len() == 0 {
        Seq::empty()
    } else {
        with_unique_name(unique_names(names.drop_last()), names.last())
    }
}

/// Whether a change touches the project itself, and the parts whose scores it touches.
pub open spec fn change_extent(c: ChangeModel) -> (bool, Seq<Seq<char>>) {
    match c {
        ChangeModel::ScoreCell { name, .. } => (false, seq![name]),
        ChangeModel::ScoreRows { name, .. } => (false, seq![name]),
        ChangeModel::Project { before_project, after_project, before_scores, after_scores } => (
            before_project != after_project,
            if schema_changed(before_project, after_project) {
                unique_names(part_names(before_project.parts) + part_names(after_project.parts))
            } else {
                unique_names(entry_names(before_scores) + entry_names(after_scores))
            },
        ),
    }
}

pub struct TargetModel {
    pub state: StateModel,
    pub project_changed: bool,
    pub affected: Seq<Seq<char>>,
}

/// What undoing (`forward` false) or redoing (`forward` true) a change on `s` leads to.
pub open spec fn change_target(c: ChangeModel, s: StateModel, forward: bool) -> Result<
    TargetModel,
    Fault,
> {
    match if forward {
        applied_forward(c, s)
    } else {
        applied_backward(c, s)
    } {
        Err(f) => Err(f),
        Ok(t) => Ok(
            TargetModel { state: t, project_changed: change_extent(c).0, affected: change_extent(c).1 },
        ),
    }
}

/// The state that undoing or redoing a change leads to, and what it touches.
pub struct HistoryTarget {
    pub state: ProjectState,
    pub project_changed: bool,
    pub affected_parts: Vec<PartName>,
}

pub open spec fn names_view(v: Seq<PartName>) -> Seq<Seq<char>> {
    v.map_values(|n: PartName| n@)
}

impl View for HistoryTarget {
    type V = TargetModel;

    open spec fn view(&self) -> TargetModel {
        TargetModel {
            state: self.state@,
            project_changed: self.project_changed,
            affected: names_view(self.affected_parts@),
        }
    }
}

/// Adds `name` unless a name that matches it without regard to ASCII case is already there.
pub fn push_unique_name(names: &mut Vec<PartName>, name: &PartName)
    ensures
        names_view(final(names)@) == with_unique_name(names_view(old(names)@), name@),
{
    let n = names.len();
    let ghost view = names_view(names@);
    for i in 0..n
        invariant
            n == names@.len(),
            view == names_view(names@),
            names@ == old(names)@,
            forall|j: int| 0 <= j < i ==> !eq_ignore_ascii_case(#[trigger] view[j], name@),
    {
        if names[i].eq_ignore_ascii_case(name) {
            assert(eq_ignore_ascii_case(view[i as int], name@));
            return;
        }
    }
    names.push(name.clone());
    assert(names_view(names@) =~= view.push(name@));
}

/// Whether the voices' identifiers or names differ between two projects.
pub fn score_file_schema_changed(before: &Project, after: &Project) -> (r: bool)
    ensures
        r == schema_changed(before@, after@),
{
    let b = before.voices();
    let a = after.voices();
    if b.len() != a.len() {
        return true;
    }
    let n = b.len();
    for i in 0..n
        invariant
            n == b@.len(),
            n == a@.len(),
            b@.map_values(|v: crate::project::Voice| v@) == before@.voices,
            a@.map_values(|v: crate::project::Voice| v@) == after@.voices,
            forall|j: int|
                0 <= j < i ==> (#[trigger] before@.voices[j]).id == after@.voices[j].id
                    && before@.voices[j].name == after@.voices[j].name,
    {
        let x = &b[i];
        let y = &a[i];
        assert(before@.voices[i as int] == x@);
        assert(after@.voices[i as int] == y@);
        if x.id().value() != y.id().value() || x.name != y.name {
            return true;
        }
    }
    false
}

impl HistoryChange {
    pub fn require_score(state: &ProjectState, part_name: &PartName, expected: &ScoreContent) -> (r: Result<
        (),
        HistoryError,
    >)
        ensures
            match required_score(state@, part_name@, expected@) {
                Ok(_) => r is Ok,
                Err(f) => r is Err && fault_of(r) == f,
            },
    {
        let current = match state.score_state(part_name) {
            Some(c) => c,
            None => {
                return Err(HistoryError::MissingScore(part_name.clone()));
            },
        };
        if current.content.equals(expected) {
            Ok(())
        } else {
            Err(HistoryError::ScoreMismatch(part_name.clone()))
        }
    }

    pub fn apply_backward(&self, state: &ProjectState) -> (r: Result<ProjectState, HistoryError>)
        ensures
            match applied_backward(self@, state@) {
                Ok(t) => r matches Ok(s) && s@ == t,
                Err(f) => r is Err && fault_of(r) == f,
            },
    {
        match self {
            HistoryChange::ScoreCell { part_name, edit, before_saved_score, .. } => state.replacing_cell(
                part_name,
                &edit.reversed(),
                before_saved_score.clone(),
            ),
            HistoryChange::ScoreRows { part_name, before, after } => {
                Self::require_score(state, part_name, after)?;
                state.replacing_score(part_name, before.clone())
            },
            HistoryChange::Project { before_project, after_project, before_scores, .. } => {
                state.applying_project_change(after_project, before_project.clone(), before_scores)
            },
        }
    }

    pub fn apply_forward(&self, state: &ProjectState) -> (r: Result<ProjectState, HistoryError>)
        ensures
            match applied_forward(self@, state@) {
                Ok(t) => r matches Ok(s) && s@ == t,
                Err(f) => r is Err && fault_of(r) == f,
            },
    {
        match self {
            HistoryChange::ScoreCell { part_name, edit, after_saved_score, .. } => state.replacing_cell(
                part_name,
                edit,
                after_saved_score.clone(),
            ),
            HistoryChange::ScoreRows { part_name, before, after } => {
                Self::require_score(state, part_name, before)?;
                state.replacing_score(part_name, after.clone())
            },
            HistoryChange::Project { before_project, after_project, after_scores, .. } => {
                state.applying_project_change(before_project, after_project.clone(), after_scores)
            },
        }
    }

    pub fn target(&self, state: &ProjectState, forward: bool) -> (r: Result<HistoryTarget, HistoryError>)
        ensures
            match change_target(self@, state@, forward) {
                Ok(t) => r matches Ok(h) && h@ == t,
                Err(f) => r is Err && fault_of(r) == f,
            },
    {
        let state = if forward {
            self.apply_forward(state)?
        } else {
            self.apply_backward(state)?
        };
        let mut affected_parts: Vec<PartName> = Vec::new();
        let project_changed = match self {
            HistoryChange::ScoreCell { part_name, .. } => {
                affected_parts.push(part_name.clone());
                assert(names_view(affected_parts@) =~= seq![part_name@]);
                false
            },
            HistoryChange::ScoreRows { part_name, .. } => {
                affected_parts.push(part_name.clone());
                assert(names_view(affected_parts@) =~= seq![part_name@]);
                false
            },
            HistoryChange::Project { before_project, after_project, before_scores, after_scores } => {
                let ghost first: Seq<Seq<char>>;
                let ghost second: Seq<Seq<char>>;
                if score_file_schema_changed(before_project, after_project) {
                    proof {
                        first = part_names(before_project@.parts);
                        second = part_names(after_project@.parts);
                    }
                    let bp = before_project.parts();
                    let ap = after_project.parts();
                    assert(names_view(affected_parts@) =~= unique_names(Seq::<Seq<char>>::empty()));
                    push_part_names(&mut affected_parts, bp, Ghost(Seq::empty()));
                    assert(Seq::<Seq<char>>::empty() + first =~= first);
                    push_part_names(&mut affected_parts, ap, Ghost(first));
                } else {
                    proof {
                        first = entry_names(entries_view(before_scores@));
                        second = entry_names(entries_view(after_scores@));
                    }
                    assert(names_view(affected_parts@) =~= unique_names(Seq::<Seq<char>>::empty()));
                    push_entry_names(&mut affected_parts, before_scores, Ghost(Seq::empty()));
                    assert(Seq::<Seq<char>>::empty() + first =~= first);
                    push_entry_names(&mut affected_parts, after_scores, Ghost(first));
                }
                !before_project.equals(after_project)
            },
        };
        Ok(HistoryTarget { state, project_changed, affected_parts })
    }
}

/// Adds the names of `parts`, in order, each unless already present.
fn push_part_names(names: &mut Vec<PartName>, parts: &Vec<Part>, Ghost(earlier): Ghost<Seq<Seq<char>>>)
    requires
        names_view(old(names)@) == unique_names(earlier),
    ensures
        names_view(final(names)@) == unique_names(
            earlier + part_names(parts@.map_values(|p: Part| p@)),
        ),
{
    let n = parts.len();
    let ghost all = part_names(parts@.map_values(|p: Part| p@));
    assert(earlier + all.take(0) =~= earlier);
    for i in 0..n
        invariant
            n == parts@.len(),
            all == part_names(parts@.map_values(|p: Part| p@)),
            names_view(names@) == unique_names(earlier + all.take(i as int)),
    {
        push_unique_name(names, &parts[i].name);
        assert((earlier + all.take(i + 1)).drop_last() =~= earlier + all.take(i as int));
        assert((earlier + all.take(i + 1)).last() == parts@[i as int].name@);
    }
    assert(all.take(n as int) =~= all);
}

/// Adds the part names of `entries`, in order, each unless already present.
fn push_entry_names(
    names: &mut Vec<PartName>,
    entries: &Vec<ScoreState>,
    Ghost(earlier): Ghost<Seq<Seq<char>>>,
)
    requires
        names_view(old(names)@) == unique_names(earlier),
    ensures
        names_view(final(names)@) == unique_names(earlier + entry_names(entries_view(entries@))),
{
    let n = entries.len();
    let ghost all = entry_names(entries_view(entries@));
    assert(earlier + all.take(0) =~= earlier);
    for i in 0..n
        invariant
            n == entries@.len(),
            all == entry_names(entries_view(entries@)),
            names_view(names@) == unique_names(earlier + all.take(i as int)),
    {
        push_unique_name(names, &entries[i].part_name);
        assert((earlier + all.take(i + 1)).drop_last() =~= earlier + all.take(i as int));
        assert((earlier + all.take(i + 1)).last() == entries@[i as int].part_name@);
    }
    assert(all.take(n as int) =~= all);
}

/// Applies a cell edit to a score: the cell must exist and hold the edit's `before`.
pub fn apply_score_cell_edit(score: &PartScore, part_name: &PartName, edit: &ScoreCellEdit) -> (r: Result<
    PartScore,
    HistoryError,
>)
    ensures
        match edited_grid(score@, part_name@, edit@) {
            Ok(g) => r matches Ok(s) && s@ == g,
            Err(f) => r is Err && fault_of(r) == f,
        },
{
    let rows = score.rows();
    if edit.row >= rows.len() || edit.column >= rows[edit.row].len() {
        return Err(
            HistoryError::CellOutside {
                part_name: part_name.clone(),
                row: edit.row,
                column: edit.column,
            },
        );
    }
    let cell = &rows[edit.row][edit.column];
    if *cell != edit.before {
        return Err(
            HistoryError::CellMismatch {
                part_name: part_name.clone(),
                row: edit.row,
                column: edit.column,
                expected: edit.before.clone(),
                found: cell.clone(),
            },
        );
    }
    let mut new_rows = crate::part::copy_rows(rows);
    let mut row = crate::part::copy_row(&rows[edit.row]);
    row.set(edit.column, edit.after.clone());
    let ghost new_row = row_view(row);
    assert(new_row =~= row_view(rows@[edit.row as int]).update(edit.column as int, edit@.after));
    let ghost copied = new_rows@;
    new_rows.set(edit.row, row);
    assert(rows_view(new_rows@) =~= rows_view(copied).update(edit.row as int, new_row));
    let r = PartScore::from_rows(new_rows);
    assert(r@ =~= score@.update(
        edit.row as int,
        score@[edit.row as int].update(edit.column as int, edit@.after),
    ));
    Ok(r)
}

/// What the pitch system of a project says of a score of one of its parts.
#[derive(Debug)]
pub enum StrikeCheck {
    /// Every cell resolves to a strike.
    Resolved,
    /// Some cell holds a pitch that the project's tuning cannot resolve.
    InvalidPitch,
    /// The score cannot be resolved for another reason, given as text.
    Failed(String),
}

pub enum CheckModel {
    Resolved,
    InvalidPitch,
    Failed(Seq<char>),
}

impl View for StrikeCheck {
    type V = CheckModel;

    open spec fn view(&self) -> CheckModel {
        match self {
            StrikeCheck::Resolved => CheckModel::Resolved,
            StrikeCheck::InvalidPitch => CheckModel::InvalidPitch,
            StrikeCheck::Failed(m) => CheckModel::Failed(m@),
        }
    }
}

/// `resolve` can answer `v` for a score `score` of part `part` in project `project`.
pub open spec fn resolver_allows<F: Fn(&Project, &Part, &PartScore) -> StrikeCheck>(
    resolve: F,
    project: ProjectModel,
    part: PartModel,
    score: Grid,
    v: CheckModel,
) -> bool {
    exists|p: Project, q: Part, s: PartScore, c: StrikeCheck|
        p@ == project && q@ == part && s@ == score && c@ == v && #[trigger] call_ensures(
            resolve,
            (&p, &q, &s),
            c,
        )
}

/// `resolve` can be called on any project, part and score.
pub open spec fn resolver_total<F: Fn(&Project, &Part, &PartScore) -> StrikeCheck>(resolve: F) -> bool {
    forall|p: Project, q: Part, s: PartScore| #[trigger] call_requires(resolve, (&p, &q, &s))
}

pub struct HistoryModel {
    pub current: StateModel,
    pub undo: Seq<ChangeModel>,
    pub redo: Seq<ChangeModel>,
    pub merging: bool,
}

pub open spec fn changes_view(v: Seq<HistoryChange>) -> Seq<ChangeModel> {
    v.map_values(|c: HistoryChange| c@)
}

/// The history never holds more than `MAX_CHANGES` changes to undo and redo together.
pub open spec fn history_wf(h: HistoryModel) -> bool {
    h.undo.len() + h.redo.len() <= MAX_CHANGES
}

/// The history after undoing its last change, with `target` as the new current state.
pub open spec fn undone(h: HistoryModel, target: StateModel) -> HistoryModel {
    HistoryModel { current: target, undo: h.undo.drop_last(), redo: h.redo.push(h.undo.last()), merging: false }
}

/// The history after redoing its last undone change, with `target` as the new current state.
pub open spec fn redone(h: HistoryModel, target: StateModel) -> HistoryModel {
    HistoryModel { current: target, undo: h.undo.push(h.redo.last()), redo: h.redo.drop_last(), merging: false }
}

/// The undo stack with `c` on top, dropping the oldest change beyond `MAX_CHANGES`.
pub open spec fn pushed_undo(undo: Seq<ChangeModel>, c: ChangeModel) -> Seq<ChangeModel> {
    if undo.len() + 1 > MAX_CHANGES {
        undo.push(c).drop_first()
    } else {
        undo.push(c)
    }
}

/// Whether `e` in a state that differs from `comparison`: no entry there, or other content.
pub open spec fn entry_changed(comparison: Seq<EntryModel>, e: EntryModel) -> bool {
    match entry_index(comparison, e.name) {
        None => true,
        Some(i) => comparison[i].content != e.content,
    }
}

/// The entries of `source`, in order, that differ from `comparison`.
pub open spec fn changed_entries(source: Seq<EntryModel>, comparison: Seq<EntryModel>) -> Seq<EntryModel>
    decreases source.len(),
{
    if source.len() == 0 {
        Seq::empty()
    } else {
        let rest = changed_entries(source.drop_last(), comparison);
        if entry_changed(comparison, source.last()) {
            rest.push(source.last())
        } else {
            rest
        }
    }
}

/// Recording a project change: nothing when the project and every score are unchanged.
/// The change that leads from `before` to `after`: both projects, and the entries of each
/// side that differ from the other.
pub open spec fn project_change(before: StateModel, after: StateModel) -> ChangeModel {
    ChangeModel::Project {
        before_project: before.project,
        after_project: after.project,
        before_scores: changed_entries(before.scores, after.scores),
        after_scores: changed_entries(after.scores, before.scores),
    }
}

pub open spec fn recorded_project(h: HistoryModel, after: StateModel) -> (HistoryModel, bool) {
    let before_scores = changed_entries(h.current.scores, after.scores);
    let after_scores = changed_entries(after.scores, h.current.scores);
    if h.current.project == after.project && before_scores.len() == 0 && after_scores.len() == 0 {
        (h, false)
    } else {
        (
            HistoryModel {
                current: after,
                undo: pushed_undo(h.undo, project_change(h.current, after)),
                redo: Seq::empty(),
                merging: false,
            },
            true,
        )
    }
}

/// The saved score recorded with a new score of part `name`: the new score itself when
/// it resolves, the current saved score when a pitch does not.
pub open spec fn saved_after(h: HistoryModel, name: Seq<char>, score: Grid, v: CheckModel) -> Result<
    Grid,
    Fault,
> {
    match first_match(part_names(h.current.project.parts), name) {
        None => Err(Fault::MissingPart(name)),
        Some(_) => match v {
            CheckModel::Resolved => Ok(score),
            CheckModel::InvalidPitch => match entry_index(h.current.scores, name) {
                None => Err(Fault::MissingScore(name)),
                Some(i) => Ok(h.current.scores[i].content.saved),
            },
            CheckModel::Failed(m) => Err(Fault::RecordFailed(name, m)),
        },
    }
}

/// `v` is an answer the resolver can give where `saved_after` asks it.
pub open spec fn saved_check_possible<F: Fn(&Project, &Part, &PartScore) -> StrikeCheck>(
    resolve: F,
    h: HistoryModel,
    name: Seq<char>,
    score: Grid,
    v: CheckModel,
) -> bool {
    match first_match(part_names(h.current.project.parts), name) {
        None => true,
        Some(k) => resolver_allows(resolve, h.current.project, h.current.project.parts[k], score, v),
    }
}

pub open spec fn outcome_view(r: Result<bool, HistoryError>) -> Result<bool, Fault> {
    match r {
        Ok(b) => Ok(b),
        Err(e) => Err(e@),
    }
}

pub open spec fn grid_outcome(r: Result<PartScore, HistoryError>) -> Result<Grid, Fault> {
    match r {
        Ok(s) => Ok(s@),
        Err(e) => Err(e@),
    }
}

/// Recording new rows for part `name`, with the resolver's answer `v` on them.
pub open spec fn recorded_rows(h: HistoryModel, name: Seq<char>, score: Grid, v: CheckModel) -> (
    HistoryModel,
    Result<bool, Fault>,
) {
    match entry_index(h.current.scores, name) {
        None => (h, Err(Fault::MissingScore(name))),
        Some(i) => match saved_after(h, name, score, v) {
            Err(f) => (h, Err(f)),
            Ok(saved) => {
                let before = h.current.scores[i].content;
                let after = ContentModel { score, saved };
                if before == after {
                    (h, Ok(false))
                } else {
                    (
                        HistoryModel {
                            current: with_content(h.current, i, after),
                            undo: pushed_undo(h.undo, ChangeModel::ScoreRows { name, before, after }),
                            redo: Seq::empty(),
                            merging: false,
                        },
                        Ok(true),
                    )
                }
            },
        },
    }
}

/// `v` is an answer the resolver can give where `recorded_rows` asks it.
pub open spec fn rows_check_possible<F: Fn(&Project, &Part, &PartScore) -> StrikeCheck>(
    resolve: F,
    h: HistoryModel,
    name: Seq<char>,
    score: Grid,
    v: CheckModel,
) -> bool {
    entry_index(h.current.scores, name) is Some ==> saved_check_possible(resolve, h, name, score, v)
}

/// The last change to undo is an edit of the same cell of the same part, and the
/// history still merges edits into it.
pub open spec fn merges_with_last(h: HistoryModel, name: Seq<char>, e: EditModel) -> bool {
    &&& h.merging
    &&& h.undo.len() > 0
    &&& match h.undo.last() {
        ChangeModel::ScoreCell { name: previous, edit: previous_edit, .. } => eq_ignore_ascii_case(
            previous,
            name,
        ) && previous_edit.row == e.row && previous_edit.column == e.column,
        _ => false,
    }
}

/// Recording an edit of one cell of part `name`, with the resolver's answer `v` on the
/// edited score. An edit of the cell that the last recorded change edited is merged into
/// that change; when the merged change no longer changes anything it is dropped.
pub open spec fn recorded_cell(h: HistoryModel, name: Seq<char>, e: EditModel, v: CheckModel) -> (
    HistoryModel,
    Result<bool, Fault>,
) {
    if e.before == e.after {
        (h, Ok(false))
    } else {
        match entry_index(h.current.scores, name) {
            None => (h, Err(Fault::MissingScore(name))),
            Some(i) => match edited_grid(h.current.scores[i].content.score, name, e) {
                Err(f) => (h, Err(f)),
                Ok(score) => match saved_after(h, name, score, v) {
                    Err(f) => (h, Err(f)),
                    Ok(saved) => {
                        let current = with_content(h.current, i, ContentModel { score, saved });
                        if merges_with_last(h, name, e) {
                            match h.undo.last() {
                                ChangeModel::ScoreCell { name: previous, edit: previous_edit, before_saved, .. } => {
                                    let merged = EditModel { after: e.after, ..previous_edit };
                                    if merged.before == merged.after {
                                        (
                                            HistoryModel {
                                                current,
                                                undo: h.undo.drop_last(),
                                                redo: Seq::empty(),
                                                merging: false,
                                            },
                                            Ok(true),
                                        )
                                    } else {
                                        (
                                            HistoryModel {
                                                current,
                                                undo: h.undo.drop_last().push(
                                                    ChangeModel::ScoreCell {
                                                        name: previous,
                                                        edit: merged,
                                                        before_saved,
                                                        after_saved: saved,
                                                    },
                                                ),
                                                redo: Seq::empty(),
                                                merging: true,
                                            },
                                            Ok(true),
                                        )
                                    }
                                },
                                _ => (h, Ok(false)),
                            }
                        } else {
                            (
                                HistoryModel {
                                    current,
                                    undo: pushed_undo(
                                        h.undo,
                                        ChangeModel::ScoreCell {
                                            name,
                                            edit: e,
                                            before_saved: h.current.scores[i].content.saved,
                                            after_saved: saved,
                                        },
                                    ),
                                    redo: Seq::empty(),
                                    merging: true,
                                },
                                Ok(true),
                            )
                        }
                    },
                },
            },
        }
    }
}

/// `v` is an answer the resolver can give where `recorded_cell` asks it.
pub open spec fn cell_check_possible<F: Fn(&Project, &Part, &PartScore) -> StrikeCheck>(
    resolve: F,
    h: HistoryModel,
    name: Seq<char>,
    e: EditModel,
    v: CheckModel,
) -> bool {
    if e.before == e.after {
        true
    } else {
        match entry_index(h.current.scores, name) {
            None => true,
            Some(i) => match edited_grid(h.current.scores[i].content.score, name, e) {
                Err(_) => true,
                Ok(score) => saved_check_possible(resolve, h, name, score, v),
            },
        }
    }
}

/// The current state, and the changes that undo and redo go through.
#[derive(Debug)]
pub struct ProjectHistory {
    current: ProjectState,
    undo_changes: Vec<HistoryChange>,
    redo_changes: Vec<HistoryChange>,
    merge_with_current: bool,
}

impl View for ProjectHistory {
    type V = HistoryModel;

    closed spec fn view(&self) -> HistoryModel {
        HistoryModel {
            current: self.current@,
            undo: changes_view(self.undo_changes@),
            redo: changes_view(self.redo_changes@),
            merging: self.merge_with_current,
        }
    }
}

/// The entries of `source` that differ from `comparison`, in order.
pub fn changed_scores(source: &ProjectState, comparison: &ProjectState) -> (r: Vec<ScoreState>)
    ensures
        entries_view(r@) == changed_entries(source@.scores, comparison@.scores),
{
    let mut r: Vec<ScoreState> = Vec::new();
    let n = source.scores.len();
    let ghost all = source@.scores;
    assert(all.take(0) =~= Seq::<EntryModel>::empty());
    assert(entries_view(r@) =~= Seq::<EntryModel>::empty());
    for i in 0..n
        invariant
            n == source.scores@.len(),
            all == source@.scores,
            entries_view(r@) == changed_entries(all.take(i as int), comparison@.scores),
    {
        let entry = &source.scores[i];
        assert(all.take(i + 1).drop_last() =~= all.take(i as int));
        assert(all.take(i + 1).last() == entry@);
        let keep = match comparison.score_state(&entry.part_name) {
            None => true,
            Some(other) => !other.content.equals(&entry.content),
        };
        if keep {
            let ghost before = r@;
            r.push(entry.clone());
            assert(entries_view(r@) =~= entries_view(before).push(entry@));
        }
    }
    assert(all.take(n as int) =~= all);
    r
}

impl ProjectHistory {
    pub fn new(initial: ProjectState) -> (r: Self)
        ensures
            r@ == (HistoryModel {
                current: initial@,
                undo: Seq::empty(),
                redo: Seq::empty(),
                merging: false,
            }),
            history_wf(r@),
    {
        let r = ProjectHistory {
            current: initial,
            undo_changes: Vec::new(),
            redo_changes: Vec::new(),
            merge_with_current: false,
        };
        assert(r@.undo =~= Seq::empty());
        assert(r@.redo =~= Seq::empty());
        r
    }

    pub fn reset(&mut self, initial: ProjectState)
        ensures
            final(self)@ == (HistoryModel {
                current: initial@,
                undo: Seq::empty(),
                redo: Seq::empty(),
                merging: false,
            }),
            history_wf(final(self)@),
    {
        self.current = initial;
        self.undo_changes.clear();
        self.redo_changes.clear();
        self.merge_with_current = false;
        assert(self@.undo =~= Seq::empty());
        assert(self@.redo =~= Seq::empty());
    }

    pub fn current(&self) -> (r: &ProjectState)
        ensures
            r@ == self@.current,
    {
        &self.current
    }

    /// The changes that undo goes through, the most recent last.
    pub fn undo_changes(&self) -> (r: &Vec<HistoryChange>)
        ensures
            changes_view(r@) == self@.undo,
    {
        &self.undo_changes
    }

    pub fn can_undo(&self) -> (r: bool)
        ensures
            r == (self@.undo.len() > 0),
    {
        self.undo_changes.len() > 0
    }

    pub fn can_redo(&self) -> (r: bool)
        ensures
            r == (self@.redo.len() > 0),
    {
        self.redo_changes.len() > 0
    }

    fn push_undo(&mut self, change: HistoryChange)
        ensures
            final(self)@ == (HistoryModel { undo: pushed_undo(old(self)@.undo, change@), ..old(self)@ }),
    {
        let ghost c = change@;
        self.undo_changes.push(change);
        if self.undo_changes.len() > MAX_CHANGES {
            self.undo_changes.remove(0);
        }
        assert(self@.undo =~= pushed_undo(old(self)@.undo, c));
    }

    /// Records that the project state became `after`; returns whether anything changed.
    pub fn record_project(&mut self, after: ProjectState) -> (r: bool)
        requires
            history_wf(old(self)@),
        ensures
            (final(self)@, r) == recorded_project(old(self)@, after@),
            history_wf(final(self)@),
    {
        let before_scores = changed_scores(&self.current, &after);
        let after_scores = changed_scores(&after, &self.current);
        if self.current.project.equals(&after.project) && before_scores.len() == 0
            && after_scores.len() == 0 {
            return false;
        }
        self.redo_changes.clear();
        let change = HistoryChange::Project {
            before_project: self.current.project.clone(),
            after_project: after.project.clone(),
            before_scores,
            after_scores,
        };
        self.push_undo(change);
        self.current = after;
        self.merge_with_current = false;
        assert(self@.redo =~= Seq::empty());
        true
    }

    /// What undoing the last change leads to, if there is one to undo.
    pub fn undo_target(&self) -> (r: Result<Option<HistoryTarget>, HistoryError>)
        ensures
            self@.undo.len() == 0 ==> r matches Ok(None),
            self@.undo.len() > 0 ==> match change_target(self@.undo.last(), self@.current, false) {
                Ok(t) => r matches Ok(Some(x)) && x@ == t,
                Err(f) => r matches Err(e) && e@ == f,
            },
    {
        let n = self.undo_changes.len();
        if n == 0 {
            return Ok(None);
        }
        match self.undo_changes[n - 1].target(&self.current, false) {
            Ok(t) => Ok(Some(t)),
            Err(e) => Err(e),
        }
    }

    /// What redoing the last undone change leads to, if there is one to redo.
    pub fn redo_target(&self) -> (r: Result<Option<HistoryTarget>, HistoryError>)
        ensures
            self@.redo.len() == 0 ==> r matches Ok(None),
            self@.redo.len() > 0 ==> match change_target(self@.redo.last(), self@.current, true) {
                Ok(t) => r matches Ok(Some(x)) && x@ == t,
                Err(f) => r matches Err(e) && e@ == f,
            },
    {
        let n = self.redo_changes.len();
        if n == 0 {
            return Ok(None);
        }
        match self.redo_changes[n - 1].target(&self.current, true) {
            Ok(t) => Ok(Some(t)),
            Err(e) => Err(e),
        }
    }

    /// The saved score to record with `score` as the new score of part `part_name`.
    pub fn saved_score_for<F: Fn(&Project, &Part, &PartScore) -> StrikeCheck>(
        &self,
        part_name: &PartName,
        score: &PartScore,
        resolve: &F,
    ) -> (r: Result<PartScore, HistoryError>)
        requires
            resolver_total(*resolve),
        ensures
            exists|v: CheckModel|
                saved_check_possible(*resolve, self@, part_name@, score@, v) && grid_outcome(r)
                    == saved_after(self@, part_name@, score@, v),
    {
        proof {
            lemma_first_match_found(part_names(self@.current.project.parts), part_name@);
        }
        let project = &self.current.project;
        let part = match project.part(part_name) {
            Some(p) => p,
            None => {
                let r = Err(HistoryError::MissingPart(part_name.clone()));
                assert(grid_outcome(r) == saved_after(self@, part_name@, score@, CheckModel::Resolved));
                return r;
            },
        };
        assert(call_requires(*resolve, (project, part, score)));
        let check = resolve(project, part, score);
        let ghost v = check@;
        assert(resolver_allows(*resolve, self@.current.project, part@, score@, v));
        let r = match check {
            StrikeCheck::Resolved => Ok(score.clone()),
            StrikeCheck::InvalidPitch => match self.current.score_state(part_name) {
                Some(current) => Ok(current.content.saved_score.clone()),
                None => Err(HistoryError::MissingScore(part_name.clone())),
            },
            StrikeCheck::Failed(message) => Err(
                HistoryError::RecordFailed { part_name: part_name.clone(), message },
            ),
        };
        assert(saved_check_possible(*resolve, self@, part_name@, score@, v));
        assert(grid_outcome(r) == saved_after(self@, part_name@, score@, v));
        r
    }

    /// Records new rows for part `part_name`; returns whether anything changed.
    pub fn record_score_rows<F: Fn(&Project, &Part, &PartScore) -> StrikeCheck>(
        &mut self,
        part_name: PartName,
        after_score: PartScore,
        resolve: &F,
    ) -> (r: Result<bool, HistoryError>)
        requires
            history_wf(old(self)@),
            resolver_total(*resolve),
        ensures
            history_wf(final(self)@),
            exists|v: CheckModel|
                rows_check_possible(*resolve, old(self)@, part_name@, after_score@, v) && (
                final(self)@,
                outcome_view(r),
            ) == recorded_rows(old(self)@, part_name@, after_score@, v),
    {
        let ghost h = self@;
        let ghost g = after_score@;
        let before = match self.current.score_state(&part_name) {
            Some(entry) => entry.content.clone(),
            None => {
                let r = Err(HistoryError::MissingScore(part_name.clone()));
                assert((self@, outcome_view(r)) == recorded_rows(h, part_name@, g, CheckModel::Resolved));
                return r;
            },
        };
        let saved = self.saved_score_for(&part_name, &after_score, resolve);
        let ghost v = choose|v: CheckModel|
            saved_check_possible(*resolve, h, part_name@, g, v) && grid_outcome(saved) == saved_after(
                h,
                part_name@,
                g,
                v,
            );
        let saved = match saved {
            Ok(s) => s,
            Err(e) => {
                let r = Err(e);
                assert((self@, outcome_view(r)) == recorded_rows(h, part_name@, g, v));
                return r;
            },
        };
        let after = ScoreContent { score: after_score, saved_score: saved };
        if before.equals(&after) {
            assert((self@, outcome_view(Ok::<bool, HistoryError>(false))) == recorded_rows(h, part_name@, g, v));
            return Ok(false);
        }
        self.redo_changes.clear();
        let ghost a = after@;
        self.push_undo(
            HistoryChange::ScoreRows { part_name: part_name.clone(), before, after: after.clone() },
        );
        match self.current.replace_score(&part_name, after) {
            Ok(()) => {},
            Err(e) => {
                return Err(e);
            },
        }
        self.merge_with_current = false;
        assert(self@.redo =~= Seq::empty());
        assert((self@, outcome_view(Ok::<bool, HistoryError>(true))) == recorded_rows(h, part_name@, g, v));
        Ok(true)
    }

    /// Records an edit of one cell of part `part_name`; returns whether anything changed.
    pub fn record_score_cell<F: Fn(&Project, &Part, &PartScore) -> StrikeCheck>(
        &mut self,
        part_name: PartName,
        edit: ScoreCellEdit,
        resolve: &F,
    ) -> (r: Result<bool, HistoryError>)
        requires
            history_wf(old(self)@),
            resolver_total(*resolve),
        ensures
            history_wf(final(self)@),
            exists|v: CheckModel|
                cell_check_possible(*resolve, old(self)@, part_name@, edit@, v) && (
                final(self)@,
                outcome_view(r),
            ) == recorded_cell(old(self)@, part_name@, edit@, v),
    {
        let ghost h = self@;
        let ghost e = edit@;
        if edit.before == edit.after {
            assert((self@, outcome_view(Ok::<bool, HistoryError>(false))) == recorded_cell(h, part_name@, e, CheckModel::Resolved));
            return Ok(false);
        }
        let before_state = match self.current.score_state(&part_name) {
            Some(entry) => entry,
            None => {
                let r = Err(HistoryError::MissingScore(part_name.clone()));
                assert((self@, outcome_view(r)) == recorded_cell(h, part_name@, e, CheckModel::Resolved));
                return r;
            },
        };
        let before_saved_score = before_state.content.saved_score.clone();
        let after_score = match apply_score_cell_edit(&before_state.content.score, &part_name, &edit) {
            Ok(s) => s,
            Err(err) => {
                let r = Err(err);
                assert((self@, outcome_view(r)) == recorded_cell(h, part_name@, e, CheckModel::Resolved));
                return r;
            },
        };
        let ghost g = after_score@;
        let saved = self.saved_score_for(&part_name, &after_score, resolve);
        let ghost v = choose|v: CheckModel|
            saved_check_possible(*resolve, h, part_name@, g, v) && grid_outcome(saved) == saved_after(
                h,
                part_name@,
                g,
                v,
            );
        let after_saved_score = match saved {
            Ok(s) => s,
            Err(err) => {
                let r = Err(err);
                assert((self@, outcome_view(r)) == recorded_cell(h, part_name@, e, v));
                return r;
            },
        };
        let after_content = ScoreContent {
            score: after_score,
            saved_score: after_saved_score.clone(),
        };
        self.redo_changes.clear();
        let n = self.undo_changes.len();
        let merges = self.merge_with_current && n > 0 && match &self.undo_changes[n - 1] {
            HistoryChange::ScoreCell { part_name: previous_part, edit: previous_edit, .. } =>
                previous_part.eq_ignore_ascii_case(&part_name) && previous_edit.row == edit.row
                    && previous_edit.column == edit.column,
            _ => false,
        };
        assert(merges == merges_with_last(h, part_name@, e));
        if merges {
            let last = self.undo_changes.pop().unwrap();
            match last {
                HistoryChange::ScoreCell { part_name: previous_part, edit: previous_edit, before_saved_score: previous_before, .. } => {
                    let merged = ScoreCellEdit {
                        row: previous_edit.row,
                        column: previous_edit.column,
                        before: previous_edit.before,
                        after: edit.after,
                    };
                    if merged.before == merged.after {
                        self.merge_with_current = false;
                    } else {
                        self.undo_changes.push(
                            HistoryChange::ScoreCell {
                                part_name: previous_part,
                                edit: merged,
                                before_saved_score: previous_before,
                                after_saved_score,
                            },
                        );
                    }
                },
                _ => {},
            }
        } else {
            self.push_undo(
                HistoryChange::ScoreCell {
                    part_name: part_name.clone(),
                    edit,
                    before_saved_score,
                    after_saved_score,
                },
            );
            self.merge_with_current = true;
        }
        match self.current.replace_score(&part_name, after_content) {
            Ok(()) => {},
            Err(err) => {
                return Err(err);
            },
        }
        assert(self@.redo =~= Seq::empty());
        assert(self@.undo =~= recorded_cell(h, part_name@, e, v).0.undo);
        assert((self@, outcome_view(Ok::<bool, HistoryError>(true))) == recorded_cell(h, part_name@, e, v));
        Ok(true)
    }

    /// Moves the last change from undo to redo, with `target` as the new current state.
    pub fn commit_undo(&mut self, target: ProjectState)
        requires
            old(self)@.undo.len() > 0,
            history_wf(old(self)@),
        ensures
            final(self)@ == undone(old(self)@, target@),
            history_wf(final(self)@),
    {
        let change = self.undo_changes.pop().unwrap();
        self.redo_changes.push(change);
        self.current = target;
        self.merge_with_current = false;
        assert(self@.undo =~= old(self)@.undo.drop_last());
        assert(self@.redo =~= old(self)@.redo.push(old(self)@.undo.last()));
    }

    /// Moves the last undone change back to undo, with `target` as the new current state.
    pub fn commit_redo(&mut self, target: ProjectState)
        requires
            old(self)@.redo.len() > 0,
            history_wf(old(self)@),
        ensures
            final(self)@ == redone(old(self)@, target@),
            history_wf(final(self)@),
    {
        let change = self.redo_changes.pop().unwrap();
        self.undo_changes.push(change);
        self.current = target;
        self.merge_with_current = false;
        assert(self@.redo =~= old(self)@.redo.drop_last());
        assert(self@.undo =~= old(self)@.undo.push(old(self)@.redo.last()));
    }
}

} // verus!
