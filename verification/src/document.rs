//! The parse issues of a score document: the cells whose text the project's pitch system
//! cannot resolve to a strike.
use vstd::prelude::*;

use crate::part::{PartScore, row_view, rows_view};
use crate::project::{Project, ProjectModel, Voice};
use crate::row_edit::ScoreRowRange;
use crate::score::ScoreCellEdit;
use crate::text::{decimal, push_decimal};

verus! {

/// A cell of a score that does not resolve to a strike.
#[derive(Debug, PartialEq, Eq)]
pub struct ParseIssue {
    pub row: usize,
    pub column: usize,
    pub voice: String,
    pub message: String,
}

impl Clone for ParseIssue {
    fn clone(&self) -> (r: Self)
        ensures
            r == *self,
    {
        ParseIssue {
            row: self.row,
            column: self.column,
            voice: self.voice.clone(),
            message: self.message.clone(),
        }
    }
}

pub struct IssueModel {
    pub row: int,
    pub column: int,
    pub voice: Seq<char>,
    pub message: Seq<char>,
}

impl View for ParseIssue {
    type V = IssueModel;

    open spec fn view(&self) -> IssueModel {
        IssueModel {
            row: self.row as int,
            column: self.column as int,
            voice: self.voice@,
            message: self.message@,
        }
    }
}

/// `f` can answer `o` for a cell holding `x`: `None` when it resolves, else why not.
pub open spec fn strike_answer<R: Fn(&String) -> Option<String>>(f: R, x: Seq<char>, o: Option<Seq<char>>) -> bool {
    exists|a: String, b: Option<String>|
        a@ == x && match b {
            Some(m) => o == Some(m@),
            None => o is None,
        } && #[trigger] call_ensures(f, (&a,), b)
}

/// How an issue names the voice of a column: by the voice's name, else by its number.
pub open spec fn voice_label(project: ProjectModel, column: int) -> Seq<char> {
    if 0 <= column < project.voices.len() {
        project.voices[column].name
    } else {
        "column "@ + decimal((column + 1) as nat)
    }
}

/// The issues of row `r`, from the answers for its cells.
pub open spec fn row_issues(project: ProjectModel, r: int, answers: Seq<Option<Seq<char>>>) -> Seq<IssueModel>
    decreases answers.len(),
{
    if answers.len() == 0 {
        Seq::empty()
    } else {
        let c = answers.len() - 1;
        let rest = row_issues(project, r, answers.drop_last());
        match answers.last() {
            Some(m) => rest.push(IssueModel { row: r, column: c, voice: voice_label(project, c), message: m }),
            None => rest,
        }
    }
}

/// The issues of every row, in reading order, from the answers for every cell.
pub open spec fn score_issues(project: ProjectModel, answers: Seq<Seq<Option<Seq<char>>>>) -> Seq<IssueModel>
    decreases answers.len(),
{
    if answers.len() == 0 {
        Seq::empty()
    } else {
        score_issues(project, answers.drop_last()) + row_issues(project, answers.len() - 1, answers.last())
    }
}

/// The parse issues of a score, and the cells they are at.
#[derive(Debug)]
pub struct ParseIssueCache {
    pub issues: Vec<ParseIssue>,
    pub invalid_cells: Vec<(usize, usize)>,
}

pub open spec fn issues_view(v: Seq<ParseIssue>) -> Seq<IssueModel> {
    v.map_values(|i: ParseIssue| i@)
}

fn voice_name_for(voices: &Vec<Voice>, column: usize, Ghost(project): Ghost<ProjectModel>) -> (r: String)
    requires
        voices@.map_values(|v: Voice| v@) == project.voices,
        column < usize::MAX,
    ensures
        r@ == voice_label(project, column as int),
{
    if column < voices.len() {
        assert(voices@[column as int]@ == project.voices[column as int]);
        voices[column].name.clone()
    } else {
        let mut r = "column ".to_owned();
        push_decimal(&mut r, (column + 1) as u128);
        r
    }
}

impl ParseIssueCache {
    /// The issues of `score` in reading order: each cell for which `resolve_strike` gives a
    /// message, named by its voice.
    pub fn collect<R: Fn(&String) -> Option<String>>(project: &Project, score: &PartScore, resolve_strike: &R) -> (r: Self)
        requires
            forall|x: String| #[trigger] call_requires(*resolve_strike, (&x,)),
        ensures
            exists|answers: Seq<Seq<Option<Seq<char>>>>|
                answers.len() == score@.len() && (forall|i: int|
                    0 <= i < score@.len() ==> (#[trigger] answers[i]).len() == score@[i].len()) && (forall|i: int, j: int|
                    0 <= i < score@.len() && 0 <= j < score@[i].len() ==> #[trigger] strike_answer(
                        *resolve_strike,
                        score@[i][j],
                        answers[i][j],
                    ))
                    && issues_view(r.issues@) == score_issues(project@, answers),
            r.invalid_cells@.len() == r.issues@.len(),
            forall|k: int| 0 <= k < r.issues@.len() ==> (#[trigger] r.invalid_cells@[k]) == (r.issues@[k].row, r.issues@[k].column),
    {
        let rows = score.rows();
        let voices = project.voices();
        let n = rows.len();
        let mut issues: Vec<ParseIssue> = Vec::new();
        let ghost mut answers: Seq<Seq<Option<Seq<char>>>> = Seq::empty();
        for i in 0..n
            invariant
                n == rows@.len(),
                rows_view(rows@) == score@,
                voices@.map_values(|v: Voice| v@) == project@.voices,
                forall|x: String| #[trigger] call_requires(*resolve_strike, (&x,)),
                answers.len() == i,
                forall|a: int| 0 <= a < i ==> (#[trigger] answers[a]).len() == score@[a].len(),
                forall|a: int, b: int|
                    0 <= a < i && 0 <= b < score@[a].len() ==> #[trigger] strike_answer(*resolve_strike, score@[a][b], answers[a][b]),
                issues_view(issues@) == score_issues(project@, answers),
        {
            let row = &rows[i];
            assert(row_view(*row) == score@[i as int]);
            let m = row.len();
            let ghost mut row_answers: Seq<Option<Seq<char>>> = Seq::empty();
            let ghost start = issues_view(issues@);
            for j in 0..m
                invariant
                    m == row@.len(),
                    row_view(*row) == score@[i as int],
                    voices@.map_values(|v: Voice| v@) == project@.voices,
                    forall|x: String| #[trigger] call_requires(*resolve_strike, (&x,)),
                    row_answers.len() == j,
                    forall|b: int| 0 <= b < j ==> #[trigger] strike_answer(*resolve_strike, score@[i as int][b], row_answers[b]),
                    issues_view(issues@) == start + row_issues(project@, i as int, row_answers),
            {
                let value = &row[j];
                assert(value@ == score@[i as int][j as int]);
                let answer = resolve_strike(value);
                let ghost o = match &answer {
                    Some(msg) => Some(msg@),
                    None => None,
                };
                assert(strike_answer(*resolve_strike, score@[i as int][j as int], o));
                let ghost before = issues_view(issues@);
                match answer {
                    Some(message) => {
                        let voice = voice_name_for(voices, j, Ghost(project@));
                        issues.push(ParseIssue { row: i, column: j, voice, message });
                        assert(issues_view(issues@) =~= before.push(issues@.last()@));
                    },
                    None => {},
                }
                proof {
                    let next = row_answers.push(o);
                    assert(next.drop_last() =~= row_answers);
                    assert forall|b: int| 0 <= b < j + 1 implies #[trigger] strike_answer(*resolve_strike, score@[i as int][b], next[b]) by {
                        if b < j {
                            assert(next[b] == row_answers[b]);
                        }
                    }
                    row_answers = next;
                }
            }
            assert(row_answers.len() == score@[i as int].len());
            proof {
                let next = answers.push(row_answers);
                assert(next.drop_last() =~= answers);
                assert forall|a: int| 0 <= a < i + 1 implies (#[trigger] next[a]).len() == score@[a].len() by {
                    if a < i {
                        assert(next[a] == answers[a]);
                    }
                }
                assert forall|a: int, b: int|
                    0 <= a < i + 1 && 0 <= b < score@[a].len() implies #[trigger] strike_answer(*resolve_strike, score@[a][b], next[a][b]) by {
                    if a < i {
                        assert(next[a] == answers[a]);
                        assert(strike_answer(*resolve_strike, score@[a][b], answers[a][b]));
                    }
                }
                answers = next;
            }
        }
        assert(answers.len() == score@.len());
        assert(forall|i: int| 0 <= i < score@.len() ==> (#[trigger] answers[i]).len() == score@[i].len());
        let mut invalid_cells: Vec<(usize, usize)> = Vec::new();
        let k = issues.len();
        for t in 0..k
            invariant
                k == issues@.len(),
                invalid_cells@.len() == t,
                forall|a: int| 0 <= a < t ==> (#[trigger] invalid_cells@[a]) == (issues@[a].row, issues@[a].column),
        {
            invalid_cells.push((issues[t].row, issues[t].column));
        }
        ParseIssueCache { issues, invalid_cells }
    }
}

/// What a score document tells the editors that show it.
#[derive(Debug)]
pub enum DocumentEvent {
    CellChanged { source_editor: u64, edit: ScoreCellEdit },
    Saved,
    RecoverySaved,
    SaveFailed,
    RowsCleared,
    StructureChanged { source_editor: u64, selected_rows: ScoreRowRange },
    Reset,
    HistoryRestored { structure_changed: bool },
    ProjectChanged,
    PartSettingsChanged,
}

impl Clone for DocumentEvent {
    fn clone(&self) -> (r: Self)
        ensures
            r == *self,
    {
        match self {
            DocumentEvent::CellChanged { source_editor, edit } => DocumentEvent::CellChanged {
                source_editor: *source_editor,
                edit: ScoreCellEdit {
                    row: edit.row,
                    column: edit.column,
                    before: edit.before.clone(),
                    after: edit.after.clone(),
                },
            },
            DocumentEvent::Saved => DocumentEvent::Saved,
            DocumentEvent::RecoverySaved => DocumentEvent::RecoverySaved,
            DocumentEvent::SaveFailed => DocumentEvent::SaveFailed,
            DocumentEvent::RowsCleared => DocumentEvent::RowsCleared,
            DocumentEvent::StructureChanged { source_editor, selected_rows } =>
                DocumentEvent::StructureChanged {
                    source_editor: *source_editor,
                    selected_rows: *selected_rows,
                },
            DocumentEvent::Reset => DocumentEvent::Reset,
            DocumentEvent::HistoryRestored { structure_changed } => DocumentEvent::HistoryRestored {
                structure_changed: *structure_changed,
            },
            DocumentEvent::ProjectChanged => DocumentEvent::ProjectChanged,
            DocumentEvent::PartSettingsChanged => DocumentEvent::PartSettingsChanged,
        }
    }
}

} // verus!
