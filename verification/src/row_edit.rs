//! Edits of a score's rows: the rows a selection covers, whether an edit needs the
//! player's confirmation, what the confirmation says, and how many values it removes.
use vstd::prelude::*;

use crate::document::DocumentEvent;
use crate::part::{PartName, PartScore, row_view, rows_view};
use crate::text::{debug_quoted, debug_text, decimal, is_white_space, push_char, push_decimal, push_str, white_space_char};

verus! {

/// Rows `first` to `last` of a score, both included.
#[derive(Clone, Copy, Debug, PartialEq, Eq, Structural)]
pub struct ScoreRowRange {
    first: usize,
    last: usize,
}

impl ScoreRowRange {
    pub closed spec fn first_spec(self) -> usize {
        self.first
    }

    pub closed spec fn last_spec(self) -> usize {
        self.last
    }

    /// The number of rows in the range.
    pub open spec fn len_spec(self) -> int {
        self.last_spec() - self.first_spec() + 1
    }

    /// The rows from `first` to `last` of a score of `row_count` rows, when they lie in it.
    pub fn new(first: usize, last: usize, row_count: usize) -> (r: Option<Self>)
        ensures
            first <= last && last < row_count ==> (r matches Some(s) && s.first_spec() == first
                && s.last_spec() == last),
            !(first <= last && last < row_count) ==> r is None,
    {
        if first <= last && last < row_count {
            Some(ScoreRowRange { first, last })
        } else {
            None
        }
    }

    pub fn first(self) -> (r: usize)
        ensures
            r == self.first_spec(),
            r <= self.last_spec(),
    {
        proof {
            use_type_invariant(self);
        }
        self.first
    }

    pub fn last(self) -> (r: usize)
        ensures
            r == self.last_spec(),
            self.first_spec() <= r < usize::MAX,
    {
        proof {
            use_type_invariant(self);
        }
        self.last
    }

    /// The number of rows in the range, at least one.
    pub fn len(self) -> (r: usize)
        ensures
            r == self.len_spec(),
            r >= 1,
    {
        proof {
            use_type_invariant(self);
        }
        self.last - self.first + 1
    }

    #[verifier::type_invariant]
    spec fn ordered(self) -> bool {
        self.first <= self.last && self.last < usize::MAX
    }
}

/// A row of a score.
#[derive(Clone, Copy, Debug, PartialEq, Eq, Structural)]
pub struct ScoreRowIndex {
    row: usize,
}

impl ScoreRowIndex {
    pub closed spec fn row_spec(self) -> usize {
        self.row
    }

    /// Row `row` of a score of `row_count` rows, when it has one.
    pub fn new(row: usize, row_count: usize) -> (r: Option<Self>)
        ensures
            row < row_count ==> (r matches Some(i) && i.row_spec() == row),
            row >= row_count ==> r is None,
    {
        if row < row_count {
            Some(ScoreRowIndex { row })
        } else {
            None
        }
    }

    pub fn row(self) -> (r: usize)
        ensures
            r == self.row_spec(),
    {
        self.row
    }
}

/// A change to the rows of a part's score.
#[derive(Clone, Copy, Debug, PartialEq, Eq, Structural)]
pub enum PartRowEdit {
    Clear(ScoreRowRange),
    Delete(ScoreRowRange),
    InsertBefore(ScoreRowIndex),
    InsertAfter(ScoreRowIndex),
}

/// Clearing and deleting rows remove their values; inserting rows removes none.
pub open spec fn removes_values(edit: PartRowEdit) -> bool {
    edit is Clear || edit is Delete
}

/// Whether an edit removes the values of the rows it covers.
pub fn is_destructive(edit: PartRowEdit) -> (r: bool)
    ensures
        r == removes_values(edit),
{
    match edit {
        PartRowEdit::Clear(_) | PartRowEdit::Delete(_) => true,
        PartRowEdit::InsertBefore(_) | PartRowEdit::InsertAfter(_) => false,
    }
}

/// A score editor's request to change the rows of a part, with the number of values
/// the change would remove.
#[derive(Debug)]
pub struct RowEditRequested {
    pub source_editor: u64,
    pub part_name: PartName,
    pub edit: PartRowEdit,
    pub populated_cell_count: usize,
}

impl Clone for RowEditRequested {
    fn clone(&self) -> (r: Self)
        ensures
            r.source_editor == self.source_editor,
            r.part_name@ == self.part_name@,
            r.edit == self.edit,
            r.populated_cell_count == self.populated_cell_count,
    {
        RowEditRequested {
            source_editor: self.source_editor,
            part_name: self.part_name.clone(),
            edit: self.edit,
            populated_cell_count: self.populated_cell_count,
        }
    }
}

/// A request is confirmed first when it would remove at least one value.
pub fn needs_confirmation(request: &RowEditRequested) -> (r: bool)
    ensures
        r == (request.populated_cell_count > 0 && removes_values(request.edit)),
{
    request.populated_cell_count > 0 && is_destructive(request.edit)
}

/// The label of the button that confirms an edit.
pub fn confirm_label(edit: PartRowEdit) -> (r: &'static str)
    ensures
        r@ == match edit {
            PartRowEdit::Clear(_) => "clear rows"@,
            PartRowEdit::Delete(_) => "delete rows"@,
            _ => "continue"@,
        },
{
    match edit {
        PartRowEdit::Clear(_) => "clear rows",
        PartRowEdit::Delete(_) => "delete rows",
        PartRowEdit::InsertBefore(_) | PartRowEdit::InsertAfter(_) => "continue",
    }
}

/// The beats a range covers, counted from one: `beat 3`, or `beats 3–5`.
pub open spec fn beat_label(rows: ScoreRowRange) -> Seq<char> {
    if rows.len_spec() == 1 {
        "beat "@ + decimal((rows.first_spec() + 1) as nat)
    } else {
        "beats "@ + decimal((rows.first_spec() + 1) as nat) + seq!['\u{2013}'] + decimal(
            (rows.last_spec() + 1) as nat,
        )
    }
}

/// Appends the beats a range covers.
pub fn push_beat_label(s: &mut String, rows: ScoreRowRange)
    ensures
        final(s)@ == old(s)@ + beat_label(rows),
{
    let first = rows.first();
    let last = rows.last();
    if rows.len() == 1 {
        push_str(s, "beat ");
        push_decimal(s, (first + 1) as u128);
        assert(final(s)@ =~= old(s)@ + beat_label(rows));
    } else {
        push_str(s, "beats ");
        push_decimal(s, (first + 1) as u128);
        push_char(s, '\u{2013}');
        push_decimal(s, (last + 1) as u128);
        assert(final(s)@ =~= old(s)@ + beat_label(rows));
    }
}

/// How the confirmation names the removed values.
pub open spec fn value_label(count: usize) -> Seq<char> {
    if count == 1 {
        "score value"@
    } else {
        "score values"@
    }
}

/// The question that asks the player to confirm an edit that removes `count` values.
pub open spec fn row_edit_question(edit: PartRowEdit, count: usize) -> Seq<char> {
    match edit {
        PartRowEdit::Clear(rows) => "clear "@ + beat_label(rows) + "? "@ + decimal(count as nat) + " "@
            + value_label(count) + " will be removed; "@ + "the part length will stay the same"@
            + "."@,
        PartRowEdit::Delete(rows) => "delete "@ + beat_label(rows) + "? "@ + decimal(count as nat)
            + " "@ + value_label(count) + " will be removed; "@
            + "later beats will shift earlier and the part will become shorter"@ + "."@,
        _ => "continue with this row change?"@,
    }
}

/// The text of the dialog that confirms a row edit.
pub fn row_edit_message(request: &RowEditRequested) -> (r: String)
    ensures
        r@ == row_edit_question(request.edit, request.populated_cell_count),
{
    let count = request.populated_cell_count;
    let (verb, rows, consequence) = match request.edit {
        PartRowEdit::Clear(rows) => ("clear ", rows, "the part length will stay the same"),
        PartRowEdit::Delete(rows) => (
            "delete ",
            rows,
            "later beats will shift earlier and the part will become shorter",
        ),
        PartRowEdit::InsertBefore(_) | PartRowEdit::InsertAfter(_) => {
            return "continue with this row change?".to_owned();
        },
    };
    let mut text = verb.to_owned();
    push_beat_label(&mut text, rows);
    push_str(&mut text, "? ");
    push_decimal(&mut text, count as u128);
    push_str(&mut text, " ");
    if count == 1 {
        push_str(&mut text, "score value");
    } else {
        push_str(&mut text, "score values");
    }
    push_str(&mut text, " will be removed; ");
    push_str(&mut text, consequence);
    push_str(&mut text, ".");
    assert(text@ =~= row_edit_question(request.edit, count));
    text
}

/// A cell holds a value when it has a character that is not whitespace.
pub open spec fn holds_value(cell: Seq<char>) -> bool {
    exists|i: int| 0 <= i < cell.len() && !is_white_space(#[trigger] cell[i])
}

/// The number of cells among `cells` that hold a value.
pub open spec fn count_values(cells: Seq<Seq<char>>) -> nat
    decreases cells.len(),
{
    if cells.len() == 0 {
        0
    } else {
        count_values(cells.drop_last()) + if holds_value(cells.last()) {
            1nat
        } else {
            0nat
        }
    }
}

/// The number of cells holding a value in a list of rows.
pub open spec fn rows_values(rows: Seq<Seq<Seq<char>>>) -> nat
    decreases rows.len(),
{
    if rows.len() == 0 {
        0
    } else {
        rows_values(rows.drop_last()) + count_values(rows.last())
    }
}

/// The number of cells holding a value in the rows of `grid` that `rows` covers.
pub open spec fn values_in_rows(grid: Seq<Seq<Seq<char>>>, rows: ScoreRowRange) -> nat {
    rows_values(grid.subrange(rows.first_spec() as int, rows.last_spec() + 1))
}

proof fn lemma_count_values_prefix(cells: Seq<Seq<char>>, j: int)
    requires
        0 <= j <= cells.len(),
    ensures
        count_values(cells.take(j)) <= count_values(cells),
    decreases cells.len() - j,
{
    if j < cells.len() {
        lemma_count_values_prefix(cells, j + 1);
        assert(cells.take(j + 1).drop_last() =~= cells.take(j));
    } else {
        assert(cells.take(j) =~= cells);
    }
}

proof fn lemma_rows_values_prefix(rows: Seq<Seq<Seq<char>>>, k: int)
    requires
        0 <= k <= rows.len(),
    ensures
        rows_values(rows.take(k)) <= rows_values(rows),
    decreases rows.len() - k,
{
    if k < rows.len() {
        lemma_rows_values_prefix(rows, k + 1);
        assert(rows.take(k + 1).drop_last() =~= rows.take(k));
    } else {
        assert(rows.take(k) =~= rows);
    }
}

/// Whether a cell's text holds a value.
fn cell_holds_value(cell: &String) -> (r: bool)
    ensures
        r == holds_value(cell@),
{
    let mut found = false;
    for c in it: cell.chars()
        invariant
            it.seq() == cell@,
            found == exists|i: int| 0 <= i < it.index() && !is_white_space(#[trigger] cell@[i]),
    {
        if !white_space_char(c) {
            found = true;
        }
    }
    found
}

/// The number of values in the rows that `rows` covers: the values an edit of those
/// rows removes. The count must fit the machine's word.
pub fn populated_cell_count(score: &PartScore, rows: ScoreRowRange) -> (r: usize)
    requires
        rows.last_spec() < score@.len(),
        values_in_rows(score@, rows) <= usize::MAX,
    ensures
        r == values_in_rows(score@, rows),
{
    let grid = score.rows();
    let first = rows.first();
    let last = rows.last();
    let ghost sub = score@.subrange(first as int, last + 1);
    let mut count: usize = 0;
    let mut k: usize = first;
    assert(sub.take(0) =~= Seq::<Seq<Seq<char>>>::empty());
    while k <= last
        invariant
            first <= k <= last + 1,
            last < grid@.len(),
            last < usize::MAX,
            rows_view(grid@) == score@,
            sub == score@.subrange(first as int, last + 1),
            rows_values(sub) <= usize::MAX,
            count == rows_values(sub.take(k - first)),
        decreases last + 1 - k,
    {
        let row = &grid[k];
        let ghost cells = row_view(*row);
        assert(cells == sub[k - first]);
        proof {
            lemma_rows_values_prefix(sub, k - first + 1);
            assert(sub.take(k - first + 1).drop_last() =~= sub.take(k - first));
        }
        let n = row.len();
        let ghost base = count as int;
        assert(cells.take(0) =~= Seq::<Seq<char>>::empty());
        for j in 0..n
            invariant
                n == row@.len(),
                cells == row_view(*row),
                count == base + count_values(cells.take(j as int)),
                base + count_values(cells) <= usize::MAX,
        {
            proof {
                lemma_count_values_prefix(cells, j + 1);
                assert(cells.take(j + 1).drop_last() =~= cells.take(j as int));
            }
            if cell_holds_value(&row[j]) {
                count = count + 1;
            }
        }
        assert(cells.take(n as int) =~= cells);
        k = k + 1;
    }
    assert(sub.take(last + 1 - first) =~= sub);
    count
}

/// A selection of rows dragged from `anchor` to `head`.
#[derive(Clone, Copy, Debug, PartialEq, Eq, Structural)]
pub struct AnchoredRowSelection {
    pub anchor: usize,
    pub head: usize,
}

impl AnchoredRowSelection {
    /// The selection from `anchor` to `head` in a score of `row_count` rows, when both lie in it.
    pub fn new(anchor: usize, head: usize, row_count: usize) -> (r: Option<Self>)
        ensures
            anchor < row_count && head < row_count ==> r == Some(AnchoredRowSelection { anchor, head }),
            !(anchor < row_count && head < row_count) ==> r is None,
    {
        if anchor < row_count && head < row_count {
            Some(AnchoredRowSelection { anchor, head })
        } else {
            None
        }
    }

    /// The rows between the anchor and the head, in either direction.
    pub fn rows(self, row_count: usize) -> (r: Option<ScoreRowRange>)
        ensures
            ({
                let low = if self.anchor <= self.head { self.anchor } else { self.head };
                let high = if self.anchor <= self.head { self.head } else { self.anchor };
                &&& high < row_count ==> (r matches Some(s) && s.first_spec() == low
                    && s.last_spec() == high)
                &&& high >= row_count ==> r is None
            }),
    {
        if self.anchor <= self.head {
            ScoreRowRange::new(self.anchor, self.head, row_count)
        } else {
            ScoreRowRange::new(self.head, self.anchor, row_count)
        }
    }
}

/// The row selection of an editor after its document reports `event`: the rows that the
/// editor itself changed the structure of, nothing after another editor's structure change
/// or a reset, the old selection moved inside the rows left after a history step that
/// changed the structure, and the old selection otherwise.
pub open spec fn selection_after(
    selection: Option<AnchoredRowSelection>,
    event: DocumentEvent,
    editor_id: u64,
    row_count: usize,
) -> Option<AnchoredRowSelection> {
    match event {
        DocumentEvent::StructureChanged { source_editor, selected_rows } => if source_editor == editor_id
            && selected_rows.last_spec() < row_count {
            Some(
                AnchoredRowSelection {
                    anchor: selected_rows.first_spec(),
                    head: selected_rows.last_spec(),
                },
            )
        } else {
            None
        },
        DocumentEvent::Reset => None,
        DocumentEvent::HistoryRestored { structure_changed } => if !structure_changed {
            selection
        } else {
            match selection {
                None => None,
                Some(s) => if row_count == 0 {
                    None
                } else {
                    Some(
                        AnchoredRowSelection {
                            anchor: if s.anchor < row_count { s.anchor } else { (row_count - 1) as usize },
                            head: if s.head < row_count { s.head } else { (row_count - 1) as usize },
                        },
                    )
                },
            }
        },
        _ => selection,
    }
}

/// The row selection of editor `editor_id`, whose score now has `row_count` rows, after
/// its document reports `event`.
pub fn selection_after_event(
    selection: Option<AnchoredRowSelection>,
    event: &DocumentEvent,
    editor_id: u64,
    row_count: usize,
) -> (r: Option<AnchoredRowSelection>)
    ensures
        r == selection_after(selection, *event, editor_id, row_count),
{
    match event {
        DocumentEvent::StructureChanged { source_editor, selected_rows } => {
            if *source_editor == editor_id {
                AnchoredRowSelection::new(selected_rows.first(), selected_rows.last(), row_count)
            } else {
                None
            }
        },
        DocumentEvent::Reset => None,
        DocumentEvent::HistoryRestored { structure_changed } => {
            if !*structure_changed {
                return selection;
            }
            let last_row = if row_count == 0 { 0 } else { row_count - 1 };
            match selection {
                None => None,
                Some(s) => AnchoredRowSelection::new(
                    if s.anchor < last_row { s.anchor } else { last_row },
                    if s.head < last_row { s.head } else { last_row },
                    row_count,
                ),
            }
        },
        _ => selection,
    }
}

/// What the export dialog says it will do, for a part name already quoted.
pub open spec fn export_description_text(rows: ScoreRowRange, quoted_name: Seq<char>) -> Seq<char> {
    "export "@ + beat_label(rows) + " from "@ + quoted_name + " into a new part"@
}

/// The export dialog's description of the rows of a part, whose quoted name is given.
pub fn export_description(rows: ScoreRowRange, quoted_name: &str) -> (r: String)
    ensures
        r@ == export_description_text(rows, quoted_name@),
{
    let mut text = "export ".to_owned();
    push_beat_label(&mut text, rows);
    push_str(&mut text, " from ");
    push_str(&mut text, quoted_name);
    push_str(&mut text, " into a new part");
    assert(text@ =~= export_description_text(rows, quoted_name@));
    text
}

/// The export dialog's description of the selected rows of a part.
pub fn selection_description(rows: ScoreRowRange, part_name: &PartName) -> (r: String)
    ensures
        r@ == export_description_text(rows, debug_text(part_name@)),
{
    let quoted = debug_quoted(part_name.as_str());
    export_description(rows, quoted.as_str())
}

} // verus!
