use ahess::document::DocumentEvent;
use ahess::part::{PartName, PartScore};
use ahess::row_edit::{
    confirm_label, export_description, is_destructive, needs_confirmation, populated_cell_count,
    row_edit_message, selection_after_event, selection_description, AnchoredRowSelection,
    PartRowEdit, RowEditRequested, ScoreRowIndex, ScoreRowRange,
};
use ahess::score::ScoreCellEdit;

fn range(first: usize, last: usize) -> ScoreRowRange {
    ScoreRowRange::new(first, last, 100).unwrap()
}

fn request(edit: PartRowEdit, populated_cell_count: usize) -> RowEditRequested {
    RowEditRequested {
        source_editor: 7,
        part_name: PartName::new("verse"),
        edit,
        populated_cell_count,
    }
}

fn score(rows: &[&[&str]]) -> PartScore {
    PartScore::from_rows(
        rows.iter()
            .map(|row| row.iter().map(|cell| cell.to_string()).collect())
            .collect(),
    )
}

#[test]
fn row_ranges_lie_inside_the_score() {
    assert!(ScoreRowRange::new(2, 1, 5).is_none());
    assert!(ScoreRowRange::new(1, 5, 5).is_none());
    let rows = ScoreRowRange::new(1, 4, 5).unwrap();
    assert_eq!((rows.first(), rows.last(), rows.len()), (1, 4, 4));
    assert_eq!(ScoreRowRange::new(0, 0, 2).unwrap().len(), 1);
    assert!(ScoreRowIndex::new(3, 3).is_none());
    assert_eq!(ScoreRowIndex::new(2, 3).unwrap().row(), 2);
}

#[test]
fn dragged_selections_cover_the_rows_between_their_ends() {
    let selection = AnchoredRowSelection::new(3, 1, 4).unwrap();
    assert_eq!(selection.rows(4), ScoreRowRange::new(1, 3, 4));
    assert!(selection.rows(3).is_none());
    assert_eq!(AnchoredRowSelection::new(1, 3, 4).unwrap().rows(4), selection.rows(4));
    assert!(AnchoredRowSelection::new(4, 0, 4).is_none());
}

#[test]
fn only_edits_that_remove_values_need_confirmation() {
    let row = ScoreRowIndex::new(0, 2).unwrap();
    assert!(is_destructive(PartRowEdit::Clear(range(0, 1))));
    assert!(is_destructive(PartRowEdit::Delete(range(0, 1))));
    assert!(!is_destructive(PartRowEdit::InsertBefore(row)));
    assert!(!needs_confirmation(&request(PartRowEdit::Clear(range(0, 1)), 0)));
    assert!(needs_confirmation(&request(PartRowEdit::Clear(range(0, 1)), 2)));
    assert!(needs_confirmation(&request(PartRowEdit::Delete(range(0, 0)), 1)));
    assert!(!needs_confirmation(&request(PartRowEdit::InsertAfter(row), 3)));
}

#[test]
fn confirmation_labels_name_the_edit() {
    let row = ScoreRowIndex::new(0, 2).unwrap();
    assert_eq!(confirm_label(PartRowEdit::Clear(range(0, 0))), "clear rows");
    assert_eq!(confirm_label(PartRowEdit::Delete(range(0, 0))), "delete rows");
    assert_eq!(confirm_label(PartRowEdit::InsertBefore(row)), "continue");
    assert_eq!(confirm_label(PartRowEdit::InsertAfter(row)), "continue");
}

#[test]
fn confirmation_messages_count_the_removed_values() {
    assert_eq!(
        row_edit_message(&request(PartRowEdit::Clear(range(1, 3)), 5)),
        "clear beats 2\u{2013}4? 5 score values will be removed; the part length will stay the same."
    );
    assert_eq!(
        row_edit_message(&request(PartRowEdit::Delete(range(0, 0)), 1)),
        "delete beat 1? 1 score value will be removed; later beats will shift earlier and the part will become shorter."
    );
    let row = ScoreRowIndex::new(0, 2).unwrap();
    assert_eq!(
        row_edit_message(&request(PartRowEdit::InsertBefore(row), 0)),
        "continue with this row change?"
    );
}

#[test]
fn populated_cells_are_those_with_visible_text() {
    let score = score(&[&["C4", " ", ""], &["", "D4", "\t"], &["E4", "F4", "G4"]]);
    assert_eq!(populated_cell_count(&score, range(0, 1)), 2);
    assert_eq!(populated_cell_count(&score, range(1, 2)), 4);
    assert_eq!(populated_cell_count(&score, range(0, 2)), 5);
    assert_eq!(populated_cell_count(&score, range(0, 0)), 1);
}

#[test]
fn export_descriptions_quote_the_part_name() {
    assert_eq!(
        selection_description(range(0, 0), &PartName::new("intro")),
        "export beat 1 from \"intro\" into a new part"
    );
    assert_eq!(
        selection_description(range(1, 2), &PartName::new("a \"b\"")),
        "export beats 2\u{2013}3 from \"a \\\"b\\\"\" into a new part"
    );
    assert_eq!(
        export_description(range(4, 4), "x"),
        "export beat 5 from x into a new part"
    );
}

#[test]
fn document_events_clone_to_equal_events() {
    let event = DocumentEvent::CellChanged {
        source_editor: 3,
        edit: ScoreCellEdit { row: 1, column: 2, before: "C4".to_owned(), after: "D4".to_owned() },
    };
    match event.clone() {
        DocumentEvent::CellChanged { source_editor, edit } => {
            assert_eq!(source_editor, 3);
            assert_eq!(edit, ScoreCellEdit { row: 1, column: 2, before: "C4".to_owned(), after: "D4".to_owned() });
        }
        _ => panic!("the clone changed the event's kind"),
    }
    let rows = DocumentEvent::StructureChanged { source_editor: 1, selected_rows: range(0, 1) };
    assert!(matches!(rows.clone(), DocumentEvent::StructureChanged { source_editor: 1, selected_rows } if selected_rows == range(0, 1)));
}

#[test]
fn row_selections_follow_document_events() {
    let selected = AnchoredRowSelection::new(5, 2, 8);
    let own_change = DocumentEvent::StructureChanged { source_editor: 1, selected_rows: range(3, 4) };
    assert_eq!(selection_after_event(selected, &own_change, 1, 8), AnchoredRowSelection::new(3, 4, 8));
    assert_eq!(selection_after_event(selected, &own_change, 1, 4), None);
    assert_eq!(selection_after_event(selected, &own_change, 2, 8), None);
    assert_eq!(selection_after_event(selected, &DocumentEvent::Reset, 1, 8), None);
    assert_eq!(
        selection_after_event(selected, &DocumentEvent::HistoryRestored { structure_changed: true }, 1, 4),
        AnchoredRowSelection::new(3, 2, 4)
    );
    assert_eq!(
        selection_after_event(selected, &DocumentEvent::HistoryRestored { structure_changed: true }, 1, 0),
        None
    );
    assert_eq!(
        selection_after_event(selected, &DocumentEvent::HistoryRestored { structure_changed: false }, 1, 4),
        selected
    );
    assert_eq!(selection_after_event(selected, &DocumentEvent::Saved, 1, 8), selected);
    assert_eq!(selection_after_event(None, &DocumentEvent::RowsCleared, 1, 8), None);
}
