use ahess::history::HistoryError;
use ahess::part::PartName;

#[test]
fn missing_score_message_quotes_the_part() {
    let error = HistoryError::MissingScore(PartName::new("intro"));
    assert_eq!(error.message(), "history has no score for part \"intro\"");
}

#[test]
fn missing_part_message_quotes_the_part() {
    let error = HistoryError::MissingPart(PartName::new("bridge"));
    assert_eq!(error.message(), "history has no part \"bridge\"");
}

#[test]
fn cell_outside_message_counts_from_one() {
    let error = HistoryError::CellOutside { part_name: PartName::new("intro"), row: 0, column: 4 };
    assert_eq!(error.message(), "history cell 1:5 is outside part \"intro\"");
}

#[test]
fn cell_mismatch_message_quotes_both_texts() {
    let error = HistoryError::CellMismatch {
        part_name: PartName::new("intro"),
        row: 11,
        column: 0,
        expected: "C4".to_string(),
        found: "say \"hi\"".to_string(),
    };
    assert_eq!(
        error.message(),
        "history expected cell 12:1 in part \"intro\" to contain \"C4\", but found \"say \\\"hi\\\"\""
    );
}

#[test]
fn project_mismatch_message() {
    assert_eq!(
        HistoryError::ProjectMismatch.message(),
        "project history no longer matches the current project"
    );
}

#[test]
fn score_mismatch_message_quotes_the_part() {
    let error = HistoryError::ScoreMismatch(PartName::new("outro"));
    assert_eq!(error.message(), "score history no longer matches part \"outro\"");
}

#[test]
fn record_failed_message_keeps_the_reason() {
    let error = HistoryError::RecordFailed {
        part_name: PartName::new("intro"),
        message: "unknown pitch".to_string(),
    };
    assert_eq!(error.message(), "couldn't record score history for part \"intro\": unknown pitch");
}

#[test]
fn cell_outside_message_at_the_largest_row() {
    let error = HistoryError::CellOutside { part_name: PartName::new("a"), row: usize::MAX, column: 0 };
    assert_eq!(
        error.message(),
        format!("history cell {}:1 is outside part \"a\"", usize::MAX as u128 + 1)
    );
}
