use ahess::document::DocumentEvent;
use ahess::part::PartScore;
use ahess::score::ScoreCellEdit;
use ahess::score_document::{
    score_with_cell, structure_changed, SaveState, SaveTracker, AUTOSAVE_DEBOUNCE_MILLIS,
    AUTOSAVE_MAX_DELAY_MILLIS,
};

fn score(rows: &[&[&str]]) -> PartScore {
    PartScore::from_rows(
        rows.iter()
            .map(|row| row.iter().map(|cell| cell.to_string()).collect())
            .collect(),
    )
}

#[test]
fn setting_a_cell_gives_the_edit_that_undoes_it() {
    let initial = score(&[&["C4", ""], &["D4", "E4"]]);
    let (edited, edit) = score_with_cell(&initial, 1, 0, "F4".to_owned()).unwrap();
    assert_eq!(edited, score(&[&["C4", ""], &["F4", "E4"]]));
    assert_eq!(edit, ScoreCellEdit { row: 1, column: 0, before: "D4".to_owned(), after: "F4".to_owned() });
    assert!(score_with_cell(&initial, 1, 0, "D4".to_owned()).is_none());
    assert!(score_with_cell(&initial, 2, 0, "F4".to_owned()).is_none());
    assert!(score_with_cell(&initial, 0, 2, "F4".to_owned()).is_none());
}

#[test]
fn structure_changes_are_changes_of_rows_or_their_lengths() {
    let a = score(&[&["C4", ""], &["D4", "E4"]]);
    assert!(!structure_changed(&a, &score(&[&["x", "y"], &["", ""]])));
    assert!(structure_changed(&a, &score(&[&["C4", ""]])));
    assert!(structure_changed(&a, &score(&[&["C4", ""], &["D4"]])));
}

#[test]
fn continuous_score_edits_checkpoint_within_the_maximum_delay() {
    let mut tracker = SaveTracker::new();
    let mut due = 0;
    for edit in 0..10_u64 {
        let now = edit * 500;
        due = now + tracker.edited(now);
    }
    assert_eq!(due, AUTOSAVE_MAX_DELAY_MILLIS);
    assert_eq!(tracker.save_state, SaveState::Saving);
    let mut single = SaveTracker::new();
    assert_eq!(single.edited(10_000), AUTOSAVE_DEBOUNCE_MILLIS);
    assert_eq!(single.edited(30_000), 0);
}

#[test]
fn score_changes_autosave_and_invalid_edits_stay_in_recovery() {
    let mut tracker = SaveTracker::new();
    tracker.edited(0);
    assert!(tracker.dirty);
    tracker.save_started();
    assert_eq!(tracker.pending_since, None);
    tracker.score_written();
    assert!(matches!(tracker.recovery_cleared(Ok(())), DocumentEvent::Saved));
    assert!(!tracker.dirty);
    assert_eq!(tracker.save_state, SaveState::Saved);

    tracker.edited(1_000);
    tracker.save_started();
    assert!(matches!(
        tracker.autosave_write_failed("C9 is not in the tuning".to_owned(), true),
        DocumentEvent::RecoverySaved
    ));
    assert!(tracker.dirty);
    assert_eq!(tracker.save_state, SaveState::RecoverySaved);
    assert_eq!(tracker.last_save_error, None);

    assert!(matches!(tracker.autosave_write_failed("disk full".to_owned(), false), DocumentEvent::SaveFailed));
    assert_eq!(tracker.last_save_error.as_deref(), Some("disk full"));
}

#[test]
fn explicit_saves_keep_the_recovery_file_when_the_score_cannot_be_written() {
    let mut tracker = SaveTracker::new();
    tracker.edited(0);
    assert!(matches!(tracker.save_write_failed("read-only".to_owned()), DocumentEvent::SaveFailed));
    assert_eq!(tracker.save_state, SaveState::RecoverySaved);
    assert!(tracker.dirty);
    assert!(matches!(tracker.recovery_cleared(Err("busy".to_owned())), DocumentEvent::SaveFailed));
    assert!(tracker.dirty);
    tracker.settings_changed();
    assert_eq!(tracker.last_save_error, None);
}

#[test]
fn recovered_scores_reset_and_history_restores() {
    let mut tracker = SaveTracker::new();
    tracker.recovered(0);
    assert_eq!(tracker.save_state, SaveState::SavingRecovered);
    tracker.edited(100);
    assert_eq!(tracker.save_state, SaveState::SavingRecovered);
    assert!(matches!(tracker.reset(), DocumentEvent::Reset));
    assert_eq!(tracker.save_state, SaveState::Idle);
    tracker.history_restored(true);
    assert!(tracker.dirty);
    assert_eq!(tracker.save_state, SaveState::RecoverySaved);
    tracker.history_restored(false);
    assert!(!tracker.dirty);
    assert_eq!(tracker.save_state, SaveState::Saved);
    tracker.edited(5);
    tracker.structure_saved();
    assert!(!tracker.dirty);
    assert_eq!((tracker.save_state, tracker.pending_since), (SaveState::Saved, None));
}
