use ahess::arrangement::SelectedRange;
use ahess::arrangement_playback::{
    arrangement_duration_summary, loop_range_summary, playing_arrangement_position,
    occurrence_rows, reconcile_loop_range, score_arrangement_context_labels,
    selected_occurrence_range, ArrangementOccurrence, BeatRange, LoopSelection, OccurrenceId,
};
use ahess::part::PartName;

/// The occurrences of an arrangement that plays `sequence`, given each part's length;
/// each occurrence is identified by its place.
fn occurrences(parts: &[(&str, u64)], sequence: &[&str]) -> Vec<ArrangementOccurrence> {
    let ids: Vec<u64> = (0..sequence.len() as u64).collect();
    occurrences_with_ids(parts, sequence, &ids)
}

fn occurrences_with_ids(parts: &[(&str, u64)], sequence: &[&str], ids: &[u64]) -> Vec<ArrangementOccurrence> {
    let mut next_beat = 1;
    let mut result = Vec::new();
    for (index, name) in sequence.iter().enumerate() {
        let length = parts.iter().find(|(part, _)| part == name).unwrap().1;
        result.push(ArrangementOccurrence {
            id: OccurrenceId(ids[index]),
            index,
            part_name: PartName::new(name),
            first_beat: next_beat,
            last_beat: next_beat + length - 1,
        });
        next_beat += length;
    }
    result
}

#[test]
fn maps_arrangement_beats_to_part_score_rows() {
    let arrangement = occurrences(&[("first", 2), ("second", 3)], &["first", "second", "first"]);

    let position = |beat| {
        playing_arrangement_position(&arrangement, beat)
            .map(|position| (position.part_name.as_str().to_string(), position.row))
    };
    assert_eq!(position(1), Some(("first".to_string(), 0)));
    assert_eq!(position(2), Some(("first".to_string(), 1)));
    assert_eq!(position(3), Some(("second".to_string(), 0)));
    assert_eq!(position(5), Some(("second".to_string(), 2)));
    assert_eq!(position(6), Some(("first".to_string(), 0)));
    assert_eq!(position(7), Some(("first".to_string(), 1)));
    assert_eq!(position(0), None);
    assert_eq!(position(8), None);

    assert_eq!(
        playing_arrangement_position(&arrangement, 1).map(|position| position.occurrence),
        Some(0)
    );
    assert_eq!(
        playing_arrangement_position(&arrangement, 6).map(|position| position.occurrence),
        Some(2),
        "repeated parts should outline the occurrence that owns the current beat"
    );
}

#[test]
fn loop_summaries_describe_part_aligned_and_exact_ranges() {
    let arrangement = occurrences(&[("intro", 8), ("verse", 16)], &["intro", "verse", "verse"]);

    assert_eq!(loop_range_summary(&arrangement, 40, BeatRange::new(1, 40, 40)), "loop all");
    assert_eq!(loop_range_summary(&arrangement, 40, BeatRange::new(9, 24, 40)), "loop 2. verse");
    assert_eq!(
        loop_range_summary(&arrangement, 40, BeatRange::new(9, 40, 40)),
        "loop parts 2\u{2013}3"
    );
    assert_eq!(
        loop_range_summary(&arrangement, 40, BeatRange::new(10, 23, 40)),
        "loop beats 10\u{2013}23"
    );
    assert_eq!(loop_range_summary(&arrangement, 40, None), "set loop");
}

#[test]
fn arrangement_duration_summary_uses_the_complete_arrangement() {
    assert_eq!(arrangement_duration_summary(3 + 5 + 5, 5_125), "1:07");
    assert_eq!(arrangement_duration_summary(2, 500), "0:01");
    assert_eq!(arrangement_duration_summary(4, 30_000), "2:00");
    assert_eq!(arrangement_duration_summary(0, 500), "0:00");
}

#[test]
fn beat_ranges_lie_inside_the_arrangement() {
    assert!(BeatRange::new(0, 4, 10).is_none());
    assert!(BeatRange::new(5, 4, 10).is_none());
    assert!(BeatRange::new(5, 11, 10).is_none());
    let range = BeatRange::new(5, 10, 10).unwrap();
    assert_eq!((range.first(), range.last()), (5, 10));
}

#[test]
fn loops_over_whole_parts_name_them() {
    let arrangement = occurrences(&[("a", 4), ("b", 4)], &["a", "b"]);
    assert_eq!(
        loop_range_summary(&arrangement, 8, BeatRange::new(5, 8, 9)),
        "loop 2. b"
    );
    assert_eq!(
        loop_range_summary(&arrangement, 9, BeatRange::new(1, 8, 9)),
        "loop parts 1\u{2013}2"
    );
}

#[test]
fn durations_round_to_the_nearest_second() {
    assert_eq!(arrangement_duration_summary(1, 499), "0:00");
    assert_eq!(arrangement_duration_summary(1, 500), "0:01");
    assert_eq!(arrangement_duration_summary(61, 1_000), "1:01");
    assert_eq!(arrangement_duration_summary(u64::MAX, u32::MAX).len() > 20, true);
}

#[test]
fn entire_arrangement_and_explicit_full_span_have_different_intent() {
    let parts = [("a", 4), ("b", 8)];
    let range = BeatRange::new(1, 16, 16).unwrap();
    let selected = LoopSelection::Occurrences(vec![OccurrenceId(0), OccurrenceId(1), OccurrenceId(2)]);
    let occurrences = occurrences_with_ids(&parts, &["a", "b", "a", "b"], &[0, 1, 2, 3]);
    assert_eq!(selected.resolve(&occurrences), Some(range));
    assert_eq!(
        LoopSelection::EntireArrangement.resolve(&occurrences),
        BeatRange::new(1, 24, 24)
    );
    let shorter = [("a", 2), ("b", 8)];
    let occurrences = occurrences_with_ids(&shorter, &["a", "b", "a", "b"], &[0, 1, 2, 3]);
    assert_eq!(selected.resolve(&occurrences), BeatRange::new(1, 12, 20));
}

#[test]
fn occurrence_loops_follow_their_occurrences_wherever_they_stand() {
    let parts = [("a", 4), ("b", 8)];
    let selection = LoopSelection::Occurrences(vec![OccurrenceId(2)]);
    let moved = occurrences_with_ids(&parts, &["a", "a", "a", "b"], &[3, 0, 2, 1]);
    assert_eq!(selection.resolve(&moved), BeatRange::new(9, 12, 20));
    let gone = occurrences_with_ids(&parts, &["a"], &[0]);
    assert_eq!(selection.resolve(&gone), None);
    assert_eq!(LoopSelection::EntireArrangement.resolve(&Vec::new()), None);
}

#[test]
fn the_loop_list_shows_the_chosen_occurrences() {
    let arrangement = occurrences(&[("a", 4), ("b", 8)], &["a", "b", "a"]);
    let chosen = LoopSelection::Occurrences(vec![OccurrenceId(1), OccurrenceId(2)]);
    assert_eq!(selected_occurrence_range(&arrangement, &chosen), SelectedRange::new(1, 2, 3));
    let missing = LoopSelection::Occurrences(vec![OccurrenceId(9)]);
    assert_eq!(selected_occurrence_range(&arrangement, &missing), None);
    assert_eq!(
        selected_occurrence_range(&arrangement, &LoopSelection::EntireArrangement),
        SelectedRange::new(0, 2, 3)
    );
    assert_eq!(selected_occurrence_range(&Vec::new(), &LoopSelection::EntireArrangement), None);
}

#[test]
fn loops_stay_inside_a_changed_arrangement() {
    let range = |first, last| BeatRange::new(first, last, u64::MAX);
    assert_eq!(reconcile_loop_range(None, 0, 10), BeatRange::new(1, 10, 10));
    assert_eq!(reconcile_loop_range(range(1, 20), 20, 30), BeatRange::new(1, 30, 30));
    assert_eq!(reconcile_loop_range(range(3, 4), 0, 30), BeatRange::new(1, 30, 30));
    assert_eq!(reconcile_loop_range(range(5, 8), 20, 30), BeatRange::new(5, 8, 30));
    assert_eq!(reconcile_loop_range(range(5, 25), 30, 20), BeatRange::new(5, 20, 20));
    assert_eq!(reconcile_loop_range(range(25, 28), 30, 20), BeatRange::new(20, 20, 20));
    assert_eq!(reconcile_loop_range(range(5, 8), 20, 0), None);
    assert_eq!(reconcile_loop_range(None, 20, 0), None);
}

#[test]
fn score_arrangement_highlights_every_occurrence_of_the_active_part() {
    let arrangement = occurrences(&[("intro", 4), ("verse", 8)], &["intro", "verse", "intro"]);
    let rows = occurrence_rows(&arrangement, &Some(PartName::new("INTRO")));
    let shown: Vec<(String, &str)> = rows.iter().map(|row| (row.label.clone(), row.indicator)).collect();
    assert_eq!(
        shown,
        vec![
            ("1. intro".to_owned(), "\u{2192}"),
            ("2. verse".to_owned(), ""),
            ("3. intro".to_owned(), "\u{2192}"),
        ]
    );
    let rows = occurrence_rows(&arrangement, &None);
    assert!(rows.iter().all(|row| row.indicator.is_empty()));
}

#[test]
fn context_actions_open_in_each_panel_then_remove() {
    assert_eq!(
        score_arrangement_context_labels(2, true),
        vec!["open in panel 1", "open in panel 2", "remove from arrangement"]
    );
    assert!(score_arrangement_context_labels(3, false).is_empty());
}

#[test]
fn occurrence_loop_follows_length_changes_and_surviving_endpoints() {
    let selection = LoopSelection::Occurrences(vec![OccurrenceId(11), OccurrenceId(12)]);
    let lengthened = occurrences_with_ids(&[("a", 7), ("b", 8)], &["a", "b", "a"], &[10, 11, 12]);
    assert_eq!(selection.resolve(&lengthened), BeatRange::new(8, 22, 22));
    let shortened = occurrences_with_ids(&[("a", 7), ("b", 8)], &["a", "a"], &[10, 12]);
    assert_eq!(selection.resolve(&shortened), BeatRange::new(8, 14, 14));
    let single = occurrences_with_ids(&[("a", 7), ("b", 8)], &["a"], &[10]);
    assert_eq!(selection.resolve(&single), None);
}

#[test]
fn occurrence_loop_tracks_a_repeated_instance_through_insert_and_move() {
    let parts = [("a", 4), ("b", 8)];
    let selection = LoopSelection::Occurrences(vec![OccurrenceId(12)]);
    let inserted = occurrences_with_ids(&parts, &["a", "a", "b", "a"], &[10, 13, 11, 12]);
    assert_eq!(selection.resolve(&inserted), BeatRange::new(17, 20, 20));
    let moved = occurrences_with_ids(&parts, &["a", "a", "a", "b"], &[12, 10, 13, 11]);
    assert_eq!(selection.resolve(&moved), BeatRange::new(1, 4, 20));
}
