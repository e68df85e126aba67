use ahess::arrangement::{
    distinct_part_names, CombinationDraft, CombineControls, parse_part_length, sequence_with_inserted_part,
    sequence_with_moved_range, sequence_with_removed_range, sequence_with_repeated_range,
    SelectedRange,
};
use ahess::part::PartName;

fn names<const N: usize>(names: [&str; N]) -> Vec<PartName> {
    names.into_iter().map(PartName::new).collect()
}

fn name_strings(names: &[PartName]) -> Vec<&str> {
    names.iter().map(PartName::as_str).collect()
}

#[test]
fn part_length_is_a_positive_whole_number() {
    assert_eq!(parse_part_length(" 16 ").unwrap(), 16);
    assert!(parse_part_length("").is_err());
    assert!(parse_part_length("0").is_err());
    assert!(parse_part_length("1.5").is_err());
}

#[test]
fn part_length_errors_say_what_is_wrong() {
    assert_eq!(
        parse_part_length("x").unwrap_err(),
        "part length must be a whole number"
    );
    assert_eq!(
        parse_part_length("\t0\n").unwrap_err(),
        "part length must be at least one beat"
    );
    assert_eq!(parse_part_length("+8").unwrap(), 8);
}

#[test]
fn selected_parts_are_inserted_after_the_selected_range() {
    let sequence = names(["part-a", "part-b", "part-b"]);
    let selected_range = SelectedRange::new(0, 1, sequence.len());

    let (updated, selected) =
        sequence_with_inserted_part(&sequence, PartName::new("bridge"), selected_range);

    assert_eq!(
        name_strings(&updated),
        ["part-a", "part-b", "bridge", "part-b"]
    );
    assert_eq!(selected, SelectedRange::new(2, 2, 4).unwrap());

    let (updated, selected) = sequence_with_inserted_part(&sequence, PartName::new("bridge"), None);
    assert_eq!(
        name_strings(&updated),
        ["part-a", "part-b", "part-b", "bridge"]
    );
    assert_eq!(selected, SelectedRange::new(3, 3, 4).unwrap());
}

#[test]
fn arrangement_ranges_can_move_repeat_and_be_removed() {
    let sequence = names(["part-a", "part-b", "bridge", "outro"]);
    let selected = SelectedRange::new(1, 2, sequence.len()).unwrap();

    let (moved, moved_selection) = sequence_with_moved_range(&sequence, selected, -1).unwrap();
    assert_eq!(
        name_strings(&moved),
        ["part-b", "bridge", "part-a", "outro"]
    );
    assert_eq!(moved_selection, SelectedRange::new(0, 1, 4).unwrap());
    let (moved, moved_selection) = sequence_with_moved_range(&sequence, selected, 1).unwrap();
    assert_eq!(
        name_strings(&moved),
        ["part-a", "outro", "part-b", "bridge"]
    );
    assert_eq!(moved_selection, SelectedRange::new(2, 3, 4).unwrap());
    assert!(
        sequence_with_moved_range(&sequence, SelectedRange::new(0, 1, 4).unwrap(), -1).is_none()
    );
    assert!(
        sequence_with_moved_range(&sequence, SelectedRange::new(2, 3, 4).unwrap(), 1).is_none()
    );

    let (repeated, repeated_selection) =
        sequence_with_repeated_range(&sequence, selected).unwrap();
    assert_eq!(
        name_strings(&repeated),
        ["part-a", "part-b", "bridge", "part-b", "bridge", "outro"]
    );
    assert_eq!(repeated_selection, SelectedRange::new(3, 4, 6).unwrap());

    let (removed, remaining_selection) = sequence_with_removed_range(&sequence, selected).unwrap();
    assert_eq!(name_strings(&removed), ["part-a", "outro"]);
    assert_eq!(remaining_selection, SelectedRange::new(1, 1, 2));
}

#[test]
fn moving_back_and_forth_restores_the_arrangement() {
    let sequence = names(["a", "b", "c", "d"]);
    let selected = SelectedRange::new(1, 2, 4).unwrap();
    let (moved, moved_selection) = sequence_with_moved_range(&sequence, selected, -1).unwrap();
    let (back, back_selection) = sequence_with_moved_range(&moved, moved_selection, 1).unwrap();
    assert_eq!(back, sequence);
    assert_eq!(back_selection, selected);
    let (repeated, copy) = sequence_with_repeated_range(&sequence, selected).unwrap();
    let (removed, _) = sequence_with_removed_range(&repeated, copy).unwrap();
    assert_eq!(removed, sequence);
}

#[test]
fn removing_everything_leaves_no_selection() {
    let sequence = names(["a"]);
    let (removed, selection) =
        sequence_with_removed_range(&sequence, SelectedRange::new(0, 0, 1).unwrap()).unwrap();
    assert!(removed.is_empty());
    assert_eq!(selection, None);
    assert!(SelectedRange::new(2, 1, 4).is_none());
    assert!(SelectedRange::new(0, 4, 4).is_none());
}

#[test]
fn distinct_names_ignore_ascii_case() {
    let distinct = distinct_part_names(&names(["d1", "D1", "d2", "d2"]));
    assert_eq!(name_strings(&distinct), ["d1", "d2"]);
}

fn draft_names(draft: &CombinationDraft) -> Vec<&str> {
    draft.sources.iter().map(|name| name.as_str()).collect()
}

#[test]
fn combination_sources_can_be_added_reordered_and_removed() {
    let mut draft = CombinationDraft { sources: Vec::new(), selected: None };
    draft.add_source(PartName::new("intro"));
    draft.add_source(PartName::new("verse"));
    draft.add_source(PartName::new("outro"));
    assert_eq!(draft_names(&draft), ["intro", "verse", "outro"]);
    assert_eq!(draft.selected, Some(2));

    draft.move_source_earlier();
    assert_eq!(draft_names(&draft), ["intro", "outro", "verse"]);
    assert_eq!(draft.selected, Some(1));
    draft.move_source_earlier();
    draft.move_source_earlier();
    assert_eq!(draft_names(&draft), ["outro", "intro", "verse"]);
    assert_eq!(draft.selected, Some(0));

    draft.move_source_later();
    assert_eq!(draft_names(&draft), ["intro", "outro", "verse"]);
    assert_eq!(draft.selected, Some(1));

    draft.selected = Some(2);
    draft.move_source_later();
    assert_eq!(draft.selected, Some(2));
    draft.remove_source();
    assert_eq!(draft_names(&draft), ["intro", "outro"]);
    assert_eq!(draft.selected, Some(1));
    draft.selected = Some(0);
    draft.remove_source();
    assert_eq!(draft_names(&draft), ["outro"]);
    assert_eq!(draft.selected, Some(0));
    draft.remove_source();
    assert!(draft.sources.is_empty());
    assert_eq!(draft.selected, None);
    draft.remove_source();
    draft.move_source_later();
    assert_eq!(draft.selected, None);
}

#[test]
fn combination_controls_follow_the_selection() {
    let draft = CombinationDraft { sources: names(["a", "b", "c"]), selected: Some(1) };
    assert_eq!(
        draft.controls(true),
        CombineControls { add: true, move_earlier: true, move_later: true, remove: true, combine: true }
    );
    let first = CombinationDraft { sources: names(["a", "b"]), selected: Some(0) };
    assert_eq!(
        first.controls(false),
        CombineControls { add: false, move_earlier: false, move_later: true, remove: true, combine: true }
    );
    let stale = CombinationDraft { sources: names(["a"]), selected: Some(4) };
    assert_eq!(
        stale.controls(false),
        CombineControls { add: false, move_earlier: false, move_later: false, remove: false, combine: false }
    );
}
