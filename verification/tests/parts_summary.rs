use ahess::part::{Part, PartName};
use ahess::parts_summary::{
    arrangement_row_label, arrangement_summary, available_part_label, combination_source_label,
    combination_summary, find_part, part_length_label, part_usage, selection_after_delete,
    selection_after_sync,
};

fn names(names: &[&str]) -> Vec<PartName> {
    names.iter().map(|name| PartName::new(name)).collect()
}

fn parts() -> Vec<Part> {
    vec![Part::new("intro", 8), Part::new("Verse", 16), Part::new("tag", 1)]
}

#[test]
fn parts_are_found_by_name_in_any_case() {
    let parts = parts();
    assert_eq!(find_part(&parts, &PartName::new("VERSE")), Some(1));
    assert_eq!(find_part(&parts, &PartName::new("intro")), Some(0));
    assert_eq!(find_part(&parts, &PartName::new("bridge")), None);
    let twice = vec![Part::new("a", 1), Part::new("A", 2)];
    assert_eq!(find_part(&twice, &PartName::new("a")), Some(0));
}

#[test]
fn lengths_count_beats() {
    assert_eq!(part_length_label(1), "1 beat");
    assert_eq!(part_length_label(16), "16 beats");
    assert_eq!(part_length_label(0), "0 beats");
}

#[test]
fn usage_says_how_often_the_arrangement_plays_a_part() {
    let sequence = names(&["verse", "intro", "VERSE"]);
    assert_eq!(part_usage(&sequence, &PartName::new("Verse")), "used 2 times");
    assert_eq!(part_usage(&sequence, &PartName::new("intro")), "used once");
    assert_eq!(part_usage(&sequence, &PartName::new("bridge")), "not used");
}

#[test]
fn the_arrangement_heading_totals_the_beats_of_existing_parts() {
    let parts = parts();
    assert_eq!(
        arrangement_summary(&parts, &names(&["intro", "verse", "VERSE", "missing"])),
        "4 parts, 40 beats"
    );
    assert_eq!(arrangement_summary(&parts, &names(&["tag"])), "1 part, 1 beat");
    assert_eq!(arrangement_summary(&parts, &[].to_vec()), "0 parts, 0 beats");
}

#[test]
fn the_combination_heading_totals_its_sources() {
    let parts = parts();
    assert_eq!(combination_summary(&parts, &names(&["intro", "tag"])), "2 parts, 9 beats");
    assert_eq!(combination_summary(&parts, &names(&["missing"])), "1 part, 0 beats");
}

#[test]
fn list_rows_number_and_describe_their_parts() {
    let parts = parts();
    assert_eq!(
        combination_source_label(&parts, 0, &PartName::new("intro")),
        "1. intro \u{b7} 8 beats"
    );
    assert_eq!(
        combination_source_label(&parts, 1, &PartName::new("missing")),
        "2. missing \u{b7} 0 beats"
    );
    assert_eq!(available_part_label(&Part::new("tag", 1)), "tag \u{b7} 1 beat");
    assert_eq!(arrangement_row_label(2, &PartName::new("verse")), "3. verse");
}

#[test]
fn deleting_a_part_selects_its_neighbour() {
    let before = vec![Part::new("a", 1), Part::new("b", 1), Part::new("c", 1)];
    let after_b = vec![Part::new("a", 1), Part::new("c", 1)];
    let selected = selection_after_delete(&before, &after_b, &PartName::new("B"));
    assert_eq!(selected.map(|name| name.as_str().to_owned()), Some("c".to_owned()));
    let after_c = vec![Part::new("a", 1), Part::new("b", 1)];
    let selected = selection_after_delete(&before, &after_c, &PartName::new("c"));
    assert_eq!(selected.map(|name| name.as_str().to_owned()), Some("b".to_owned()));
    assert!(selection_after_delete(&before, &after_c, &PartName::new("zzz")).is_none());
    assert!(selection_after_delete(&vec![Part::new("a", 1)], &Vec::new(), &PartName::new("a")).is_none());
}

#[test]
fn a_selection_that_no_longer_exists_moves_to_the_first_part() {
    let parts = vec![Part::new("a", 1), Part::new("b", 1)];
    let kept = selection_after_sync(&parts, Some(PartName::new("B")));
    assert_eq!(kept.map(|name| name.as_str().to_owned()), Some("B".to_owned()));
    let moved = selection_after_sync(&parts, Some(PartName::new("gone")));
    assert_eq!(moved.map(|name| name.as_str().to_owned()), Some("a".to_owned()));
    assert_eq!(
        selection_after_sync(&parts, None).map(|name| name.as_str().to_owned()),
        Some("a".to_owned())
    );
    assert!(selection_after_sync(&Vec::new(), Some(PartName::new("a"))).is_none());
}
