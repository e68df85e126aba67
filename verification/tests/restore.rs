use ahess::part::{Part, PartName};
use ahess::restore::{
    document_name_changes, find_name, plan_documents, plan_panes, renamed_part_names, restore_ui_state, PaneUpdate,
    UiState, WorkspaceSectionKind,
};

fn names(names: &[&str]) -> Vec<PartName> {
    names.iter().map(|name| PartName::new(name)).collect()
}

fn describe(update: &PaneUpdate) -> String {
    match update {
        PaneUpdate::Keep(name) => format!("keep {}", name.as_str()),
        PaneUpdate::Open(name) => format!("open {}", name.as_str()),
        PaneUpdate::Empty => "empty".to_owned(),
    }
}

fn change_strings(changes: &[(PartName, PartName)]) -> Vec<(String, String)> {
    changes
        .iter()
        .map(|(old, new)| (old.as_str().to_owned(), new.as_str().to_owned()))
        .collect()
}

#[test]
fn undoing_a_rename_keeps_the_renamed_document_and_its_pane() {
    let current = names(&["intro", "chorus 2"]);
    let target = names(&["intro", "chorus"]);
    let documents = names(&["intro", "chorus 2"]);
    let plan = plan_documents(&current, &target, &documents);
    assert_eq!(plan, vec![Some(0), Some(1)]);
    let changes = document_name_changes(&target, &documents, &plan);
    assert_eq!(
        change_strings(&changes),
        vec![
            ("intro".to_owned(), "intro".to_owned()),
            ("chorus 2".to_owned(), "chorus".to_owned())
        ]
    );
    let panes = vec![Some(PartName::new("chorus 2")), None, Some(PartName::new("INTRO"))];
    let updates = plan_panes(&current, &target, &changes, &panes);
    let described: Vec<String> = updates.iter().map(describe).collect();
    assert_eq!(described, ["keep chorus", "open intro", "keep intro"]);
}

#[test]
fn panes_of_removed_parts_fall_back_to_the_first_part() {
    let current = names(&["intro", "bridge"]);
    let target = names(&["intro"]);
    let documents = names(&["intro", "bridge"]);
    let plan = plan_documents(&current, &target, &documents);
    assert_eq!(plan, vec![Some(0)]);
    let changes = document_name_changes(&target, &documents, &plan);
    let updates = plan_panes(&current, &target, &changes, &vec![Some(PartName::new("bridge"))]);
    assert_eq!(describe(&updates[0]), "open intro");
}

#[test]
fn restored_parts_without_a_document_get_a_new_one() {
    let current = names(&["intro"]);
    let target = names(&["intro", "outro"]);
    let documents = names(&["intro"]);
    let plan = plan_documents(&current, &target, &documents);
    assert_eq!(plan, vec![Some(0), None]);
    let changes = document_name_changes(&target, &documents, &plan);
    assert_eq!(
        change_strings(&changes),
        vec![
            ("intro".to_owned(), "intro".to_owned()),
            ("outro".to_owned(), "outro".to_owned())
        ]
    );
}

#[test]
fn documents_are_taken_once_and_by_name_first() {
    let current = names(&["a", "b"]);
    let target = names(&["a", "b"]);
    let documents = names(&["A", "a"]);
    assert_eq!(plan_documents(&current, &target, &documents), vec![Some(0), None]);
    let twice = names(&["x", "x"]);
    assert_eq!(plan_documents(&names(&["x"]), &twice, &names(&["x"])), vec![Some(0), None]);
}

#[test]
fn an_empty_project_leaves_the_panes_empty() {
    let updates = plan_panes(&names(&["a"]), &Vec::new(), &Vec::new(), &vec![Some(PartName::new("a")), None]);
    let described: Vec<String> = updates.iter().map(describe).collect();
    assert_eq!(described, ["empty", "empty"]);
}

#[test]
fn names_are_found_without_regard_to_case() {
    let list = names(&["Intro", "verse"]);
    assert_eq!(find_name(&list, &PartName::new("VERSE")), Some(1));
    assert_eq!(find_name(&list, &PartName::new("bridge")), None);
}

#[test]
fn restores_the_open_workspace_and_score_panes() {
    let parts = vec![Part::new("intro", 2), Part::new("verse", 2)];
    let ui_state = UiState {
        workspace: WorkspaceSectionKind::Parts,
        score_pane_count: 3,
        open_score_parts: vec!["verse".to_string(), "intro".to_string(), "verse".to_string()],
        active_score_pane: 1,
        score_arrangement_visible: false,
    };
    let restored = restore_ui_state(&ui_state, &parts);
    assert_eq!(restored, ui_state);
}

#[test]
fn invalid_saved_score_panes_restore_to_valid_fallbacks() {
    let parts = vec![Part::new("intro", 2)];
    let ui_state = UiState {
        workspace: WorkspaceSectionKind::Score,
        score_pane_count: usize::MAX,
        open_score_parts: vec!["missing".to_string()],
        active_score_pane: usize::MAX,
        score_arrangement_visible: true,
    };
    assert_eq!(
        restore_ui_state(&ui_state, &parts),
        UiState {
            workspace: WorkspaceSectionKind::Score,
            score_pane_count: 3,
            open_score_parts: vec!["intro".to_string(); 3],
            active_score_pane: 2,
            score_arrangement_visible: true,
        }
    );
}

#[test]
fn saved_panes_take_the_projects_spelling_and_need_a_part() {
    let parts = vec![Part::new("Intro", 2)];
    let saved = UiState {
        workspace: WorkspaceSectionKind::Loop,
        score_pane_count: 0,
        open_score_parts: vec!["INTRO".to_string()],
        active_score_pane: 0,
        score_arrangement_visible: true,
    };
    let restored = restore_ui_state(&saved, &parts);
    assert_eq!(restored.score_pane_count, 1);
    assert_eq!(restored.open_score_parts, vec!["Intro".to_string()]);
    let empty = restore_ui_state(&saved, &Vec::new());
    assert!(empty.open_score_parts.is_empty());
    assert_eq!(UiState::default().score_pane_count, 1);
    assert_eq!(WorkspaceSectionKind::default(), WorkspaceSectionKind::Score);
}

#[test]
fn renaming_a_part_renames_its_documents_in_any_case() {
    let names = vec![PartName::new("Intro"), PartName::new("verse"), PartName::new("INTRO")];
    let renamed = renamed_part_names(&names, &PartName::new("intro"), &PartName::new("opening"));
    let texts: Vec<&str> = renamed.iter().map(|n| n.as_str()).collect();
    assert_eq!(texts, ["opening", "verse", "opening"]);
    assert!(renamed_part_names(&Vec::new(), &PartName::new("a"), &PartName::new("b")).is_empty());
}
