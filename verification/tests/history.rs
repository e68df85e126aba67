use ahess::history::{HistoryChange, ProjectHistory, ProjectState, StrikeCheck, MAX_CHANGES};
use ahess::part::{Part, PartName, PartScore};
use ahess::project::{Project, Seed, Voice, VoiceType};
use ahess::score::ScoreCellEdit;

fn state(name: &str) -> ProjectState {
    let mut project = Project::new(name, 800, 0, Seed::new(1));
    project.description = name.to_string();
    ProjectState::new_from_project(project)
}

fn score_state(value: &str) -> ProjectState {
    named_score_state("intro", value)
}

fn cell_edit(before: &str, after: &str) -> ScoreCellEdit {
    ScoreCellEdit {
        row: 0,
        column: 0,
        before: before.to_string(),
        after: after.to_string(),
    }
}

fn named_score_state(part_name: &str, value: &str) -> ProjectState {
    let part = Part::new(part_name, 1);
    let project = Project::new("score", 800, 0, Seed::new(1))
        .with_voices(vec![Voice::new(1, "lead", VoiceType::Saw)])
        .with_parts(vec![part.clone()]);
    let score = PartScore::from_rows(vec![vec![value.to_string()]]);
    ProjectState::new(project, vec![(part.name, score.clone(), score)])
}

fn two_score_state(first: &str, second: &str) -> ProjectState {
    two_score_state_with_voice("lead", first, second)
}

fn two_score_state_with_voice(voice_name: &str, first: &str, second: &str) -> ProjectState {
    let first_part = Part::new("first", 1);
    let second_part = Part::new("second", 1);
    let project = Project::new("score", 800, 0, Seed::new(1))
        .with_voices(vec![Voice::new(1, voice_name, VoiceType::Saw)])
        .with_parts(vec![first_part.clone(), second_part.clone()]);
    let first_score = PartScore::from_rows(vec![vec![first.to_string()]]);
    let second_score = PartScore::from_rows(vec![vec![second.to_string()]]);
    ProjectState::new(
        project,
        vec![
            (first_part.name, first_score.clone(), first_score),
            (second_part.name, second_score.clone(), second_score),
        ],
    )
}

fn resolves(_: &Project, _: &Part, _: &PartScore) -> StrikeCheck {
    StrikeCheck::Resolved
}

fn name(value: &str) -> PartName {
    PartName::new(value)
}

fn cell(state: &ProjectState, part: &str) -> String {
    state.score(&name(part)).unwrap().rows()[0][0].clone()
}

#[test]
fn records_undo_and_redo_in_order() {
    let mut history = ProjectHistory::new(state("zero"));
    history.record_project(state("one"));
    history.record_project(state("two"));

    let target = history.undo_target().unwrap().unwrap();
    assert_eq!(target.state.project.description, "one");
    history.commit_undo(target.state);
    assert_eq!(
        history.undo_target().unwrap().unwrap().state.project.description,
        "zero"
    );
    assert_eq!(
        history.redo_target().unwrap().unwrap().state.project.description,
        "two"
    );
}

#[test]
fn a_new_edit_after_undo_discards_redo() {
    let mut history = ProjectHistory::new(state("zero"));
    history.record_project(state("one"));
    history.record_project(state("two"));
    let target = history.undo_target().unwrap().unwrap();
    history.commit_undo(target.state);

    history.record_project(state("replacement"));

    assert!(!history.can_redo());
    assert_eq!(
        history.undo_target().unwrap().unwrap().state.project.description,
        "one"
    );
}

#[test]
fn consecutive_changes_to_one_cell_are_one_delta() {
    let mut history = ProjectHistory::new(score_state(""));
    history
        .record_score_cell(name("intro"), cell_edit("", "C"), &resolves)
        .unwrap();
    history
        .record_score_cell(name("intro"), cell_edit("C", "C4"), &resolves)
        .unwrap();

    assert_eq!(history.undo_changes().len(), 1);
    assert!(matches!(
        &history.undo_changes()[0],
        HistoryChange::ScoreCell {
            edit,
            ..
        } if edit.before.is_empty() && edit.after == "C4"
    ));
    let target = history.undo_target().unwrap().unwrap();
    assert!(!target.project_changed);
    assert_eq!(target.affected_parts, vec![name("intro")]);
    assert_eq!(cell(&target.state, "intro"), "");
}

#[test]
fn broad_changes_retain_only_affected_scores() {
    let mut history = ProjectHistory::new(two_score_state("C4", "E4"));

    history.record_project(two_score_state("D4", "E4"));

    let HistoryChange::Project {
        before_scores,
        after_scores,
        ..
    } = &history.undo_changes()[0]
    else {
        panic!("a broad change should record a project delta");
    };
    assert_eq!(before_scores.len(), 1);
    assert_eq!(after_scores.len(), 1);
    assert_eq!(before_scores[0].part_name.as_str(), "first");
    assert_eq!(after_scores[0].part_name.as_str(), "first");
}

#[test]
fn voice_header_changes_rewrite_scores_without_retaining_score_copies() {
    let mut history = ProjectHistory::new(two_score_state_with_voice("lead", "C4", "E4"));

    history.record_project(two_score_state_with_voice("melody", "C4", "E4"));

    let HistoryChange::Project {
        before_scores,
        after_scores,
        ..
    } = &history.undo_changes()[0]
    else {
        panic!("a voice rename should record a project delta");
    };
    assert!(before_scores.is_empty());
    assert!(after_scores.is_empty());
    let target = history.undo_target().unwrap().unwrap();
    assert!(target.project_changed);
    assert_eq!(target.affected_parts, vec![name("first"), name("second")]);
}

#[test]
fn stacked_renames_restore_the_name_expected_by_older_cell_changes() {
    let mut history = ProjectHistory::new(named_score_state("intro", ""));
    history
        .record_score_cell(name("intro"), cell_edit("", "C4"), &resolves)
        .unwrap();
    history.record_project(named_score_state("opening", "C4"));

    let before_rename = history.undo_target().unwrap().unwrap();
    assert_eq!(
        before_rename.state.project.parts()[0].name.as_str(),
        "intro"
    );
    history.commit_undo(before_rename.state);
    let before_cell = history.undo_target().unwrap().unwrap();
    assert_eq!(before_cell.state.project.parts()[0].name.as_str(), "intro");
    assert_eq!(cell(&before_cell.state, "intro"), "");

    history.commit_undo(before_cell.state);
    let after_cell = history.redo_target().unwrap().unwrap();
    history.commit_redo(after_cell.state);
    let after_rename = history.redo_target().unwrap().unwrap();
    assert_eq!(
        after_rename.state.project.parts()[0].name.as_str(),
        "opening"
    );
    assert_eq!(cell(&after_rename.state, "opening"), "C4");
}

#[test]
fn bounds_retained_changes() {
    let mut history = ProjectHistory::new(state("0"));
    for index in 1..=MAX_CHANGES + 5 {
        history.record_project(state(&index.to_string()));
    }

    let mut undo_count = 0;
    while let Some(target) = history.undo_target().unwrap() {
        history.commit_undo(target.state);
        undo_count += 1;
    }
    assert_eq!(undo_count, MAX_CHANGES);
}

fn with_scores(project: Project) -> ProjectState {
    let score = PartScore::from_rows(vec![vec!["C4".to_string()]]);
    let scores = project
        .parts()
        .iter()
        .map(|part| (part.name.clone(), score.clone(), score.clone()))
        .collect();
    ProjectState::new(project, scores)
}

#[test]
fn a_sequence_change_is_an_undo_step() {
    let parts = vec![Part::new("intro", 1), Part::new("verse", 1)];
    let before = Project::new("song", 800, 0, Seed::new(1))
        .with_parts(parts.clone())
        .with_sequence(vec![name("intro"), name("verse")]);
    let after = Project::new("song", 800, 0, Seed::new(1))
        .with_parts(parts)
        .with_sequence(vec![name("intro"), name("verse"), name("verse")]);
    let mut history = ProjectHistory::new(with_scores(before));

    assert!(history.record_project(with_scores(after)));

    let target = history.undo_target().unwrap().unwrap();
    assert!(target.project_changed);
    let sequence: Vec<&str> = target.state.project.sequence().iter().map(|n| n.as_str()).collect();
    assert_eq!(sequence, ["intro", "verse"]);
}

#[test]
fn recording_the_same_sequence_is_no_change() {
    let project = Project::new("song", 800, 0, Seed::new(1))
        .with_parts(vec![Part::new("intro", 1)])
        .with_sequence(vec![name("intro")]);
    let mut history = ProjectHistory::new(with_scores(project.clone()));

    assert!(!history.record_project(with_scores(project)));
    assert!(!history.can_undo());
}

#[test]
fn a_subdivision_change_is_an_undo_step() {
    let plain = Project::new("song", 800, 0, Seed::new(1)).with_parts(vec![Part::new("intro", 8)]);
    let grouped = Project::new("song", 800, 0, Seed::new(1)).with_parts(vec![
        Part::new("intro", 8)
            .with_subdivision_pattern(Some(vec![4, 3, 3]))
            .with_major_subdivision(Some(12)),
    ]);
    let mut history = ProjectHistory::new(with_scores(plain));

    assert!(history.record_project(with_scores(grouped)));

    let target = history.undo_target().unwrap().unwrap();
    assert!(target.project_changed);
    let part = &target.state.project.parts()[0];
    assert!(part.subdivision_pattern().is_none());
    assert_eq!(part.major_subdivision(), None);
}

#[test]
fn redo_after_undo_after_redo_returns_to_the_same_cell() {
    let mut history = ProjectHistory::new(score_state(""));
    history
        .record_score_cell(name("intro"), cell_edit("", "C4"), &resolves)
        .unwrap();
    let undo = history.undo_target().unwrap().unwrap();
    history.commit_undo(undo.state);
    let redo = history.redo_target().unwrap().unwrap();
    assert_eq!(cell(&redo.state, "intro"), "C4");
    history.commit_redo(redo.state);

    let undo = history.undo_target().unwrap().unwrap();
    assert_eq!(cell(&undo.state, "intro"), "");
    history.commit_undo(undo.state);
    let redo = history.redo_target().unwrap().unwrap();
    assert_eq!(cell(&redo.state, "intro"), "C4");
    assert!(!redo.project_changed);
    assert_eq!(redo.affected_parts, vec![name("intro")]);
}

#[test]
fn redo_after_undo_after_redo_returns_to_the_same_project() {
    let mut history = ProjectHistory::new(state("zero"));
    history.record_project(state("one"));
    for _ in 0..2 {
        let undo = history.undo_target().unwrap().unwrap();
        assert_eq!(undo.state.project.description, "zero");
        history.commit_undo(undo.state);
        let redo = history.redo_target().unwrap().unwrap();
        assert_eq!(redo.state.project.description, "one");
        assert!(redo.project_changed);
        history.commit_redo(redo.state);
    }
}

#[test]
fn an_edit_outside_the_score_is_refused_with_its_position() {
    let mut history = ProjectHistory::new(score_state("C4"));
    let edit = ScoreCellEdit {
        row: 1,
        column: 0,
        before: String::new(),
        after: "D4".to_string(),
    };
    let error = history.record_score_cell(name("intro"), edit, &resolves).unwrap_err();
    assert_eq!(error.message(), "history cell 2:1 is outside part \"intro\"");
}

#[test]
fn an_edit_of_changed_text_is_refused_with_both_texts() {
    let mut history = ProjectHistory::new(score_state("C4"));
    let error = history
        .record_score_cell(name("intro"), cell_edit("E4", "D4"), &resolves)
        .unwrap_err();
    assert_eq!(
        error.message(),
        "history expected cell 1:1 in part \"intro\" to contain \"E4\", but found \"C4\""
    );
}

#[test]
fn redo_after_undo_gives_back_recorded_rows() {
    let mut history = ProjectHistory::new(score_state("C4"));
    let score = PartScore::from_rows(vec![vec!["D4".to_string()]]);
    assert!(history.record_score_rows(name("intro"), score, &resolves).unwrap());
    let undo = history.undo_target().unwrap().unwrap();
    assert_eq!(cell(&undo.state, "intro"), "C4");
    history.commit_undo(undo.state);
    let redo = history.redo_target().unwrap().unwrap();
    assert_eq!(cell(&redo.state, "intro"), "D4");
    assert_eq!(redo.affected_parts, undo.affected_parts);
    assert_eq!(redo.project_changed, undo.project_changed);
}
