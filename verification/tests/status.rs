use ahess::document::ParseIssue;
use ahess::part::PartName;
use ahess::score_document::SaveState;
use ahess::status::{
    project_status, DocumentStatus, PlaybackTarget, ProjectStatus, StatusAction, TransportError,
};

fn issue(row: usize, column: usize, voice: &str, message: &str) -> ParseIssue {
    ParseIssue { row, column, voice: voice.to_owned(), message: message.to_owned() }
}

fn document(name: &str, issues: Vec<ParseIssue>, save_error: Option<&str>, dirty: bool, save_state: SaveState) -> DocumentStatus {
    DocumentStatus {
        part_name: PartName::new(name),
        parse_issues: issues,
        last_save_error: save_error.map(|error| error.to_owned()),
        dirty,
        save_state,
    }
}

fn clean(name: &str) -> DocumentStatus {
    document(name, Vec::new(), None, false, SaveState::Idle)
}

fn error(status: ProjectStatus) -> (String, Option<StatusAction>) {
    match status {
        ProjectStatus::Error { message, target } => (message, target),
        other => panic!("expected an error, got {other:?}"),
    }
}

fn warning(status: ProjectStatus) -> String {
    match status {
        ProjectStatus::Warning(message) => message,
        other => panic!("expected a warning, got {other:?}"),
    }
}

#[test]
fn workspace_errors_come_first() {
    let documents = vec![document("a", vec![issue(0, 0, "v", "bad")], None, true, SaveState::Saving)];
    let (message, target) = error(project_status(&Some("boom".to_owned()), &documents, &None, &None));
    assert_eq!(message, "boom");
    assert!(target.is_none());
}

#[test]
fn parse_issues_prefer_the_active_part() {
    let documents = vec![
        document("intro", vec![issue(0, 1, "bass", "bad")], None, false, SaveState::Idle),
        document("Verse", vec![issue(4, 0, "lead", "unknown pitch"), issue(5, 0, "lead", "x")], None, false, SaveState::Idle),
    ];
    let (message, target) = error(project_status(&None, &documents, &Some(PartName::new("verse")), &None));
    assert_eq!(message, "3 parse issues \u{b7} Verse \u{b7} beat 5 \u{b7} lead: unknown pitch \u{b7} click to reveal");
    match target {
        Some(StatusAction::RevealIssue { part_name, row, column }) => {
            assert_eq!((part_name.as_str(), row, column), ("Verse", 4, 0));
        }
        other => panic!("unexpected target {other:?}"),
    }
    let (message, _) = error(project_status(&None, &documents, &None, &None));
    assert_eq!(message, "3 parse issues \u{b7} intro \u{b7} beat 1 \u{b7} bass: bad \u{b7} click to reveal");
    let (message, _) = error(project_status(&None, &documents, &Some(PartName::new("bridge")), &None));
    assert!(message.contains("intro"));
    let single = vec![document("intro", vec![issue(0, 1, "bass", "bad")], Some("disk full"), true, SaveState::Saving)];
    let (message, _) = error(project_status(&None, &single, &None, &None));
    assert_eq!(message, "parse issue \u{b7} intro \u{b7} beat 1 \u{b7} bass: bad \u{b7} click to reveal");
}

#[test]
fn failed_saves_offer_a_retry() {
    let documents = vec![
        clean("intro"),
        document("verse", Vec::new(), Some("disk full"), true, SaveState::Idle),
        document("outro", Vec::new(), Some("other"), true, SaveState::Idle),
    ];
    let transport = Some(TransportError::Message("no device".to_owned()));
    let (message, target) = error(project_status(&None, &documents, &None, &transport));
    assert_eq!(message, "verse: disk full \u{b7} click to retry");
    assert!(matches!(target, Some(StatusAction::RetryScoreSave)));
}

#[test]
fn playback_failures_are_reported() {
    let documents = vec![document("intro", Vec::new(), None, true, SaveState::Saving)];
    let (message, target) = error(project_status(
        &None,
        &documents,
        &None,
        &Some(TransportError::Message("no audio device".to_owned())),
    ));
    assert_eq!(message, "no audio device");
    assert!(target.is_none());
    let (message, target) = error(project_status(
        &None,
        &documents,
        &None,
        &Some(TransportError::MtsMasterAlreadyActive {
            message: "tuning master busy".to_owned(),
            retry_target: PlaybackTarget::Part(PartName::new("intro")),
        }),
    ));
    assert_eq!(message, "tuning master busy \u{b7} reset only if no other tuning master should be active");
    match target {
        Some(StatusAction::ResetMtsEspAndRetry(PlaybackTarget::Part(name))) => assert_eq!(name.as_str(), "intro"),
        other => panic!("unexpected target {other:?}"),
    }
}

#[test]
fn unsaved_changes_describe_how_far_saving_has_got() {
    let saving = vec![document("a", Vec::new(), None, true, SaveState::Saving)];
    assert_eq!(warning(project_status(&None, &saving, &None, &None)), "saving score changes\u{2026}");
    let two = vec![
        document("a", Vec::new(), None, true, SaveState::Saving),
        document("b", Vec::new(), None, true, SaveState::Idle),
    ];
    assert_eq!(warning(project_status(&None, &two, &None, &None)), "saving score changes in 2 parts\u{2026}");
    let recovered = vec![
        document("a", Vec::new(), None, true, SaveState::Saving),
        document("b", Vec::new(), None, true, SaveState::SavingRecovered),
    ];
    assert_eq!(warning(project_status(&None, &recovered, &None, &None)), "saving recovered score changes\u{2026}");
    let kept = vec![document("a", Vec::new(), None, true, SaveState::RecoverySaved)];
    assert_eq!(warning(project_status(&None, &kept, &None, &None)), "score recovery saved");
    let kept_two = vec![
        document("a", Vec::new(), None, true, SaveState::RecoverySaved),
        document("b", Vec::new(), None, true, SaveState::Idle),
    ];
    assert_eq!(warning(project_status(&None, &kept_two, &None, &None)), "score recovery saved for 2 parts");
    let idle = vec![
        document("a", Vec::new(), None, true, SaveState::Idle),
        document("b", Vec::new(), None, false, SaveState::SavingRecovered),
    ];
    assert_eq!(warning(project_status(&None, &idle, &None, &None)), "unsaved score changes");
    let idle_two = vec![
        document("a", Vec::new(), None, true, SaveState::Idle),
        document("b", Vec::new(), None, true, SaveState::Saved),
    ];
    assert_eq!(warning(project_status(&None, &idle_two, &None, &None)), "unsaved score changes in 2 parts");
}

#[test]
fn finished_saves_and_quiet_sessions() {
    let saved = vec![clean("a"), document("b", Vec::new(), None, false, SaveState::Saved)];
    match project_status(&None, &saved, &None, &None) {
        ProjectStatus::Message(message) => assert_eq!(message, "score changes saved"),
        other => panic!("unexpected status {other:?}"),
    }
    assert!(matches!(project_status(&None, &vec![clean("a")], &None, &None), ProjectStatus::Idle));
    assert!(matches!(project_status(&None, &Vec::new(), &None, &None), ProjectStatus::Idle));
}
