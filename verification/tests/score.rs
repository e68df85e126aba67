use ahess::document::ParseIssueCache;
use ahess::history::{apply_score_cell_edit, HistoryError};
use ahess::part::{PartName, PartScore};
use ahess::project::{Project, Seed, Voice, VoiceType};
use ahess::score::{map_score_cells, next_volume_draw, transpose_steps, ScoreCellEdit};

fn score(rows: &[&[&str]]) -> PartScore {
    PartScore::from_rows(
        rows.iter()
            .map(|row| row.iter().map(|cell| cell.to_string()).collect())
            .collect(),
    )
}

fn edit(row: usize, column: usize, before: &str, after: &str) -> ScoreCellEdit {
    ScoreCellEdit {
        row,
        column,
        before: before.to_string(),
        after: after.to_string(),
    }
}

#[test]
fn reversing_an_edit_twice_gives_it_back() {
    let e = edit(1, 2, "C4", "D4");
    let r = e.reversed();
    assert_eq!(r, edit(1, 2, "D4", "C4"));
    assert_eq!(r.reversed(), e);
}

#[test]
fn cell_edits_check_the_cell_and_undo_with_the_reversed_edit() {
    let initial = score(&[&["C4", ""], &["E4", "G4"]]);
    let name = PartName::new("intro");
    let edited = apply_score_cell_edit(&initial, &name, &edit(1, 0, "E4", "F4")).unwrap();
    assert_eq!(edited, score(&[&["C4", ""], &["F4", "G4"]]));
    let back = apply_score_cell_edit(&edited, &name, &edit(1, 0, "E4", "F4").reversed()).unwrap();
    assert_eq!(back, initial);
    assert!(matches!(
        apply_score_cell_edit(&initial, &name, &edit(2, 0, "", "x")),
        Err(HistoryError::CellOutside { row: 2, column: 0, .. })
    ));
    assert!(matches!(
        apply_score_cell_edit(&initial, &name, &edit(0, 0, "D4", "x")),
        Err(HistoryError::CellMismatch { .. })
    ));
}

#[test]
fn every_cell_is_transformed_in_reading_order() {
    let initial = score(&[&["a", "b"], &["c"]]);
    let upper = |value: &String| -> Result<String, String> { Ok(value.to_uppercase()) };
    assert_eq!(
        map_score_cells(&initial, &upper).unwrap(),
        score(&[&["A", "B"], &["C"]])
    );
    let refuse_c = |value: &String| -> Result<String, String> {
        if value == "c" {
            Err("not a note".to_string())
        } else {
            Ok(value.clone())
        }
    };
    assert_eq!(
        map_score_cells(&initial, &refuse_c).unwrap_err(),
        "beat 2, voice 1: not a note"
    );
}

#[test]
fn parse_issues_name_each_invalid_cell_by_its_voice() {
    let project = Project::new("p", 800, 0, Seed::new(1))
        .with_voices(vec![Voice::new(1, "lead", VoiceType::Saw)]);
    let scored = score(&[&["C4", "X"], &["Y", ""]]);
    let resolve = |value: &String| -> Option<String> {
        if value == "X" || value == "Y" {
            Some(format!("cannot read {value}"))
        } else {
            None
        }
    };

    let cache = ParseIssueCache::collect(&project, &scored, &resolve);

    assert_eq!(cache.issues.len(), 2);
    assert_eq!(cache.issues[0].row, 0);
    assert_eq!(cache.issues[0].column, 1);
    assert_eq!(cache.issues[0].voice, "column 2");
    assert_eq!(cache.issues[0].message, "cannot read X");
    assert_eq!(cache.issues[1].voice, "lead");
    assert_eq!(cache.invalid_cells, vec![(0, 1), (1, 0)]);
}

#[test]
fn volume_draws_follow_splitmix64() {
    let mut seed = 0_u64;
    let first = next_volume_draw(&mut seed);
    assert_eq!(seed, 0x9e37_79b9_7f4a_7c15);
    assert_eq!(first, 0xe220_a839_7b1d_cdaf_u64 >> 11);
    let second = next_volume_draw(&mut seed);
    assert_eq!(second, 0x6e78_9e6a_a1b9_65f4_u64 >> 11);
    assert!(first < 1 << 53 && second < 1 << 53);
}

#[test]
fn transposition_steps_are_whole_numbers_from_1_to_127() {
    assert_eq!(transpose_steps(" 12 ", true), Ok(12));
    assert_eq!(transpose_steps("+3", false), Ok(-3));
    assert_eq!(transpose_steps("127", false), Ok(-127));
    for bad in ["0", "128", "-5", "1.5", "", "twelve", "99999999999"] {
        assert_eq!(
            transpose_steps(bad, true),
            Err("steps must be a whole number from 1 to 127".to_owned()),
            "{bad:?}"
        );
    }
}

#[test]
fn reports_every_invalid_score_cell() {
    let project = Project::new("test project", 20_000, 32, Seed::new(12)).with_voices(vec![
        Voice::new(1, "lead", VoiceType::Saw),
        Voice::new(2, "bass", VoiceType::Sin),
    ]);
    let scored = score(&[&["not-a-note", "C4"], &["128", "H4"]]);
    // The default notation reads note names such as C4; these three cells are not notes.
    let resolve_strike = |value: &String| -> Option<String> {
        if value == "C4" {
            None
        } else {
            Some(format!("{value:?} is not a note"))
        }
    };

    let issues = ParseIssueCache::collect(&project, &scored, &resolve_strike).issues;

    assert_eq!(issues.len(), 3);
    assert_eq!((issues[0].row, issues[0].column), (0, 0));
    assert_eq!(issues[0].voice, "lead");
    assert_eq!((issues[1].row, issues[1].column), (1, 0));
    assert_eq!((issues[2].row, issues[2].column), (1, 1));
    assert_eq!(issues[2].voice, "bass");
}

#[test]
fn every_transformation_reports_the_invalid_cells_location() {
    let scored = score(&[&["C4"], &["", "invalid"]]);
    // Each transformation reads every cell as a note; "invalid" is none.
    let transformations: [fn(&String) -> Result<String, String>; 2] = [
        |value| if value == "invalid" { Err("unknown note".to_owned()) } else { Ok(value.clone()) },
        |value| if value == "invalid" { Err("invalid volume".to_owned()) } else { Ok(format!("{value}")) },
    ];
    for transform in transformations {
        let error = map_score_cells(&scored, &transform).unwrap_err();
        assert!(error.starts_with("beat 2, voice 2: "), "{error}");
        assert_eq!(error.matches("beat 2, voice 2").count(), 1);
    }
}
