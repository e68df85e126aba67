use ahess::change_db::{
    change_file_name, migration_script_with, ordered_changes, ChangeEntry, EntryText, Error,
};

fn sql(name: &str) -> ChangeEntry {
    ChangeEntry {
        extension: EntryText::Text("sql".to_string()),
        file_name: EntryText::Text(name.to_string()),
    }
}

#[test]
fn changes_are_ordered_by_their_number() {
    let entries = vec![sql("3__c.sql"), sql("1__a.sql"), sql("2__b.sql")];
    assert_eq!(
        ordered_changes(&entries).unwrap(),
        vec!["1__a.sql", "2__b.sql", "3__c.sql"]
    );
}

#[test]
fn numbering_must_run_up_to_the_count() {
    assert_eq!(
        ordered_changes(&vec![sql("1__a.sql"), sql("3__c.sql")]).unwrap_err(),
        Error::InconsistentNumbering
    );
    assert_eq!(ordered_changes(&vec![]).unwrap_err(), Error::InconsistentNumbering);
    assert_eq!(
        ordered_changes(&vec![sql("1__a.sql"), sql("1__b.sql"), sql("3__c.sql")]).unwrap(),
        vec!["1__a.sql", "1__b.sql", "3__c.sql"]
    );
}

#[test]
fn each_bad_entry_is_reported() {
    let no_extension = ChangeEntry {
        extension: EntryText::Missing,
        file_name: EntryText::Text("x".to_string()),
    };
    assert_eq!(ordered_changes(&vec![no_extension]).unwrap_err(), Error::EntryHasNoExtension);
    let txt = ChangeEntry {
        extension: EntryText::Text("txt".to_string()),
        file_name: EntryText::Text("1__a.txt".to_string()),
    };
    assert_eq!(ordered_changes(&vec![txt]).unwrap_err(), Error::EntryExtensionIsNotSql);
    assert_eq!(
        ordered_changes(&vec![sql("1-a.sql")]).unwrap_err(),
        Error::FilenameDoesNotHaveDelimiter
    );
    assert_eq!(
        ordered_changes(&vec![sql("one__a.sql")]).unwrap_err(),
        Error::FilenamePrefixIsNotInt
    );
    assert_eq!(
        ordered_changes(&vec![sql("99999999999__a.sql")]).unwrap_err(),
        Error::FilenamePrefixIsNotInt
    );
    assert_eq!(ordered_changes(&vec![sql("+1__a.sql")]).unwrap(), vec!["+1__a.sql"]);
}

#[test]
fn the_migration_script_runs_every_change_between_its_fences() {
    let script = "fn migrate() {\n//--------\nold\n//--------\n    Ok(())\n}\n";
    let rewritten = migration_script_with(
        script,
        &vec!["1__a.sql".to_string(), "2__b.sql".to_string()],
    )
    .unwrap();
    assert_eq!(
        rewritten,
        "fn migrate() {\n//--------\n    sqlx::query_file!(\"./db/changes/1__a.sql\", &[]);\n    sqlx::query_file!(\"./db/changes/2__b.sql\", &[]);\n\n//--------\n\n    Ok(())\n}\n"
    );
    assert!(matches!(
        migration_script_with("no fences", &vec![]),
        Err(Error::CannotReadMigrationScript(_))
    ));
    assert_eq!(change_file_name(2, "jobs"), "3__jobs.sql");
}

#[test]
fn a_new_change_is_ordered_after_the_existing_ones() {
    let mut entries = vec![sql("2__b.sql"), sql("1__a.sql")];
    let existing = ordered_changes(&entries).unwrap();
    let name = change_file_name(existing.len(), "add__users");
    assert_eq!(name, "3__add__users.sql");
    entries.insert(0, sql(&name));
    assert_eq!(
        ordered_changes(&entries).unwrap(),
        vec!["1__a.sql", "2__b.sql", "3__add__users.sql"]
    );
}
