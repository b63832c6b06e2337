use apple_notes_cli::db::NotesDb;
use apple_notes_cli::folders::find_folder_by_path;
use apple_notes_cli::folders::folder_path;
use apple_notes_cli::folders::notes_in_folder;
use apple_notes_cli::folders::FolderIndex;
use apple_notes_cli::folders::FolderPathError;
use apple_notes_cli::folders::FolderRow;
use apple_notes_cli::folders::IndexError;
use apple_notes_cli::Folder;
use apple_notes_cli::NoteSummary;
use apple_notes_cli::parse_coredata_pk;
use apple_notes_cli::IdError;

fn row(pk: i64, name: &str, parent: Option<i64>) -> FolderRow {
    FolderRow { pk, name: name.to_string(), parent }
}

#[test]
fn parse_coredata_pk_parses() {
    assert_eq!(parse_coredata_pk("x-coredata://UUID/ICNote/p123").unwrap(), 123);
}

#[test]
fn parse_coredata_pk_rejects_malformed_ids() {
    assert_eq!(parse_coredata_pk("p123"), Err(IdError::MissingSeparator));
    assert_eq!(
        parse_coredata_pk("x-coredata://UUID/ICNote/123"),
        Err(IdError::MissingPrefix)
    );
    assert_eq!(
        parse_coredata_pk("x-coredata://UUID/ICNote/pxyz"),
        Err(IdError::InvalidNumber)
    );
    assert_eq!(
        parse_coredata_pk("x-coredata://UUID/ICNote/p99999999999999999999"),
        Err(IdError::InvalidNumber)
    );
}

#[test]
fn tree_table_resolves_root_to_leaf_paths() {
    let rows = vec![
        row(1, "Root", None),
        row(2, "Middle", Some(1)),
        row(3, "Leaf", Some(2)),
        row(4, "OtherLeaf", Some(1)),
    ];
    assert_eq!(folder_path(&rows, 3).unwrap(), vec!["Root", "Middle", "Leaf"]);
    assert_eq!(folder_path(&rows, 4).unwrap(), vec!["Root", "OtherLeaf"]);
    assert_eq!(folder_path(&rows, 1).unwrap(), vec!["Root"]);
}

#[test]
fn cyclic_table_fails_with_cycle_error() {
    let rows = vec![row(1, "A", Some(2)), row(2, "B", Some(1))];
    assert_eq!(folder_path(&rows, 1), Err(FolderPathError::Cycle(1)));

    let selfloop = vec![row(7, "Selfie", Some(7))];
    assert_eq!(folder_path(&selfloop, 7), Err(FolderPathError::Cycle(7)));
}

#[test]
fn dangling_parent_truncates_instead_of_failing() {
    let rows = vec![row(2, "Orphaned", Some(99)), row(3, "Child", Some(2))];
    assert_eq!(folder_path(&rows, 3).unwrap(), vec!["Orphaned", "Child"]);
    assert_eq!(folder_path(&rows, 2).unwrap(), vec!["Orphaned"]);
}

#[test]
fn missing_start_key_is_an_error() {
    let rows = vec![row(1, "Root", None)];
    assert_eq!(folder_path(&rows, 5), Err(FolderPathError::Unknown(5)));
}

#[test]
fn folder_index_resolves_paths_by_id() {
    let folders = vec![
        Folder {
            id: "f1".to_string(),
            name: "Personal".to_string(),
            account: "iCloud".to_string(),
            path: vec!["Personal".to_string()],
        },
        Folder {
            id: "f2".to_string(),
            name: "Archive".to_string(),
            account: "iCloud".to_string(),
            path: vec!["Personal".to_string(), "Archive".to_string()],
        },
    ];
    let index = FolderIndex::new(folders).unwrap();
    assert_eq!(index.folder_path("f2").unwrap(), vec!["Personal", "Archive"]);
    assert_eq!(
        index.folder_path_string("f2").unwrap(),
        "Personal > Archive"
    );
    assert!(index.folder_path("f9").is_none());
    assert!(index.folder_path_string("f9").is_none());
}

#[test]
fn folder_index_rejects_duplicate_ids() {
    let folders = vec![
        Folder {
            id: "f1".to_string(),
            name: "A".to_string(),
            account: "iCloud".to_string(),
            path: vec!["A".to_string()],
        },
        Folder {
            id: "f1".to_string(),
            name: "B".to_string(),
            account: "iCloud".to_string(),
            path: vec!["B".to_string()],
        },
    ];
    assert_eq!(
        FolderIndex::new(folders),
        Err(IndexError::DuplicateId("f1".to_string()))
    );
}

#[test]
fn notes_db_formats_opaque_ids() {
    let db = NotesDb::new("/tmp/store.sqlite".to_string(), "UUID".to_string());
    assert_eq!(db.note_id(123), "x-coredata://UUID/ICNote/p123");
    assert_eq!(db.folder_id(-4), "x-coredata://UUID/ICFolder/p-4");
}

#[test]
fn note_summary_row_defaults_missing_titles() {
    let db = NotesDb::new("/tmp/store.sqlite".to_string(), "UUID".to_string());
    let n = db.note_summary_from_row(20, None, 10);
    assert_eq!(n.title, "Untitled");
    assert_eq!(n.id, "x-coredata://UUID/ICNote/p20");
    assert_eq!(n.folder_id, "x-coredata://UUID/ICFolder/p10");

    let titled = db.note_summary_from_row(21, Some("Hello".to_string()), 10);
    assert_eq!(titled.title, "Hello");
}

#[test]
fn folders_from_rows_builds_full_folder_records() {
    let db = NotesDb::new("/tmp/store.sqlite".to_string(), "UUID".to_string());
    let rows = vec![row(10, "Personal", None), row(11, "Archive", Some(10))];
    let folders = db.folders_from_rows("iCloud", &rows).unwrap();
    assert_eq!(folders.len(), 2);
    assert_eq!(folders[0].id, "x-coredata://UUID/ICFolder/p10");
    assert_eq!(folders[0].path, vec!["Personal"]);
    assert_eq!(folders[1].path, vec!["Personal", "Archive"]);
    assert_eq!(folders[1].account, "iCloud");
    assert_eq!(folders[1].path_string(), "Personal > Archive");
}

#[test]
fn folders_from_rows_propagates_cycles() {
    let db = NotesDb::new("/tmp/store.sqlite".to_string(), "UUID".to_string());
    let rows = vec![row(1, "A", Some(2)), row(2, "B", Some(1))];
    assert_eq!(
        db.folders_from_rows("iCloud", &rows),
        Err(FolderPathError::Cycle(1))
    );
}

#[test]
fn find_folder_by_path_matches_joined_paths() {
    let folders = vec![
        Folder {
            id: "f1".to_string(),
            name: "Personal".to_string(),
            account: "iCloud".to_string(),
            path: vec!["Personal".to_string()],
        },
        Folder {
            id: "f2".to_string(),
            name: "Archive".to_string(),
            account: "iCloud".to_string(),
            path: vec!["Personal".to_string(), "Archive".to_string()],
        },
    ];
    let want = vec!["Personal".to_string(), "Archive".to_string()];
    assert_eq!(find_folder_by_path(&folders, &want), Some(1));
    let missing = vec!["Nope".to_string()];
    assert_eq!(find_folder_by_path(&folders, &missing), None);
}

#[test]
fn notes_in_folder_keeps_only_matching_notes() {
    let notes = vec![
        NoteSummary {
            id: "n1".to_string(),
            title: "A".to_string(),
            folder_id: "f1".to_string(),
        },
        NoteSummary {
            id: "n2".to_string(),
            title: "B".to_string(),
            folder_id: "f2".to_string(),
        },
        NoteSummary {
            id: "n3".to_string(),
            title: "C".to_string(),
            folder_id: "f1".to_string(),
        },
    ];
    let filtered = notes_in_folder(&notes, "f1");
    assert_eq!(filtered.len(), 2);
    assert_eq!(filtered[0].id, "n1");
    assert_eq!(filtered[1].id, "n3");
}

#[test]
fn sort_folders_orders_by_path() {
    let folders = vec![
        Folder {
            id: "f2".to_string(),
            name: "Archive".to_string(),
            account: "iCloud".to_string(),
            path: vec!["Personal".to_string(), "Archive".to_string()],
        },
        Folder {
            id: "f3".to_string(),
            name: "Work".to_string(),
            account: "iCloud".to_string(),
            path: vec!["Work".to_string()],
        },
        Folder {
            id: "f1".to_string(),
            name: "Personal".to_string(),
            account: "iCloud".to_string(),
            path: vec!["Personal".to_string()],
        },
    ];
    let sorted = apple_notes_cli::folders::sort_folders_by_path(folders);
    assert_eq!(sorted[0].id, "f1");
    assert_eq!(sorted[1].id, "f2");
    assert_eq!(sorted[2].id, "f3");
}
