use apple_notes_cli::export::build_export_unit;
use apple_notes_cli::export::build_export_units;
use apple_notes_cli::export::clamp_jobs;
use apple_notes_cli::export::export_path;
use apple_notes_cli::export::metadata_json;
use apple_notes_cli::export::note_dir_name;
use apple_notes_cli::export::plan_export;
use apple_notes_cli::export::truncate_title;
use apple_notes_cli::export::ExportError;
use apple_notes_cli::export::ExportRun;
use apple_notes_cli::folders::FolderIndex;
use apple_notes_cli::BackupNoteMetadata;
use apple_notes_cli::Folder;
use apple_notes_cli::Note;

fn sample_folders() -> Vec<Folder> {
    vec![
        Folder {
            id: "x-coredata://UUID/ICFolder/p10".to_string(),
            name: "Personal".to_string(),
            account: "iCloud".to_string(),
            path: vec!["Personal".to_string()],
        },
        Folder {
            id: "x-coredata://UUID/ICFolder/p11".to_string(),
            name: "Archive".to_string(),
            account: "iCloud".to_string(),
            path: vec!["Personal".to_string(), "Archive".to_string()],
        },
    ]
}

fn sample_note(pk: u32, folder_id: &str, title: &str) -> Note {
    Note {
        id: format!("x-coredata://UUID/ICNote/p{pk}"),
        title: title.to_string(),
        folder_id: folder_id.to_string(),
        created_at: 86_400_000,
        modified_at: 172_800_000,
        body_html: "<div>Hi</div>".to_string(),
    }
}

#[test]
fn export_path_uses_folder_structure_and_safe_filename() {
    let p = export_path(
        "/tmp/out",
        &vec!["Personal".to_string(), "Archive".to_string()],
        "Hello/World",
        "x-coredata://abc/ICNote/p123",
    );
    assert!(p.contains("Personal"));
    assert!(p.contains("Archive"));
    assert!(p.contains("HelloWorld-p123"));
}

#[test]
fn note_dir_name_includes_short_id_and_sanitizes() {
    let name = note_dir_name("Hello/World", "x-coredata://UUID/ICNote/p123");
    assert!(name.contains("HelloWorld"));
    assert!(name.ends_with("p123"));
}

#[test]
fn note_dir_name_strips_slash_and_keeps_suffix_exactly() {
    let name = note_dir_name("Hello/World", "x-coredata://UUID/ICNote/p123");
    assert_eq!(name, "HelloWorld-p123");
}

#[test]
fn note_dir_name_defaults_empty_titles() {
    let name = note_dir_name("   ", "x-coredata://UUID/ICNote/p7");
    assert_eq!(name, "Untitled-p7");
}

#[test]
fn truncate_title_shortens() {
    let long = "a".repeat(200);
    let t = truncate_title(&long);
    assert!(t.ends_with('…'));
    assert!(t.chars().count() <= 61);
}

#[test]
fn clamp_jobs_rejects_zero_and_caps() {
    assert_eq!(clamp_jobs(0), Err(ExportError::InvalidJobs));
    assert_eq!(clamp_jobs(1), Ok(1));
    assert_eq!(clamp_jobs(4), Ok(4));
    assert_eq!(clamp_jobs(64), Ok(16));
}

#[test]
fn metadata_json_pretty_prints_exactly() {
    let meta = BackupNoteMetadata {
        id: "n1".to_string(),
        title: "A \"quoted\" title".to_string(),
        account: "iCloud".to_string(),
        folder_path: vec!["Personal".to_string(), "Archive".to_string()],
        created_at: 0,
        modified_at: 86_400_000,
    };
    let json = metadata_json(&meta).unwrap();
    let expected = "{\n  \"id\": \"n1\",\n  \"title\": \"A \\\"quoted\\\" title\",\n  \"account\": \"iCloud\",\n  \"folder_path\": [\n    \"Personal\",\n    \"Archive\"\n  ],\n  \"created_at\": \"1970-01-01T00:00:00Z\",\n  \"modified_at\": \"1970-01-02T00:00:00Z\"\n}";
    assert_eq!(json, expected);
}

#[test]
fn metadata_json_prints_empty_folder_path_inline() {
    let meta = BackupNoteMetadata {
        id: "n1".to_string(),
        title: "t".to_string(),
        account: "a".to_string(),
        folder_path: Vec::new(),
        created_at: 0,
        modified_at: 0,
    };
    let json = metadata_json(&meta).unwrap();
    assert!(json.contains("\"folder_path\": [],"));
}

#[test]
fn build_export_unit_materializes_all_files() {
    let note = sample_note(1, "x-coredata://UUID/ICFolder/p10", "Hello");
    let unit = build_export_unit(
        "iCloud",
        "/tmp/out",
        &vec!["Personal".to_string()],
        &note,
        true,
    )
    .unwrap();
    assert_eq!(unit.note_dir, "/tmp/out/Personal/Hello-p1");
    assert!(unit.contents_md.starts_with("# Hello\n\n"));
    assert_eq!(unit.contents_html.as_deref(), Some("<div>Hi</div>"));
    assert!(unit.metadata_json.contains("\"account\": \"iCloud\""));
}

#[test]
fn export_plan_produces_two_files_per_note_without_html() {
    let index = FolderIndex::new(sample_folders()).unwrap();
    let notes = vec![
        sample_note(1, "x-coredata://UUID/ICFolder/p10", "One"),
        sample_note(2, "x-coredata://UUID/ICFolder/p10", "Two"),
        sample_note(3, "x-coredata://UUID/ICFolder/p11", "Three"),
    ];
    let units = build_export_units("iCloud", "/tmp/out", &index, &notes, false).unwrap();
    assert_eq!(units.len(), 3);
    let files: usize = units
        .iter()
        .map(|u| 2 + usize::from(u.contents_html.is_some()))
        .sum();
    assert_eq!(files, 6);
}

#[test]
fn export_plan_produces_three_files_per_note_with_html() {
    let index = FolderIndex::new(sample_folders()).unwrap();
    let notes = vec![
        sample_note(1, "x-coredata://UUID/ICFolder/p10", "One"),
        sample_note(2, "x-coredata://UUID/ICFolder/p10", "Two"),
        sample_note(3, "x-coredata://UUID/ICFolder/p11", "Three"),
    ];
    let units = build_export_units("iCloud", "/tmp/out", &index, &notes, true).unwrap();
    assert_eq!(units.len(), 3);
    let files: usize = units
        .iter()
        .map(|u| 2 + usize::from(u.contents_html.is_some()))
        .sum();
    assert_eq!(files, 9);
}

#[test]
fn export_plan_is_identical_for_any_worker_count() {
    let index = FolderIndex::new(sample_folders()).unwrap();
    let notes = vec![
        sample_note(1, "x-coredata://UUID/ICFolder/p10", "One"),
        sample_note(2, "x-coredata://UUID/ICFolder/p11", "Two"),
    ];
    let (w1, units1) = plan_export(1, "iCloud", "/tmp/out", &index, &notes, false).unwrap();
    let (w8, units8) = plan_export(8, "iCloud", "/tmp/out", &index, &notes, false).unwrap();
    assert_eq!(w1, 1);
    assert_eq!(w8, 8);
    assert_eq!(units1, units8);
}

#[test]
fn export_plan_fails_on_unknown_folder() {
    let index = FolderIndex::new(sample_folders()).unwrap();
    let notes = vec![sample_note(1, "x-coredata://UUID/ICFolder/p99", "Lost")];
    let err = build_export_units("iCloud", "/tmp/out", &index, &notes, false).unwrap_err();
    assert_eq!(
        err,
        ExportError::UnknownFolder {
            note_id: "x-coredata://UUID/ICNote/p1".to_string(),
            folder_id: "x-coredata://UUID/ICFolder/p99".to_string(),
        }
    );
}

#[test]
fn export_plan_fails_on_unrepresentable_timestamp() {
    let mut note = sample_note(1, "x-coredata://UUID/ICFolder/p10", "One");
    note.created_at = i64::MAX;
    let index = FolderIndex::new(sample_folders()).unwrap();
    let err = build_export_units("iCloud", "/tmp/out", &index, &vec![note], false).unwrap_err();
    assert_eq!(
        err,
        ExportError::TimestampUnrepresentable { note_id: "x-coredata://UUID/ICNote/p1".to_string() }
    );
}

#[test]
fn export_run_reports_first_failure_and_bounded_drain() {
    let mut run = ExportRun::new();
    run.record_sent();
    run.record_sent();
    run.record_sent();
    assert!(!run.should_stop());
    assert_eq!(run.pending(), 3);

    run.record_done(true);
    run.record_done(false);
    assert!(run.should_stop());
    assert_eq!(run.pending(), 1);

    // The producer stops handing out work and drains exactly the pending
    // completion; a later failure does not displace the first.
    run.record_done(false);
    assert_eq!(run.pending(), 0);
    assert_eq!(run.completed_count(), 3);
    assert_eq!(run.sent_count(), 3);
}
