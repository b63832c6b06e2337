use apple_notes_cli::cli::filter_notes_by_query;
use apple_notes_cli::cli::split_folder_path;
use apple_notes_cli::cli::PathArgError;
use apple_notes_cli::tables::shorten_id_for_table;
use apple_notes_cli::transport::parse_note_summaries_tsv;
use apple_notes_cli::transport::resolve_folder_matches;
use apple_notes_cli::transport::OsascriptBackend;
use apple_notes_cli::transport::ResolveError;
use apple_notes_cli::transport::TsvError;
use apple_notes_cli::NoteSummary;

#[test]
fn split_folder_path_parses_and_trims() {
    assert_eq!(
        split_folder_path("Personal > Archive").unwrap(),
        vec!["Personal".to_string(), "Archive".to_string()]
    );
    assert_eq!(
        split_folder_path("  Personal>Archive  ").unwrap(),
        vec!["Personal".to_string(), "Archive".to_string()]
    );
}

#[test]
fn split_folder_path_rejects_empty() {
    assert!(split_folder_path("   ").is_err());
    assert!(split_folder_path(" > > ").is_err());
    assert_eq!(split_folder_path(""), Err(PathArgError::EmptyFolderPath));
}

#[test]
fn shorten_id_for_table_keeps_short_ids() {
    assert_eq!(shorten_id_for_table("abc"), "abc");
}

#[test]
fn shorten_id_for_table_shortens_long_ids() {
    let id = "x-coredata://AAAAAAAA-BBBB-CCCC-DDDD-EEEEEEEEEEEE/ICNote/p1393";
    let s = shorten_id_for_table(id);
    assert!(s.contains('…'));
    assert!(s.starts_with("x-coredata://"));
    assert!(s.ends_with("p1393"));
}

#[test]
fn parse_note_summaries_tsv_parses_lines() {
    let parsed = parse_note_summaries_tsv("id1\ttitle1\tfolder1\nid2\ttitle2\tfolder2\n").unwrap();
    assert_eq!(parsed.len(), 2);
    assert_eq!(parsed[0].id, "id1");
    assert_eq!(parsed[1].folder_id, "folder2");
}

#[test]
fn parse_note_summaries_tsv_skips_blank_lines_and_reports_bad_ones() {
    let parsed = parse_note_summaries_tsv("\n\nid1\tt1\tf1\n\n").unwrap();
    assert_eq!(parsed.len(), 1);

    assert_eq!(
        parse_note_summaries_tsv("no-tabs-here"),
        Err(TsvError::MissingTitle { line: 1 })
    );
    assert_eq!(
        parse_note_summaries_tsv("ok\tt\tf\nid-only\ttitle"),
        Err(TsvError::MissingFolderId { line: 2 })
    );
}

#[test]
fn extract_osascript_log_payload_strips_prefix() {
    assert_eq!(
        OsascriptBackend::extract_osascript_log_payload("log: a\tb\tc"),
        "a\tb\tc"
    );
    assert_eq!(
        OsascriptBackend::extract_osascript_log_payload("a\tb\tc"),
        "a\tb\tc"
    );
}

#[test]
fn resolve_folder_matches_requires_exactly_one() {
    assert_eq!(
        resolve_folder_matches(&Vec::new()),
        Err(ResolveError::NotFound)
    );
    assert_eq!(
        resolve_folder_matches(&vec!["f1".to_string()]).unwrap(),
        "f1"
    );
    assert_eq!(
        resolve_folder_matches(&vec!["f1".to_string(), "f2".to_string()]),
        Err(ResolveError::Ambiguous { matches: 2 })
    );
}

#[test]
fn filter_notes_by_query_is_case_insensitive() {
    let notes = vec![
        NoteSummary {
            id: "n1".to_string(),
            title: "Grocery List".to_string(),
            folder_id: "f1".to_string(),
        },
        NoteSummary {
            id: "n2".to_string(),
            title: "Meeting notes".to_string(),
            folder_id: "f1".to_string(),
        },
    ];
    let hits = filter_notes_by_query(&notes, "GROCERY");
    assert_eq!(hits.len(), 1);
    assert_eq!(hits[0].id, "n1");

    let all = filter_notes_by_query(&notes, "");
    assert_eq!(all.len(), 2);
}

#[test]
fn sort_summaries_orders_by_id_or_title() {
    let notes = vec![
        NoteSummary {
            id: "n2".to_string(),
            title: "Alpha".to_string(),
            folder_id: "f1".to_string(),
        },
        NoteSummary {
            id: "n1".to_string(),
            title: "Beta".to_string(),
            folder_id: "f1".to_string(),
        },
    ];
    let by_id = apple_notes_cli::model::sort_summaries(notes.clone(), false);
    assert_eq!(by_id[0].id, "n1");
    assert_eq!(by_id[1].id, "n2");

    let by_title = apple_notes_cli::model::sort_summaries(notes, true);
    assert_eq!(by_title[0].title, "Alpha");
    assert_eq!(by_title[1].title, "Beta");
}

#[test]
fn seen_ids_passes_each_id_through_once() {
    let mut seen = apple_notes_cli::transport::SeenIds::new();
    assert!(seen.first_sighting("id1"));
    assert!(!seen.first_sighting("id1"));
    assert!(seen.first_sighting("id2"));
    assert!(!seen.first_sighting("id1"));
    assert!(!seen.first_sighting("id2"));
}
