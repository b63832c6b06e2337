use apple_notes_cli::json::json_string;
use apple_notes_cli::render::escape_html;
use apple_notes_cli::render::html_to_markdown;
use apple_notes_cli::render::markdown_to_html;
use apple_notes_cli::render::note_to_markdown;
use apple_notes_cli::render::text_to_html;
use apple_notes_cli::timestamp::format_rfc3339;
use apple_notes_cli::timestamp::resolve_note_dates;
use apple_notes_cli::timestamp::reference_offset_to_unix_ms;
use apple_notes_cli::Note;

#[test]
fn text_to_html_wraps_lines_and_escapes() {
    let html = text_to_html("a<b\nc&d");
    assert!(html.contains("&lt;b"));
    assert!(html.contains("&amp;"));
    assert!(html.contains("<div>"));
}

#[test]
fn text_to_html_exact_layout() {
    assert_eq!(text_to_html("a<b\nc&d"), "<div>a&lt;b</div>\n<div>c&amp;d</div>\n");
    assert_eq!(text_to_html(""), "<div></div>\n");
    assert_eq!(text_to_html("x\r\ny"), "<div>x</div>\n<div>y</div>\n");
}

#[test]
fn escape_html_escapes_all_five() {
    assert_eq!(escape_html("&<>\"'"), "&amp;&lt;&gt;&quot;&#39;");
    assert_eq!(escape_html("plain"), "plain");
}

#[test]
fn html_to_markdown_basic() {
    let md = html_to_markdown("<div>Hello</div>");
    assert!(md.to_lowercase().contains("hello"));
}

#[test]
fn markdown_to_html_renders_and_wraps() {
    let html = markdown_to_html("# Title");
    assert!(html.starts_with("<div>"));
    assert!(html.ends_with("</div>"));
    assert!(html.contains("<h1>"));
}

#[test]
fn note_to_markdown_has_heading_and_body() {
    let note = Note {
        id: "n1".to_string(),
        title: "Hello".to_string(),
        folder_id: "f1".to_string(),
        created_at: 0,
        modified_at: 0,
        body_html: "<div>Body text</div>".to_string(),
    };
    let md = note_to_markdown(&note);
    assert!(md.starts_with("# Hello\n\n"));
    assert!(md.contains("Body text"));
}

#[test]
fn json_string_escapes_quotes_and_controls() {
    assert_eq!(json_string("plain"), "\"plain\"");
    assert_eq!(json_string("a\"b\\c"), "\"a\\\"b\\\\c\"");
    assert_eq!(json_string("x\ny\tz"), "\"x\\ny\\tz\"");
    assert_eq!(json_string("\u{1}"), "\"\\u0001\"");
}

#[test]
fn resolve_note_dates_follows_fallback_chain() {
    assert_eq!(resolve_note_dates(Some(1), Some(2), Some(3), Some(4), Some(5)), (3, 4));
    assert_eq!(resolve_note_dates(Some(1), Some(2), None, None, Some(5)), (2, 5));
    assert_eq!(resolve_note_dates(Some(1), None, None, None, None), (1, 1));
    assert_eq!(resolve_note_dates(None, None, None, None, None), (0, 0));
}

#[test]
fn reference_offset_shifts_to_unix_epoch() {
    assert_eq!(reference_offset_to_unix_ms(0), 978_307_200_000);
    assert_eq!(reference_offset_to_unix_ms(-978_307_200_000), 0);
}

#[test]
fn rfc3339_formats_instants() {
    assert_eq!(format_rfc3339(0).unwrap(), "1970-01-01T00:00:00Z");
    assert_eq!(format_rfc3339(978_307_200_000).unwrap(), "2001-01-01T00:00:00Z");
    assert_eq!(format_rfc3339(1_500).unwrap(), "1970-01-01T00:00:01.5Z");
    assert!(format_rfc3339(i64::MAX).is_none());
}
