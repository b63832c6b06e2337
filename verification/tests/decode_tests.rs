use std::io::Write;

use apple_notes_cli::decode::decode_note_markdown;
use apple_notes_cli::decode::best_effort_extract_text;
use apple_notes_cli::decode::looks_like_human_text;
use apple_notes_cli::decode::normalize_text;
use apple_notes_cli::decode::score_block;
use apple_notes_cli::decode::DecodeError;

fn gzip_bytes(payload: &[u8]) -> Vec<u8> {
    let mut enc = flate2::write::GzEncoder::new(Vec::new(), flate2::Compression::default());
    enc.write_all(payload).unwrap();
    enc.finish().unwrap()
}

#[test]
fn decode_note_markdown_extracts_text_from_gzip_blob() {
    let payload = b"\0\0Title\0\0Hello from Notes!\nSecond line.\0\0";
    let gz = gzip_bytes(payload);

    let out = decode_note_markdown(&gz).unwrap();
    assert!(out.contains("Hello from Notes!"));
    assert!(out.contains("Second line."));
}

#[test]
fn decode_note_markdown_accepts_plain_utf8() {
    let out = decode_note_markdown(b"Hi\r\nThere").unwrap();
    assert_eq!(out, "Hi\nThere");
}

#[test]
fn decode_gzip_of_plain_text_round_trips_exactly() {
    let plain = "First line.\r\nSecond line.\rThird line.";
    let gz = gzip_bytes(plain.as_bytes());
    let out = decode_note_markdown(&gz).unwrap();
    assert_eq!(out, "First line.\nSecond line.\nThird line.");
}

#[test]
fn decode_rejects_corrupt_gzip() {
    let bad = [0x1f_u8, 0x8b, 0x00, 0x01, 0x02, 0x03];
    assert_eq!(decode_note_markdown(&bad), Err(DecodeError::GunzipFailed));
}

#[test]
fn decode_fails_on_unreadable_blob() {
    let noise = [0x01_u8, 0x02, 0x03, 0x04, 0x05, 0x06, 0x07, 0x08];
    assert_eq!(decode_note_markdown(&noise), Err(DecodeError::Undecodable));
}

#[test]
fn decode_strips_nul_padding_and_whitespace() {
    let out = decode_note_markdown(b"\0\0  A tidy note body\t \0\0").unwrap();
    assert_eq!(out, "A tidy note body");
}

#[test]
fn best_effort_picks_highest_scoring_segment() {
    let mut blob: Vec<u8> = Vec::new();
    blob.extend_from_slice(b"x1");
    blob.push(0x01);
    blob.extend_from_slice(b"This segment is long readable prose with many words in it.");
    blob.push(0x02);
    blob.extend_from_slice(b"zz9");
    let out = best_effort_extract_text(&blob);
    assert_eq!(out, "This segment is long readable prose with many words in it.");
}

#[test]
fn best_effort_returns_empty_when_no_segment_clears_threshold() {
    let mut blob: Vec<u8> = Vec::new();
    blob.extend_from_slice(b"short");
    blob.push(0x01);
    blob.extend_from_slice(b"tiny");
    let out = best_effort_extract_text(&blob);
    assert_eq!(out, "");
}

#[test]
fn human_text_heuristic_rejects_control_heavy_text() {
    let readable: Vec<char> = "An ordinary sentence.".chars().collect();
    assert!(looks_like_human_text(&readable));

    let noisy: Vec<char> = "a\u{1}\u{2}\u{3}\u{4}\u{5}".chars().collect();
    assert!(!looks_like_human_text(&noisy));

    let empty: Vec<char> = Vec::new();
    assert!(!looks_like_human_text(&empty));
}

#[test]
fn normalize_text_converts_line_endings() {
    assert_eq!(normalize_text("a\r\nb\rc\nd"), "a\nb\nc\nd");
    assert_eq!(normalize_text(""), "");
}

#[test]
fn score_block_counts_alnum_density_and_caps_whitespace() {
    let dense: Vec<char> = "abcd1234".chars().collect();
    // eight alphanumerics, length eight: 8 - 8/4 = 6, no whitespace.
    assert_eq!(score_block(&dense), 6);

    let mut spaced = String::new();
    for _ in 0..300 {
        spaced.push_str("a ");
    }
    let spaced_chars: Vec<char> = spaced.chars().collect();
    // 300 alphanumerics, length 600: dense = 300 - 150 = 150; whitespace
    // capped at 200.
    assert_eq!(score_block(&spaced_chars), 350);
}
