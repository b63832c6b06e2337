//! Best-effort recovery of readable text from the proprietary note blob:
//! gzip detection, a human-text density heuristic, and a scored fallback that
//! extracts the most readable control-character-delimited block.

use vstd::prelude::*;
use vstd::utf8::valid_utf8;
use vstd::utf8::decode_utf8;
use crate::chars::is_noise_char;
use crate::chars::is_noise;
use crate::chars::is_unicode_whitespace;
use crate::chars::is_whitespace_char;
use crate::chars::is_alnum;
use crate::chars::alnum_char;
use crate::chars::trim_spec;
use crate::chars::trim_nul_spec;
use crate::chars::trim_chars;
use crate::chars::trim_nul_chars;
use crate::chars::chars_to_string;
use crate::chars::str_to_chars;

verus! {

/// Why a note blob could not be decoded.
#[derive(Debug, Clone, Copy, PartialEq, Eq, Structural)]
pub enum DecodeError {
    /// The blob begins with the gzip magic but is not a valid gzip stream.
    GunzipFailed,
    /// No readable text could be extracted from the blob.
    Undecodable,
}

/// The blob starts with the two-byte gzip magic.
pub open spec fn is_gzip(data: Seq<u8>) -> bool {
    data.len() >= 2 && data[0] == 0x1f && data[1] == 0x8b
}

/// What gzip decompression yields for these bytes: the decompressed stream,
/// or nothing when the bytes are not a valid gzip stream.
pub uninterp spec fn gunzip_of(data: Seq<u8>) -> Option<Seq<u8>>;

/// Relies on flate2::read::GzDecoder read to the end: decompression is a
/// function of the input bytes alone, and fails exactly on invalid streams.
#[verifier::external_body]
fn gunzip(data: &[u8]) -> (r: Option<Vec<u8>>)
    ensures
        match gunzip_of(data@) {
            Some(out) => r is Some && r->0@ == out,
            None => r is None,
        },
{
    let mut dec = flate2::read::GzDecoder::new(data);
    let mut out = Vec::new();
    match std::io::Read::read_to_end(&mut dec, &mut out) {
        Ok(_) => Some(out),
        Err(_) => None,
    }
}

/// What `String::from_utf8_lossy` yields for these bytes: the UTF-8 decoding
/// with every invalid sequence replaced by `U+FFFD`.
pub uninterp spec fn lossy_of(data: Seq<u8>) -> Seq<char>;

/// Relies on String::from_utf8_lossy: the result is a function of the bytes
/// alone, and on valid UTF-8 input it is exactly the UTF-8 decoding.
#[verifier::external_body]
fn lossy_chars(data: &[u8]) -> (r: Vec<char>)
    ensures
        r@ == lossy_of(data@),
        valid_utf8(data@) ==> r@ == decode_utf8(data@),
{
    String::from_utf8_lossy(data).chars().collect()
}

/// Relies on core::str::from_utf8: it succeeds exactly on valid UTF-8 input
/// and yields the decoded characters.
#[verifier::external_body]
fn utf8_chars(data: &[u8]) -> (r: Option<Vec<char>>)
    ensures
        r is Some <==> valid_utf8(data@),
        r is Some ==> r->0@ == decode_utf8(data@),
{
    match core::str::from_utf8(data) {
        Ok(s) => Some(s.chars().collect()),
        Err(_) => None,
    }
}

/// How many characters of `s` are noise (control characters other than
/// newline, carriage return and tab).
pub open spec fn noise_count(s: Seq<char>) -> int
    decreases s.len(),
{
    if s.len() == 0 {
        0
    } else {
        noise_count(s.drop_last()) + if is_noise_char(s.last()) {
            1int
        } else {
            0int
        }
    }
}

/// How many characters of `s` are alphanumeric.
pub open spec fn alnum_count(s: Seq<char>) -> int
    decreases s.len(),
{
    if s.len() == 0 {
        0
    } else {
        alnum_count(s.drop_last()) + if is_alnum(s.last()) {
            1int
        } else {
            0int
        }
    }
}

/// How many characters of `s` are whitespace.
pub open spec fn ws_count(s: Seq<char>) -> int
    decreases s.len(),
{
    if s.len() == 0 {
        0
    } else {
        ws_count(s.drop_last()) + if is_unicode_whitespace(s.last()) {
            1int
        } else {
            0int
        }
    }
}

/// The density heuristic for human text: over a sample of at most 2048
/// characters, at least one character is printable (not noise) and noise
/// makes up less than a twentieth of the printable count.
pub open spec fn human_text(s: Seq<char>) -> bool {
    let sample = if s.len() > 2048 {
        s.take(2048)
    } else {
        s
    };
    let noise = noise_count(sample);
    let printable = sample.len() - noise;
    printable > 0 && noise * 20 < printable
}

/// Whether the trimmed text passes the human-text density heuristic.
pub fn looks_like_human_text(s: &Vec<char>) -> (r: bool)
    ensures
        r == human_text(s@),
{
    let limit: usize = if s.len() > 2048 {
        2048
    } else {
        s.len()
    };
    let ghost sample: Seq<char> = if s@.len() > 2048 {
        s@.take(2048)
    } else {
        s@
    };
    proof {
        assert(sample =~= s@.take(limit as int));
    }
    let mut noise: usize = 0;
    let mut i: usize = 0;
    while i < limit
        invariant
            0 <= i <= limit <= s@.len(),
            sample == s@.take(limit as int),
            noise <= i,
            noise as int == noise_count(s@.take(i as int)),
        decreases limit - i,
    {
        if is_noise(s[i]) {
            noise = noise + 1;
        }
        proof {
            assert(s@.take(i + 1).drop_last() =~= s@.take(i as int));
            assert(s@.take(i + 1).last() == s@[i as int]);
        }
        i = i + 1;
    }
    proof {
        assert(s@.take(limit as int) =~= sample);
        assert(noise_count(sample) == noise as int);
        assert(noise <= 2048);
    }
    let printable: usize = limit - noise;
    printable > 0 && noise * 20 < printable
}

/// Line-ending normalization: every `\r\n` pair and every lone `\r` becomes
/// a single `\n`.
pub open spec fn normalize_newlines(s: Seq<char>) -> Seq<char>
    decreases s.len(),
{
    if s.len() == 0 {
        s
    } else if s[0] == '\r' && s.len() >= 2 && s[1] == '\n' {
        seq!['\n'] + normalize_newlines(s.skip(2))
    } else if s[0] == '\r' {
        seq!['\n'] + normalize_newlines(s.skip(1))
    } else {
        seq![s[0]] + normalize_newlines(s.skip(1))
    }
}

/// Normalize line endings over a character vector.
#[verifier::loop_isolation(false)]
pub fn normalize_chars(s: &Vec<char>) -> (r: Vec<char>)
    ensures
        r@ == normalize_newlines(s@),
{
    let mut out: Vec<char> = Vec::new();
    let mut i: usize = 0;
    proof {
        assert(s@.skip(0) =~= s@);
        assert(Seq::<char>::empty() + normalize_newlines(s@) =~= normalize_newlines(s@));
    }
    while i < s.len()
        invariant
            0 <= i <= s@.len(),
            normalize_newlines(s@) == out@ + normalize_newlines(s@.skip(i as int)),
        decreases s@.len() - i,
    {
        let ghost rest: Seq<char> = s@.skip(i as int);
        let ghost out_before: Seq<char> = out@;
        proof {
            assert(rest[0] == s@[i as int]);
            assert(rest.len() == s@.len() - i);
        }
        if s[i] == '\r' && i + 1 < s.len() && s[i + 1] == '\n' {
            out.push('\n');
            proof {
                assert(rest[1] == s@[i + 1]);
                assert(rest.skip(2) =~= s@.skip(i + 2));
                assert(normalize_newlines(rest) == seq!['\n'] + normalize_newlines(
                    s@.skip(i + 2),
                ));
                assert(out_before + (seq!['\n'] + normalize_newlines(s@.skip(i + 2))) =~= out@
                    + normalize_newlines(s@.skip(i + 2)));
            }
            i = i + 2;
        } else if s[i] == '\r' {
            out.push('\n');
            proof {
                if rest.len() >= 2 {
                    assert(rest[1] == s@[i + 1]);
                }
                assert(rest.skip(1) =~= s@.skip(i + 1));
                assert(normalize_newlines(rest) == seq!['\n'] + normalize_newlines(
                    s@.skip(i + 1),
                ));
                assert(out_before + (seq!['\n'] + normalize_newlines(s@.skip(i + 1))) =~= out@
                    + normalize_newlines(s@.skip(i + 1)));
            }
            i = i + 1;
        } else {
            let c = s[i];
            out.push(c);
            proof {
                if rest.len() >= 2 {
                    assert(rest[1] == s@[i + 1]);
                }
                assert(rest.skip(1) =~= s@.skip(i + 1));
                assert(normalize_newlines(rest) == seq![c] + normalize_newlines(s@.skip(i + 1)));
                assert(out_before + (seq![c] + normalize_newlines(s@.skip(i + 1))) =~= out@
                    + normalize_newlines(s@.skip(i + 1)));
            }
            i = i + 1;
        }
    }
    proof {
        assert(s@.skip(s@.len() as int).len() == 0);
        assert(out@ + normalize_newlines(s@.skip(s@.len() as int)) =~= out@);
    }
    out
}

/// Normalize line endings in a string: `\r\n` and lone `\r` become `\n`.
pub fn normalize_text(s: &str) -> (r: String)
    ensures
        r@ == normalize_newlines(s@),
{
    let v = str_to_chars(s);
    let n = normalize_chars(&v);
    chars_to_string(&n)
}

/// The readability score of counts: alphanumeric density (alphanumeric count
/// less a quarter of the length, floored at zero) plus whitespace capped at
/// two hundred.
pub open spec fn score_of(alnum: int, ws: int, len: int) -> int {
    (if alnum >= len / 4 {
        alnum - len / 4
    } else {
        0int
    }) + (if ws < 200 {
        ws
    } else {
        200int
    })
}

/// The readability score of a block.
pub open spec fn score_spec(s: Seq<char>) -> int {
    score_of(alnum_count(s), ws_count(s), s.len() as int)
}

/// Law: the score grows monotonically with alphanumeric and whitespace
/// counts at a fixed length, and whitespace stops contributing beyond the
/// two-hundred-character cap.
pub proof fn lemma_score_monotonic(a1: int, w1: int, a2: int, w2: int, len: int)
    requires
        a1 <= a2,
        w1 <= w2,
    ensures
        score_of(a1, w1, len) <= score_of(a2, w2, len),
        w1 >= 200 ==> score_of(a1, w1, len) == score_of(a1, 200, len),
{
}

/// The readability score of a block of characters.
#[verifier::loop_isolation(false)]
pub fn score_block(s: &Vec<char>) -> (r: u128)
    ensures
        r as int == score_spec(s@),
{
    let mut alnum: usize = 0;
    let mut ws: usize = 0;
    let mut i: usize = 0;
    while i < s.len()
        invariant
            0 <= i <= s@.len(),
            alnum <= i,
            ws <= i,
            alnum as int == alnum_count(s@.take(i as int)),
            ws as int == ws_count(s@.take(i as int)),
        decreases s@.len() - i,
    {
        if alnum_char(s[i]) {
            alnum = alnum + 1;
        }
        if is_whitespace_char(s[i]) {
            ws = ws + 1;
        }
        proof {
            assert(s@.take(i + 1).drop_last() =~= s@.take(i as int));
            assert(s@.take(i + 1).last() == s@[i as int]);
        }
        i = i + 1;
    }
    proof {
        assert(s@.take(s@.len() as int) =~= s@);
    }
    let len4: usize = s.len() / 4;
    let dense: u128 = if alnum >= len4 {
        (alnum - len4) as u128
    } else {
        0
    };
    let capped_ws: u128 = if ws < 200 {
        ws as u128
    } else {
        200
    };
    dense + capped_ws
}

/// A block boundary: a noise character or the replacement character that
/// marks an undecodable byte sequence.
pub open spec fn is_boundary_char(c: char) -> bool {
    is_noise_char(c) || c == '\u{fffd}'
}

/// The trimmed block under construction, kept only if nonempty.
pub open spec fn emit_block(cur: Seq<char>) -> Seq<Seq<char>> {
    if trim_spec(cur).len() == 0 {
        Seq::empty()
    } else {
        seq![trim_spec(cur)]
    }
}

/// Split `s` into trimmed, nonempty blocks at boundary characters, with
/// `cur` the unfinished block so far.
pub open spec fn blocks_from(s: Seq<char>, cur: Seq<char>) -> Seq<Seq<char>>
    decreases s.len(),
{
    if s.len() == 0 {
        emit_block(cur)
    } else if is_boundary_char(s[0]) {
        emit_block(cur) + blocks_from(s.drop_first(), Seq::empty())
    } else {
        blocks_from(s.drop_first(), cur.push(s[0]))
    }
}

/// The trimmed, nonempty blocks of `s`, split at boundary characters.
pub open spec fn blocks_of(s: Seq<char>) -> Seq<Seq<char>> {
    blocks_from(s, Seq::empty())
}

/// Split into trimmed, nonempty blocks at boundary characters.
#[verifier::loop_isolation(false)]
fn split_blocks(s: &Vec<char>) -> (r: Vec<Vec<char>>)
    ensures
        r.deep_view() == blocks_of(s@),
{
    let mut blocks: Vec<Vec<char>> = Vec::new();
    let mut cur: Vec<char> = Vec::new();
    let mut i: usize = 0;
    proof {
        assert(s@.skip(0) =~= s@);
        assert(blocks.deep_view() =~~= Seq::<Seq<char>>::empty());
        assert(blocks.deep_view() + blocks_from(s@, Seq::empty()) =~= blocks_from(
            s@,
            Seq::empty(),
        ));
    }
    while i < s.len()
        invariant
            0 <= i <= s@.len(),
            blocks_of(s@) == blocks.deep_view() + blocks_from(s@.skip(i as int), cur@),
        decreases s@.len() - i,
    {
        let ghost rest: Seq<char> = s@.skip(i as int);
        let ghost blocks_before: Seq<Seq<char>> = blocks.deep_view();
        let ghost cur_before: Seq<char> = cur@;
        proof {
            assert(rest[0] == s@[i as int]);
            assert(rest.drop_first() =~= s@.skip(i + 1));
        }
        let c = s[i];
        if is_noise(c) || c == '\u{fffd}' {
            let t = trim_chars(&cur);
            if t.len() > 0 {
                blocks.push(t);
                proof {
                    assert(blocks.deep_view() =~~= blocks_before.push(trim_spec(cur_before)));
                    assert(blocks_before.push(trim_spec(cur_before)) =~= blocks_before
                        + emit_block(cur_before));
                }
            } else {
                proof {
                    assert(emit_block(cur_before) =~= Seq::<Seq<char>>::empty());
                    assert(blocks.deep_view() =~= blocks_before + emit_block(cur_before));
                }
            }
            cur = Vec::new();
            proof {
                assert(blocks_from(rest, cur_before) == emit_block(cur_before) + blocks_from(
                    s@.skip(i + 1),
                    Seq::empty(),
                ));
                assert(blocks_before + (emit_block(cur_before) + blocks_from(
                    s@.skip(i + 1),
                    Seq::empty(),
                )) =~= (blocks_before + emit_block(cur_before)) + blocks_from(
                    s@.skip(i + 1),
                    Seq::empty(),
                ));
            }
        } else {
            cur.push(c);
            proof {
                assert(blocks_from(rest, cur_before) == blocks_from(
                    s@.skip(i + 1),
                    cur_before.push(c),
                ));
            }
        }
        i = i + 1;
    }
    let t = trim_chars(&cur);
    let ghost blocks_before: Seq<Seq<char>> = blocks.deep_view();
    let ghost cur_final: Seq<char> = cur@;
    proof {
        assert(s@.skip(s@.len() as int).len() == 0);
        assert(blocks_from(s@.skip(s@.len() as int), cur_final) == emit_block(cur_final));
    }
    if t.len() > 0 {
        blocks.push(t);
        proof {
            assert(blocks.deep_view() =~~= blocks_before.push(trim_spec(cur_final)));
            assert(blocks.deep_view() =~= blocks_before + emit_block(cur_final));
        }
    } else {
        proof {
            assert(emit_block(cur_final) =~= Seq::<Seq<char>>::empty());
            assert(blocks.deep_view() =~= blocks_before + emit_block(cur_final));
        }
    }
    blocks
}

/// The best block: the earliest block whose score no later block strictly
/// exceeds.
pub open spec fn best_in(blocks: Seq<Seq<char>>) -> Option<Seq<char>>
    decreases blocks.len(),
{
    if blocks.len() == 0 {
        None
    } else {
        match best_in(blocks.drop_last()) {
            None => Some(blocks.last()),
            Some(b) => if score_spec(blocks.last()) > score_spec(b) {
                Some(blocks.last())
            } else {
                Some(b)
            },
        }
    }
}

/// Law: the selected block is one of the blocks, and no block scores
/// strictly higher.
pub proof fn lemma_best_block_is_max(blocks: Seq<Seq<char>>)
    ensures
        blocks.len() > 0 <==> best_in(blocks) is Some,
        best_in(blocks) is Some ==> blocks.contains(best_in(blocks)->0),
        best_in(blocks) is Some ==> forall|i: int|
            0 <= i < blocks.len() ==> score_spec(#[trigger] blocks[i]) <= score_spec(
                best_in(blocks)->0,
            ),
    decreases blocks.len(),
{
    if blocks.len() > 0 {
        lemma_best_block_is_max(blocks.drop_last());
        let b = best_in(blocks)->0;
        if blocks.len() > 1 {
            match best_in(blocks.drop_last()) {
                None => {},
                Some(prev) => {
                    if blocks.drop_last().contains(prev) {
                        let i = choose|i: int|
                            0 <= i < blocks.drop_last().len() && blocks.drop_last()[i] == prev;
                        assert(blocks[i] == prev);
                    }
                },
            }
        }
        assert forall|i: int| 0 <= i < blocks.len() implies score_spec(#[trigger] blocks[i])
            <= score_spec(b) by {
            if i < blocks.len() - 1 {
                assert(blocks.drop_last()[i] == blocks[i]);
            }
        }
        if blocks.contains(b) {
        } else {
            if b == blocks.last() {
                assert(blocks[blocks.len() - 1] == b);
            } else {
                let i = choose|i: int|
                    0 <= i < blocks.drop_last().len() && blocks.drop_last()[i] == b;
                assert(blocks[i] == b);
            }
        }
    }
}

/// The extracted text: the best-scoring block, normalized, if it scores
/// above the readability threshold; otherwise empty.
pub open spec fn extract_spec(bytes: Seq<u8>) -> Seq<char> {
    match best_in(blocks_of(lossy_of(bytes))) {
        Some(b) => if score_spec(b) > 20 {
            normalize_newlines(b)
        } else {
            Seq::empty()
        },
        None => Seq::empty(),
    }
}

/// Decode the raw bytes permissively, split into blocks at control and
/// replacement characters, and return the highest-scoring block (normalized)
/// if it clears the readability threshold; otherwise an empty string.
#[verifier::loop_isolation(false)]
pub fn best_effort_extract_text(bytes: &[u8]) -> (r: String)
    ensures
        r@ == extract_spec(bytes@),
{
    let chars = lossy_chars(bytes);
    let blocks = split_blocks(&chars);
    let mut best_idx: usize = 0;
    let mut best_score: u128 = 0;
    let mut have_best: bool = false;
    let mut i: usize = 0;
    while i < blocks.len()
        invariant
            0 <= i <= blocks@.len(),
            have_best <==> i > 0,
            have_best ==> best_idx < i,
            have_best ==> best_in(blocks.deep_view().take(i as int)) == Some(
                blocks.deep_view()[best_idx as int],
            ),
            have_best ==> best_score as int == score_spec(blocks.deep_view()[best_idx as int]),
            !have_best ==> best_in(blocks.deep_view().take(i as int)) is None,
        decreases blocks@.len() - i,
    {
        let sc = score_block(&blocks[i]);
        proof {
            assert(blocks.deep_view()[i as int] == blocks@[i as int]@);
            assert(blocks.deep_view().take(i + 1).drop_last() =~= blocks.deep_view().take(
                i as int,
            ));
            assert(blocks.deep_view().take(i + 1).last() == blocks.deep_view()[i as int]);
        }
        if !have_best || sc > best_score {
            best_idx = i;
            best_score = sc;
            have_best = true;
        }
        i = i + 1;
    }
    proof {
        assert(blocks.deep_view().take(blocks@.len() as int) =~= blocks.deep_view());
    }
    if have_best && best_score > 20 {
        let n = normalize_chars(&blocks[best_idx]);
        proof {
            assert(blocks.deep_view()[best_idx as int] == blocks@[best_idx as int]@);
        }
        chars_to_string(&n)
    } else {
        proof {
            if have_best {
                assert(extract_spec(bytes@) =~= Seq::<char>::empty());
            }
        }
        String::new()
    }
}

/// The decoder's contract: gzip-compressed blobs are decompressed first (a
/// corrupt stream is fatal); text that decodes as UTF-8 and passes the
/// density heuristic is returned with NUL padding and surrounding whitespace
/// stripped and line endings normalized; anything else falls back to
/// best-effort block extraction, which fails only when no block clears the
/// readability threshold.
pub open spec fn decode_spec(data: Seq<u8>) -> Result<Seq<char>, DecodeError> {
    let decoded = if is_gzip(data) {
        gunzip_of(data)
    } else {
        Some(data)
    };
    match decoded {
        None => Err(DecodeError::GunzipFailed),
        Some(d) => {
            if valid_utf8(d) && human_text(trim_spec(trim_nul_spec(decode_utf8(d)))) {
                Ok(normalize_newlines(trim_spec(trim_nul_spec(decode_utf8(d)))))
            } else {
                let t = extract_spec(d);
                if trim_spec(t).len() == 0 {
                    Err(DecodeError::Undecodable)
                } else {
                    Ok(t)
                }
            }
        },
    }
}

/// Recover readable markdown-ready text from one note's raw blob.
pub fn decode_note_markdown(data: &[u8]) -> (r: Result<String, DecodeError>)
    ensures
        match decode_spec(data@) {
            Ok(text) => r is Ok && r->Ok_0@ == text,
            Err(e) => r == Result::<String, DecodeError>::Err(e),
        },
{
    let decoded: Vec<u8> = if data.len() >= 2 && data[0] == 0x1f && data[1] == 0x8b {
        match gunzip(data) {
            Some(out) => out,
            None => {
                return Err(DecodeError::GunzipFailed);
            },
        }
    } else {
        let mut copy: Vec<u8> = Vec::new();
        let mut i: usize = 0;
        while i < data.len()
            invariant
                0 <= i <= data@.len(),
                copy@ == data@.take(i as int),
            decreases data@.len() - i,
        {
            copy.push(data[i]);
            assert(copy@ =~= data@.take(i + 1));
            i = i + 1;
        }
        proof {
            assert(data@.take(data@.len() as int) =~= data@);
        }
        copy
    };
    let ghost d: Seq<u8> = decoded@;
    if let Some(chars) = utf8_chars(decoded.as_slice()) {
        let stripped = trim_chars(&trim_nul_chars(&chars));
        if looks_like_human_text(&stripped) {
            let n = normalize_chars(&stripped);
            return Ok(chars_to_string(&n));
        }
    }
    let text = best_effort_extract_text(decoded.as_slice());
    let tchars = str_to_chars(text.as_str());
    let trimmed = trim_chars(&tchars);
    if trimmed.len() == 0 {
        return Err(DecodeError::Undecodable);
    }
    Ok(text)
}

/// Law: a blob that is plain UTF-8 text passing the density heuristic
/// decodes to exactly that text, NUL-stripped, whitespace-trimmed and with
/// `\r\n` and lone `\r` line endings converted to `\n`.
pub proof fn lemma_decode_plain_utf8(data: Seq<u8>)
    requires
        !is_gzip(data),
        valid_utf8(data),
        human_text(trim_spec(trim_nul_spec(decode_utf8(data)))),
    ensures
        decode_spec(data) == Ok::<Seq<char>, DecodeError>(
            normalize_newlines(trim_spec(trim_nul_spec(decode_utf8(data)))),
        ),
{
}

/// Law: a gzip blob whose decompressed payload is plain UTF-8 text passing
/// the density heuristic decodes to exactly that payload text, normalized
/// the same way: decoding inverts compression up to line-ending
/// normalization.
pub proof fn lemma_decode_gzip_round_trip(data: Seq<u8>, plain: Seq<u8>)
    requires
        is_gzip(data),
        gunzip_of(data) == Some(plain),
        valid_utf8(plain),
        human_text(trim_spec(trim_nul_spec(decode_utf8(plain)))),
    ensures
        decode_spec(data) == Ok::<Seq<char>, DecodeError>(
            normalize_newlines(trim_spec(trim_nul_spec(decode_utf8(plain)))),
        ),
{
}

} // verus!
