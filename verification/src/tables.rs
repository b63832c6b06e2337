//! Listing-table helpers: shortening opaque ids for display. Drawing the
//! table itself is an outside concern.

use vstd::prelude::*;
use crate::chars::chars_to_string;
use crate::chars::str_to_chars;
use crate::chars::trim_spec;
use crate::chars::trim_chars;

verus! {

/// The display width of this text in terminal columns: a function of the
/// characters alone.
pub uninterp spec fn display_width(s: Seq<char>) -> int;

/// Relies on unicode_width::UnicodeWidthStr::width: the column width is a
/// function of the characters alone.
#[verifier::external_body]
fn text_width(s: &str) -> (r: usize)
    ensures
        r as int == display_width(s@),
{
    unicode_width::UnicodeWidthStr::width(s)
}

/// A trimmed id shortened for a table: left untouched while it is empty, at
/// most twenty-eight columns wide, or at most twenty-five characters long;
/// otherwise its first fourteen and last ten characters around an ellipsis.
pub open spec fn shortened_id_spec(id: Seq<char>) -> Seq<char> {
    let t = trim_spec(id);
    if t.len() == 0 || display_width(t) <= 28 || t.len() <= 25 {
        t
    } else {
        t.take(14) + seq!['…'] + t.skip(t.len() - 10)
    }
}

/// Shorten an opaque id for a table cell, keeping its head and tail.
pub fn shorten_id_for_table(id: &str) -> (r: String)
    ensures
        r@ == shortened_id_spec(id@),
{
    let chars = str_to_chars(id);
    let trimmed = trim_chars(&chars);
    let t = chars_to_string(&trimmed);
    if trimmed.len() == 0 {
        return t;
    }
    if text_width(t.as_str()) <= 28 {
        return t;
    }
    if trimmed.len() <= 25 {
        return t;
    }
    let mut out: Vec<char> = Vec::new();
    let mut i: usize = 0;
    while i < 14
        invariant
            0 <= i <= 14,
            trimmed@.len() > 25,
            out@ == trimmed@.take(i as int),
        decreases 14 - i,
    {
        out.push(trimmed[i]);
        assert(out@ =~= trimmed@.take(i + 1));
        i = i + 1;
    }
    out.push('…');
    let mut j: usize = trimmed.len() - 10;
    while j < trimmed.len()
        invariant
            trimmed@.len() > 25,
            trimmed@.len() - 10 <= j <= trimmed@.len(),
            out@ == trimmed@.take(14) + seq!['…'] + trimmed@.subrange(
                trimmed@.len() - 10,
                j as int,
            ),
        decreases trimmed@.len() - j,
    {
        out.push(trimmed[j]);
        proof {
            assert(out@ =~= trimmed@.take(14) + seq!['…'] + trimmed@.subrange(
                trimmed@.len() - 10,
                j + 1,
            ));
        }
        j = j + 1;
    }
    proof {
        assert(trimmed@.subrange(trimmed@.len() - 10, trimmed@.len() as int) =~= trimmed@.skip(
            trimmed@.len() - 10,
        ));
        assert(out@ =~= shortened_id_spec(id@));
    }
    chars_to_string(&out)
}

} // verus!
