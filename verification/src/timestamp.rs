//! Timestamps: the fallback chain across raw date columns, the shift from
//! the proprietary store's reference instant to the Unix epoch, and
//! formatting an absolute instant as RFC 3339 text. All values are plain
//! milliseconds.

use vstd::prelude::*;

verus! {

/// The Unix-epoch millisecond value of the store's reference instant
/// (2001-01-01T00:00:00Z).
pub const REFERENCE_EPOCH_UNIX_MS: i64 = 978_307_200_000;

/// The creation instant: the last candidate column wins, absent columns fall
/// through, and a record with no candidate at all reads as the reference
/// instant itself (zero offset).
pub open spec fn created_spec(c1: Option<i64>, c2: Option<i64>, c3: Option<i64>) -> i64 {
    if c3 is Some {
        c3->0
    } else if c2 is Some {
        c2->0
    } else if c1 is Some {
        c1->0
    } else {
        0
    }
}

/// The modification instant: the primary column, then the import-time
/// column, then the creation instant.
pub open spec fn modified_spec(m1: Option<i64>, m2: Option<i64>, created: i64) -> i64 {
    if m1 is Some {
        m1->0
    } else if m2 is Some {
        m2->0
    } else {
        created
    }
}

/// Resolve the creation and modification offsets (milliseconds relative to
/// the reference instant) from the raw candidate columns.
pub fn resolve_note_dates(
    c1: Option<i64>,
    c2: Option<i64>,
    c3: Option<i64>,
    m1: Option<i64>,
    m2: Option<i64>,
) -> (r: (i64, i64))
    ensures
        r.0 == created_spec(c1, c2, c3),
        r.1 == modified_spec(m1, m2, created_spec(c1, c2, c3)),
{
    let created = match c3 {
        Some(v) => v,
        None => match c2 {
            Some(v) => v,
            None => match c1 {
                Some(v) => v,
                None => 0,
            },
        },
    };
    let modified = match m1 {
        Some(v) => v,
        None => match m2 {
            Some(v) => v,
            None => created,
        },
    };
    (created, modified)
}

/// Convert an offset in milliseconds relative to the reference instant into
/// milliseconds since the Unix epoch.
pub fn reference_offset_to_unix_ms(offset_ms: i64) -> (r: i64)
    requires
        offset_ms <= i64::MAX - REFERENCE_EPOCH_UNIX_MS,
    ensures
        r == offset_ms + REFERENCE_EPOCH_UNIX_MS,
{
    offset_ms + REFERENCE_EPOCH_UNIX_MS
}

/// The RFC 3339 rendition of a Unix-epoch millisecond instant, or nothing
/// where the instant has no four-digit-year rendition.
pub uninterp spec fn rfc3339_of(unix_ms: i64) -> Option<Seq<char>>;

/// Relies on time::OffsetDateTime::from_unix_timestamp_nanos and formatting
/// with time's well-known Rfc3339 description: the text is a function of the
/// instant alone, and formatting succeeds for every instant whose year has
/// four digits (time rejects years outside 0..=9999).
#[verifier::external_body]
pub fn format_rfc3339(unix_ms: i64) -> (r: Option<String>)
    ensures
        match rfc3339_of(unix_ms) {
            Some(t) => r is Some && r->0@ == t,
            None => r is None,
        },
        -62_167_219_200_000 <= unix_ms <= 253_402_300_799_999 ==> r is Some,
{
    let nanos = (unix_ms as i128) * 1_000_000;
    let dt = match time::OffsetDateTime::from_unix_timestamp_nanos(nanos) {
        Ok(dt) => dt,
        Err(_) => return None,
    };
    match dt.format(&time::format_description::well_known::Rfc3339) {
        Ok(s) => Some(s),
        Err(_) => None,
    }
}

} // verus!
