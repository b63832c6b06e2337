//! Opaque record identifiers of the shape `scheme://<store-uuid>/<Entity>/p<pk>`:
//! extracting the numeric primary key from the trailing segment.

use vstd::prelude::*;

verus! {

/// Why parsing an opaque identifier failed.
#[derive(Debug, Clone, Copy, PartialEq, Eq, Structural)]
pub enum IdError {
    /// The identifier holds no `/` path separator at all.
    MissingSeparator,
    /// The trailing segment does not start with `p`.
    MissingPrefix,
    /// The characters after `p` are not a valid signed 64-bit number.
    InvalidNumber,
}

/// The segment of `s` after the last `/` (all of `s` if it has no `/`).
pub open spec fn last_segment(s: Seq<char>) -> Seq<char>
    decreases s.len(),
{
    if s.len() == 0 {
        s
    } else if s.last() == '/' {
        Seq::empty()
    } else {
        last_segment(s.drop_last()).push(s.last())
    }
}

pub open spec fn is_dec_digit(c: char) -> bool {
    0x30 <= c as u32 && c as u32 <= 0x39
}

pub open spec fn dec_digit_value(c: char) -> int {
    c as u32 - 0x30
}

/// All characters are decimal digits.
pub open spec fn all_dec_digits(s: Seq<char>) -> bool {
    forall|i: int| 0 <= i < s.len() ==> is_dec_digit(#[trigger] s[i])
}

/// The unbounded integer denoted by a digit string (most significant first).
pub open spec fn digits_value(s: Seq<char>) -> int
    decreases s.len(),
{
    if s.len() == 0 {
        0
    } else {
        digits_value(s.drop_last()) * 10 + dec_digit_value(s.last())
    }
}

/// A digit accumulator capped at `i64::MAX + 2`, mirroring the executable loop.
pub open spec fn capped_digits_value(s: Seq<char>) -> int
    decreases s.len(),
{
    let cap: int = 0x7fff_ffff_ffff_ffff as int + 2;
    if s.len() == 0 {
        0
    } else {
        let v: int = capped_digits_value(s.drop_last()) * 10 + dec_digit_value(s.last());
        if v > cap {
            cap
        } else {
            v
        }
    }
}

/// What `str::parse::<i64>` accepts: an optional sign, then one or more
/// digits, denoting a value in the range of `i64`.
pub open spec fn parse_i64_spec(s: Seq<char>) -> Option<int> {
    let has_sign = s.len() > 0 && (s[0] == '+' || s[0] == '-');
    let digits = if has_sign {
        s.drop_first()
    } else {
        s
    };
    if digits.len() == 0 || !all_dec_digits(digits) {
        None
    } else {
        let magnitude = digits_value(digits);
        let value = if has_sign && s[0] == '-' {
            -magnitude
        } else {
            magnitude
        };
        if i64::MIN <= value <= i64::MAX {
            Some(value)
        } else {
            None
        }
    }
}

/// The primary key encoded in an opaque identifier: the id must hold a `/`
/// path separator, and the trailing segment must be `p` followed by a signed
/// decimal number that fits in an `i64`.
pub open spec fn coredata_pk_spec(s: Seq<char>) -> Option<int> {
    let seg = last_segment(s);
    if !s.contains('/') {
        None
    } else if seg.len() == 0 || seg[0] != 'p' {
        None
    } else {
        parse_i64_spec(seg.drop_first())
    }
}

/// Which format error a malformed identifier carries: no separator at all,
/// then a trailing segment without the `p` marker, then a bad number.
pub open spec fn id_error_spec(s: Seq<char>) -> IdError {
    if !s.contains('/') {
        IdError::MissingSeparator
    } else if last_segment(s).len() == 0 || last_segment(s)[0] != 'p' {
        IdError::MissingPrefix
    } else {
        IdError::InvalidNumber
    }
}

/// Whether the characters hold a `/` path separator.
fn contains_slash(v: &Vec<char>) -> (r: bool)
    ensures
        r == v@.contains('/'),
{
    let mut i: usize = 0;
    while i < v.len()
        invariant
            0 <= i <= v@.len(),
            forall|j: int| 0 <= j < i ==> v@[j] != '/',
        decreases v@.len() - i,
    {
        if v[i] == '/' {
            proof {
                assert(v@[i as int] == '/');
            }
            return true;
        }
        i = i + 1;
    }
    proof {
        if v@.contains('/') {
            let j = choose|j: int| 0 <= j < v@.len() && v@[j] == '/';
            assert(v@[j] != '/');
        }
    }
    false
}

proof fn lemma_capped_is_min(s: Seq<char>)
    requires
        all_dec_digits(s),
    ensures
        digits_value(s) >= 0,
        capped_digits_value(s) == if digits_value(s) > 0x7fff_ffff_ffff_ffff as int + 2 {
            0x7fff_ffff_ffff_ffff as int + 2
        } else {
            digits_value(s)
        },
    decreases s.len(),
{
    let cap: int = 0x7fff_ffff_ffff_ffff as int + 2;
    if s.len() > 0 {
        assert(all_dec_digits(s.drop_last())) by {
            assert forall|i: int| 0 <= i < s.drop_last().len() implies is_dec_digit(
                #[trigger] s.drop_last()[i],
            ) by {
                assert(s.drop_last()[i] == s[i]);
            }
        }
        lemma_capped_is_min(s.drop_last());
        assert(is_dec_digit(s.last()));
        assert(0 <= dec_digit_value(s.last()) <= 9);
        if digits_value(s.drop_last()) > cap {
            assert(digits_value(s) > cap);
            assert(capped_digits_value(s) == cap);
        }
    }
}

proof fn lemma_capped_step(prefix: Seq<char>, c: char)
    ensures
        capped_digits_value(prefix.push(c)) == ({
            let cap: int = 0x7fff_ffff_ffff_ffff as int + 2;
            let v: int = capped_digits_value(prefix) * 10 + dec_digit_value(c);
            if v > cap {
                cap
            } else {
                v
            }
        }),
{
    assert(prefix.push(c).drop_last() =~= prefix);
    assert(prefix.push(c).last() == c);
    assert(prefix.push(c).len() == prefix.len() + 1);
}

/// The characters of `s` after the last `/`, as a vector.
pub(crate) fn tail_after_last_slash(s: &Vec<char>) -> (r: Vec<char>)
    ensures
        r@ == last_segment(s@),
{
    let mut start: usize = s.len();
    loop
        invariant
            start <= s.len(),
            forall|j: int| start <= j < s@.len() ==> s@[j] != '/',
        ensures
            start <= s.len(),
            forall|j: int| start <= j < s@.len() ==> s@[j] != '/',
            start > 0 ==> s@[start - 1] == '/',
        decreases start,
    {
        if start == 0 {
            break;
        }
        if s[start - 1] == '/' {
            break;
        }
        start = start - 1;
    }
    proof {
        lemma_last_segment_from(s@, start as int);
    }
    let mut r: Vec<char> = Vec::new();
    let mut i: usize = start;
    while i < s.len()
        invariant
            start <= i <= s@.len(),
            r@ == s@.subrange(start as int, i as int),
        decreases s@.len() - i,
    {
        r.push(s[i]);
        assert(r@ == s@.subrange(start as int, i + 1 as int));
        i = i + 1;
    }
    proof {
        assert(r@ == s@.subrange(start as int, s@.len() as int));
    }
    r
}

/// After the last `/` (at `start - 1`, or `start == 0` with no `/` after it),
/// the segment is exactly the remaining suffix.
proof fn lemma_last_segment_from(s: Seq<char>, start: int)
    requires
        0 <= start <= s.len(),
        start > 0 ==> s[start - 1] == '/',
        forall|j: int| start <= j < s.len() ==> s[j] != '/',
    ensures
        last_segment(s) == s.subrange(start, s.len() as int),
    decreases s.len(),
{
    if s.len() == 0 {
        assert(last_segment(s) =~= s.subrange(start, s.len() as int));
    } else if s.last() == '/' {
        assert(start == s.len());
        assert(last_segment(s) =~= s.subrange(start, s.len() as int));
    } else {
        lemma_last_segment_from(s.drop_last(), start);
        assert(s.drop_last().subrange(start, s.len() - 1) == s.subrange(start, s.len() - 1));
        assert(last_segment(s) =~= s.subrange(start, s.len() as int));
    }
}

/// Parse a signed decimal number as `str::parse::<i64>` would.
#[verifier::loop_isolation(false)]
fn parse_i64_chars(s: &Vec<char>) -> (r: Option<i64>)
    ensures
        r is Some <==> parse_i64_spec(s@) is Some,
        r is Some ==> r->0 as int == parse_i64_spec(s@)->0,
{
    let cap: i128 = 0x8000_0000_0000_0001;
    let mut start: usize = 0;
    let mut negative: bool = false;
    if s.len() > 0 && (s[0] == '+' || s[0] == '-') {
        negative = s[0] == '-';
        start = 1;
    }
    if s.len() == start {
        return None;
    }
    let ghost digits: Seq<char> = if start == 1 {
        s@.drop_first()
    } else {
        s@
    };
    let mut acc: i128 = 0;
    let mut i: usize = start;
    while i < s.len()
        invariant
            start <= i <= s@.len(),
            start == 0 || start == 1,
            digits == if start == 1 {
                s@.drop_first()
            } else {
                s@
            },
            0 <= acc <= 0x8000_0000_0000_0001i128,
            acc as int == capped_digits_value(digits.take(i - start)),
            all_dec_digits(digits.take(i - start)),
        decreases s@.len() - i,
    {
        let c = s[i];
        let code: u32 = c as u32;
        if !(0x30 <= code && code <= 0x39) {
            proof {
                assert(digits[i - start] == c);
                assert(!is_dec_digit(c));
                assert(!all_dec_digits(digits));
            }
            return None;
        }
        let d: i128 = (code as i128) - 0x30i128;
        let next: i128 = acc * 10 + d;
        acc = if next > cap {
            cap
        } else {
            next
        };
        proof {
            let prefix: Seq<char> = digits.take(i - start);
            let extended: Seq<char> = digits.take(i + 1 - start);
            assert(digits[i - start] == c);
            assert(extended =~= prefix.push(c));
            lemma_capped_step(prefix, c);
            assert(dec_digit_value(c) == d as int);
            assert(capped_digits_value(extended) == acc as int);
            assert forall|j: int| 0 <= j < extended.len() implies is_dec_digit(
                #[trigger] extended[j],
            ) by {
                if j < prefix.len() {
                    assert(extended[j] == prefix[j]);
                } else {
                    assert(extended[j] == c);
                }
            }
        }
        i = i + 1;
    }
    proof {
        assert(digits.take(s@.len() - start) =~= digits);
        lemma_capped_is_min(digits);
    }
    if negative {
        if acc > 0x8000_0000_0000_0000i128 {
            return None;
        }
        Some((-acc) as i64)
    } else {
        if acc > 0x7fff_ffff_ffff_ffffi128 {
            return None;
        }
        Some(acc as i64)
    }
}

/// Extract the numeric primary key from an opaque identifier given as
/// characters: the id must hold a path separator and its trailing segment
/// must be `p<number>`.
pub fn parse_coredata_pk_chars(id: &Vec<char>) -> (r: Result<i64, IdError>)
    ensures
        r is Ok <==> coredata_pk_spec(id@) is Some,
        r is Ok ==> r->Ok_0 as int == coredata_pk_spec(id@)->0,
        r is Err ==> r->Err_0 == id_error_spec(id@),
{
    if !contains_slash(id) {
        return Err(IdError::MissingSeparator);
    }
    let tail = tail_after_last_slash(id);
    if tail.len() == 0 {
        return Err(IdError::MissingPrefix);
    }
    if tail[0] != 'p' {
        return Err(IdError::MissingPrefix);
    }
    let mut digits: Vec<char> = Vec::new();
    let mut i: usize = 1;
    while i < tail.len()
        invariant
            1 <= i <= tail@.len(),
            digits@ == tail@.subrange(1, i as int),
        decreases tail@.len() - i,
    {
        digits.push(tail[i]);
        assert(digits@ == tail@.subrange(1, i + 1 as int));
        i = i + 1;
    }
    proof {
        assert(digits@ =~= tail@.drop_first());
    }
    match parse_i64_chars(&digits) {
        Some(v) => Ok(v),
        None => Err(IdError::InvalidNumber),
    }
}

/// Extract the numeric primary key from an opaque identifier of the shape
/// `scheme://<store-uuid>/<Entity>/p<pk>`: the id must hold a `/` path
/// separator, and the trailing segment must be `p` followed by a signed
/// decimal number that fits in an `i64`.
pub fn parse_coredata_pk(coredata_id: &str) -> (r: Result<i64, IdError>)
    ensures
        r is Ok <==> coredata_pk_spec(coredata_id@) is Some,
        r is Ok ==> r->Ok_0 as int == coredata_pk_spec(coredata_id@)->0,
        r is Err ==> r->Err_0 == id_error_spec(coredata_id@),
{
    let chars = crate::chars::str_to_chars(coredata_id);
    parse_coredata_pk_chars(&chars)
}

} // verus!
