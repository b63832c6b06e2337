//! Character classification and conversions between strings and character
//! vectors, shared by the decoder, the identifier codec and the renderers.

use vstd::prelude::*;

verus! {

/// The Unicode `White_Space` property, as `char::is_whitespace` documents it:
/// a fixed list of twenty-five code points.
pub open spec fn is_unicode_whitespace(c: char) -> bool {
    let u = c as u32;
    ||| u == 0x09
    ||| u == 0x0a
    ||| u == 0x0b
    ||| u == 0x0c
    ||| u == 0x0d
    ||| u == 0x20
    ||| u == 0x85
    ||| u == 0xa0
    ||| u == 0x1680
    ||| (0x2000 <= u && u <= 0x200a)
    ||| u == 0x2028
    ||| u == 0x2029
    ||| u == 0x202f
    ||| u == 0x205f
    ||| u == 0x3000
}

/// The Unicode `Cc` (control) category, as `char::is_control` documents it:
/// `U+0000..=U+001F` and `U+007F..=U+009F`.
pub open spec fn is_control_code(c: char) -> bool {
    let u = c as u32;
    u < 0x20 || (0x7f <= u && u <= 0x9f)
}

/// A control character other than newline, carriage return and tab: the
/// decoder treats these as noise and as block boundaries.
pub open spec fn is_noise_char(c: char) -> bool {
    is_control_code(c) && c != '\n' && c != '\r' && c != '\t'
}

/// Whether `c` has the `White_Space` property (the fixed code-point list from
/// the documentation of `char::is_whitespace`, checked directly).
pub fn is_whitespace_char(c: char) -> (r: bool)
    ensures
        r == is_unicode_whitespace(c),
{
    let u = c as u32;
    u == 0x09 || u == 0x0a || u == 0x0b || u == 0x0c || u == 0x0d || u == 0x20 || u == 0x85 || u
        == 0xa0 || u == 0x1680 || (0x2000 <= u && u <= 0x200a) || u == 0x2028 || u == 0x2029 || u
        == 0x202f || u == 0x205f || u == 0x3000
}

/// Whether `c` is in the Unicode `Cc` category (the two ranges from the
/// documentation of `char::is_control`, checked directly).
pub fn is_control_char(c: char) -> (r: bool)
    ensures
        r == is_control_code(c),
{
    let u = c as u32;
    u < 0x20 || (0x7f <= u && u <= 0x9f)
}

/// Whether `c` is a control character other than newline, carriage return
/// and tab.
pub fn is_noise(c: char) -> (r: bool)
    ensures
        r == is_noise_char(c),
{
    is_control_char(c) && c != '\n' && c != '\r' && c != '\t'
}

/// Whether `char::is_alphanumeric` holds of `c`. The property is a large
/// Unicode table, so it is left uninterpreted and pinned to the standard
/// library through `alnum_char`.
pub uninterp spec fn is_alnum(c: char) -> bool;

/// Relies on char::is_alphanumeric: a fixed predicate of the character alone.
#[verifier::external_body]
pub fn alnum_char(c: char) -> (r: bool)
    ensures
        r == is_alnum(c),
{
    c.is_alphanumeric()
}

/// The characters of `s`, in order, as a vector.
pub fn str_to_chars(s: &str) -> (r: Vec<char>)
    ensures
        r@ == s@,
{
    let mut out: Vec<char> = Vec::new();
    for c in it: s.chars()
        invariant
            it.seq() == s@,
            out@ == s@.take(it.index() as int),
    {
        out.push(c);
        proof {
            assert(out@ =~= s@.take(it.index() + 1));
        }
    }
    proof {
        assert(out@ =~= s@);
    }
    out
}

/// Relies on String::from_iter over a character iterator: the collected
/// string holds exactly the characters of `v`, in order.
#[verifier::external_body]
pub fn chars_to_string(v: &Vec<char>) -> (r: String)
    ensures
        r@ == v@,
{
    v.iter().collect()
}

/// `s` with leading and trailing `White_Space` characters removed.
pub open spec fn trim_spec(s: Seq<char>) -> Seq<char>
    decreases s.len(),
{
    if s.len() == 0 {
        s
    } else if is_unicode_whitespace(s[0]) {
        trim_spec(s.drop_first())
    } else if is_unicode_whitespace(s.last()) {
        trim_spec(s.drop_last())
    } else {
        s
    }
}

/// `s` with leading and trailing NUL characters removed, the way
/// `str::trim_matches('\0')` strips them.
pub open spec fn trim_nul_spec(s: Seq<char>) -> Seq<char>
    decreases s.len(),
{
    if s.len() == 0 {
        s
    } else if s[0] == '\u{0}' {
        trim_nul_spec(s.drop_first())
    } else if s.last() == '\u{0}' {
        trim_nul_spec(s.drop_last())
    } else {
        s
    }
}

/// Strip leading and trailing whitespace characters.
pub fn trim_chars(s: &Vec<char>) -> (r: Vec<char>)
    ensures
        r@ == trim_spec(s@),
{
    let mut lo: usize = 0;
    let mut hi: usize = s.len();
    proof {
        assert(s@.subrange(0, s@.len() as int) =~= s@);
    }
    while lo < hi
        invariant
            0 <= lo <= hi <= s@.len(),
            trim_spec(s@) == trim_spec(s@.subrange(lo as int, hi as int)),
        ensures
            0 <= lo <= hi <= s@.len(),
            trim_spec(s@) == trim_spec(s@.subrange(lo as int, hi as int)),
            lo < hi ==> !is_unicode_whitespace(s@[lo as int]) && !is_unicode_whitespace(
                s@[hi - 1],
            ),
        decreases hi - lo,
    {
        if is_whitespace_char(s[lo]) {
            proof {
                let seg = s@.subrange(lo as int, hi as int);
                assert(seg.drop_first() =~= s@.subrange(lo + 1, hi as int));
            }
            lo = lo + 1;
        } else if is_whitespace_char(s[hi - 1]) {
            proof {
                let seg = s@.subrange(lo as int, hi as int);
                assert(seg.last() == s@[hi - 1]);
                assert(seg.drop_last() =~= s@.subrange(lo as int, hi - 1));
            }
            hi = hi - 1;
        } else {
            break;
        }
    }
    let mut r: Vec<char> = Vec::new();
    let mut i: usize = lo;
    while i < hi
        invariant
            lo <= i <= hi <= s@.len(),
            r@ == s@.subrange(lo as int, i as int),
        decreases hi - i,
    {
        r.push(s[i]);
        assert(r@ =~= s@.subrange(lo as int, i + 1 as int));
        i = i + 1;
    }
    proof {
        let seg = s@.subrange(lo as int, hi as int);
        if lo < hi {
            assert(trim_spec(seg) == seg);
        } else {
            assert(seg =~= Seq::<char>::empty());
            assert(trim_spec(seg) == seg);
        }
        assert(r@ =~= seg);
    }
    r
}

/// Strip leading and trailing NUL characters.
pub fn trim_nul_chars(s: &Vec<char>) -> (r: Vec<char>)
    ensures
        r@ == trim_nul_spec(s@),
{
    let mut lo: usize = 0;
    let mut hi: usize = s.len();
    proof {
        assert(s@.subrange(0, s@.len() as int) =~= s@);
    }
    while lo < hi
        invariant
            0 <= lo <= hi <= s@.len(),
            trim_nul_spec(s@) == trim_nul_spec(s@.subrange(lo as int, hi as int)),
        ensures
            0 <= lo <= hi <= s@.len(),
            trim_nul_spec(s@) == trim_nul_spec(s@.subrange(lo as int, hi as int)),
            lo < hi ==> s@[lo as int] != '\u{0}' && s@[hi - 1] != '\u{0}',
        decreases hi - lo,
    {
        if s[lo] == '\u{0}' {
            proof {
                let seg = s@.subrange(lo as int, hi as int);
                assert(seg.drop_first() =~= s@.subrange(lo + 1, hi as int));
            }
            lo = lo + 1;
        } else if s[hi - 1] == '\u{0}' {
            proof {
                let seg = s@.subrange(lo as int, hi as int);
                assert(seg.last() == s@[hi - 1]);
                assert(seg.drop_last() =~= s@.subrange(lo as int, hi - 1));
            }
            hi = hi - 1;
        } else {
            break;
        }
    }
    let mut r: Vec<char> = Vec::new();
    let mut i: usize = lo;
    while i < hi
        invariant
            lo <= i <= hi <= s@.len(),
            r@ == s@.subrange(lo as int, i as int),
        decreases hi - i,
    {
        r.push(s[i]);
        assert(r@ =~= s@.subrange(lo as int, i + 1 as int));
        i = i + 1;
    }
    proof {
        let seg = s@.subrange(lo as int, hi as int);
        if lo < hi {
            assert(trim_nul_spec(seg) == seg);
        } else {
            assert(seg =~= Seq::<char>::empty());
            assert(trim_nul_spec(seg) == seg);
        }
        assert(r@ =~= seg);
    }
    r
}

/// The parts joined with `sep` between consecutive parts.
pub open spec fn join_with(parts: Seq<Seq<char>>, sep: Seq<char>) -> Seq<char>
    decreases parts.len(),
{
    if parts.len() == 0 {
        Seq::empty()
    } else if parts.len() == 1 {
        parts[0]
    } else {
        join_with(parts.drop_last(), sep) + sep + parts.last()
    }
}

/// Join the strings of `parts` with the separator `sep`.
pub fn join_strings(parts: &Vec<String>, sep: &str) -> (r: String)
    ensures
        r@ == join_with(parts.deep_view(), sep@),
{
    let mut out = String::new();
    let mut i: usize = 0;
    while i < parts.len()
        invariant
            i <= parts@.len(),
            out@ == join_with(parts.deep_view().take(i as int), sep@),
        decreases parts@.len() - i,
    {
        if i > 0 {
            out.append(sep);
        }
        out.append(parts[i].as_str());
        proof {
            let dv = parts.deep_view();
            assert(dv[i as int] == parts@[i as int]@);
            assert(dv.take(i + 1).drop_last() =~= dv.take(i as int));
            assert(dv.take(i + 1).last() == dv[i as int]);
            assert(out@ == join_with(dv.take(i + 1), sep@));
        }
        i = i + 1;
    }
    proof {
        assert(parts.deep_view().take(parts@.len() as int) =~= parts.deep_view());
    }
    out
}

/// Whether two string slices hold the same characters.
pub fn str_eq(a: &str, b: &str) -> (r: bool)
    ensures
        r == (a@ == b@),
{
    let va = str_to_chars(a);
    let vb = str_to_chars(b);
    if va.len() != vb.len() {
        return false;
    }
    let mut i: usize = 0;
    while i < va.len()
        invariant
            0 <= i <= va@.len(),
            va@.len() == vb@.len(),
            va@ == a@,
            vb@ == b@,
            forall|j: int| 0 <= j < i ==> va@[j] == vb@[j],
        decreases va@.len() - i,
    {
        if va[i] != vb[i] {
            return false;
        }
        i = i + 1;
    }
    proof {
        assert(a@ =~= b@);
    }
    true
}

/// Lexicographic order on character sequences, by code point: the standard
/// library's byte order on UTF-8 strings agrees with it.
pub open spec fn chars_le(a: Seq<char>, b: Seq<char>) -> bool
    decreases a.len(),
{
    if a.len() == 0 {
        true
    } else if b.len() == 0 {
        false
    } else if a[0] == b[0] {
        chars_le(a.drop_first(), b.drop_first())
    } else {
        (a[0] as u32) < (b[0] as u32)
    }
}

/// The order is total: of any two sequences, one is less than or equal to
/// the other.
pub proof fn lemma_chars_le_total(a: Seq<char>, b: Seq<char>)
    ensures
        chars_le(a, b) || chars_le(b, a),
    decreases a.len(),
{
    if a.len() == 0 || b.len() == 0 {
    } else if a[0] == b[0] {
        lemma_chars_le_total(a.drop_first(), b.drop_first());
    } else {
        assert((a[0] as u32) != (b[0] as u32)) by {
            vstd::utf8::char_u32_cast(a[0], a[0] as u32);
            vstd::utf8::char_u32_cast(b[0], b[0] as u32);
        }
    }
}

/// Whether `a` is lexicographically at most `b`.
#[verifier::loop_isolation(false)]
pub fn chars_le_exec(a: &Vec<char>, b: &Vec<char>) -> (r: bool)
    ensures
        r == chars_le(a@, b@),
{
    let mut i: usize = 0;
    proof {
        assert(a@.skip(0) =~= a@);
        assert(b@.skip(0) =~= b@);
    }
    loop
        invariant
            0 <= i <= a@.len(),
            i <= b@.len(),
            chars_le(a@, b@) == chars_le(a@.skip(i as int), b@.skip(i as int)),
        decreases a@.len() - i,
    {
        proof {
            if i < a@.len() && i < b@.len() {
                assert(a@.skip(i as int)[0] == a@[i as int]);
                assert(b@.skip(i as int)[0] == b@[i as int]);
                assert(a@.skip(i as int).drop_first() =~= a@.skip(i + 1));
                assert(b@.skip(i as int).drop_first() =~= b@.skip(i + 1));
            }
        }
        if i == a.len() {
            return true;
        }
        if i == b.len() {
            return false;
        }
        if a[i] != b[i] {
            return (a[i] as u32) < (b[i] as u32);
        }
        i = i + 1;
    }
}

/// Whether the characters of `a` are lexicographically at most those of `b`.
pub fn str_le(a: &str, b: &str) -> (r: bool)
    ensures
        r == chars_le(a@, b@),
{
    let va = str_to_chars(a);
    let vb = str_to_chars(b);
    chars_le_exec(&va, &vb)
}

} // verus!
