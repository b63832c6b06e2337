//! A small JSON emitter for the metadata sidecar: string escaping and the
//! pretty-printed object layout, two-space indented.

use vstd::prelude::*;
use crate::chars::str_to_chars;
use crate::chars::chars_to_string;

verus! {

/// The lowercase hex digit for a value below sixteen.
pub open spec fn hex_digit(d: int) -> char {
    if d < 10 {
        (0x30 + d) as char
    } else {
        (0x57 + d) as char
    }
}

/// The JSON escape of one character: quote and backslash are escaped, the
/// short control escapes are used where they exist, other control characters
/// become `\u00XX`, and everything else stands unchanged.
pub open spec fn json_escape_char(c: char) -> Seq<char> {
    if c == '"' {
        seq!['\\', '"']
    } else if c == '\\' {
        seq!['\\', '\\']
    } else if c == '\u{8}' {
        seq!['\\', 'b']
    } else if c == '\u{c}' {
        seq!['\\', 'f']
    } else if c == '\n' {
        seq!['\\', 'n']
    } else if c == '\r' {
        seq!['\\', 'r']
    } else if c == '\t' {
        seq!['\\', 't']
    } else if (c as u32) < 0x20 {
        seq!['\\', 'u', '0', '0', hex_digit(c as u32 as int / 16), hex_digit(c as u32 as int % 16)]
    } else {
        seq![c]
    }
}

/// The JSON escape of a character sequence.
pub open spec fn json_escape_spec(s: Seq<char>) -> Seq<char>
    decreases s.len(),
{
    if s.len() == 0 {
        Seq::empty()
    } else {
        json_escape_char(s[0]) + json_escape_spec(s.drop_first())
    }
}

/// A JSON string literal: the escaped characters between double quotes.
pub open spec fn json_string_spec(s: Seq<char>) -> Seq<char> {
    seq!['"'] + json_escape_spec(s) + seq!['"']
}

/// The lowercase hex digit character for `d < 16`.
fn hex_digit_char(d: u32) -> (r: char)
    requires
        d < 16,
    ensures
        r == hex_digit(d as int),
{
    if d < 10 {
        (0x30u8 + d as u8) as char
    } else {
        (0x57u8 + d as u8) as char
    }
}

/// Escape the characters of a JSON string body.
#[verifier::loop_isolation(false)]
fn json_escape_chars(s: &Vec<char>) -> (r: Vec<char>)
    ensures
        r@ == json_escape_spec(s@),
{
    let mut out: Vec<char> = Vec::new();
    let mut i: usize = 0;
    proof {
        assert(s@.skip(0) =~= s@);
        assert(Seq::<char>::empty() + json_escape_spec(s@) =~= json_escape_spec(s@));
    }
    while i < s.len()
        invariant
            0 <= i <= s@.len(),
            json_escape_spec(s@) == out@ + json_escape_spec(s@.skip(i as int)),
        decreases s@.len() - i,
    {
        let ghost rest: Seq<char> = s@.skip(i as int);
        let ghost out_before: Seq<char> = out@;
        proof {
            assert(rest[0] == s@[i as int]);
            assert(rest.drop_first() =~= s@.skip(i + 1));
        }
        let c = s[i];
        if c == '"' {
            out.push('\\');
            out.push('"');
        } else if c == '\\' {
            out.push('\\');
            out.push('\\');
        } else if c == '\u{8}' {
            out.push('\\');
            out.push('b');
        } else if c == '\u{c}' {
            out.push('\\');
            out.push('f');
        } else if c == '\n' {
            out.push('\\');
            out.push('n');
        } else if c == '\r' {
            out.push('\\');
            out.push('r');
        } else if c == '\t' {
            out.push('\\');
            out.push('t');
        } else if (c as u32) < 0x20 {
            let u = c as u32;
            out.push('\\');
            out.push('u');
            out.push('0');
            out.push('0');
            out.push(hex_digit_char(u / 16));
            out.push(hex_digit_char(u % 16));
        } else {
            out.push(c);
        }
        proof {
            assert(out@ =~= out_before + json_escape_char(c));
            assert((out_before + json_escape_char(c)) + json_escape_spec(s@.skip(i + 1))
                =~= out_before + (json_escape_char(c) + json_escape_spec(s@.skip(i + 1))));
        }
        i = i + 1;
    }
    proof {
        assert(s@.skip(s@.len() as int).len() == 0);
        assert(out@ + json_escape_spec(s@.skip(s@.len() as int)) =~= out@);
    }
    out
}

/// Emit a JSON string literal for `s`.
pub fn json_string(s: &str) -> (r: String)
    ensures
        r@ == json_string_spec(s@),
{
    let v = str_to_chars(s);
    let escaped = json_escape_chars(&v);
    let body = chars_to_string(&escaped);
    let mut out = String::new();
    out.append("\"");
    out.append(body.as_str());
    out.append("\"");
    proof {
        reveal_strlit("\"");
        assert(out@ =~= json_string_spec(s@));
    }
    out
}

/// The element lines of a pretty-printed string array at two levels of
/// indentation: each element on its own line, all but the last followed by a
/// comma.
pub open spec fn array_items_spec(items: Seq<Seq<char>>) -> Seq<char>
    decreases items.len(),
{
    if items.len() == 0 {
        Seq::empty()
    } else if items.len() == 1 {
        "    "@ + json_string_spec(items[0]) + "\n"@
    } else {
        "    "@ + json_string_spec(items[0]) + ",\n"@ + array_items_spec(items.drop_first())
    }
}

/// A pretty-printed JSON array of strings as a field value at one level of
/// indentation: `[]` when empty, otherwise one element per line.
pub open spec fn json_string_array_spec(items: Seq<Seq<char>>) -> Seq<char> {
    if items.len() == 0 {
        "[]"@
    } else {
        "[\n"@ + array_items_spec(items) + "  ]"@
    }
}

/// Emit a pretty-printed JSON array of strings at one level of indentation.
#[verifier::loop_isolation(false)]
pub fn json_string_array(items: &Vec<String>) -> (r: String)
    ensures
        r@ == json_string_array_spec(items.deep_view()),
{
    if items.len() == 0 {
        let mut out = String::new();
        out.append("[]");
        return out;
    }
    let ghost dv: Seq<Seq<char>> = items.deep_view();
    let mut out = String::new();
    out.append("[\n");
    let mut i: usize = 0;
    proof {
        assert(dv.skip(0) =~= dv);
    }
    while i < items.len()
        invariant
            0 <= i <= items@.len(),
            out@ + array_items_spec(dv.skip(i as int)) == "[\n"@ + array_items_spec(dv),
        decreases items@.len() - i,
    {
        let ghost rest: Seq<Seq<char>> = dv.skip(i as int);
        let ghost out_before: Seq<char> = out@;
        proof {
            assert(rest[0] == dv[i as int]);
            assert(dv[i as int] == items@[i as int]@);
            assert(rest.drop_first() =~= dv.skip(i + 1));
        }
        out.append("    ");
        let js = json_string(items[i].as_str());
        out.append(js.as_str());
        if i + 1 < items.len() {
            out.append(",\n");
            proof {
                assert(rest.len() >= 2);
                assert(array_items_spec(rest) == "    "@ + json_string_spec(rest[0]) + ",\n"@
                    + array_items_spec(rest.drop_first()));
                assert(out@ =~= out_before + ("    "@ + json_string_spec(rest[0]) + ",\n"@));
                assert(out@ + array_items_spec(dv.skip(i + 1)) =~= out_before + array_items_spec(
                    rest,
                ));
            }
        } else {
            out.append("\n");
            proof {
                assert(rest.len() == 1);
                assert(array_items_spec(rest) == "    "@ + json_string_spec(rest[0]) + "\n"@);
                assert(out@ =~= out_before + ("    "@ + json_string_spec(rest[0]) + "\n"@));
                assert(dv.skip(i + 1).len() == 0);
                assert(array_items_spec(dv.skip(i + 1)) == Seq::<char>::empty());
                assert(out@ + array_items_spec(dv.skip(i + 1)) =~= out_before + array_items_spec(
                    rest,
                ));
            }
        }
        i = i + 1;
    }
    proof {
        assert(dv.skip(dv.len() as int).len() == 0);
        assert(out@ + array_items_spec(dv.skip(dv.len() as int)) =~= out@);
    }
    out.append("  ]");
    proof {
        assert(out@ =~= json_string_array_spec(dv));
    }
    out
}

} // verus!
