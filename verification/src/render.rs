//! Rendering between the note body's HTML, markdown, and plain text: the
//! conversions to and from markdown are outside collaborators; wrapping and
//! escaping plain text is done here.

use vstd::prelude::*;
use crate::chars::chars_to_string;
use crate::chars::str_to_chars;
use crate::chars::trim_spec;
use crate::chars::trim_chars;
use crate::model::Note;

verus! {

/// What the HTML-to-markdown converter yields for this markup: a function of
/// the input characters alone.
pub uninterp spec fn markdown_of(html: Seq<char>) -> Seq<char>;

/// Relies on html2md::parse_html: the conversion is a function of the input
/// markup alone.
#[verifier::external_body]
pub fn html_to_markdown(html: &str) -> (r: String)
    ensures
        r@ == markdown_of(html@),
{
    html2md::parse_html(html)
}

/// What the markdown renderer yields for this markdown: a function of the
/// input characters alone.
pub uninterp spec fn rendered_html_of(markdown: Seq<char>) -> Seq<char>;

/// Relies on comrak::markdown_to_html with default options: the rendering is
/// a function of the input markdown alone.
#[verifier::external_body]
fn comrak_render(markdown: &str) -> (r: String)
    ensures
        r@ == rendered_html_of(markdown@),
{
    comrak::markdown_to_html(markdown, &comrak::Options::default())
}

/// Render markdown to HTML and wrap it in a single container element.
pub fn markdown_to_html(markdown: &str) -> (r: String)
    ensures
        r@ == "<div>"@ + rendered_html_of(markdown@) + "</div>"@,
{
    let html = comrak_render(markdown);
    let mut out = String::new();
    out.append("<div>");
    out.append(html.as_str());
    out.append("</div>");
    out
}

/// The markdown rendition of one note: a level-1 heading holding the title,
/// a blank line, and the converted body with surrounding whitespace trimmed.
pub open spec fn note_markdown_spec(title: Seq<char>, body_html: Seq<char>) -> Seq<char> {
    "# "@ + title + "\n\n"@ + trim_spec(markdown_of(body_html))
}

/// Render one note to markdown: `# <title>`, a blank line, then the body
/// converted from HTML and trimmed.
pub fn note_to_markdown(note: &Note) -> (r: String)
    ensures
        r@ == note_markdown_spec(note.title@, note.body_html@),
{
    let body_md = html_to_markdown(note.body_html.as_str());
    let body_chars = str_to_chars(body_md.as_str());
    let trimmed = trim_chars(&body_chars);
    let body = chars_to_string(&trimmed);
    let mut out = String::new();
    out.append("# ");
    out.append(note.title.as_str());
    out.append("\n\n");
    out.append(body.as_str());
    out
}

/// The HTML escape of one character: the five reserved characters become
/// entities, every other character stands unchanged.
pub open spec fn escape_char(c: char) -> Seq<char> {
    if c == '&' {
        seq!['&', 'a', 'm', 'p', ';']
    } else if c == '<' {
        seq!['&', 'l', 't', ';']
    } else if c == '>' {
        seq!['&', 'g', 't', ';']
    } else if c == '"' {
        seq!['&', 'q', 'u', 'o', 't', ';']
    } else if c == '\'' {
        seq!['&', '#', '3', '9', ';']
    } else {
        seq![c]
    }
}

/// The HTML escape of a character sequence.
pub open spec fn escape_html_spec(s: Seq<char>) -> Seq<char>
    decreases s.len(),
{
    if s.len() == 0 {
        Seq::empty()
    } else {
        escape_char(s[0]) + escape_html_spec(s.drop_first())
    }
}

/// Escape the five HTML-reserved characters of a character vector.
#[verifier::loop_isolation(false)]
fn escape_chars(s: &Vec<char>) -> (r: Vec<char>)
    ensures
        r@ == escape_html_spec(s@),
{
    let mut out: Vec<char> = Vec::new();
    let mut i: usize = 0;
    proof {
        assert(s@.skip(0) =~= s@);
        assert(Seq::<char>::empty() + escape_html_spec(s@) =~= escape_html_spec(s@));
    }
    while i < s.len()
        invariant
            0 <= i <= s@.len(),
            escape_html_spec(s@) == out@ + escape_html_spec(s@.skip(i as int)),
        decreases s@.len() - i,
    {
        let ghost rest: Seq<char> = s@.skip(i as int);
        let ghost out_before: Seq<char> = out@;
        proof {
            assert(rest[0] == s@[i as int]);
            assert(rest.drop_first() =~= s@.skip(i + 1));
        }
        let c = s[i];
        if c == '&' {
            out.push('&');
            out.push('a');
            out.push('m');
            out.push('p');
            out.push(';');
        } else if c == '<' {
            out.push('&');
            out.push('l');
            out.push('t');
            out.push(';');
        } else if c == '>' {
            out.push('&');
            out.push('g');
            out.push('t');
            out.push(';');
        } else if c == '"' {
            out.push('&');
            out.push('q');
            out.push('u');
            out.push('o');
            out.push('t');
            out.push(';');
        } else if c == '\'' {
            out.push('&');
            out.push('#');
            out.push('3');
            out.push('9');
            out.push(';');
        } else {
            out.push(c);
        }
        proof {
            assert(out@ =~= out_before + escape_char(c));
            assert((out_before + escape_char(c)) + escape_html_spec(s@.skip(i + 1)) =~= out_before
                + (escape_char(c) + escape_html_spec(s@.skip(i + 1))));
        }
        i = i + 1;
    }
    proof {
        assert(s@.skip(s@.len() as int).len() == 0);
        assert(out@ + escape_html_spec(s@.skip(s@.len() as int)) =~= out@);
    }
    out
}

/// Escape the five HTML-reserved characters: `&`, `<`, `>`, `"` and `'`.
pub fn escape_html(s: &str) -> (r: String)
    ensures
        r@ == escape_html_spec(s@),
{
    let v = str_to_chars(s);
    let escaped = escape_chars(&v);
    chars_to_string(&escaped)
}

/// `line` with one trailing carriage return removed, as `str::lines` strips
/// it from a `\r\n` ending.
pub open spec fn strip_cr(line: Seq<char>) -> Seq<char> {
    if line.len() > 0 && line.last() == '\r' {
        line.drop_last()
    } else {
        line
    }
}

/// The lines of `s`, split at `\n` with a `\r` before the `\n` stripped, and
/// no final empty line after a trailing `\n` — the way `str::lines` splits.
pub open spec fn lines_from(s: Seq<char>, cur: Seq<char>) -> Seq<Seq<char>>
    decreases s.len(),
{
    if s.len() == 0 {
        if cur.len() == 0 {
            Seq::empty()
        } else {
            seq![cur]
        }
    } else if s[0] == '\n' {
        seq![strip_cr(cur)] + lines_from(s.drop_first(), Seq::empty())
    } else {
        lines_from(s.drop_first(), cur.push(s[0]))
    }
}

/// One line wrapped in a container element.
pub open spec fn div_line(line: Seq<char>) -> Seq<char> {
    "<div>"@ + escape_html_spec(line) + "</div>\n"@
}

/// All lines wrapped in container elements, in order.
pub open spec fn divs_of(lines: Seq<Seq<char>>) -> Seq<char>
    decreases lines.len(),
{
    if lines.len() == 0 {
        Seq::empty()
    } else {
        div_line(lines[0]) + divs_of(lines.drop_first())
    }
}

/// The HTML for plain text: each line escaped and wrapped in a container
/// element; empty text becomes a single empty element.
pub open spec fn text_to_html_spec(s: Seq<char>) -> Seq<char> {
    let lines = lines_from(s, Seq::empty());
    if lines.len() == 0 {
        "<div></div>\n"@
    } else {
        divs_of(lines)
    }
}

/// Splitting yields no lines exactly when both the text and the unfinished
/// line are empty.
proof fn lemma_lines_empty(s: Seq<char>, cur: Seq<char>)
    ensures
        lines_from(s, cur).len() == 0 <==> (s.len() == 0 && cur.len() == 0),
    decreases s.len(),
{
    if s.len() > 0 {
        if s[0] == '\n' {
        } else {
            lemma_lines_empty(s.drop_first(), cur.push(s[0]));
        }
    }
}

/// Wrap plain text as HTML: escape each line and wrap it in its own
/// container element; empty text becomes one empty element.
#[verifier::loop_isolation(false)]
pub fn text_to_html(text: &str) -> (r: String)
    ensures
        r@ == text_to_html_spec(text@),
{
    let v = str_to_chars(text);
    if v.len() == 0 {
        proof {
            lemma_lines_empty(text@, Seq::empty());
        }
        let mut empty_div = String::new();
        empty_div.append("<div></div>\n");
        return empty_div;
    }
    let mut out = String::new();
    let mut cur: Vec<char> = Vec::new();
    let mut i: usize = 0;
    proof {
        assert(v@.skip(0) =~= v@);
        assert(Seq::<char>::empty() + divs_of(lines_from(v@, Seq::empty())) =~= divs_of(
            lines_from(v@, Seq::empty()),
        ));
    }
    while i < v.len()
        invariant
            0 <= i <= v@.len(),
            v@ == text@,
            divs_of(lines_from(v@, Seq::empty())) == out@ + divs_of(
                lines_from(v@.skip(i as int), cur@),
            ),
        decreases v@.len() - i,
    {
        let ghost rest: Seq<char> = v@.skip(i as int);
        let ghost out_before: Seq<char> = out@;
        let ghost cur_before: Seq<char> = cur@;
        proof {
            assert(rest[0] == v@[i as int]);
            assert(rest.drop_first() =~= v@.skip(i + 1));
        }
        let c = v[i];
        if c == '\n' {
            if cur.len() > 0 && cur[cur.len() - 1] == '\r' {
                cur.pop();
                proof {
                    assert(cur@ =~= strip_cr(cur_before));
                }
            }
            proof {
                assert(cur@ =~= strip_cr(cur_before));
            }
            let escaped = escape_chars(&cur);
            let line = chars_to_string(&escaped);
            out.append("<div>");
            out.append(line.as_str());
            out.append("</div>\n");
            cur = Vec::new();
            proof {
                assert(lines_from(rest, cur_before) == seq![strip_cr(cur_before)] + lines_from(
                    v@.skip(i + 1),
                    Seq::empty(),
                ));
                assert(seq![strip_cr(cur_before)] + lines_from(v@.skip(i + 1), Seq::empty())
                    != Seq::<Seq<char>>::empty());
                let tail_lines = lines_from(v@.skip(i + 1), Seq::empty());
                assert((seq![strip_cr(cur_before)] + tail_lines)[0] == strip_cr(cur_before));
                assert((seq![strip_cr(cur_before)] + tail_lines).drop_first() =~= tail_lines);
                assert(divs_of(lines_from(rest, cur_before)) == div_line(strip_cr(cur_before))
                    + divs_of(tail_lines));
                assert(out@ =~= out_before + div_line(strip_cr(cur_before)));
                assert((out_before + div_line(strip_cr(cur_before))) + divs_of(tail_lines)
                    =~= out_before + (div_line(strip_cr(cur_before)) + divs_of(tail_lines)));
            }
        } else {
            cur.push(c);
            proof {
                assert(lines_from(rest, cur_before) == lines_from(
                    v@.skip(i + 1),
                    cur_before.push(c),
                ));
            }
        }
        i = i + 1;
    }
    let ghost cur_final: Seq<char> = cur@;
    proof {
        assert(v@.skip(v@.len() as int).len() == 0);
    }
    if cur.len() > 0 {
        let escaped = escape_chars(&cur);
        let line = chars_to_string(&escaped);
        out.append("<div>");
        out.append(line.as_str());
        out.append("</div>\n");
        proof {
            assert(lines_from(v@.skip(v@.len() as int), cur_final) =~= seq![cur_final]);
            assert(divs_of(seq![cur_final]) == div_line(seq![cur_final][0]) + divs_of(
                seq![cur_final].drop_first(),
            ));
            assert(seq![cur_final].drop_first().len() == 0);
            assert(div_line(cur_final) + Seq::<char>::empty() =~= div_line(cur_final));
            assert(out@ =~= divs_of(lines_from(v@, Seq::empty())));
        }
    } else {
        proof {
            assert(lines_from(v@.skip(v@.len() as int), cur_final) =~= Seq::<Seq<char>>::empty());
            assert(out@ + divs_of(Seq::<Seq<char>>::empty()) =~= out@);
        }
    }
    proof {
        lemma_lines_empty(v@, Seq::empty());
    }
    out
}

} // verus!
