//! The automation-bridge side of the data source: the streamed listing's
//! tab-separated records, the prefixed log lines the bridge emits, and the
//! resolution of a folder path to a single folder id. Running the bridge
//! itself is the runner's concern.

use vstd::prelude::*;
use crate::chars::chars_to_string;
use crate::chars::str_to_chars;
use crate::chars::trim_spec;
use crate::chars::trim_chars;
use crate::chars::is_unicode_whitespace;
use crate::chars::is_whitespace_char;
use crate::db::NotesDb;
use crate::model::NoteSummary;
use crate::render::lines_from;

verus! {

/// The bridge backend: every call runs the system automation tool, so the
/// value itself carries nothing.
#[derive(Debug, Clone, Copy, Default, PartialEq, Eq, Structural)]
pub struct OsascriptBackend;

/// The mixed backend: reads come from the store file, writes go through the
/// automation bridge.
#[derive(Debug, Clone, PartialEq, Eq)]
pub struct HybridBackend {
    pub db: NotesDb,
    pub osascript: OsascriptBackend,
}

impl HybridBackend {
    /// A mixed backend over this store handle.
    pub fn new(db: NotesDb) -> (r: HybridBackend)
        ensures
            r.db == db,
    {
        HybridBackend { db, osascript: OsascriptBackend }
    }
}

/// The log-line marker the bridge prefixes to streamed records.
pub open spec fn log_marker() -> Seq<char> {
    seq!['l', 'o', 'g', ':']
}

/// The first position at or after `k` where the log marker occurs.
pub open spec fn find_log_marker(s: Seq<char>, k: int) -> Option<int>
    decreases s.len() - k
        when 0 <= k <= s.len()
{
    if k + 4 > s.len() {
        None
    } else if s.subrange(k, k + 4) == log_marker() {
        Some(k)
    } else {
        find_log_marker(s, k + 1)
    }
}

/// The payload of one streamed log line: everything after the first log
/// marker, trimmed — or the whole line trimmed where no marker occurs.
pub open spec fn log_payload_spec(line: Seq<char>) -> Seq<char> {
    match find_log_marker(line, 0) {
        Some(k) => trim_spec(line.skip(k + 4)),
        None => trim_spec(line),
    }
}

impl OsascriptBackend {
    /// Strip the log prefix that some environments put before streamed
    /// records, and surrounding whitespace.
    #[verifier::loop_isolation(false)]
    pub fn extract_osascript_log_payload(line: &str) -> (r: String)
        ensures
            r@ == log_payload_spec(line@),
    {
        let v = str_to_chars(line);
        if v.len() >= 4 {
            let last_start: usize = v.len() - 4;
            let mut k: usize = 0;
            while k <= last_start
                invariant
                    0 <= k <= last_start + 1,
                    v@.len() >= 4,
                    last_start == v@.len() - 4,
                    find_log_marker(v@, 0) == find_log_marker(v@, k as int),
                decreases last_start + 1 - k,
            {
                if v[k] == 'l' && v[k + 1] == 'o' && v[k + 2] == 'g' && v[k + 3] == ':' {
                    proof {
                        assert(v@.subrange(k as int, k + 4) =~= log_marker());
                    }
                    let mut tail: Vec<char> = Vec::new();
                    let mut i: usize = k + 4;
                    while i < v.len()
                        invariant
                            k + 4 <= i <= v@.len(),
                            tail@ == v@.subrange(k + 4, i as int),
                        decreases v@.len() - i,
                    {
                        tail.push(v[i]);
                        assert(tail@ =~= v@.subrange(k + 4, i + 1 as int));
                        i = i + 1;
                    }
                    proof {
                        assert(tail@ =~= v@.skip(k + 4));
                    }
                    let trimmed = trim_chars(&tail);
                    return chars_to_string(&trimmed);
                }
                proof {
                    assert(v@.subrange(k as int, k + 4) != log_marker()) by {
                        if v@.subrange(k as int, k + 4) == log_marker() {
                            assert(v@.subrange(k as int, k + 4)[0] == v@[k as int]);
                            assert(v@.subrange(k as int, k + 4)[1] == v@[k + 1]);
                            assert(v@.subrange(k as int, k + 4)[2] == v@[k + 2]);
                            assert(v@.subrange(k as int, k + 4)[3] == v@[k + 3]);
                        }
                    }
                }
                k = k + 1;
            }
        }
        proof {
            if v@.len() >= 4 {
                assert(find_log_marker(v@, 0) is None);
            }
        }
        let trimmed = trim_chars(&v);
        chars_to_string(&trimmed)
    }
}

/// Why a streamed record could not be parsed.
#[derive(Debug, Clone, Copy, PartialEq, Eq, Structural)]
pub enum TsvError {
    /// This one-based line has no tab after the id.
    MissingTitle { line: usize },
    /// This one-based line has no tab after the title.
    MissingFolderId { line: usize },
}

/// Trailing whitespace removed, as `str::trim_end` strips it.
pub open spec fn trim_end_spec(s: Seq<char>) -> Seq<char>
    decreases s.len(),
{
    if s.len() > 0 && is_unicode_whitespace(s.last()) {
        trim_end_spec(s.drop_last())
    } else {
        s
    }
}

/// The first position at or after `k` holding a tab.
pub open spec fn first_tab(s: Seq<char>, k: int) -> Option<int>
    decreases s.len() - k
        when 0 <= k <= s.len()
{
    if k >= s.len() {
        None
    } else if s[k] == '\t' {
        Some(k)
    } else {
        first_tab(s, k + 1)
    }
}

/// One parsed record line, or which field is missing.
pub enum LineParse {
    Fields(Seq<char>, Seq<char>, Seq<char>),
    MissingTitle,
    MissingFolderId,
}

/// Parse one trimmed record line: the id up to the first tab, the title up
/// to the second, and the folder id as the rest.
pub open spec fn parse_tsv_line_spec(line: Seq<char>) -> LineParse {
    match first_tab(line, 0) {
        None => LineParse::MissingTitle,
        Some(i) => match first_tab(line, i + 1) {
            None => LineParse::MissingFolderId,
            Some(j) => LineParse::Fields(
                line.subrange(0, i),
                line.subrange(i + 1, j),
                line.skip(j + 1),
            ),
        },
    }
}

/// The outcome of parsing a whole streamed listing: the record fields in
/// order, or the zero-based index of the first bad line and what it lacks.
pub enum TsvOutcome {
    Rows(Seq<(Seq<char>, Seq<char>, Seq<char>)>),
    MissingTitle(int),
    MissingFolderId(int),
}

/// Parse the lines of a streamed listing: blank lines (after trailing
/// whitespace is stripped) are skipped, and the first malformed line decides
/// the error.
pub open spec fn tsv_spec(lines: Seq<Seq<char>>) -> TsvOutcome
    decreases lines.len(),
{
    if lines.len() == 0 {
        TsvOutcome::Rows(Seq::empty())
    } else {
        let t = trim_end_spec(lines[0]);
        if t.len() == 0 {
            match tsv_spec(lines.drop_first()) {
                TsvOutcome::Rows(rs) => TsvOutcome::Rows(rs),
                TsvOutcome::MissingTitle(i) => TsvOutcome::MissingTitle(i + 1),
                TsvOutcome::MissingFolderId(i) => TsvOutcome::MissingFolderId(i + 1),
            }
        } else {
            match parse_tsv_line_spec(t) {
                LineParse::MissingTitle => TsvOutcome::MissingTitle(0),
                LineParse::MissingFolderId => TsvOutcome::MissingFolderId(0),
                LineParse::Fields(id, title, folder) => match tsv_spec(lines.drop_first()) {
                    TsvOutcome::Rows(rs) => TsvOutcome::Rows(seq![(id, title, folder)] + rs),
                    TsvOutcome::MissingTitle(i) => TsvOutcome::MissingTitle(i + 1),
                    TsvOutcome::MissingFolderId(i) => TsvOutcome::MissingFolderId(i + 1),
                },
            }
        }
    }
}

/// The views of parsed summaries.
pub open spec fn summary_fields(notes: Seq<NoteSummary>) -> Seq<(Seq<char>, Seq<char>, Seq<char>)> {
    notes.map_values(|n: NoteSummary| (n.id@, n.title@, n.folder_id@))
}

/// Later rows or a later failure shifted behind parsed rows.
pub open spec fn tsv_prepend(
    prefix: Seq<(Seq<char>, Seq<char>, Seq<char>)>,
    outcome: TsvOutcome,
    offset: int,
) -> TsvOutcome {
    match outcome {
        TsvOutcome::Rows(rs) => TsvOutcome::Rows(prefix + rs),
        TsvOutcome::MissingTitle(i) => TsvOutcome::MissingTitle(i + offset),
        TsvOutcome::MissingFolderId(i) => TsvOutcome::MissingFolderId(i + offset),
    }
}

/// The characters of `v` between `from` and `to`.
fn sub_chars(v: &Vec<char>, from: usize, to: usize) -> (r: Vec<char>)
    requires
        from <= to <= v@.len(),
    ensures
        r@ == v@.subrange(from as int, to as int),
{
    let mut r: Vec<char> = Vec::new();
    let mut i: usize = from;
    while i < to
        invariant
            from <= i <= to <= v@.len(),
            r@ == v@.subrange(from as int, i as int),
        decreases to - i,
    {
        r.push(v[i]);
        assert(r@ =~= v@.subrange(from as int, i + 1 as int));
        i = i + 1;
    }
    r
}

/// Strip trailing whitespace.
fn trim_end_chars(v: &Vec<char>) -> (r: Vec<char>)
    ensures
        r@ == trim_end_spec(v@),
{
    let mut hi: usize = v.len();
    proof {
        assert(v@.take(v@.len() as int) =~= v@);
    }
    while hi > 0
        invariant
            0 <= hi <= v@.len(),
            trim_end_spec(v@) == trim_end_spec(v@.take(hi as int)),
        ensures
            0 <= hi <= v@.len(),
            trim_end_spec(v@) == trim_end_spec(v@.take(hi as int)),
            hi > 0 ==> !is_unicode_whitespace(v@[hi - 1]),
        decreases hi,
    {
        if !is_whitespace_char(v[hi - 1]) {
            break;
        }
        proof {
            let seg = v@.take(hi as int);
            assert(seg.last() == v@[hi - 1]);
            assert(seg.drop_last() =~= v@.take(hi - 1));
        }
        hi = hi - 1;
    }
    proof {
        let seg = v@.take(hi as int);
        if hi > 0 {
            assert(seg.last() == v@[hi - 1]);
            assert(trim_end_spec(seg) == seg);
        } else {
            assert(seg.len() == 0);
        }
    }
    sub_chars(v, 0, hi)
}

/// Find the first tab at or after `from`.
#[verifier::loop_isolation(false)]
fn find_tab(v: &Vec<char>, from: usize) -> (r: Option<usize>)
    requires
        from <= v@.len(),
    ensures
        match r {
            Some(i) => from <= i < v@.len() && first_tab(v@, from as int) == Some(i as int),
            None => first_tab(v@, from as int) is None,
        },
{
    let mut k: usize = from;
    while k < v.len()
        invariant
            from <= k <= v@.len(),
            first_tab(v@, from as int) == first_tab(v@, k as int),
        decreases v@.len() - k,
    {
        if v[k] == '\t' {
            return Some(k);
        }
        k = k + 1;
    }
    None
}

/// Split into lines the way `str::lines` does.
#[verifier::loop_isolation(false)]
fn split_lines(v: &Vec<char>) -> (r: Vec<Vec<char>>)
    ensures
        r.deep_view() == lines_from(v@, Seq::empty()),
{
    let mut lines: Vec<Vec<char>> = Vec::new();
    let mut cur: Vec<char> = Vec::new();
    let mut i: usize = 0;
    proof {
        assert(v@.skip(0) =~= v@);
        assert(lines.deep_view() =~~= Seq::<Seq<char>>::empty());
        assert(lines.deep_view() + lines_from(v@, Seq::empty()) =~= lines_from(v@, Seq::empty()));
    }
    while i < v.len()
        invariant
            0 <= i <= v@.len(),
            lines_from(v@, Seq::empty()) == lines.deep_view() + lines_from(
                v@.skip(i as int),
                cur@,
            ),
        decreases v@.len() - i,
    {
        let ghost rest: Seq<char> = v@.skip(i as int);
        let ghost lines_before: Seq<Seq<char>> = lines.deep_view();
        let ghost cur_before: Seq<char> = cur@;
        proof {
            assert(rest[0] == v@[i as int]);
            assert(rest.drop_first() =~= v@.skip(i + 1));
        }
        let c = v[i];
        if c == '\n' {
            if cur.len() > 0 && cur[cur.len() - 1] == '\r' {
                cur.pop();
            }
            proof {
                assert(cur@ =~= crate::render::strip_cr(cur_before));
            }
            lines.push(cur);
            cur = Vec::new();
            proof {
                assert(lines.deep_view() =~~= lines_before.push(crate::render::strip_cr(
                    cur_before,
                )));
                assert(lines_from(rest, cur_before) == seq![crate::render::strip_cr(cur_before)]
                    + lines_from(v@.skip(i + 1), Seq::empty()));
                assert(lines_before + (seq![crate::render::strip_cr(cur_before)] + lines_from(
                    v@.skip(i + 1),
                    Seq::empty(),
                )) =~= (lines_before + seq![crate::render::strip_cr(cur_before)]) + lines_from(
                    v@.skip(i + 1),
                    Seq::empty(),
                ));
                assert(lines_before.push(crate::render::strip_cr(cur_before)) =~= lines_before
                    + seq![crate::render::strip_cr(cur_before)]);
            }
        } else {
            cur.push(c);
            proof {
                assert(lines_from(rest, cur_before) == lines_from(
                    v@.skip(i + 1),
                    cur_before.push(c),
                ));
            }
        }
        i = i + 1;
    }
    proof {
        assert(v@.skip(v@.len() as int).len() == 0);
    }
    if cur.len() > 0 {
        let ghost lines_before: Seq<Seq<char>> = lines.deep_view();
        let ghost cur_final: Seq<char> = cur@;
        lines.push(cur);
        proof {
            assert(lines_from(v@.skip(v@.len() as int), cur_final) =~= seq![cur_final]);
            assert(lines.deep_view() =~~= lines_before.push(cur_final));
            assert(lines_before.push(cur_final) =~= lines_before + seq![cur_final]);
        }
    } else {
        proof {
            assert(lines_from(v@.skip(v@.len() as int), cur@) =~= Seq::<Seq<char>>::empty());
            assert(lines.deep_view() + Seq::<Seq<char>>::empty() =~= lines.deep_view());
        }
    }
    lines
}

/// Parse a streamed listing of tab-separated records — one note per line:
/// id, title, folder id — skipping blank lines; the first malformed line
/// fails the parse with its one-based number.
#[verifier::loop_isolation(false)]
pub fn parse_note_summaries_tsv(s: &str) -> (r: Result<Vec<NoteSummary>, TsvError>)
    ensures
        match tsv_spec(lines_from(s@, Seq::empty())) {
            TsvOutcome::Rows(rows) => r is Ok && summary_fields(r->Ok_0@) == rows,
            TsvOutcome::MissingTitle(i) => r is Err && i + 1 <= usize::MAX && r->Err_0 == (
            TsvError::MissingTitle { line: (i + 1) as usize }),
            TsvOutcome::MissingFolderId(i) => r is Err && i + 1 <= usize::MAX && r->Err_0 == (
            TsvError::MissingFolderId { line: (i + 1) as usize }),
        },
{
    let v = str_to_chars(s);
    let lines = split_lines(&v);
    let ghost all_lines: Seq<Seq<char>> = lines.deep_view();
    let ghost full: TsvOutcome = tsv_spec(all_lines);
    let mut out: Vec<NoteSummary> = Vec::new();
    let mut idx: usize = 0;
    proof {
        assert(all_lines.skip(0) =~= all_lines);
        assert(summary_fields(out@) =~= Seq::<(Seq<char>, Seq<char>, Seq<char>)>::empty());
        match tsv_spec(all_lines) {
            TsvOutcome::Rows(rs) => {
                assert(Seq::<(Seq<char>, Seq<char>, Seq<char>)>::empty() + rs =~= rs);
            },
            _ => {},
        }
    }
    while idx < lines.len()
        invariant
            0 <= idx <= lines@.len(),
            all_lines == lines.deep_view(),
            all_lines.len() == lines@.len(),
            full == tsv_prepend(
                summary_fields(out@),
                tsv_spec(all_lines.skip(idx as int)),
                idx as int,
            ),
        decreases lines@.len() - idx,
    {
        let ghost rest: Seq<Seq<char>> = all_lines.skip(idx as int);
        let ghost fields_before: Seq<(Seq<char>, Seq<char>, Seq<char>)> = summary_fields(out@);
        proof {
            assert(rest[0] == all_lines[idx as int]);
            assert(all_lines[idx as int] == lines@[idx as int]@);
            assert(rest.drop_first() =~= all_lines.skip(idx + 1));
        }
        let line = trim_end_chars(&lines[idx]);
        if line.len() == 0 {
            proof {
                assert(trim_end_spec(rest[0]).len() == 0);
            }
            idx = idx + 1;
            continue;
        }
        proof {
            assert(trim_end_spec(rest[0]).len() > 0);
        }
        let first = match find_tab(&line, 0) {
            None => {
                proof {
                    assert(parse_tsv_line_spec(line@) == LineParse::MissingTitle);
                    assert(full == TsvOutcome::MissingTitle(idx as int));
                }
                return Err(TsvError::MissingTitle { line: idx + 1 });
            },
            Some(i) => i,
        };
        let second = match find_tab(&line, first + 1) {
            None => {
                proof {
                    assert(parse_tsv_line_spec(line@) == LineParse::MissingFolderId);
                    assert(full == TsvOutcome::MissingFolderId(idx as int));
                }
                return Err(TsvError::MissingFolderId { line: idx + 1 });
            },
            Some(j) => j,
        };
        let id = sub_chars(&line, 0, first);
        let title = sub_chars(&line, first + 1, second);
        let folder = sub_chars(&line, second + 1, line.len());
        proof {
            assert(folder@ =~= line@.skip(second + 1));
        }
        let summary = NoteSummary {
            id: chars_to_string(&id),
            title: chars_to_string(&title),
            folder_id: chars_to_string(&folder),
        };
        let ghost row: (Seq<char>, Seq<char>, Seq<char>) = (id@, title@, folder@);
        out.push(summary);
        proof {
            assert(summary_fields(out@) =~= fields_before.push(row));
            match tsv_spec(all_lines.skip(idx + 1)) {
                TsvOutcome::Rows(rs) => {
                    assert(fields_before.push(row) + rs =~= fields_before + (seq![row] + rs));
                },
                _ => {},
            }
        }
        idx = idx + 1;
    }
    proof {
        assert(all_lines.skip(all_lines.len() as int).len() == 0);
        match full {
            TsvOutcome::Rows(rs) => {
                assert(summary_fields(out@) + Seq::<(Seq<char>, Seq<char>, Seq<char>)>::empty()
                    =~= summary_fields(out@));
            },
            _ => {},
        }
    }
    Ok(out)
}

/// Why a folder path did not resolve to exactly one folder id.
#[derive(Debug, Clone, Copy, PartialEq, Eq, Structural)]
pub enum ResolveError {
    /// No folder has this path.
    NotFound,
    /// This many folders share the path.
    Ambiguous { matches: usize },
}

/// Decide a folder-path resolution from the bridge's candidate ids: exactly
/// one candidate resolves; none or several are errors.
pub fn resolve_folder_matches(matches: &Vec<String>) -> (r: Result<String, ResolveError>)
    ensures
        matches@.len() == 1 <==> r is Ok,
        r is Ok ==> r->Ok_0@ == matches@[0]@,
        matches@.len() == 0 ==> r == Result::<String, ResolveError>::Err(ResolveError::NotFound),
        matches@.len() > 1 ==> r == Result::<String, ResolveError>::Err(
            ResolveError::Ambiguous { matches: matches@.len() as usize },
        ),
{
    if matches.len() == 0 {
        Err(ResolveError::NotFound)
    } else if matches.len() == 1 {
        Ok(matches[0].clone())
    } else {
        Err(ResolveError::Ambiguous { matches: matches.len() })
    }
}

/// The ids already handed on by a streamed listing: the bridge may emit a
/// record more than once, and only its first sighting is passed through.
pub struct SeenIds {
    ids: Vec<String>,
}

impl SeenIds {
    /// The ids seen so far, in first-sighting order.
    pub closed spec fn ids(self) -> Seq<Seq<char>> {
        self.ids.deep_view()
    }

    /// An empty record of sightings.
    pub fn new() -> (r: SeenIds)
        ensures
            r.ids() == Seq::<Seq<char>>::empty(),
    {
        let r = SeenIds { ids: Vec::new() };
        proof {
            assert(r.ids() =~~= Seq::<Seq<char>>::empty());
        }
        r
    }

    /// Record a sighting of `id`: true exactly on the first one, and the id
    /// is then remembered.
    #[verifier::loop_isolation(false)]
    pub fn first_sighting(&mut self, id: &str) -> (r: bool)
        ensures
            r == !old(self).ids().contains(id@),
            final(self).ids() == if r {
                old(self).ids().push(id@)
            } else {
                old(self).ids()
            },
    {
        let mut i: usize = 0;
        while i < self.ids.len()
            invariant
                self.ids@ == old(self).ids@,
                0 <= i <= self.ids@.len(),
                forall|j: int| 0 <= j < i ==> self.ids.deep_view()[j] != id@,
            decreases self.ids@.len() - i,
        {
            if crate::chars::str_eq(self.ids[i].as_str(), id) {
                proof {
                    assert(self.ids.deep_view()[i as int] == id@);
                    assert(old(self).ids().contains(id@));
                }
                return false;
            }
            i = i + 1;
        }
        proof {
            if old(self).ids().contains(id@) {
                let j = choose|j: int|
                    0 <= j < old(self).ids().len() && old(self).ids()[j] == id@;
                assert(self.ids.deep_view()[j] != id@);
            }
        }
        let mut copy = String::new();
        copy.append(id);
        let ghost before: Seq<Seq<char>> = self.ids.deep_view();
        self.ids.push(copy);
        proof {
            assert(self.ids.deep_view() =~~= before.push(id@));
        }
        true
    }
}

} // verus!
