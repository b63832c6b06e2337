//! The command model: the parsed invocation as plain data, folder-path
//! argument splitting, and the title query filter. Argument parsing itself
//! is an outside concern; these are the values it produces.

use vstd::prelude::*;
use crate::chars::str_to_chars;
use crate::chars::chars_to_string;
use crate::chars::trim_spec;
use crate::chars::trim_chars;
use crate::model::NoteSummary;

verus! {

/// Which backend serves reads.
#[derive(Debug, Clone, Copy, PartialEq, Eq, Structural)]
pub enum Backend {
    /// Prefer the store file when present, else the automation bridge.
    Auto,
    /// The automation bridge for all reads and writes.
    Osascript,
    /// The store file for reads; writes still use the automation bridge.
    Db,
}

/// The listing subcommands for accounts.
#[derive(Debug, Clone, PartialEq, Eq)]
pub enum AccountsCmd {
    List,
}

/// The folder subcommands.
#[derive(Debug, Clone, PartialEq, Eq)]
pub enum FoldersCmd {
    List { tree: bool },
    Create { parent: String, name: String },
    Rename { folder: String, name: String },
    Delete { folder: String, yes: bool },
}

/// The note subcommands.
#[derive(Debug, Clone, PartialEq, Eq)]
pub enum NotesCmd {
    List { folder: Option<String>, query: Option<String>, limit: Option<usize> },
    Show { id: String, markdown: bool, html: bool },
    Create {
        folder: String,
        title: String,
        body: Option<String>,
        body_file: Option<String>,
        stdin: bool,
        markdown: bool,
        html: bool,
    },
    Rename { id: String, title: String },
    SetBody {
        id: String,
        body: Option<String>,
        body_file: Option<String>,
        stdin: bool,
        markdown: bool,
        html: bool,
    },
    Append {
        id: String,
        body: Option<String>,
        body_file: Option<String>,
        stdin: bool,
        markdown: bool,
        html: bool,
    },
    Move { id: String, folder: String },
    Delete { id: String, yes: bool },
}

/// The export subcommands kept for the older spelling.
#[derive(Debug, Clone, PartialEq, Eq)]
pub enum BackupCmd {
    Export { out: String, jobs: usize, include_html: bool },
}

/// One invocation's command.
#[derive(Debug, Clone, PartialEq, Eq)]
pub enum Command {
    Accounts { cmd: AccountsCmd },
    Folders { cmd: FoldersCmd },
    Notes { cmd: NotesCmd },
    Export { out: String, jobs: usize, include_html: bool },
    Backup { cmd: BackupCmd },
}

/// One parsed invocation: the account, the read backend, machine output,
/// an optional fixture path, and the command.
#[derive(Debug, Clone, PartialEq, Eq)]
pub struct Args {
    pub account: String,
    pub backend: Backend,
    pub json: bool,
    pub fixture: Option<String>,
    pub cmd: Command,
}

/// A folder-path argument that holds no folder names.
#[derive(Debug, Clone, Copy, PartialEq, Eq, Structural)]
pub enum PathArgError {
    EmptyFolderPath,
}

/// The trimmed part, kept only if nonempty.
pub open spec fn emit_part(cur: Seq<char>) -> Seq<Seq<char>> {
    if trim_spec(cur).len() == 0 {
        Seq::empty()
    } else {
        seq![trim_spec(cur)]
    }
}

/// Split a folder-path argument at `>` into trimmed, nonempty names, with
/// `cur` the unfinished name so far.
pub open spec fn folder_parts_from(s: Seq<char>, cur: Seq<char>) -> Seq<Seq<char>>
    decreases s.len(),
{
    if s.len() == 0 {
        emit_part(cur)
    } else if s[0] == '>' {
        emit_part(cur) + folder_parts_from(s.drop_first(), Seq::empty())
    } else {
        folder_parts_from(s.drop_first(), cur.push(s[0]))
    }
}

/// The folder names in a path argument such as `Personal > Archive`.
pub open spec fn folder_parts_spec(s: Seq<char>) -> Seq<Seq<char>> {
    folder_parts_from(s, Seq::empty())
}

/// Split a folder-path argument at `>`, trimming each name and dropping
/// empty ones; a path with no names at all is rejected.
#[verifier::loop_isolation(false)]
pub fn split_folder_path(path: &str) -> (r: Result<Vec<String>, PathArgError>)
    ensures
        r is Ok <==> folder_parts_spec(path@).len() > 0,
        r is Ok ==> r->Ok_0.deep_view() == folder_parts_spec(path@),
        r is Err ==> r->Err_0 == PathArgError::EmptyFolderPath,
{
    let v = str_to_chars(path);
    let mut parts: Vec<String> = Vec::new();
    let mut cur: Vec<char> = Vec::new();
    let mut i: usize = 0;
    proof {
        assert(v@.skip(0) =~= v@);
        assert(parts.deep_view() =~~= Seq::<Seq<char>>::empty());
        assert(parts.deep_view() + folder_parts_from(v@, Seq::empty()) =~= folder_parts_from(
            v@,
            Seq::empty(),
        ));
    }
    while i < v.len()
        invariant
            0 <= i <= v@.len(),
            v@ == path@,
            folder_parts_spec(path@) == parts.deep_view() + folder_parts_from(
                v@.skip(i as int),
                cur@,
            ),
        decreases v@.len() - i,
    {
        let ghost rest: Seq<char> = v@.skip(i as int);
        let ghost parts_before: Seq<Seq<char>> = parts.deep_view();
        let ghost cur_before: Seq<char> = cur@;
        proof {
            assert(rest[0] == v@[i as int]);
            assert(rest.drop_first() =~= v@.skip(i + 1));
        }
        let c = v[i];
        if c == '>' {
            let t = trim_chars(&cur);
            if t.len() > 0 {
                parts.push(chars_to_string(&t));
                proof {
                    assert(parts.deep_view() =~~= parts_before.push(trim_spec(cur_before)));
                    assert(parts_before.push(trim_spec(cur_before)) =~= parts_before + emit_part(
                        cur_before,
                    ));
                }
            } else {
                proof {
                    assert(emit_part(cur_before) =~= Seq::<Seq<char>>::empty());
                    assert(parts.deep_view() =~= parts_before + emit_part(cur_before));
                }
            }
            cur = Vec::new();
            proof {
                assert(folder_parts_from(rest, cur_before) == emit_part(cur_before)
                    + folder_parts_from(v@.skip(i + 1), Seq::empty()));
                assert(parts_before + (emit_part(cur_before) + folder_parts_from(
                    v@.skip(i + 1),
                    Seq::empty(),
                )) =~= (parts_before + emit_part(cur_before)) + folder_parts_from(
                    v@.skip(i + 1),
                    Seq::empty(),
                ));
            }
        } else {
            cur.push(c);
            proof {
                assert(folder_parts_from(rest, cur_before) == folder_parts_from(
                    v@.skip(i + 1),
                    cur_before.push(c),
                ));
            }
        }
        i = i + 1;
    }
    let t = trim_chars(&cur);
    let ghost parts_before: Seq<Seq<char>> = parts.deep_view();
    let ghost cur_final: Seq<char> = cur@;
    proof {
        assert(v@.skip(v@.len() as int).len() == 0);
        assert(folder_parts_from(v@.skip(v@.len() as int), cur_final) == emit_part(cur_final));
    }
    if t.len() > 0 {
        parts.push(chars_to_string(&t));
        proof {
            assert(parts.deep_view() =~~= parts_before.push(trim_spec(cur_final)));
            assert(parts.deep_view() =~= parts_before + emit_part(cur_final));
        }
    } else {
        proof {
            assert(emit_part(cur_final) =~= Seq::<Seq<char>>::empty());
            assert(parts.deep_view() =~= parts_before + emit_part(cur_final));
        }
    }
    if parts.len() == 0 {
        proof {
            assert(parts.deep_view().len() == 0);
        }
        Err(PathArgError::EmptyFolderPath)
    } else {
        Ok(parts)
    }
}

/// What case folding yields for this text: a function of the characters
/// alone.
pub uninterp spec fn lower_of(s: Seq<char>) -> Seq<char>;

/// Relies on str::to_lowercase: the folded text is a function of the input
/// characters alone.
#[verifier::external_body]
fn to_lowercase(s: &str) -> (r: String)
    ensures
        r@ == lower_of(s@),
{
    s.to_lowercase()
}

/// Whether `needle` occurs as a contiguous run inside `hay`.
pub open spec fn contains_seq(hay: Seq<char>, needle: Seq<char>) -> bool {
    exists|k: int|
        0 <= k <= hay.len() - needle.len() && #[trigger] hay.subrange(k, k + needle.len())
            == needle
}

/// Whether the characters of `needle` occur contiguously inside `hay`.
#[verifier::loop_isolation(false)]
pub fn contains_chars(hay: &Vec<char>, needle: &Vec<char>) -> (r: bool)
    ensures
        r == contains_seq(hay@, needle@),
{
    if needle.len() > hay.len() {
        return false;
    }
    let last_start: usize = hay.len() - needle.len();
    let mut k: usize = 0;
    while k <= last_start
        invariant
            0 <= k <= last_start + 1,
            needle@.len() <= hay@.len(),
            last_start == hay@.len() - needle@.len(),
            forall|kk: int|
                0 <= kk < k ==> #[trigger] hay@.subrange(kk, kk + needle@.len()) != needle@,
        decreases last_start + 1 - k,
    {
        let mut j: usize = 0;
        let mut matched: bool = true;
        while j < needle.len()
            invariant
                0 <= j <= needle@.len(),
                k + needle@.len() <= hay@.len(),
                matched <==> (forall|jj: int| 0 <= jj < j ==> hay@[k + jj] == needle@[jj]),
            decreases needle@.len() - j,
        {
            if hay[k + j] != needle[j] {
                matched = false;
                proof {
                    assert(hay@[k + j] != needle@[j as int]);
                }
                break;
            }
            j = j + 1;
        }
        if matched && j == needle.len() {
            proof {
                assert(hay@.subrange(k as int, k + needle@.len()) =~= needle@);
            }
            return true;
        }
        proof {
            if hay@.subrange(k as int, k + needle@.len()) == needle@ {
                assert(forall|jj: int|
                    0 <= jj < needle@.len() ==> #[trigger] hay@.subrange(
                        k as int,
                        k + needle@.len(),
                    )[jj] == hay@[k + jj]);
                assert(false);
            }
        }
        k = k + 1;
    }
    proof {
        if contains_seq(hay@, needle@) {
            let kk = choose|kk: int|
                0 <= kk <= hay@.len() - needle@.len() && #[trigger] hay@.subrange(
                    kk,
                    kk + needle@.len(),
                ) == needle@;
            assert(hay@.subrange(kk, kk + needle@.len()) != needle@);
        }
    }
    false
}

/// Keep the notes whose case-folded title contains the case-folded query, in
/// order.
#[verifier::loop_isolation(false)]
pub fn filter_notes_by_query(notes: &Vec<NoteSummary>, query: &str) -> (r: Vec<NoteSummary>)
    ensures
        r@ == notes@.filter(
            |n: NoteSummary| contains_seq(lower_of(n.title@), lower_of(query@)),
        ),
{
    let ghost pred = |n: NoteSummary| contains_seq(lower_of(n.title@), lower_of(query@));
    let q = to_lowercase(query);
    let q_chars = str_to_chars(q.as_str());
    let mut out: Vec<NoteSummary> = Vec::new();
    let mut i: usize = 0;
    proof {
        reveal(Seq::filter);
        assert(notes@.take(0).filter(pred) =~= Seq::<NoteSummary>::empty());
    }
    while i < notes.len()
        invariant
            0 <= i <= notes@.len(),
            q_chars@ == lower_of(query@),
            out@ == notes@.take(i as int).filter(pred),
        decreases notes@.len() - i,
    {
        let t = to_lowercase(notes[i].title.as_str());
        let t_chars = str_to_chars(t.as_str());
        let keep = contains_chars(&t_chars, &q_chars);
        proof {
            assert(notes@.take(i + 1).drop_last() =~= notes@.take(i as int));
            assert(notes@.take(i + 1).last() == notes@[i as int]);
        }
        if keep {
            out.push(notes[i].duplicate());
        }
        proof {
            reveal(Seq::filter);
            assert(keep == pred(notes@[i as int]));
            assert(out@ =~= notes@.take(i + 1).filter(pred));
        }
        i = i + 1;
    }
    proof {
        assert(notes@.take(notes@.len() as int) =~= notes@);
    }
    out
}

} // verus!
