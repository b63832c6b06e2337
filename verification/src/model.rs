//! The data model: accounts, folders, note summaries, full notes, and the
//! metadata sidecar written for each exported note. Timestamps are plain
//! milliseconds since the Unix epoch.

use vstd::prelude::*;
use vstd::multiset::Multiset;
use crate::chars::join_with;
use crate::chars::join_strings;

verus! {

/// A collection owner, identified by name.
#[derive(Debug, Clone, PartialEq, Eq)]
pub struct Account {
    pub name: String,
}

/// One folder, with its resolved path from the root (inclusive of the
/// folder's own name).
#[derive(Debug, Clone, PartialEq, Eq)]
pub struct Folder {
    pub id: String,
    pub name: String,
    pub account: String,
    pub path: Vec<String>,
}

impl Folder {
    /// The folder path joined as a single `a > b > c` string.
    pub fn path_string(&self) -> (r: String)
        ensures
            r@ == join_with(self.path.deep_view(), " > "@),
    {
        join_strings(&self.path, " > ")
    }
}

/// A lightweight listing record for one note.
#[derive(Debug, Clone, PartialEq, Eq)]
pub struct NoteSummary {
    pub id: String,
    pub title: String,
    pub folder_id: String,
}

impl NoteSummary {
    /// An exact copy of this summary.
    pub fn duplicate(&self) -> (r: NoteSummary)
        ensures
            r == *self,
    {
        NoteSummary { id: self.id.clone(), title: self.title.clone(), folder_id: self.folder_id.clone() }
    }
}

/// A full note record. `created_at` and `modified_at` are milliseconds since
/// the Unix epoch.
#[derive(Debug, Clone, PartialEq, Eq)]
pub struct Note {
    pub id: String,
    pub title: String,
    pub folder_id: String,
    pub created_at: i64,
    pub modified_at: i64,
    pub body_html: String,
}

/// The metadata sidecar written beside each exported note. Timestamps are
/// milliseconds since the Unix epoch.
#[derive(Debug, Clone, PartialEq, Eq)]
pub struct BackupNoteMetadata {
    pub id: String,
    pub title: String,
    pub account: String,
    pub folder_path: Vec<String>,
    pub created_at: i64,
    pub modified_at: i64,
}

/// The sort key of a listing row: the note's title, or its id.
pub open spec fn summary_key(n: NoteSummary, by_title: bool) -> Seq<char> {
    if by_title {
        n.title@
    } else {
        n.id@
    }
}

/// Every adjacent pair of summaries is in key order.
pub open spec fn summaries_sorted_by(s: Seq<NoteSummary>, by_title: bool) -> bool {
    forall|i: int|
        0 <= i < s.len() - 1 ==> crate::chars::chars_le(
            #[trigger] summary_key(s[i], by_title),
            summary_key(s[i + 1], by_title),
        )
}

/// Sort listing rows by title (for display) or by id (for a deterministic
/// streaming order): the result holds exactly the same summaries, in key
/// order.
pub fn sort_summaries(notes: Vec<NoteSummary>, by_title: bool) -> (r: Vec<NoteSummary>)
    ensures
        summaries_sorted_by(r@, by_title),
        r@.to_multiset() == notes@.to_multiset(),
{
    broadcast use vstd::seq_lib::group_to_multiset_ensures;
    broadcast use vstd::multiset::group_multiset_axioms;
    broadcast use vstd::multiset::lemma_multiset_empty_len;

    let mut work = notes;
    let mut out: Vec<NoteSummary> = Vec::new();
    proof {
        assert(out@.to_multiset().len() == 0);
        assert(out@.to_multiset() =~= Multiset::<NoteSummary>::empty());
        assert(out@.to_multiset().add(work@.to_multiset()) =~= notes@.to_multiset());
    }
    while work.len() > 0
        invariant
            summaries_sorted_by(out@, by_title),
            out@.to_multiset().add(work@.to_multiset()) == notes@.to_multiset(),
        ensures
            work@.len() == 0,
            summaries_sorted_by(out@, by_title),
            out@.to_multiset().add(work@.to_multiset()) == notes@.to_multiset(),
        decreases work@.len(),
    {
        let ghost work_before: Seq<NoteSummary> = work@;
        let n = match work.pop() {
            Some(n) => n,
            None => {
                proof {
                    assert(false);
                }
                break ;
            },
        };
        proof {
            assert(work@.push(n) =~= work_before);
            vstd::seq_lib::to_multiset_build::<NoteSummary>(work@, n);
            assert(work_before.to_multiset() == work@.to_multiset().insert(n));
        }
        let key = if by_title {
            n.title.as_str()
        } else {
            n.id.as_str()
        };
        let mut pos: usize = 0;
        loop
            invariant
                0 <= pos <= out@.len(),
                key@ == summary_key(n, by_title),
                forall|j: int|
                    0 <= j < pos ==> crate::chars::chars_le(
                        #[trigger] summary_key(out@[j], by_title),
                        summary_key(n, by_title),
                    ),
            ensures
                0 <= pos <= out@.len(),
                forall|j: int|
                    0 <= j < pos ==> crate::chars::chars_le(
                        #[trigger] summary_key(out@[j], by_title),
                        summary_key(n, by_title),
                    ),
                pos < out@.len() ==> !crate::chars::chars_le(
                    summary_key(out@[pos as int], by_title),
                    summary_key(n, by_title),
                ),
            decreases out@.len() - pos,
        {
            if pos == out.len() {
                break ;
            }
            let entry_key = if by_title {
                out[pos].title.as_str()
            } else {
                out[pos].id.as_str()
            };
            if !crate::chars::str_le(entry_key, key) {
                break ;
            }
            pos = pos + 1;
        }
        proof {
            if pos < out@.len() {
                crate::chars::lemma_chars_le_total(
                    summary_key(out@[pos as int], by_title),
                    summary_key(n, by_title),
                );
            }
        }
        let ghost out_before: Seq<NoteSummary> = out@;
        let ghost nval: NoteSummary = n;
        out.insert(pos, n);
        proof {
            assert(out@ == out_before.insert(pos as int, nval));
            vstd::seq_lib::to_multiset_insert::<NoteSummary>(out_before, pos as int, nval);
            assert(out@.to_multiset() == out_before.to_multiset().insert(nval));
            assert(out@.to_multiset().add(work@.to_multiset()) =~= out_before.to_multiset().add(
                work_before.to_multiset(),
            ));
            assert(out@ =~= out_before.take(pos as int) + seq![nval] + out_before.skip(
                pos as int,
            ));
            assert forall|k: int| 0 <= k < out@.len() - 1 implies crate::chars::chars_le(
                #[trigger] summary_key(out@[k], by_title),
                summary_key(out@[k + 1], by_title),
            ) by {
                if k + 1 < pos {
                    assert(out@[k] == out_before[k]);
                    assert(out@[k + 1] == out_before[k + 1]);
                } else if k + 1 == pos {
                    assert(out@[k] == out_before[k]);
                    assert(out@[k + 1] == nval);
                } else if k == pos {
                    assert(out@[k] == nval);
                    assert(out@[k + 1] == out_before[k]);
                } else {
                    assert(out@[k] == out_before[k - 1]);
                    assert(out@[k + 1] == out_before[k]);
                }
            }
        }
    }
    proof {
        assert(work@.to_multiset().len() == 0);
        assert(work@.to_multiset() =~= Multiset::<NoteSummary>::empty());
        assert(out@.to_multiset() =~= notes@.to_multiset());
    }
    out
}

} // verus!
