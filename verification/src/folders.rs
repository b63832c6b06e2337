//! Root-to-leaf path resolution over a flat folder table of parent-pointer
//! rows, defending against cycles and dangling references, and the folder
//! index that serves id-to-path lookups during an export.

use vstd::prelude::*;
use vstd::multiset::Multiset;
use vstd::seq_lib::seq_to_set_is_finite;
use crate::model::Folder;
use crate::model::NoteSummary;

verus! {

/// One row of the flat folder table: a primary key, a display name, and an
/// optional parent primary key.
#[derive(Debug, Clone, PartialEq, Eq)]
pub struct FolderRow {
    pub pk: i64,
    pub name: String,
    pub parent: Option<i64>,
}

/// Why a folder path could not be resolved.
#[derive(Debug, Clone, Copy, PartialEq, Eq, Structural)]
pub enum FolderPathError {
    /// The walk revisited this parent pointer before reaching a root.
    Cycle(i64),
    /// The starting primary key is not in the table.
    Unknown(i64),
}

/// The first row of `rows` whose primary key is `pk`.
pub open spec fn find_row(rows: Seq<FolderRow>, pk: i64) -> Option<FolderRow>
    decreases rows.len(),
{
    if rows.len() == 0 {
        None
    } else if rows.first().pk == pk {
        Some(rows.first())
    } else {
        find_row(rows.drop_first(), pk)
    }
}

/// Whether some row of `rows` has primary key `pk`.
pub open spec fn has_pk(rows: Seq<FolderRow>, pk: i64) -> bool {
    find_row(rows, pk) is Some
}

/// The set of primary keys present in the table.
pub open spec fn pk_set(rows: Seq<FolderRow>) -> Set<i64> {
    rows.map_values(|r: FolderRow| r.pk).to_set()
}

/// The outcome of walking parent pointers from one folder toward its root.
pub enum Walk {
    /// The accumulated names, root first, leaf last.
    Path(Seq<Seq<char>>),
    /// The walk revisited this pointer before reaching a root.
    Cycle(i64),
    /// The starting pointer is not in the table.
    Unknown(i64),
}

/// Walk the parent chain from `pk`, with `seen` the pointers already visited.
/// A missing starting row is an error; a parent pointer that is absent from
/// the table ends the walk as if the current folder were a root; a revisited
/// pointer is a cycle error.
pub open spec fn walk(rows: Seq<FolderRow>, pk: i64, seen: Set<i64>) -> Walk
    decreases pk_set(rows).difference(seen).len()
        when seen.finite()
        via walk_decreases
{
    if seen.contains(pk) {
        Walk::Cycle(pk)
    } else {
        match find_row(rows, pk) {
            None => Walk::Unknown(pk),
            Some(row) => match row.parent {
                None => Walk::Path(seq![row.name@]),
                Some(p) => if has_pk(rows, p) {
                    match walk(rows, p, seen.insert(pk)) {
                        Walk::Path(names) => Walk::Path(names.push(row.name@)),
                        other => other,
                    }
                } else {
                    Walk::Path(seq![row.name@])
                },
            },
        }
    }
}

#[via_fn]
proof fn walk_decreases(rows: Seq<FolderRow>, pk: i64, seen: Set<i64>) {
    broadcast use seq_to_set_is_finite;

    if !seen.contains(pk) && find_row(rows, pk) is Some {
        lemma_find_row_properties(rows, pk);
        pk_set(rows).lemma_set_insert_diff_decreases(seen, pk);
    }
}

/// `find_row` returns a row of the table carrying the requested key, and
/// succeeds exactly when some row carries it.
pub proof fn lemma_find_row_properties(rows: Seq<FolderRow>, pk: i64)
    ensures
        has_pk(rows, pk) <==> exists|i: int| 0 <= i < rows.len() && rows[i].pk == pk,
        has_pk(rows, pk) ==> find_row(rows, pk)->0.pk == pk,
        has_pk(rows, pk) ==> pk_set(rows).contains(pk),
    decreases rows.len(),
{
    if rows.len() > 0 {
        lemma_find_row_properties(rows.drop_first(), pk);
        if rows.first().pk == pk {
            assert(rows[0].pk == pk);
        } else if has_pk(rows.drop_first(), pk) {
            let i = choose|i: int|
                0 <= i < rows.drop_first().len() && rows.drop_first()[i].pk == pk;
            assert(rows[i + 1].pk == pk);
        } else {
            assert forall|i: int| 0 <= i < rows.len() implies rows[i].pk != pk by {
                if i > 0 {
                    assert(rows.drop_first()[i - 1] == rows[i]);
                }
            }
        }
        if has_pk(rows, pk) {
            let i = choose|i: int| 0 <= i < rows.len() && rows[i].pk == pk;
            assert(rows.map_values(|r: FolderRow| r.pk)[i] == pk);
            assert(rows.map_values(|r: FolderRow| r.pk).contains(pk));
        }
    }
}

/// Skipping a prefix with no matching key does not change `find_row`.
proof fn lemma_find_row_skip(rows: Seq<FolderRow>, pk: i64, i: int)
    requires
        0 <= i <= rows.len(),
        forall|j: int| 0 <= j < i ==> rows[j].pk != pk,
    ensures
        find_row(rows, pk) == find_row(rows.skip(i), pk),
    decreases i,
{
    if i == 0 {
        assert(rows.skip(0) =~= rows);
    } else {
        assert(rows.first().pk != pk);
        lemma_find_row_skip(rows.drop_first(), pk, i - 1);
        assert(rows.drop_first().skip(i - 1) =~= rows.skip(i));
    }
}

/// Find the index of the first row with key `pk`, if any.
fn find_row_index(rows: &Vec<FolderRow>, pk: i64) -> (r: Option<usize>)
    ensures
        match r {
            Some(i) => i < rows@.len() && find_row(rows@, pk) == Some(rows@[i as int]),
            None => find_row(rows@, pk) is None,
        },
{
    let mut i: usize = 0;
    while i < rows.len()
        invariant
            0 <= i <= rows@.len(),
            forall|j: int| 0 <= j < i ==> rows@[j].pk != pk,
        decreases rows@.len() - i,
    {
        if rows[i].pk == pk {
            proof {
                lemma_find_row_skip(rows@, pk, i as int);
                assert(rows@.skip(i as int).first() == rows@[i as int]);
            }
            return Some(i);
        }
        i = i + 1;
    }
    proof {
        lemma_find_row_skip(rows@, pk, rows@.len() as int);
        assert(rows@.skip(rows@.len() as int).len() == 0);
    }
    None
}

/// Whether the table has a row with key `pk`.
fn has_pk_exec(rows: &Vec<FolderRow>, pk: i64) -> (r: bool)
    ensures
        r == has_pk(rows@, pk),
{
    find_row_index(rows, pk).is_some()
}

/// Whether `x` is among the values of `v`.
fn contains_i64(v: &Vec<i64>, x: i64) -> (r: bool)
    ensures
        r == v@.contains(x),
{
    let mut i: usize = 0;
    while i < v.len()
        invariant
            0 <= i <= v@.len(),
            forall|j: int| 0 <= j < i ==> v@[j] != x,
        decreases v@.len() - i,
    {
        if v[i] == x {
            return true;
        }
        i = i + 1;
    }
    false
}

/// The strings of `v` in reverse order.
fn reversed_strings(v: &Vec<String>) -> (r: Vec<String>)
    ensures
        r.deep_view() == v.deep_view().reverse(),
{
    let mut r: Vec<String> = Vec::new();
    let mut i: usize = v.len();
    while i > 0
        invariant
            0 <= i <= v@.len(),
            r@.len() == v@.len() - i,
            forall|k: int| 0 <= k < r@.len() ==> r.deep_view()[k] == v.deep_view()[v@.len() - 1
                - k],
        decreases i,
    {
        i = i - 1;
        let ghost r_before: Seq<Seq<char>> = r.deep_view();
        r.push(v[i].clone());
        proof {
            assert(r.deep_view() =~= r_before.push(v@[i as int]@));
            assert(v.deep_view()[i as int] == v@[i as int]@);
        }
    }
    proof {
        assert(r.deep_view() =~= v.deep_view().reverse());
    }
    r
}

/// Append root-first names after a successful walk; pass errors through.
pub open spec fn walk_append(w: Walk, tail: Seq<Seq<char>>) -> Walk {
    match w {
        Walk::Path(names) => Walk::Path(names + tail),
        other => other,
    }
}

/// Resolve the root-to-leaf name path for the folder with key `pk`, walking
/// parent pointers with an explicit visited set: a revisited pointer fails
/// with a cycle error instead of looping, and a dangling parent pointer ends
/// the walk as if the folder below it were a root.
#[verifier::loop_isolation(false)]
pub fn folder_path(rows: &Vec<FolderRow>, pk: i64) -> (r: Result<Vec<String>, FolderPathError>)
    ensures
        match walk(rows@, pk, Set::empty()) {
            Walk::Path(names) => r is Ok && r->Ok_0.deep_view() == names,
            Walk::Cycle(c) => r == Result::<Vec<String>, FolderPathError>::Err(
                FolderPathError::Cycle(c),
            ),
            Walk::Unknown(c) => r == Result::<Vec<String>, FolderPathError>::Err(
                FolderPathError::Unknown(c),
            ),
        },
{
    broadcast use seq_to_set_is_finite;

    let ghost full: Walk = walk(rows@, pk, Set::empty());
    let mut parts: Vec<String> = Vec::new();
    let mut seen: Vec<i64> = Vec::new();
    let mut current: i64 = pk;
    proof {
        assert(seen@.to_set() =~= Set::<i64>::empty());
        assert(parts.deep_view().reverse() =~= Seq::<Seq<char>>::empty());
        match walk(rows@, current, seen@.to_set()) {
            Walk::Path(names) => {
                assert(names + Seq::<Seq<char>>::empty() =~= names);
            },
            _ => {},
        }
    }
    loop
        invariant
            seen@.no_duplicates(),
            forall|k: int| 0 <= k < seen@.len() ==> has_pk(rows@, #[trigger] seen@[k]),
            full == walk_append(walk(rows@, current, seen@.to_set()), parts.deep_view().reverse()),
        decreases pk_set(rows@).difference(seen@.to_set()).len(),
    {
        let ghost seen_set: Set<i64> = seen@.to_set();
        let ghost w_here: Walk = walk(rows@, current, seen_set);
        if contains_i64(&seen, current) {
            proof {
                assert(w_here == Walk::Cycle(current));
            }
            return Err(FolderPathError::Cycle(current));
        }
        proof {
            assert(!seen_set.contains(current));
        }
        let idx = match find_row_index(rows, current) {
            None => {
                proof {
                    assert(w_here == Walk::Unknown(current));
                }
                return Err(FolderPathError::Unknown(current));
            },
            Some(i) => i,
        };
        let ghost parts_before: Seq<Seq<char>> = parts.deep_view();
        let ghost seen_before: Seq<i64> = seen@;
        let ghost name_here: Seq<char> = rows@[idx as int].name@;
        let row_name = rows[idx].name.clone();
        let row_parent = rows[idx].parent;
        proof {
            assert(find_row(rows@, current) == Some(rows@[idx as int]));
        }
        parts.push(row_name);
        seen.push(current);
        proof {
            assert(parts.deep_view() =~= parts_before.push(name_here));
            assert(parts.deep_view().reverse() =~= seq![name_here] + parts_before.reverse());
            assert(seen@.to_set() =~= seen_set.insert(current)) by {
                assert forall|x: i64|
                    seen@.to_set().contains(x) <==> seen_set.insert(current).contains(x) by {
                    if seen@.contains(x) {
                        let i = choose|i: int| 0 <= i < seen@.len() && seen@[i] == x;
                        if i < seen@.len() - 1 {
                            assert(seen_before[i] == x);
                            assert(seen_before.contains(x));
                        }
                    }
                    if seen_before.contains(x) {
                        let i = choose|i: int|
                            0 <= i < seen_before.len() && seen_before[i] == x;
                        assert(seen@[i] == x);
                        assert(seen@.contains(x));
                    }
                    if x == current {
                        assert(seen@[seen@.len() - 1] == x);
                        assert(seen@.contains(x));
                    }
                }
            }
            assert(seen@.no_duplicates()) by {
                let before = seen@.drop_last();
                assert forall|a: int, b: int|
                    0 <= a < b < seen@.len() implies seen@[a] != seen@[b] by {
                    if b == seen@.len() - 1 {
                        assert(seen@[a] == before[a]);
                        if seen@[a] == current {
                            assert(before.contains(current));
                        }
                    } else {
                        assert(seen@[a] == before[a]);
                        assert(seen@[b] == before[b]);
                    }
                }
            }
        }
        match row_parent {
            None => {
                proof {
                    assert(w_here == Walk::Path(seq![name_here]));
                    assert(seq![name_here] + parts_before.reverse() =~= parts.deep_view().reverse());
                }
                let out = reversed_strings(&parts);
                proof {
                    assert(out.deep_view() =~= parts.deep_view().reverse());
                    assert(full == Walk::Path(out.deep_view()));
                }
                return Ok(out);
            },
            Some(p) => {
                if !has_pk_exec(rows, p) {
                    proof {
                        assert(w_here == Walk::Path(seq![name_here]));
                        assert(seq![name_here] + parts_before.reverse()
                            =~= parts.deep_view().reverse());
                    }
                    let out = reversed_strings(&parts);
                    proof {
                        assert(full == Walk::Path(out.deep_view()));
                    }
                    return Ok(out);
                }
                proof {
                    lemma_find_row_properties(rows@, current);
                    pk_set(rows@).lemma_set_insert_diff_decreases(seen_set, current);
                    match walk(rows@, p, seen_set.insert(current)) {
                        Walk::Path(names) => {
                            assert(w_here == Walk::Path(names.push(name_here)));
                            assert(names.push(name_here) + parts_before.reverse() =~= names
                                + parts.deep_view().reverse());
                        },
                        _ => {
                            assert(w_here == walk(rows@, p, seen_set.insert(current)));
                        },
                    }
                }
                current = p;
            },
        }
    }
}

/// Law: a folder whose row has no parent pointer resolves to just its own
/// name.
pub proof fn lemma_walk_at_root(rows: Seq<FolderRow>, pk: i64, seen: Set<i64>)
    requires
        seen.finite(),
        !seen.contains(pk),
        has_pk(rows, pk),
        find_row(rows, pk)->0.parent is None,
    ensures
        walk(rows, pk, seen) == Walk::Path(seq![find_row(rows, pk)->0.name@]),
{
}

/// Law: a parent pointer that refers to a key absent from the table ends the
/// walk there, so the folder below the dangling pointer still resolves, to
/// its own name alone, rather than failing.
pub proof fn lemma_dangling_parent_truncates(rows: Seq<FolderRow>, pk: i64, p: i64, seen: Set<i64>)
    requires
        seen.finite(),
        !seen.contains(pk),
        has_pk(rows, pk),
        find_row(rows, pk)->0.parent == Some(p),
        !has_pk(rows, p),
    ensures
        walk(rows, pk, seen) == Walk::Path(seq![find_row(rows, pk)->0.name@]),
{
}

/// Law: in a table where the walk from the parent succeeds, a folder's
/// resolved path is its parent's root-first path extended with the folder's
/// own name. Together with `lemma_walk_at_root` this pins every resolved
/// path in a tree-shaped table to the expected root-to-leaf name sequence.
pub proof fn lemma_child_path_extends_parent(rows: Seq<FolderRow>, pk: i64, p: i64, seen: Set<i64>)
    requires
        seen.finite(),
        !seen.contains(pk),
        has_pk(rows, pk),
        find_row(rows, pk)->0.parent == Some(p),
        has_pk(rows, p),
        walk(rows, p, seen.insert(pk)) is Path,
    ensures
        walk(rows, pk, seen) == Walk::Path(
            walk(rows, p, seen.insert(pk))->Path_0.push(find_row(rows, pk)->0.name@),
        ),
{
}

/// Law: a folder that sits on a cycle of parent pointers fails with a cycle
/// error — deterministically, for every starting visited set — rather than
/// resolving or looping. `cyc` is the cycle: a finite set of keys, each
/// present in the table, whose parent pointers stay within the set.
pub proof fn lemma_parent_cycle_fails(rows: Seq<FolderRow>, pk: i64, cyc: Set<i64>, seen: Set<i64>)
    requires
        seen.finite(),
        cyc.finite(),
        cyc.contains(pk),
        forall|x: i64| #[trigger] cyc.contains(x) ==> has_pk(rows, x) && find_row(rows, x)->0.parent
            is Some && cyc.contains(find_row(rows, x)->0.parent->0),
    ensures
        walk(rows, pk, seen) is Cycle,
    decreases cyc.difference(seen).len(),
{
    if !seen.contains(pk) {
        let row = find_row(rows, pk)->0;
        let p = row.parent->0;
        assert(cyc.contains(p));
        cyc.lemma_set_insert_diff_decreases(seen, pk);
        lemma_parent_cycle_fails(rows, p, cyc, seen.insert(pk));
    }
}

/// All ids in the list are distinct.
pub open spec fn unique_folder_ids(folders: Seq<Folder>) -> bool {
    forall|i: int, j: int| 0 <= i < j < folders.len() ==> folders[i].id@ != folders[j].id@
}

/// The first folder in the list carrying this id.
pub open spec fn lookup_folder(folders: Seq<Folder>, id: Seq<char>) -> Option<Folder>
    decreases folders.len(),
{
    if folders.len() == 0 {
        None
    } else if folders.first().id@ == id {
        Some(folders.first())
    } else {
        lookup_folder(folders.drop_first(), id)
    }
}

/// Building an index failed.
#[derive(Debug, Clone, PartialEq, Eq)]
pub enum IndexError {
    /// Two folders in the input carry this id.
    DuplicateId(String),
}

/// An id-to-folder lookup over a complete folder list for one account.
/// Construction fails on a duplicate id, so lookups are unambiguous.
#[derive(Debug, Clone, PartialEq, Eq)]
pub struct FolderIndex {
    folders: Vec<Folder>,
}

/// Skipping a prefix with no matching id does not change `lookup_folder`.
proof fn lemma_lookup_folder_skip(folders: Seq<Folder>, id: Seq<char>, i: int)
    requires
        0 <= i <= folders.len(),
        forall|j: int| 0 <= j < i ==> folders[j].id@ != id,
    ensures
        lookup_folder(folders, id) == lookup_folder(folders.skip(i), id),
    decreases i,
{
    if i == 0 {
        assert(folders.skip(0) =~= folders);
    } else {
        lemma_lookup_folder_skip(folders.drop_first(), id, i - 1);
        assert(folders.drop_first().skip(i - 1) =~= folders.skip(i));
    }
}

impl FolderIndex {
    /// The folders held by the index, in insertion order.
    pub closed spec fn entries(self) -> Seq<Folder> {
        self.folders@
    }

    /// The index is well-formed: no two entries share an id.
    pub open spec fn wf(self) -> bool {
        unique_folder_ids(self.entries())
    }

    /// Build an index from a complete folder list; a duplicate id is a fatal
    /// construction error.
    pub fn new(folders: Vec<Folder>) -> (r: Result<FolderIndex, IndexError>)
        ensures
            r is Ok <==> unique_folder_ids(folders@),
            r is Ok ==> r->Ok_0.entries() == folders@ && r->Ok_0.wf(),
            r is Err ==> exists|i: int, j: int|
                0 <= i < j < folders@.len() && folders@[i].id@ == folders@[j].id@ && (r->Err_0
                    == IndexError::DuplicateId(folders@[j].id)),
    {
        let mut j: usize = 0;
        while j < folders.len()
            invariant
                0 <= j <= folders@.len(),
                forall|a: int, b: int| 0 <= a < b < j ==> folders@[a].id@ != folders@[b].id@,
            decreases folders@.len() - j,
        {
            let mut i: usize = 0;
            while i < j
                invariant
                    0 <= i <= j < folders@.len(),
                    forall|a: int| 0 <= a < i ==> folders@[a].id@ != folders@[j as int].id@,
                decreases j - i,
            {
                if folders[i].id == folders[j].id {
                    return Err(IndexError::DuplicateId(folders[j].id.clone()));
                }
                i = i + 1;
            }
            j = j + 1;
        }
        Ok(FolderIndex { folders })
    }

    /// The root-first path of the folder with this id, if the index holds it.
    pub fn folder_path(&self, folder_id: &str) -> (r: Option<Vec<String>>)
        ensures
            r is Some <==> lookup_folder(self.entries(), folder_id@) is Some,
            r is Some ==> r->0.deep_view() == lookup_folder(
                self.entries(),
                folder_id@,
            )->0.path.deep_view(),
    {
        let mut i: usize = 0;
        while i < self.folders.len()
            invariant
                0 <= i <= self.folders@.len(),
                forall|j: int| 0 <= j < i ==> self.folders@[j].id@ != folder_id@,
            decreases self.folders@.len() - i,
        {
            if crate::chars::str_eq(self.folders[i].id.as_str(), folder_id) {
                proof {
                    lemma_lookup_folder_skip(self.folders@, folder_id@, i as int);
                    assert(self.folders@.skip(i as int).first() == self.folders@[i as int]);
                }
                let mut out: Vec<String> = Vec::new();
                let path = &self.folders[i].path;
                let mut k: usize = 0;
                while k < path.len()
                    invariant
                        0 <= k <= path@.len(),
                        out.deep_view() == path.deep_view().take(k as int),
                    decreases path@.len() - k,
                {
                    let ghost before: Seq<Seq<char>> = out.deep_view();
                    out.push(path[k].clone());
                    proof {
                        assert(out.deep_view() =~= before.push(path@[k as int]@));
                        assert(path.deep_view()[k as int] == path@[k as int]@);
                        assert(out.deep_view() =~= path.deep_view().take(k + 1));
                    }
                    k = k + 1;
                }
                proof {
                    assert(out.deep_view() =~= path.deep_view());
                }
                return Some(out);
            }
            i = i + 1;
        }
        proof {
            lemma_lookup_folder_skip(self.folders@, folder_id@, self.folders@.len() as int);
            assert(self.folders@.skip(self.folders@.len() as int).len() == 0);
        }
        None
    }

    /// The path of the folder with this id joined as `a > b > c`, if the
    /// index holds it.
    pub fn folder_path_string(&self, folder_id: &str) -> (r: Option<String>)
        ensures
            r is Some <==> lookup_folder(self.entries(), folder_id@) is Some,
            r is Some ==> r->0@ == crate::chars::join_with(
                lookup_folder(self.entries(), folder_id@)->0.path.deep_view(),
                " > "@,
            ),
    {
        match self.folder_path(folder_id) {
            None => None,
            Some(path) => Some(crate::chars::join_strings(&path, " > ")),
        }
    }
}

/// Find the first folder whose path, joined as `a > b`, matches the wanted
/// path joined the same way.
#[verifier::loop_isolation(false)]
pub fn find_folder_by_path(folders: &Vec<Folder>, want: &Vec<String>) -> (r: Option<usize>)
    ensures
        match r {
            Some(i) => i < folders@.len() && crate::chars::join_with(
                folders@[i as int].path.deep_view(),
                " > "@,
            ) == crate::chars::join_with(want.deep_view(), " > "@) && (forall|j: int|
                0 <= j < i ==> crate::chars::join_with(
                    #[trigger] folders@[j].path.deep_view(),
                    " > "@,
                ) != crate::chars::join_with(want.deep_view(), " > "@)),
            None => forall|j: int|
                0 <= j < folders@.len() ==> crate::chars::join_with(
                    #[trigger] folders@[j].path.deep_view(),
                    " > "@,
                ) != crate::chars::join_with(want.deep_view(), " > "@),
        },
{
    let target = crate::chars::join_strings(want, " > ");
    let mut i: usize = 0;
    while i < folders.len()
        invariant
            0 <= i <= folders@.len(),
            target@ == crate::chars::join_with(want.deep_view(), " > "@),
            forall|j: int|
                0 <= j < i ==> crate::chars::join_with(
                    #[trigger] folders@[j].path.deep_view(),
                    " > "@,
                ) != target@,
        decreases folders@.len() - i,
    {
        let p = folders[i].path_string();
        if crate::chars::str_eq(p.as_str(), target.as_str()) {
            return Some(i);
        }
        i = i + 1;
    }
    None
}

/// The notes that sit in the folder with this id, in listing order.
#[verifier::loop_isolation(false)]
pub fn notes_in_folder(notes: &Vec<NoteSummary>, folder_id: &str) -> (r: Vec<NoteSummary>)
    ensures
        r@ == notes@.filter(|n: NoteSummary| n.folder_id@ == folder_id@),
{
    let ghost pred = |n: NoteSummary| n.folder_id@ == folder_id@;
    let mut out: Vec<NoteSummary> = Vec::new();
    let mut i: usize = 0;
    proof {
        reveal(Seq::filter);
        assert(notes@.take(0).filter(pred) =~= Seq::<NoteSummary>::empty());
    }
    while i < notes.len()
        invariant
            0 <= i <= notes@.len(),
            out@ == notes@.take(i as int).filter(pred),
        decreases notes@.len() - i,
    {
        let keep = crate::chars::str_eq(notes[i].folder_id.as_str(), folder_id);
        proof {
            assert(notes@.take(i + 1).drop_last() =~= notes@.take(i as int));
            assert(notes@.take(i + 1).last() == notes@[i as int]);
        }
        if keep {
            out.push(notes[i].duplicate());
        }
        proof {
            reveal(Seq::filter);
            assert(keep == pred(notes@[i as int]));
            assert(out@ =~= notes@.take(i + 1).filter(pred));
        }
        i = i + 1;
    }
    proof {
        assert(notes@.take(notes@.len() as int) =~= notes@);
    }
    out
}

/// Lexicographic order on folder paths: element by element, by the character
/// order of the names; a path is at most any extension of itself.
pub open spec fn paths_le(a: Seq<Seq<char>>, b: Seq<Seq<char>>) -> bool
    decreases a.len(),
{
    if a.len() == 0 {
        true
    } else if b.len() == 0 {
        false
    } else if a[0] == b[0] {
        paths_le(a.drop_first(), b.drop_first())
    } else {
        crate::chars::chars_le(a[0], b[0])
    }
}

/// The path order is total.
pub proof fn lemma_paths_le_total(a: Seq<Seq<char>>, b: Seq<Seq<char>>)
    ensures
        paths_le(a, b) || paths_le(b, a),
    decreases a.len(),
{
    if a.len() == 0 || b.len() == 0 {
    } else if a[0] == b[0] {
        lemma_paths_le_total(a.drop_first(), b.drop_first());
    } else {
        crate::chars::lemma_chars_le_total(a[0], b[0]);
    }
}

/// Whether path `a` sorts at or before path `b`.
#[verifier::loop_isolation(false)]
pub fn paths_le_exec(a: &Vec<String>, b: &Vec<String>) -> (r: bool)
    ensures
        r == paths_le(a.deep_view(), b.deep_view()),
{
    let ghost adv: Seq<Seq<char>> = a.deep_view();
    let ghost bdv: Seq<Seq<char>> = b.deep_view();
    let mut i: usize = 0;
    proof {
        assert(adv.skip(0) =~= adv);
        assert(bdv.skip(0) =~= bdv);
    }
    loop
        invariant
            0 <= i <= a@.len(),
            i <= b@.len(),
            adv.len() == a@.len(),
            bdv.len() == b@.len(),
            paths_le(adv, bdv) == paths_le(adv.skip(i as int), bdv.skip(i as int)),
        decreases a@.len() - i,
    {
        proof {
            if i < a@.len() && i < b@.len() {
                assert(adv.skip(i as int)[0] == adv[i as int]);
                assert(bdv.skip(i as int)[0] == bdv[i as int]);
                assert(adv[i as int] == a@[i as int]@);
                assert(bdv[i as int] == b@[i as int]@);
                assert(adv.skip(i as int).drop_first() =~= adv.skip(i + 1));
                assert(bdv.skip(i as int).drop_first() =~= bdv.skip(i + 1));
            }
        }
        if i == a.len() {
            return true;
        }
        if i == b.len() {
            return false;
        }
        if a[i] == b[i] {
            i = i + 1;
        } else {
            return crate::chars::str_le(a[i].as_str(), b[i].as_str());
        }
    }
}

/// Every adjacent pair of folders is in path order.
pub open spec fn folders_sorted_by_path(s: Seq<Folder>) -> bool {
    forall|i: int|
        0 <= i < s.len() - 1 ==> paths_le(
            #[trigger] s[i].path.deep_view(),
            s[i + 1].path.deep_view(),
        )
}

/// Sort folders by path, the order the listing presents them in: the result
/// holds exactly the same folders, in path order.
pub fn sort_folders_by_path(folders: Vec<Folder>) -> (r: Vec<Folder>)
    ensures
        folders_sorted_by_path(r@),
        r@.to_multiset() == folders@.to_multiset(),
{
    broadcast use vstd::seq_lib::group_to_multiset_ensures;
    broadcast use vstd::multiset::group_multiset_axioms;
    broadcast use vstd::multiset::lemma_multiset_empty_len;

    let mut work = folders;
    let mut out: Vec<Folder> = Vec::new();
    proof {
        assert(out@.to_multiset().len() == 0);
        assert(out@.to_multiset() =~= Multiset::<Folder>::empty());
        assert(out@.to_multiset().add(work@.to_multiset()) =~= folders@.to_multiset());
    }
    while work.len() > 0
        invariant
            folders_sorted_by_path(out@),
            out@.to_multiset().add(work@.to_multiset()) == folders@.to_multiset(),
        ensures
            work@.len() == 0,
            folders_sorted_by_path(out@),
            out@.to_multiset().add(work@.to_multiset()) == folders@.to_multiset(),
        decreases work@.len(),
    {
        let ghost work_before: Seq<Folder> = work@;
        let f = match work.pop() {
            Some(f) => f,
            None => {
                proof {
                    assert(false);
                }
                break ;
            },
        };
        proof {
            assert(work@.push(f) =~= work_before);
            vstd::seq_lib::to_multiset_build::<Folder>(work@, f);
            assert(work_before.to_multiset() == work@.to_multiset().insert(f));
        }
        let mut pos: usize = 0;
        loop
            invariant
                0 <= pos <= out@.len(),
                forall|j: int|
                    0 <= j < pos ==> paths_le(
                        #[trigger] out@[j].path.deep_view(),
                        f.path.deep_view(),
                    ),
            ensures
                0 <= pos <= out@.len(),
                forall|j: int|
                    0 <= j < pos ==> paths_le(
                        #[trigger] out@[j].path.deep_view(),
                        f.path.deep_view(),
                    ),
                pos < out@.len() ==> !paths_le(
                    out@[pos as int].path.deep_view(),
                    f.path.deep_view(),
                ),
            decreases out@.len() - pos,
        {
            if pos == out.len() {
                break ;
            }
            if !paths_le_exec(&out[pos].path, &f.path) {
                break ;
            }
            pos = pos + 1;
        }
        proof {
            if pos < out@.len() {
                lemma_paths_le_total(out@[pos as int].path.deep_view(), f.path.deep_view());
            }
        }
        let ghost out_before: Seq<Folder> = out@;
        let ghost fval: Folder = f;
        out.insert(pos, f);
        proof {
            assert(out@ == out_before.insert(pos as int, fval));
            vstd::seq_lib::to_multiset_insert::<Folder>(out_before, pos as int, fval);
            assert(out@.to_multiset() == out_before.to_multiset().insert(fval));
            assert(out@.to_multiset().add(work@.to_multiset()) =~= out_before.to_multiset().add(
                work_before.to_multiset(),
            ));
            assert(out@ =~= out_before.take(pos as int) + seq![fval] + out_before.skip(
                pos as int,
            ));
            assert forall|k: int| 0 <= k < out@.len() - 1 implies paths_le(
                #[trigger] out@[k].path.deep_view(),
                out@[k + 1].path.deep_view(),
            ) by {
                if k + 1 < pos {
                    assert(out@[k] == out_before[k]);
                    assert(out@[k + 1] == out_before[k + 1]);
                } else if k + 1 == pos {
                    assert(out@[k] == out_before[k]);
                    assert(out@[k + 1] == fval);
                } else if k == pos {
                    assert(out@[k] == fval);
                    assert(out@[k + 1] == out_before[k]);
                } else {
                    assert(out@[k] == out_before[k - 1]);
                    assert(out@[k + 1] == out_before[k]);
                }
            }
        }
    }
    proof {
        assert(work@.to_multiset().len() == 0);
        assert(work@.to_multiset() =~= Multiset::<Folder>::empty());
        assert(out@.to_multiset() =~= folders@.to_multiset());
    }
    out
}

} // verus!
