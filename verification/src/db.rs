//! The direct-store view of the notes database: opaque identifier
//! construction from primary keys, row-to-record conversion, and building
//! the folder list from the raw parent-pointer table. Opening the store and
//! running queries is an outside concern; these functions work on the rows.

use vstd::prelude::*;
use crate::chars::chars_to_string;
use crate::folders::FolderPathError;
use crate::folders::FolderRow;
use crate::folders::Walk;
use crate::folders::folder_path;
use crate::folders::walk;
use crate::model::Folder;
use crate::model::NoteSummary;

verus! {

/// The decimal digit character for `0 <= d <= 9`.
pub open spec fn dec_digit_char(d: int) -> char {
    (0x30 + d) as char
}

/// The decimal digits of a nonnegative number, most significant first.
pub open spec fn dec_u64_spec(n: int) -> Seq<char>
    decreases n,
{
    if n < 10 {
        seq![dec_digit_char(n)]
    } else {
        dec_u64_spec(n / 10).push(dec_digit_char(n % 10))
    }
}

/// The decimal rendition of a signed number.
pub open spec fn dec_i64_spec(n: int) -> Seq<char> {
    if n < 0 {
        seq!['-'] + dec_u64_spec(-n)
    } else {
        dec_u64_spec(n)
    }
}

/// The digits of a nonnegative number, most significant first.
fn dec_chars(n: u64) -> (r: Vec<char>)
    ensures
        r@ == dec_u64_spec(n as int),
    decreases n,
{
    if n < 10 {
        let mut v: Vec<char> = Vec::new();
        v.push((0x30u8 + n as u8) as char);
        proof {
            assert(v@ =~= seq![dec_digit_char(n as int)]);
        }
        v
    } else {
        proof {
            assert(n / 10 < n) by (nonlinear_arith)
                requires
                    n >= 10,
            ;
        }
        let mut v = dec_chars(n / 10);
        v.push((0x30u8 + (n % 10) as u8) as char);
        v
    }
}

/// Format a signed number in decimal.
pub fn fmt_i64(n: i64) -> (r: String)
    ensures
        r@ == dec_i64_spec(n as int),
{
    if n >= 0 {
        chars_to_string(&dec_chars(n as u64))
    } else {
        let magnitude: u64 = (-(n as i128)) as u64;
        let digits = dec_chars(magnitude);
        let mut v: Vec<char> = Vec::new();
        v.push('-');
        let mut i: usize = 0;
        while i < digits.len()
            invariant
                0 <= i <= digits@.len(),
                v@ == seq!['-'] + digits@.take(i as int),
            decreases digits@.len() - i,
        {
            v.push(digits[i]);
            assert(v@ =~= seq!['-'] + digits@.take(i + 1));
            i = i + 1;
        }
        proof {
            assert(digits@.take(digits@.len() as int) =~= digits@);
        }
        chars_to_string(&v)
    }
}

/// An opaque record identifier: the scheme, the store instance, the entity
/// kind, and the decimal primary key after a `p` marker.
pub open spec fn coredata_id_spec(uuid: Seq<char>, entity: Seq<char>, pk: int) -> Seq<char> {
    "x-coredata://"@ + uuid + "/"@ + entity + "/p"@ + dec_i64_spec(pk)
}

/// One opened notes store: where it lives on disk and the store-instance
/// identifier read from its metadata table. Opening the file and reading the
/// identifier is the runner's concern.
#[derive(Debug, Clone, PartialEq, Eq)]
pub struct NotesDb {
    pub path: String,
    pub store_uuid: String,
}

impl NotesDb {
    /// A handle on the store at `path` whose metadata names `store_uuid`.
    pub fn new(path: String, store_uuid: String) -> (r: NotesDb)
        ensures
            r.path == path,
            r.store_uuid == store_uuid,
    {
        NotesDb { path, store_uuid }
    }

    /// The opaque identifier of the note with this primary key.
    pub fn note_id(&self, pk: i64) -> (r: String)
        ensures
            r@ == coredata_id_spec(self.store_uuid@, "ICNote"@, pk as int),
    {
        let mut out = String::new();
        out.append("x-coredata://");
        out.append(self.store_uuid.as_str());
        out.append("/");
        out.append("ICNote");
        out.append("/p");
        out.append(fmt_i64(pk).as_str());
        out
    }

    /// The opaque identifier of the folder with this primary key.
    pub fn folder_id(&self, pk: i64) -> (r: String)
        ensures
            r@ == coredata_id_spec(self.store_uuid@, "ICFolder"@, pk as int),
    {
        let mut out = String::new();
        out.append("x-coredata://");
        out.append(self.store_uuid.as_str());
        out.append("/");
        out.append("ICFolder");
        out.append("/p");
        out.append(fmt_i64(pk).as_str());
        out
    }

    /// A listing record from one raw note row: a missing title reads as
    /// `Untitled`.
    pub fn note_summary_from_row(&self, pk: i64, title: Option<String>, folder_pk: i64) -> (r:
        NoteSummary)
        ensures
            r.id@ == coredata_id_spec(self.store_uuid@, "ICNote"@, pk as int),
            r.title@ == (match title {
                Some(t) => t@,
                None => "Untitled"@,
            }),
            r.folder_id@ == coredata_id_spec(self.store_uuid@, "ICFolder"@, folder_pk as int),
    {
        let t = match title {
            Some(t) => t,
            None => {
                let mut u = String::new();
                u.append("Untitled");
                u
            },
        };
        NoteSummary { id: self.note_id(pk), title: t, folder_id: self.folder_id(folder_pk) }
    }

    /// Build the folder list from the raw parent-pointer table, in row
    /// order: each folder's path is resolved by walking parent pointers, a
    /// cycle is a fatal error, and a dangling parent truncates that folder's
    /// path rather than failing the listing.
    #[verifier::loop_isolation(false)]
    pub fn folders_from_rows(&self, account: &str, rows: &Vec<FolderRow>) -> (r: Result<
        Vec<Folder>,
        FolderPathError,
    >)
        ensures
            r is Ok <==> (forall|i: int|
                0 <= i < rows@.len() ==> walk(rows@, #[trigger] rows@[i].pk, Set::empty())
                    is Path),
            r is Ok ==> r->Ok_0@.len() == rows@.len() && (forall|i: int|
                0 <= i < rows@.len() ==> {
                    let f = #[trigger] r->Ok_0@[i];
                    &&& f.id@ == coredata_id_spec(
                        self.store_uuid@,
                        "ICFolder"@,
                        rows@[i].pk as int,
                    )
                    &&& f.name@ == rows@[i].name@
                    &&& f.account@ == account@
                    &&& f.path.deep_view() == walk(rows@, rows@[i].pk, Set::empty())->Path_0
                }),
            r is Err ==> exists|i: int|
                0 <= i < rows@.len() && walk_failed_with(
                    walk(rows@, #[trigger] rows@[i].pk, Set::empty()),
                    r->Err_0,
                ) && (forall|j: int|
                    0 <= j < i ==> walk(rows@, #[trigger] rows@[j].pk, Set::empty()) is Path),
    {
        let mut out: Vec<Folder> = Vec::new();
        let mut i: usize = 0;
        while i < rows.len()
            invariant
                0 <= i <= rows@.len(),
                out@.len() == i,
                forall|j: int|
                    0 <= j < i ==> walk(rows@, #[trigger] rows@[j].pk, Set::empty()) is Path,
                forall|j: int|
                    0 <= j < i ==> {
                        let f = #[trigger] out@[j];
                        &&& f.id@ == coredata_id_spec(
                            self.store_uuid@,
                            "ICFolder"@,
                            rows@[j].pk as int,
                        )
                        &&& f.name@ == rows@[j].name@
                        &&& f.account@ == account@
                        &&& f.path.deep_view() == walk(rows@, rows@[j].pk, Set::empty())->Path_0
                    },
            decreases rows@.len() - i,
        {
            let path = match folder_path(rows, rows[i].pk) {
                Ok(p) => p,
                Err(e) => {
                    return Err(e);
                },
            };
            let mut account_s = String::new();
            account_s.append(account);
            let f = Folder {
                id: self.folder_id(rows[i].pk),
                name: rows[i].name.clone(),
                account: account_s,
                path,
            };
            out.push(f);
            i = i + 1;
        }
        Ok(out)
    }
}

/// The walk outcome that this error reports.
pub open spec fn walk_failed_with(w: Walk, e: FolderPathError) -> bool {
    match w {
        Walk::Cycle(c) => e == FolderPathError::Cycle(c),
        Walk::Unknown(c) => e == FolderPathError::Unknown(c),
        Walk::Path(_) => false,
    }
}

} // verus!
