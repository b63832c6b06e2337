//! The export planner: worker-count validation, target directory names, the
//! fully materialized per-note export unit, and the bookkeeping state machine
//! that a concurrent or sequential runner drives.

use vstd::prelude::*;
use crate::chars::str_to_chars;
use crate::chars::chars_to_string;
use crate::chars::trim_spec;
use crate::chars::trim_chars;
use crate::folders::FolderIndex;
use crate::model::Folder;
use crate::folders::lookup_folder;
use crate::ids::last_segment;
use crate::ids::tail_after_last_slash;
use crate::json::json_string_spec;
use crate::json::json_string;
use crate::json::json_string_array_spec;
use crate::json::json_string_array;
use crate::model::BackupNoteMetadata;
use crate::model::Note;
use crate::render::note_markdown_spec;
use crate::render::note_to_markdown;
use crate::timestamp::rfc3339_of;
use crate::timestamp::format_rfc3339;

verus! {

/// Why an export could not be planned.
#[derive(Debug, Clone, PartialEq, Eq)]
pub enum ExportError {
    /// The requested worker count was zero.
    InvalidJobs,
    /// A note references a folder id that the index does not hold; fatal in
    /// the flavor that uses this planner.
    UnknownFolder { note_id: String, folder_id: String },
    /// A note's timestamp has no four-digit-year rendition.
    TimestampUnrepresentable { note_id: String },
}

/// The worker count actually used: the request, capped at sixteen.
pub open spec fn clamped_jobs_spec(jobs: int) -> int {
    if jobs > 16 {
        16
    } else {
        jobs
    }
}

/// Validate and cap the requested worker count: zero is a configuration
/// error, anything above sixteen runs with sixteen.
pub fn clamp_jobs(jobs: usize) -> (r: Result<usize, ExportError>)
    ensures
        r is Ok <==> jobs >= 1,
        r is Ok ==> r->Ok_0 as int == clamped_jobs_spec(jobs as int),
        r is Err ==> r->Err_0 == ExportError::InvalidJobs,
{
    if jobs == 0 {
        Err(ExportError::InvalidJobs)
    } else if jobs > 16 {
        Ok(16)
    } else {
        Ok(jobs)
    }
}

/// A title cut down for display: trimmed, and shortened to sixty characters
/// plus an ellipsis where longer.
pub open spec fn truncate_title_spec(title: Seq<char>) -> Seq<char> {
    let t = trim_spec(title);
    if t.len() <= 60 {
        t
    } else {
        t.take(60).push('…')
    }
}

/// Cut a title down for display to at most sixty-one characters.
pub fn truncate_title(title: &str) -> (r: String)
    ensures
        r@ == truncate_title_spec(title@),
{
    let chars = str_to_chars(title);
    let mut t = trim_chars(&chars);
    if t.len() <= 60 {
        chars_to_string(&t)
    } else {
        t.truncate(60);
        t.push('…');
        proof {
            assert(t@ =~= trim_spec(title@).take(60).push('…'));
        }
        chars_to_string(&t)
    }
}

/// What the filename sanitizer yields for this component: a function of the
/// input characters alone.
pub uninterp spec fn sanitized_of(name: Seq<char>) -> Seq<char>;

/// Relies on sanitize_filename::sanitize with default options: the sanitized
/// component is a function of the input characters alone.
#[verifier::external_body]
fn sanitize_component(name: &str) -> (r: String)
    ensures
        r@ == sanitized_of(name@),
{
    sanitize_filename::sanitize(name)
}

/// The directory name for one note: the trimmed title (or `Untitled` when
/// empty), capped at eighty characters and sanitized, then a dash and the
/// trailing segment of the note's opaque id.
pub open spec fn dir_name_spec(title: Seq<char>, note_id: Seq<char>) -> Seq<char> {
    let t = trim_spec(title);
    let base = if t.len() == 0 {
        "Untitled"@
    } else {
        t
    };
    let capped = if base.len() > 80 {
        base.take(80)
    } else {
        base
    };
    sanitized_of(capped) + "-"@ + last_segment(note_id)
}

/// The directory name for one note, safe for the filesystem and still
/// carrying the id suffix that keeps names unique.
pub fn note_dir_name(title: &str, note_id: &str) -> (r: String)
    ensures
        r@ == dir_name_spec(title@, note_id@),
{
    let chars = str_to_chars(title);
    let trimmed = trim_chars(&chars);
    let mut base = if trimmed.len() == 0 {
        str_to_chars("Untitled")
    } else {
        trimmed
    };
    if base.len() > 80 {
        base.truncate(80);
    }
    let sanitized = sanitize_component(chars_to_string(&base).as_str());
    let id_chars = str_to_chars(note_id);
    let segment = tail_after_last_slash(&id_chars);
    let mut out = String::new();
    out.append(sanitized.as_str());
    out.append("-");
    out.append(chars_to_string(&segment).as_str());
    out
}

/// The path segments for the folder path, each sanitized, each preceded by a
/// separator.
pub open spec fn path_segments_spec(parts: Seq<Seq<char>>) -> Seq<char>
    decreases parts.len(),
{
    if parts.len() == 0 {
        Seq::empty()
    } else {
        "/"@ + sanitized_of(parts[0]) + path_segments_spec(parts.drop_first())
    }
}

/// The full target directory for one note: the output root, the sanitized
/// folder path, and the note's own directory name.
pub open spec fn export_path_spec(
    root: Seq<char>,
    parts: Seq<Seq<char>>,
    title: Seq<char>,
    note_id: Seq<char>,
) -> Seq<char> {
    root + path_segments_spec(parts) + "/"@ + dir_name_spec(title, note_id)
}

/// Compute the target directory for one note under the output root.
#[verifier::loop_isolation(false)]
pub fn export_path(root: &str, folder_path: &Vec<String>, title: &str, note_id: &str) -> (r:
    String)
    ensures
        r@ == export_path_spec(root@, folder_path.deep_view(), title@, note_id@),
{
    let ghost dv: Seq<Seq<char>> = folder_path.deep_view();
    let mut out = String::new();
    out.append(root);
    let mut i: usize = 0;
    proof {
        assert(dv.skip(0) =~= dv);
    }
    while i < folder_path.len()
        invariant
            0 <= i <= folder_path@.len(),
            out@ + path_segments_spec(dv.skip(i as int)) == root@ + path_segments_spec(dv),
        decreases folder_path@.len() - i,
    {
        let ghost rest: Seq<Seq<char>> = dv.skip(i as int);
        let ghost out_before: Seq<char> = out@;
        proof {
            assert(rest[0] == dv[i as int]);
            assert(dv[i as int] == folder_path@[i as int]@);
            assert(rest.drop_first() =~= dv.skip(i + 1));
        }
        out.append("/");
        let part = sanitize_component(folder_path[i].as_str());
        out.append(part.as_str());
        proof {
            assert(out@ =~= out_before + ("/"@ + sanitized_of(rest[0])));
            assert(out@ + path_segments_spec(dv.skip(i + 1)) =~= out_before + path_segments_spec(
                rest,
            ));
        }
        i = i + 1;
    }
    proof {
        assert(dv.skip(dv.len() as int).len() == 0);
        assert(out@ + path_segments_spec(dv.skip(dv.len() as int)) =~= out@);
    }
    out.append("/");
    let dir = note_dir_name(title, note_id);
    out.append(dir.as_str());
    out
}

/// The metadata sidecar object, pretty-printed with two-space indentation.
pub open spec fn metadata_json_spec(
    id: Seq<char>,
    title: Seq<char>,
    account: Seq<char>,
    folder_path: Seq<Seq<char>>,
    created: Seq<char>,
    modified: Seq<char>,
) -> Seq<char> {
    "{\n  \"id\": "@ + json_string_spec(id) + ",\n  \"title\": "@ + json_string_spec(title)
        + ",\n  \"account\": "@ + json_string_spec(account) + ",\n  \"folder_path\": "@
        + json_string_array_spec(folder_path) + ",\n  \"created_at\": "@ + json_string_spec(
        created,
    ) + ",\n  \"modified_at\": "@ + json_string_spec(modified) + "\n}"@
}

/// Serialize the metadata sidecar, or nothing where a timestamp has no
/// four-digit-year rendition.
pub fn metadata_json(meta: &BackupNoteMetadata) -> (r: Option<String>)
    ensures
        match (rfc3339_of(meta.created_at), rfc3339_of(meta.modified_at)) {
            (Some(c), Some(m)) => r is Some && r->0@ == metadata_json_spec(
                meta.id@,
                meta.title@,
                meta.account@,
                meta.folder_path.deep_view(),
                c,
                m,
            ),
            _ => r is None,
        },
{
    let created = match format_rfc3339(meta.created_at) {
        Some(c) => c,
        None => {
            return None;
        },
    };
    let modified = match format_rfc3339(meta.modified_at) {
        Some(m) => m,
        None => {
            return None;
        },
    };
    let mut out = String::new();
    out.append("{\n  \"id\": ");
    out.append(json_string(meta.id.as_str()).as_str());
    out.append(",\n  \"title\": ");
    out.append(json_string(meta.title.as_str()).as_str());
    out.append(",\n  \"account\": ");
    out.append(json_string(meta.account.as_str()).as_str());
    out.append(",\n  \"folder_path\": ");
    out.append(json_string_array(&meta.folder_path).as_str());
    out.append(",\n  \"created_at\": ");
    out.append(json_string(created.as_str()).as_str());
    out.append(",\n  \"modified_at\": ");
    out.append(json_string(modified.as_str()).as_str());
    out.append("\n}");
    Some(out)
}

/// The fully materialized output for one note: the target directory, the
/// metadata sidecar, the rendered markdown, and the verbatim body markup
/// where HTML inclusion was requested.
#[derive(Debug, Clone, PartialEq, Eq)]
pub struct ExportUnit {
    pub note_dir: String,
    pub metadata_json: String,
    pub contents_md: String,
    pub contents_html: Option<String>,
}

/// The mathematical content of one export unit.
pub struct ExportUnitView {
    pub note_dir: Seq<char>,
    pub metadata_json: Seq<char>,
    pub contents_md: Seq<char>,
    pub contents_html: Option<Seq<char>>,
}

impl View for ExportUnit {
    type V = ExportUnitView;

    open spec fn view(&self) -> ExportUnitView {
        ExportUnitView {
            note_dir: self.note_dir@,
            metadata_json: self.metadata_json@,
            contents_md: self.contents_md@,
            contents_html: match self.contents_html {
                Some(h) => Some(h@),
                None => None,
            },
        }
    }
}

/// The export unit for one note, or nothing where a timestamp has no RFC
/// 3339 rendition.
pub open spec fn unit_spec(
    account: Seq<char>,
    note: Note,
    path: Seq<Seq<char>>,
    out_dir: Seq<char>,
    include_html: bool,
) -> Option<ExportUnitView> {
    match (rfc3339_of(note.created_at), rfc3339_of(note.modified_at)) {
        (Some(c), Some(m)) => Some(
            ExportUnitView {
                note_dir: export_path_spec(out_dir, path, note.title@, note.id@),
                metadata_json: metadata_json_spec(note.id@, note.title@, account, path, c, m),
                contents_md: note_markdown_spec(note.title@, note.body_html@),
                contents_html: if include_html {
                    Some(note.body_html@)
                } else {
                    None
                },
            },
        ),
        _ => None,
    }
}

/// An exact copy of a string list (string clones preserve the value).
fn clone_strings(v: &Vec<String>) -> (r: Vec<String>)
    ensures
        r@ == v@,
{
    let mut r: Vec<String> = Vec::new();
    let mut i: usize = 0;
    while i < v.len()
        invariant
            0 <= i <= v@.len(),
            r@ == v@.take(i as int),
        decreases v@.len() - i,
    {
        r.push(v[i].clone());
        assert(r@ =~= v@.take(i + 1));
        i = i + 1;
    }
    proof {
        assert(v@.take(v@.len() as int) =~= v@);
    }
    r
}

/// Materialize the export unit for one note: metadata sidecar, rendered
/// markdown, optional verbatim HTML, and the target directory.
pub fn build_export_unit(
    account: &str,
    out_dir: &str,
    folder_path: &Vec<String>,
    note: &Note,
    include_html: bool,
) -> (r: Result<ExportUnit, ExportError>)
    ensures
        match unit_spec(account@, *note, folder_path.deep_view(), out_dir@, include_html) {
            Some(u) => r is Ok && r->Ok_0@ == u,
            None => r is Err && r->Err_0 == (ExportError::TimestampUnrepresentable {
                note_id: note.id,
            }),
        },
{
    let contents_md = note_to_markdown(note);
    let meta = BackupNoteMetadata {
        id: note.id.clone(),
        title: note.title.clone(),
        account: {
            let mut a = String::new();
            a.append(account);
            a
        },
        folder_path: clone_strings(folder_path),
        created_at: note.created_at,
        modified_at: note.modified_at,
    };
    let serialized = match metadata_json(&meta) {
        Some(j) => j,
        None => {
            return Err(ExportError::TimestampUnrepresentable { note_id: note.id.clone() });
        },
    };
    let note_dir = export_path(out_dir, folder_path, note.title.as_str(), note.id.as_str());
    let contents_html = if include_html {
        Some(note.body_html.clone())
    } else {
        None
    };
    Ok(ExportUnit { note_dir, metadata_json: serialized, contents_md, contents_html })
}

/// The outcome of planning a whole export: every unit, or the index of the
/// first note that failed, with the reason.
pub enum PlanOutcome {
    Units(Seq<ExportUnitView>),
    UnknownFolder(int),
    BadTimestamp(int),
}

/// Plan the export units for all notes, in order; the first note whose
/// folder id does not resolve, or whose timestamps cannot be rendered, fails
/// the plan.
pub open spec fn units_spec(
    account: Seq<char>,
    notes: Seq<Note>,
    folders: Seq<Folder>,
    out_dir: Seq<char>,
    include_html: bool,
) -> PlanOutcome
    decreases notes.len(),
{
    if notes.len() == 0 {
        PlanOutcome::Units(Seq::empty())
    } else {
        let note = notes[0];
        match lookup_folder(folders, note.folder_id@) {
            None => PlanOutcome::UnknownFolder(0),
            Some(f) => match unit_spec(account, note, f.path.deep_view(), out_dir, include_html) {
                None => PlanOutcome::BadTimestamp(0),
                Some(u) => match units_spec(
                    account,
                    notes.drop_first(),
                    folders,
                    out_dir,
                    include_html,
                ) {
                    PlanOutcome::Units(us) => PlanOutcome::Units(seq![u] + us),
                    PlanOutcome::UnknownFolder(i) => PlanOutcome::UnknownFolder(i + 1),
                    PlanOutcome::BadTimestamp(i) => PlanOutcome::BadTimestamp(i + 1),
                },
            },
        }
    }
}

/// The views of a unit list.
pub open spec fn units_view(units: Seq<ExportUnit>) -> Seq<ExportUnitView> {
    units.map_values(|u: ExportUnit| u@)
}

/// A later outcome shifted behind an already-planned prefix.
pub open spec fn plan_prepend(
    prefix: Seq<ExportUnitView>,
    outcome: PlanOutcome,
    offset: int,
) -> PlanOutcome {
    match outcome {
        PlanOutcome::Units(us) => PlanOutcome::Units(prefix + us),
        PlanOutcome::UnknownFolder(i) => PlanOutcome::UnknownFolder(i + offset),
        PlanOutcome::BadTimestamp(i) => PlanOutcome::BadTimestamp(i + offset),
    }
}

/// Materialize the export units for all notes, in listing order. A folder id
/// that the index does not hold is fatal for this flavor, as is a timestamp
/// with no RFC 3339 rendition; the first failing note decides the error.
#[verifier::loop_isolation(false)]
pub fn build_export_units(
    account: &str,
    out_dir: &str,
    index: &FolderIndex,
    notes: &Vec<Note>,
    include_html: bool,
) -> (r: Result<Vec<ExportUnit>, ExportError>)
    ensures
        match units_spec(account@, notes@, index.entries(), out_dir@, include_html) {
            PlanOutcome::Units(us) => r is Ok && units_view(r->Ok_0@) == us,
            PlanOutcome::UnknownFolder(i) => r is Err && 0 <= i < notes@.len() && r->Err_0 == (
            ExportError::UnknownFolder {
                note_id: notes@[i].id,
                folder_id: notes@[i].folder_id,
            }),
            PlanOutcome::BadTimestamp(i) => r is Err && 0 <= i < notes@.len() && r->Err_0 == (
            ExportError::TimestampUnrepresentable { note_id: notes@[i].id }),
        },
{
    let ghost full: PlanOutcome = units_spec(
        account@,
        notes@,
        index.entries(),
        out_dir@,
        include_html,
    );
    let mut units: Vec<ExportUnit> = Vec::new();
    let mut i: usize = 0;
    proof {
        assert(notes@.skip(0) =~= notes@);
        assert(units_view(units@) =~= Seq::<ExportUnitView>::empty());
        match units_spec(account@, notes@, index.entries(), out_dir@, include_html) {
            PlanOutcome::Units(us) => {
                assert(Seq::<ExportUnitView>::empty() + us =~= us);
            },
            _ => {},
        }
    }
    while i < notes.len()
        invariant
            0 <= i <= notes@.len(),
            full == plan_prepend(
                units_view(units@),
                units_spec(
                    account@,
                    notes@.skip(i as int),
                    index.entries(),
                    out_dir@,
                    include_html,
                ),
                i as int,
            ),
        decreases notes@.len() - i,
    {
        let ghost rest: Seq<Note> = notes@.skip(i as int);
        let ghost units_before: Seq<ExportUnitView> = units_view(units@);
        proof {
            assert(rest[0] == notes@[i as int]);
            assert(rest.drop_first() =~= notes@.skip(i + 1));
        }
        let note = &notes[i];
        let path = match index.folder_path(note.folder_id.as_str()) {
            None => {
                return Err(
                    ExportError::UnknownFolder {
                        note_id: note.id.clone(),
                        folder_id: note.folder_id.clone(),
                    },
                );
            },
            Some(p) => p,
        };
        match build_export_unit(account, out_dir, &path, note, include_html) {
            Err(e) => {
                return Err(e);
            },
            Ok(u) => {
                let ghost uv: ExportUnitView = u@;
                units.push(u);
                proof {
                    assert(units_view(units@) =~= units_before.push(uv));
                    match units_spec(
                        account@,
                        notes@.skip(i + 1),
                        index.entries(),
                        out_dir@,
                        include_html,
                    ) {
                        PlanOutcome::Units(us) => {
                            assert(units_before.push(uv) + us =~= units_before + (seq![uv] + us));
                        },
                        _ => {},
                    }
                }
            },
        }
        i = i + 1;
    }
    proof {
        assert(notes@.skip(notes@.len() as int).len() == 0);
        match full {
            PlanOutcome::Units(us) => {
                assert(units_view(units@) + Seq::<ExportUnitView>::empty() =~= units_view(units@));
            },
            _ => {},
        }
    }
    Ok(units)
}

/// A plan together with the clamped worker count: worker count zero is
/// rejected before any work, and the units do not depend on it.
pub open spec fn plan_spec(
    jobs: int,
    account: Seq<char>,
    notes: Seq<Note>,
    folders: Seq<Folder>,
    out_dir: Seq<char>,
    include_html: bool,
) -> Option<(int, PlanOutcome)> {
    if jobs < 1 {
        None
    } else {
        Some(
            (
                clamped_jobs_spec(jobs),
                units_spec(account, notes, folders, out_dir, include_html),
            ),
        )
    }
}

/// Validate the worker count and materialize every export unit.
pub fn plan_export(
    jobs: usize,
    account: &str,
    out_dir: &str,
    index: &FolderIndex,
    notes: &Vec<Note>,
    include_html: bool,
) -> (r: Result<(usize, Vec<ExportUnit>), ExportError>)
    ensures
        jobs == 0 ==> r is Err && r->Err_0 == ExportError::InvalidJobs,
        jobs >= 1 ==> match units_spec(account@, notes@, index.entries(), out_dir@, include_html) {
            PlanOutcome::Units(us) => r is Ok && r->Ok_0.0 as int == clamped_jobs_spec(jobs as int)
                && units_view(r->Ok_0.1@) == us,
            _ => r is Err,
        },
{
    let workers = match clamp_jobs(jobs) {
        Ok(w) => w,
        Err(e) => {
            return Err(e);
        },
    };
    let units = match build_export_units(account, out_dir, index, notes, include_html) {
        Ok(us) => us,
        Err(e) => {
            return Err(e);
        },
    };
    Ok((workers, units))
}

/// Law: the planned units are the same for every valid worker count; only
/// the degree of parallelism changes, never what is written.
pub proof fn lemma_plan_independent_of_jobs(
    j1: int,
    j2: int,
    account: Seq<char>,
    notes: Seq<Note>,
    folders: Seq<Folder>,
    out_dir: Seq<char>,
    include_html: bool,
)
    requires
        j1 >= 1,
        j2 >= 1,
    ensures
        plan_spec(j1, account, notes, folders, out_dir, include_html) is Some,
        plan_spec(j2, account, notes, folders, out_dir, include_html) is Some,
        (plan_spec(j1, account, notes, folders, out_dir, include_html)->0).1 == (plan_spec(
            j2,
            account,
            notes,
            folders,
            out_dir,
            include_html,
        )->0).1,
{
}

/// The bookkeeping of one export run: how many units were handed to workers,
/// how many completions came back, whether the run is stopping, and the
/// index of the first failure. A runner drives it: `record_sent` when a unit
/// is handed out, `record_done` when a completion arrives, and it stops
/// handing out work once `should_stop` holds. Because `pending` falls by one
/// at every `record_done` and new work stops after a failure, a runner that
/// waits for exactly `pending()` completions performs a bounded number of
/// receives after cancellation.
pub struct ExportRun {
    sent: u64,
    completed: u64,
    stopped: bool,
    first_failure: Option<u64>,
}

impl ExportRun {
    /// How many units were handed out.
    pub closed spec fn spec_sent(self) -> u64 {
        self.sent
    }

    /// How many completions came back.
    pub closed spec fn spec_completed(self) -> u64 {
        self.completed
    }

    /// Whether the run is stopping (a completion reported failure).
    pub closed spec fn spec_stopped(self) -> bool {
        self.stopped
    }

    /// The completion index of the first failure, if any.
    pub closed spec fn spec_first_failure(self) -> Option<u64> {
        self.first_failure
    }

    /// Every completion belongs to a handed-out unit, the run stops at the
    /// first failure, and the first failure is a completion that happened.
    pub open spec fn wf(self) -> bool {
        &&& self.spec_completed() <= self.spec_sent()
        &&& (self.spec_first_failure() is Some <==> self.spec_stopped())
        &&& (self.spec_first_failure() is Some ==> self.spec_first_failure()->0
            < self.spec_completed())
    }

    /// A fresh run: nothing sent, nothing completed, not stopping.
    pub fn new() -> (r: ExportRun)
        ensures
            r.wf(),
            r.spec_sent() == 0,
            r.spec_completed() == 0,
            !r.spec_stopped(),
            r.spec_first_failure() is None,
    {
        ExportRun { sent: 0, completed: 0, stopped: false, first_failure: None }
    }

    /// Record that one unit was handed to a worker.
    pub fn record_sent(&mut self)
        requires
            old(self).wf(),
            old(self).spec_sent() < u64::MAX,
        ensures
            final(self).wf(),
            final(self).spec_sent() == old(self).spec_sent() + 1,
            final(self).spec_completed() == old(self).spec_completed(),
            final(self).spec_stopped() == old(self).spec_stopped(),
            final(self).spec_first_failure() == old(self).spec_first_failure(),
    {
        self.sent = self.sent + 1;
    }

    /// Record one completion. A failure stops the run; the first failure's
    /// index is kept and never replaced, so the error the caller sees is the
    /// first one that occurred.
    pub fn record_done(&mut self, ok: bool)
        requires
            old(self).wf(),
            old(self).spec_completed() < old(self).spec_sent(),
        ensures
            final(self).wf(),
            final(self).spec_sent() == old(self).spec_sent(),
            final(self).spec_completed() == old(self).spec_completed() + 1,
            final(self).spec_stopped() == (old(self).spec_stopped() || !ok),
            final(self).spec_first_failure() == (if old(self).spec_first_failure() is Some {
                old(self).spec_first_failure()
            } else if !ok {
                Some(old(self).spec_completed())
            } else {
                None::<u64>
            }),
    {
        if !ok && self.first_failure.is_none() {
            self.first_failure = Some(self.completed);
            self.stopped = true;
        }
        self.completed = self.completed + 1;
    }

    /// How many handed-out units have not reported back yet. A runner drains
    /// exactly this many completions before returning.
    pub fn pending(&self) -> (r: u64)
        requires
            self.wf(),
        ensures
            r == self.spec_sent() - self.spec_completed(),
    {
        self.sent - self.completed
    }

    /// Whether the producer should stop handing out new units.
    pub fn should_stop(&self) -> (r: bool)
        ensures
            r == self.spec_stopped(),
    {
        self.stopped
    }

    /// How many units were handed out.
    pub fn sent_count(&self) -> (r: u64)
        ensures
            r == self.spec_sent(),
    {
        self.sent
    }

    /// How many completions came back.
    pub fn completed_count(&self) -> (r: u64)
        ensures
            r == self.spec_completed(),
    {
        self.completed
    }
}

/// The folder path used by the direct-store flavor: the resolved path, or
/// the sentinel single-element `Unknown` path when the id does not resolve —
/// that flavor keeps exporting rather than failing the run.
pub fn folder_path_or_unknown(index: &FolderIndex, folder_id: &str) -> (r: Vec<String>)
    ensures
        match lookup_folder(index.entries(), folder_id@) {
            Some(f) => r.deep_view() == f.path.deep_view(),
            None => r.deep_view() == seq!["Unknown"@],
        },
{
    match index.folder_path(folder_id) {
        Some(p) => p,
        None => {
            let mut sentinel = String::new();
            sentinel.append("Unknown");
            let mut path: Vec<String> = Vec::new();
            path.push(sentinel);
            proof {
                assert(path.deep_view() =~= seq!["Unknown"@]);
            }
            path
        },
    }
}

/// The export unit of the direct-store flavor: the markdown was decoded from
/// the raw blob and the optional HTML fetched separately, so both pass
/// through; only the metadata and target directory are computed here.
pub fn build_db_export_unit(
    account: &str,
    out_dir: &str,
    folder_path: &Vec<String>,
    note_id: &str,
    title: &str,
    created_at: i64,
    modified_at: i64,
    contents_md: String,
    contents_html: Option<String>,
) -> (r: Result<ExportUnit, ExportError>)
    ensures
        match (rfc3339_of(created_at), rfc3339_of(modified_at)) {
            (Some(c), Some(m)) => r is Ok && r->Ok_0@ == (ExportUnitView {
                note_dir: export_path_spec(out_dir@, folder_path.deep_view(), title@, note_id@),
                metadata_json: metadata_json_spec(
                    note_id@,
                    title@,
                    account@,
                    folder_path.deep_view(),
                    c,
                    m,
                ),
                contents_md: contents_md@,
                contents_html: match contents_html {
                    Some(h) => Some(h@),
                    None => None,
                },
            }),
            _ => r is Err && r->Err_0 matches ExportError::TimestampUnrepresentable { .. },
        },
{
    let meta = BackupNoteMetadata {
        id: {
            let mut v = String::new();
            v.append(note_id);
            v
        },
        title: {
            let mut v = String::new();
            v.append(title);
            v
        },
        account: {
            let mut v = String::new();
            v.append(account);
            v
        },
        folder_path: clone_strings(folder_path),
        created_at,
        modified_at,
    };
    let serialized = match metadata_json(&meta) {
        Some(j) => j,
        None => {
            return Err(
                ExportError::TimestampUnrepresentable {
                    note_id: {
                        let mut v = String::new();
                        v.append(note_id);
                        v
                    },
                },
            );
        },
    };
    let note_dir = export_path(out_dir, folder_path, title, note_id);
    Ok(ExportUnit { note_dir, metadata_json: serialized, contents_md, contents_html })
}

} // verus!
