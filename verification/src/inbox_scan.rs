//! Finding the files that wait in the inbox: which source-type directories
//! are scanned, which entries count as pending files, and the decisions of
//! one scan.

use vstd::prelude::*;
use crate::file_stage::{join_path3, lemma_start_shape_roundtrip, safe_component, stage_target, StageAction};
use crate::text::{
    chars_of, slash_free, ends_with, ends_with_text, join3_text, lemma_bytes_le_total, lemma_bytes_le_trans, lemma_text_le_refl, same_text,
    text_le, text_le_exec,
};
use crate::json::{pretty_json_rows, render_rows};
use crate::tool_result::ToolResult;

verus! {

broadcast use vstd::seq_lib::group_to_multiset_ensures;

/// The stage directories, which are never source types.
pub open spec fn reserved_dir(name: Seq<char>) -> bool {
    name == "processing"@ || name == "processed"@ || name == "failed"@
}

/// One entry of the inbox root directory.
pub struct InboxEntry {
    pub name: String,
    /// The entry's metadata could be read and it is a directory.
    pub is_dir: bool,
}

/// The texts of a list of strings.
pub open spec fn names_view(v: Seq<String>) -> Seq<Seq<char>> {
    v.map_values(|s: String| s@)
}

/// `name` is among the requested source types, or no list was given.
pub open spec fn wanted(types: Option<Vec<String>>, name: Seq<char>) -> bool {
    match types {
        None => true,
        Some(t) => names_view(t@).contains(name),
    }
}

/// An inbox entry names a source-type directory to scan.
pub open spec fn selectable(entry: InboxEntry, types: Option<Vec<String>>) -> bool {
    entry.is_dir && !reserved_dir(entry.name@) && wanted(types, entry.name@)
}

/// The names of the entries that are source-type directories to scan, in
/// listing order.
pub open spec fn selected_names(entries: Seq<InboxEntry>, types: Option<Vec<String>>) -> Seq<String>
    decreases entries.len(),
{
    if entries.len() == 0 {
        Seq::<String>::empty()
    } else {
        let rest = selected_names(entries.drop_last(), types);
        if selectable(entries.last(), types) {
            rest.push(entries.last().name)
        } else {
            rest
        }
    }
}

/// The names are in Rust's string order.
pub open spec fn names_sorted(names: Seq<String>) -> bool {
    forall|i: int, j: int| 0 <= i < j < names.len() ==> text_le(names[i]@, names[j]@)
}

/// Whether `name` is one of the stage directories.
pub fn is_reserved_dir(name: &str) -> (res: bool)
    ensures
        res == reserved_dir(name@),
{
    same_text(name, "processing") || same_text(name, "processed") || same_text(name, "failed")
}

/// Whether `name` is among the requested source types (any name is when none were requested).
pub fn is_wanted(types: &Option<Vec<String>>, name: &String) -> (res: bool)
    ensures
        res == wanted(*types, name@),
{
    match types {
        None => true,
        Some(t) => {
            let mut k: usize = 0;
            while k < t.len()
                invariant
                    *types == Some(*t),
                    k <= t.len(),
                    forall|j: int| 0 <= j < k ==> names_view(t@)[j] != name@,
                decreases t.len() - k,
            {
                if same_text(t[k].as_str(), name.as_str()) {
                    proof {
                        assert(names_view(t@)[k as int] == name@);
                    }
                    return true;
                }
                k = k + 1;
            }
            false
        },
    }
}

/// Insert `name` into the sorted list `names`, after every name that sorts no later.
fn insert_sorted(names: &mut Vec<String>, name: String)
    requires
        names_sorted(old(names)@),
    ensures
        names_sorted(final(names)@),
        final(names)@.to_multiset() == old(names)@.to_multiset().insert(name),
        forall|i: int| 0 <= i < final(names)@.len() ==> #[trigger] final(names)@[i] == name
            || old(names)@.contains(final(names)@[i]),
{
    let mut p: usize = 0;
    while p < names.len() && text_le_exec(names[p].as_str(), name.as_str())
        invariant
            p <= names.len(),
            names@ == old(names)@,
            forall|k: int| 0 <= k < p ==> text_le(#[trigger] names@[k]@, name@),
        decreases names.len() - p,
    {
        p = p + 1;
    }
    let ghost before = names@;
    let ghost added = name;
    names.insert(p, name);
    proof {
        let after = names@;
        assert forall|i: int| 0 <= i < after.len() implies #[trigger] after[i] == added || before.contains(after[i]) by {
            if i < p {
                assert(after[i] == before[i]);
            } else if i > p {
                assert(after[i] == before[i - 1]);
            }
        }
        assert forall|i: int, j: int| 0 <= i < j < after.len() implies text_le(after[i]@, after[j]@) by {
            if j < p {
                assert(after[i] == before[i] && after[j] == before[j]);
            } else if j == p {
                assert(after[i] == before[i]);
            } else if i == p {
                // name sorts before before[p], which sorts no later than before[j - 1]
                let e_name = vstd::utf8::encode_utf8(name@);
                let e_p = vstd::utf8::encode_utf8(before[p as int]@);
                let e_j = vstd::utf8::encode_utf8(before[j - 1]@);
                assert(!text_le(before[p as int]@, name@));
                lemma_bytes_le_total(e_p, e_name);
                if j - 1 > p {
                    assert(text_le(before[p as int]@, before[j - 1]@));
                    lemma_bytes_le_trans(e_name, e_p, e_j);
                }
                assert(after[j] == before[j - 1]);
            } else if i < p {
                assert(after[i] == before[i]);
                assert(after[j] == before[j - 1]);
            } else {
                assert(after[i] == before[i - 1]);
                assert(after[j] == before[j - 1]);
            }
        }
    }
}

/// The source-type directories to scan: the directory entries that are not
/// stage directories and, when a list of source types was requested, are on
/// it; sorted in Rust's string order.
pub fn select_source_dirs(entries: Vec<InboxEntry>, types: &Option<Vec<String>>) -> (res: Vec<String>)
    ensures
        names_sorted(res@),
        res@.to_multiset() == selected_names(entries@, *types).to_multiset(),
        forall|k: int| 0 <= k < res@.len() ==> !reserved_dir((#[trigger] res@[k])@) && wanted(*types, res@[k]@),
{
    let ghost all = entries@;
    let mut entries = entries;
    let mut sorted: Vec<String> = Vec::new();
    while entries.len() > 0
        invariant
            names_sorted(sorted@),
            entries@.len() <= all.len(),
            entries@ == all.take(entries@.len() as int),
            sorted@.to_multiset().add(selected_names(entries@, *types).to_multiset())
                == selected_names(all, *types).to_multiset(),
            forall|k: int| 0 <= k < sorted@.len() ==> !reserved_dir((#[trigger] sorted@[k])@) && wanted(*types, sorted@[k]@),
        decreases entries.len(),
    {
        let ghost rest = entries@;
        let entry = entries.pop().unwrap();
        proof {
            assert(entries@ =~= rest.drop_last());
            assert(all.take(entries@.len() as int) =~= rest.drop_last());
        }
        if entry.is_dir && !is_reserved_dir(entry.name.as_str()) && is_wanted(types, &entry.name) {
            let ghost s0 = sorted@;
            let ghost added = entry.name;
            insert_sorted(&mut sorted, entry.name);
            proof {
                assert forall|k: int| 0 <= k < sorted@.len() implies !reserved_dir((#[trigger] sorted@[k])@) && wanted(*types, sorted@[k]@) by {
                    if sorted@[k] != added {
                        let j = choose|j: int| 0 <= j < s0.len() && s0[j] == sorted@[k];
                        assert(s0[j] == sorted@[k]);
                    }
                }
                assert(selected_names(rest, *types) == selected_names(entries@, *types).push(entry.name));
                assert(sorted@.to_multiset().add(selected_names(entries@, *types).to_multiset())
                    =~= s0.to_multiset().add(selected_names(rest, *types).to_multiset()));
            }
        }
    }
    proof {
        assert(selected_names(entries@, *types) =~= Seq::<String>::empty());
        assert(sorted@.to_multiset() =~= sorted@.to_multiset().add(vstd::multiset::Multiset::empty()));
    }
    sorted
}

/// Entries that are never reported: hidden files, sidecar notes and error notes.
pub open spec fn skipped_name(name: Seq<char>) -> bool {
    ||| name.len() > 0 && name[0] == '.'
    ||| ends_with(name, ".sidecar.json"@)
    ||| ends_with(name, ".error.json"@)
}

/// Whether an entry name is never reported (hidden, sidecar or error note).
pub fn is_skipped_name(name: &str) -> (res: bool)
    ensures
        res == skipped_name(name@),
{
    let chars = chars_of(name);
    (chars.len() > 0 && chars[0] == '.') || ends_with_text(name, ".sidecar.json") || ends_with_text(name, ".error.json")
}

/// The number of files a scan reports at most: the requested limit when it
/// fits in a `usize`, five otherwise.
pub open spec fn scan_limit(limit: Option<u64>) -> usize {
    match limit {
        Some(v) => if v <= usize::MAX { v as usize } else { 5 },
        None => 5,
    }
}

/// A directory is wanted exactly when no list of source types was given, or
/// it equals one of the requested names, wherever that name stands in the list.
pub proof fn lemma_wanted_is_membership(types: Option<Vec<String>>, name: Seq<char>)
    ensures
        types is None ==> wanted(types, name),
        types matches Some(t) ==> (wanted(types, name) <==> exists|i: int| 0 <= i < t@.len() && #[trigger] t@[i]@ == name),
{
    match types {
        None => {},
        Some(t) => {
            let v = names_view(t@);
            if wanted(types, name) {
                let j = choose|j: int| 0 <= j < v.len() && v[j] == name;
                assert(t@[j]@ == name);
            }
            if exists|i: int| 0 <= i < t@.len() && #[trigger] t@[i]@ == name {
                let i = choose|i: int| 0 <= i < t@.len() && #[trigger] t@[i]@ == name;
                assert(v[i] == name);
            }
        },
    }
}

/// A name is never reported exactly when it begins with `'.'`, or its last
/// 13 characters are `.sidecar.json`, or its last 11 characters are
/// `.error.json`; so `import_error.json` is reported.
pub proof fn lemma_skipped_names(name: Seq<char>)
    ensures
        skipped_name(name) <==> {
            ||| name.len() > 0 && name[0] == '.'
            ||| name.len() >= 13 && name.subrange(name.len() - 13, name.len() as int) =~= seq!['.', 's', 'i', 'd', 'e', 'c', 'a', 'r', '.', 'j', 's', 'o', 'n']
            ||| name.len() >= 11 && name.subrange(name.len() - 11, name.len() as int) =~= seq!['.', 'e', 'r', 'r', 'o', 'r', '.', 'j', 's', 'o', 'n']
        },
{
    reveal_strlit(".sidecar.json");
    reveal_strlit(".error.json");
    assert(".sidecar.json"@ =~= seq!['.', 's', 'i', 'd', 'e', 'c', 'a', 'r', '.', 'j', 's', 'o', 'n']);
    assert(".error.json"@ =~= seq!['.', 'e', 'r', 'r', 'o', 'r', '.', 'j', 's', 'o', 'n']);
}

/// A limit that fits in a `usize` is the scan's limit unchanged; five is the
/// limit only when none, or one too large for a `usize`, was given.
pub proof fn lemma_scan_limit_keeps_given_limit(v: u64)
    ensures
        v <= usize::MAX ==> scan_limit(Some(v)) == v,
        v > usize::MAX ==> scan_limit(Some(v)) == 5,
        scan_limit(None) == 5,
{
}

/// The arguments of a scan call, as the caller supplied them.
pub struct InboxScanArgs {
    /// The `inbox_root` text, if one was given.
    pub inbox_root: Option<String>,
    /// The `limit`, if one was given as an unsigned integer.
    pub limit: Option<u64>,
    /// The `source_types` that are strings, if an array was given.
    pub source_types: Option<Vec<String>>,
}

/// A scan call with its defaults filled in.
pub struct ScanRequest {
    pub inbox_root: String,
    pub limit: usize,
    pub source_types: Option<Vec<String>>,
}

/// What the metadata of a directory entry says.
pub struct FileStat {
    pub is_file: bool,
    pub size_bytes: u64,
    /// Seconds since the Unix epoch, 0 when unknown.
    pub modified_unix: u64,
}

/// One pending file that a scan reports.
pub struct PendingFile {
    /// Workspace-relative path: `{inbox_root}/{source_type}/{filename}`.
    pub path: String,
    pub filename: String,
    pub source_type: String,
    pub size_bytes: u64,
    pub modified_unix: u64,
}

impl PendingFile {
    /// The file is one that a scan for `request` may report.
    pub open spec fn reportable(&self, request: ScanRequest) -> bool {
        &&& !reserved_dir(self.source_type@)
        &&& wanted(request.source_types, self.source_type@)
        &&& !skipped_name(self.filename@)
        &&& self.path@ == join_path3(request.inbox_root@, self.source_type@, self.filename@)
    }
}

/// A scan result: at most `limit` files, each reportable, grouped by source
/// type in Rust's string order.
pub open spec fn scan_result(request: ScanRequest, files: Seq<PendingFile>) -> bool {
    &&& files.len() <= request.limit
    &&& forall|i: int| 0 <= i < files.len() ==> (#[trigger] files[i]).reportable(request)
    &&& forall|i: int, j: int| 0 <= i < j < files.len() ==> text_le(files[i].source_type@, files[j].source_type@)
}

/// What a scan call is waiting for.
pub enum ScanPhase {
    CheckingRateLimit,
    CheckingRoot,
    RecordingAction,
    ListingInbox,
    OpeningDir,
    ReadingDir,
    /// The entry with this name is being looked at.
    StatingEntry(String),
    /// The entry with this name, its metadata and its workspace-relative path are being resolved.
    ResolvingEntry(String, FileStat, String),
}

/// A scan call in progress: the source-type directories to scan, the one
/// being scanned, and the files found so far.
pub struct InboxScanRun {
    pub request: ScanRequest,
    pub dirs: Vec<String>,
    pub dir_index: usize,
    pub files: Vec<PendingFile>,
    pub phase: ScanPhase,
}

/// The outside work a scan asks for next.
pub enum ScanCommand {
    /// Is the caller over its hourly action limit? Answered by `Verdict(passed)`.
    CheckRateLimit,
    /// Does the security policy allow this inbox root? Answered by `Verdict`.
    CheckRootAllowed(String),
    /// Spend one action of the budget. Answered by `Verdict`.
    RecordAction,
    /// List the entries of this inbox root. Answered by `Listing`.
    ListInbox(String),
    /// Open the directory `{inbox_root}/{source_type}` for reading. Answered by `Opened`.
    OpenSourceDir(String, String),
    /// Read the next entry of the open directory. Answered by `Entry`.
    NextEntry,
    /// Read the metadata of the entry just read. Answered by `Stat`.
    StatEntry,
    /// Resolve this workspace-relative path and check that it stays inside
    /// the workspace. Answered by `Resolved`.
    ResolveEntry(String),
}

/// The answer to a scan command.
pub enum ScanReply {
    /// The check passed (not rate limited, allowed, action recorded).
    Verdict(bool),
    /// The inbox entries, or `None` when the inbox root cannot be read.
    Listing(Option<Vec<InboxEntry>>),
    /// The directory could be opened.
    Opened(bool),
    /// The next entry's name, or `None` at the end of the directory or on a read error.
    Entry(Option<String>),
    /// The entry's metadata, or `None` when it cannot be read.
    Stat(Option<FileStat>),
    /// The path resolved and lies inside the workspace.
    Resolved(bool),
}

/// The outcome of one step of a scan call.
pub enum ScanStep {
    Next(InboxScanRun, ScanCommand),
    /// The call is refused.
    Refuse(ToolResult),
    /// The call ends with these pending files.
    Done(Vec<PendingFile>),
}

impl InboxScanRun {
    /// The reply is of the kind that the run's last command asks for.
    pub open spec fn awaits(&self, reply: ScanReply) -> bool {
        match self.phase {
            ScanPhase::CheckingRateLimit | ScanPhase::CheckingRoot | ScanPhase::RecordingAction => reply is Verdict,
            ScanPhase::ListingInbox => reply is Listing,
            ScanPhase::OpeningDir => reply is Opened,
            ScanPhase::ReadingDir => reply is Entry,
            ScanPhase::StatingEntry(_) => reply is Stat,
            ScanPhase::ResolvingEntry(_, _, _) => reply is Resolved,
        }
    }

    /// The run is scanning its source-type directories.
    pub open spec fn scanning(&self) -> bool {
        self.phase is OpeningDir || self.phase is ReadingDir || self.phase is StatingEntry
            || self.phase is ResolvingEntry
    }

    /// What every run that `begin` and `step` produce satisfies.
    pub open spec fn wf(&self) -> bool {
        let req = self.request;
        &&& names_sorted(self.dirs@)
        &&& forall|k: int| 0 <= k < self.dirs@.len()
            ==> !reserved_dir((#[trigger] self.dirs@[k])@) && wanted(req.source_types, self.dirs@[k]@)
        &&& scan_result(req, self.files@)
        &&& !self.scanning() ==> self.files@.len() == 0
        &&& self.scanning() ==> {
            &&& self.dir_index < self.dirs@.len()
            &&& forall|i: int| 0 <= i < self.files@.len()
                ==> text_le((#[trigger] self.files@[i]).source_type@, self.dirs@[self.dir_index as int]@)
        }
        &&& match self.phase {
            ScanPhase::StatingEntry(name) => !skipped_name(name@) && self.files@.len() < req.limit,
            ScanPhase::ResolvingEntry(name, stat, path) => {
                &&& self.files@.len() < req.limit
                &&& !skipped_name(name@)
                &&& stat.is_file
                &&& path@ == join_path3(req.inbox_root@, self.dirs@[self.dir_index as int]@, name@)
            },
            _ => true,
        }
    }
}

impl ScanStep {
    /// The call goes on with everything but the phase unchanged.
    pub open spec fn goes_on(self, run: InboxScanRun, phase: ScanPhase) -> bool {
        self matches ScanStep::Next(r, _) && {
            &&& r.request == run.request
            &&& r.dirs == run.dirs
            &&& r.dir_index == run.dir_index
            &&& r.files == run.files
            &&& r.phase == phase
        }
    }

    /// The command of a step that goes on.
    pub open spec fn command(self) -> ScanCommand
        recommends
            self is Next,
    {
        self->Next_1
    }

    /// The call ends, refused with message `msg`.
    pub open spec fn refuses(self, msg: Seq<char>) -> bool {
        self matches ScanStep::Refuse(r) && r.is_refusal(msg)
    }

    /// The call ends with `files`.
    pub open spec fn ends_with_files(self, files: Seq<PendingFile>) -> bool {
        self matches ScanStep::Done(f) && f@ == files
    }

    /// The run goes on to open its next source-type directory, or ends with
    /// its files when there is none.
    pub open spec fn moves_to_next_dir(self, run: InboxScanRun) -> bool {
        if run.dir_index + 1 < run.dirs@.len() {
            self matches ScanStep::Next(r, ScanCommand::OpenSourceDir(root, source_type)) && {
                &&& r.request == run.request
                &&& r.dirs == run.dirs
                &&& r.files == run.files
                &&& r.dir_index == run.dir_index + 1
                &&& r.phase is OpeningDir
                &&& root@ == run.request.inbox_root@
                &&& source_type@ == run.dirs@[run.dir_index + 1]@
            }
        } else {
            self.ends_with_files(run.files@)
        }
    }
}

/// One step of a scan call: `run` receives `reply` to its last command.
pub open spec fn scan_transition(run: InboxScanRun, reply: ScanReply, res: ScanStep) -> bool {
    let req = run.request;
    match run.phase {
        ScanPhase::CheckingRateLimit => if reply == ScanReply::Verdict(true) {
            &&& res.goes_on(run, ScanPhase::CheckingRoot)
            &&& res.command() matches ScanCommand::CheckRootAllowed(root) && root@ == req.inbox_root@
        } else {
            res.refuses("Rate limit exceeded: too many actions in the last hour"@)
        },
        ScanPhase::CheckingRoot => if reply == ScanReply::Verdict(true) {
            res.goes_on(run, ScanPhase::RecordingAction) && res.command() is RecordAction
        } else {
            res.refuses("inbox_root path not allowed: "@ + req.inbox_root@)
        },
        ScanPhase::RecordingAction => if reply == ScanReply::Verdict(true) {
            &&& res.goes_on(run, ScanPhase::ListingInbox)
            &&& res.command() matches ScanCommand::ListInbox(root) && root@ == req.inbox_root@
        } else {
            res.refuses("Rate limit exceeded: action budget exhausted"@)
        },
        ScanPhase::ListingInbox => match reply {
            ScanReply::Listing(Some(entries)) => {
                let selected = selected_names(entries@, req.source_types);
                if selected.len() == 0 {
                    res.ends_with_files(run.files@)
                } else {
                    res matches ScanStep::Next(r, ScanCommand::OpenSourceDir(root, source_type)) && {
                        &&& r.request == req
                        &&& r.files == run.files
                        &&& r.dir_index == 0
                        &&& r.phase is OpeningDir
                        &&& names_sorted(r.dirs@)
                        &&& r.dirs@.to_multiset() == selected.to_multiset()
                        &&& forall|k: int| 0 <= k < r.dirs@.len()
                            ==> !reserved_dir((#[trigger] r.dirs@[k])@) && wanted(req.source_types, r.dirs@[k]@)
                        &&& root@ == req.inbox_root@
                        &&& source_type@ == r.dirs@[0]@
                    }
                }
            },
            _ => res.ends_with_files(run.files@),
        },
        ScanPhase::OpeningDir => if reply == ScanReply::Opened(true) {
            res.goes_on(run, ScanPhase::ReadingDir) && res.command() is NextEntry
        } else {
            res.moves_to_next_dir(run)
        },
        ScanPhase::ReadingDir => match reply {
            ScanReply::Entry(Some(name)) => if run.files@.len() >= req.limit {
                res.ends_with_files(run.files@)
            } else if skipped_name(name@) {
                res.goes_on(run, ScanPhase::ReadingDir) && res.command() is NextEntry
            } else {
                res.goes_on(run, ScanPhase::StatingEntry(name)) && res.command() is StatEntry
            },
            _ => res.moves_to_next_dir(run),
        },
        ScanPhase::StatingEntry(name) => match reply {
            ScanReply::Stat(Some(stat)) => if stat.is_file && run.dir_index < run.dirs@.len() {
                res matches ScanStep::Next(r, ScanCommand::ResolveEntry(p)) && {
                    &&& r.request == req
                    &&& r.dirs == run.dirs
                    &&& r.dir_index == run.dir_index
                    &&& r.files == run.files
                    &&& r.phase matches ScanPhase::ResolvingEntry(n, st, path) && {
                        &&& n == name
                        &&& st == stat
                        &&& path@ == join_path3(req.inbox_root@, run.dirs@[run.dir_index as int]@, name@)
                        &&& p@ == path@
                    }
                }
            } else {
                res.goes_on(run, ScanPhase::ReadingDir) && res.command() is NextEntry
            },
            _ => res.goes_on(run, ScanPhase::ReadingDir) && res.command() is NextEntry,
        },
        ScanPhase::ResolvingEntry(name, stat, path) => if reply == ScanReply::Resolved(true)
            && run.dir_index < run.dirs@.len() {
            res matches ScanStep::Next(r, ScanCommand::NextEntry) && {
                &&& r.request == req
                &&& r.dirs == run.dirs
                &&& r.dir_index == run.dir_index
                &&& r.phase is ReadingDir
                &&& r.files@.len() == run.files@.len() + 1
                &&& r.files@.drop_last() == run.files@
                &&& r.files@.last().path == path
                &&& r.files@.last().filename == name
                &&& r.files@.last().source_type@ == run.dirs@[run.dir_index as int]@
                &&& r.files@.last().size_bytes == stat.size_bytes
                &&& r.files@.last().modified_unix == stat.modified_unix
            }
        } else {
            res.goes_on(run, ScanPhase::ReadingDir) && res.command() is NextEntry
        },
    }
}

/// Lists the files waiting in the inbox's source-type directories.
pub struct InboxScanTool {}

/// The step that opens the directory after the current one, or ends the
/// scan with its files when there is none.
fn next_dir(run: InboxScanRun) -> (res: ScanStep)
    ensures
        res.moves_to_next_dir(run),
        run.wf() && run.scanning() ==> match res {
            ScanStep::Next(r, _) => r.wf(),
            ScanStep::Done(files) => scan_result(run.request, files@),
            ScanStep::Refuse(_) => false,
        },
{
    let InboxScanRun { request, dirs, dir_index, files, phase } = run;
    if dir_index < dirs.len() && dir_index + 1 < dirs.len() {
        let root = request.inbox_root.clone();
        let source_type = dirs[dir_index + 1].clone();
        let next = InboxScanRun { request, dirs, dir_index: dir_index + 1, files, phase: ScanPhase::OpeningDir };
        proof {
            if run.wf() && run.scanning() {
                assert forall|i: int| 0 <= i < next.files@.len()
                    implies text_le((#[trigger] next.files@[i]).source_type@, next.dirs@[next.dir_index as int]@) by {
                    let a = vstd::utf8::encode_utf8(next.files@[i].source_type@);
                    let b = vstd::utf8::encode_utf8(next.dirs@[dir_index as int]@);
                    let c = vstd::utf8::encode_utf8(next.dirs@[dir_index + 1]@);
                    assert(text_le(run.files@[i].source_type@, run.dirs@[dir_index as int]@));
                    assert(text_le(run.dirs@[dir_index as int]@, run.dirs@[dir_index + 1]@));
                    lemma_bytes_le_trans(a, b, c);
                }
            }
        }
        ScanStep::Next(next, ScanCommand::OpenSourceDir(root, source_type))
    } else {
        ScanStep::Done(files)
    }
}

impl InboxScanTool {
    /// Creates the tool.
    pub fn new() -> (res: InboxScanTool) {
        InboxScanTool {}
    }

    /// The tool's name.
    pub fn name(&self) -> (res: &'static str)
        ensures
            res@ == "inbox_scan"@,
    {
        "inbox_scan"
    }

    /// What the tool does, for the agent that calls it.
    pub fn description(&self) -> (res: &'static str)
        ensures
            res@ == "Scan inbox directories for unprocessed files. Returns a JSON array of pending files, each with path (workspace-relative), filename, source_type, size_bytes, and modified_unix timestamp. Files already in processing/, processed/, or failed/ are excluded. Use file_stage with action='start' to claim a file before reading it."@,
    {
        "Scan inbox directories for unprocessed files. Returns a JSON array of pending files, each with path (workspace-relative), filename, source_type, size_bytes, and modified_unix timestamp. Files already in processing/, processed/, or failed/ are excluded. Use file_stage with action='start' to claim a file before reading it."
    }

    /// Start a scan: the inbox root defaults to `inbox` and the limit to five.
    /// The first command asks whether the caller is rate limited.
    pub fn begin(&self, args: InboxScanArgs) -> (res: ScanStep)
        ensures
            res matches ScanStep::Next(run, ScanCommand::CheckRateLimit) && {
                &&& run.wf()
                &&& run.phase is CheckingRateLimit
                &&& run.request.inbox_root@ == match args.inbox_root {
                    Some(r) => r@,
                    None => "inbox"@,
                }
                &&& run.request.limit == scan_limit(args.limit)
                &&& (args.limit matches Some(v) ==> (v <= usize::MAX ==> run.request.limit == v))
                &&& args.limit is None ==> run.request.limit == 5
                &&& run.request.source_types == args.source_types
            },
    {
        let inbox_root = match args.inbox_root {
            Some(r) => r,
            None => "inbox".to_owned(),
        };
        let limit: usize = match args.limit {
            Some(v) => if (v as u128) <= (usize::MAX as u128) { v as usize } else { 5 },
            None => 5,
        };
        let request = ScanRequest { inbox_root, limit, source_types: args.source_types };
        let run = InboxScanRun {
            request,
            dirs: Vec::new(),
            dir_index: 0,
            files: Vec::new(),
            phase: ScanPhase::CheckingRateLimit,
        };
        ScanStep::Next(run, ScanCommand::CheckRateLimit)
    }

    /// Whether `reply` is of the kind that `run`'s last command asks for.
    pub fn expects(&self, run: &InboxScanRun, reply: &ScanReply) -> (res: bool)
        ensures
            res == run.awaits(*reply),
    {
        match run.phase {
            ScanPhase::CheckingRateLimit | ScanPhase::CheckingRoot | ScanPhase::RecordingAction => matches!(reply, ScanReply::Verdict(_)),
            ScanPhase::ListingInbox => matches!(reply, ScanReply::Listing(_)),
            ScanPhase::OpeningDir => matches!(reply, ScanReply::Opened(_)),
            ScanPhase::ReadingDir => matches!(reply, ScanReply::Entry(_)),
            ScanPhase::StatingEntry(_) => matches!(reply, ScanReply::Stat(_)),
            ScanPhase::ResolvingEntry(_, _, _) => matches!(reply, ScanReply::Resolved(_)),
        }
    }

    /// Advance a scan: `reply` answers the command of its last step.
    pub fn step(&self, run: InboxScanRun, reply: ScanReply) -> (res: ScanStep)
        requires
            run.awaits(reply),
        ensures
            scan_transition(run, reply, res),
            run.wf() ==> match res {
                ScanStep::Next(r, _) => r.wf(),
                ScanStep::Done(files) => scan_result(run.request, files@),
                ScanStep::Refuse(_) => true,
            },
    {
        match reply {
            ScanReply::Verdict(passed) => on_verdict(run, passed),
            ScanReply::Listing(listing) => on_listing(run, listing),
            ScanReply::Opened(opened) => on_opened(run, opened),
            ScanReply::Entry(entry) => on_entry(run, entry),
            ScanReply::Stat(stat) => on_stat(run, stat),
            ScanReply::Resolved(resolved) => on_resolved(run, resolved),
        }
    }
}

/// A scan step keeps the run well formed, and a scan that ends reports a valid result.
pub open spec fn keeps_wf(run: InboxScanRun, res: ScanStep) -> bool {
    run.wf() ==> match res {
        ScanStep::Next(r, _) => r.wf(),
        ScanStep::Done(files) => scan_result(run.request, files@),
        ScanStep::Refuse(_) => true,
    }
}

/// The answer to one of the three checks that come before the listing.
fn on_verdict(run: InboxScanRun, passed: bool) -> (res: ScanStep)
    requires
        run.awaits(ScanReply::Verdict(passed)),
    ensures
        scan_transition(run, ScanReply::Verdict(passed), res),
        keeps_wf(run, res),
{
    let InboxScanRun { request, dirs, dir_index, files, phase } = run;
    match phase {
        ScanPhase::CheckingRateLimit => if passed {
            let root = request.inbox_root.clone();
            ScanStep::Next(InboxScanRun { request, dirs, dir_index, files, phase: ScanPhase::CheckingRoot },
                ScanCommand::CheckRootAllowed(root))
        } else {
            ScanStep::Refuse(ToolResult::refusal("Rate limit exceeded: too many actions in the last hour".to_owned()))
        },
        ScanPhase::CheckingRoot => if passed {
            ScanStep::Next(InboxScanRun { request, dirs, dir_index, files, phase: ScanPhase::RecordingAction },
                ScanCommand::RecordAction)
        } else {
            let msg = crate::text::concat2("inbox_root path not allowed: ", request.inbox_root.as_str());
            ScanStep::Refuse(ToolResult::refusal(msg))
        },
        _ => if passed {
            let root = request.inbox_root.clone();
            ScanStep::Next(InboxScanRun { request, dirs, dir_index, files, phase: ScanPhase::ListingInbox },
                ScanCommand::ListInbox(root))
        } else {
            ScanStep::Refuse(ToolResult::refusal("Rate limit exceeded: action budget exhausted".to_owned()))
        },
    }
}

/// The listing of the inbox root.
fn on_listing(run: InboxScanRun, listing: Option<Vec<InboxEntry>>) -> (res: ScanStep)
    requires
        run.phase is ListingInbox,
    ensures
        scan_transition(run, ScanReply::Listing(listing), res),
        keeps_wf(run, res),
{
    let InboxScanRun { request, dirs, dir_index, files, phase } = run;
    match listing {
        Some(entries) => {
            let ghost listed = entries@;
            let selected = select_source_dirs(entries, &request.source_types);
            proof {
                assert(selected@.to_multiset().len() == selected@.len());
                assert(selected_names(listed, request.source_types).to_multiset().len()
                    == selected_names(listed, request.source_types).len());
            }
            if selected.len() == 0 {
                ScanStep::Done(files)
            } else {
                let root = request.inbox_root.clone();
                let first = selected[0].clone();
                ScanStep::Next(InboxScanRun { request, dirs: selected, dir_index: 0, files, phase: ScanPhase::OpeningDir },
                    ScanCommand::OpenSourceDir(root, first))
            }
        },
        None => ScanStep::Done(files),
    }
}

/// Whether the current source-type directory could be opened.
fn on_opened(run: InboxScanRun, opened: bool) -> (res: ScanStep)
    requires
        run.phase is OpeningDir,
    ensures
        scan_transition(run, ScanReply::Opened(opened), res),
        keeps_wf(run, res),
{
    if opened {
        let InboxScanRun { request, dirs, dir_index, files, phase } = run;
        ScanStep::Next(InboxScanRun { request, dirs, dir_index, files, phase: ScanPhase::ReadingDir },
            ScanCommand::NextEntry)
    } else {
        next_dir(run)
    }
}

/// The next entry of the current source-type directory.
fn on_entry(run: InboxScanRun, entry: Option<String>) -> (res: ScanStep)
    requires
        run.phase is ReadingDir,
    ensures
        scan_transition(run, ScanReply::Entry(entry), res),
        keeps_wf(run, res),
{
    match entry {
        Some(name) => {
            let InboxScanRun { request, dirs, dir_index, files, phase } = run;
            if files.len() >= request.limit {
                ScanStep::Done(files)
            } else if is_skipped_name(name.as_str()) {
                ScanStep::Next(InboxScanRun { request, dirs, dir_index, files, phase: ScanPhase::ReadingDir },
                    ScanCommand::NextEntry)
            } else {
                ScanStep::Next(InboxScanRun { request, dirs, dir_index, files, phase: ScanPhase::StatingEntry(name) },
                    ScanCommand::StatEntry)
            }
        },
        None => next_dir(run),
    }
}

/// The metadata of the entry being looked at.
fn on_stat(run: InboxScanRun, stat: Option<FileStat>) -> (res: ScanStep)
    requires
        run.phase is StatingEntry,
    ensures
        scan_transition(run, ScanReply::Stat(stat), res),
        keeps_wf(run, res),
{
    let InboxScanRun { request, dirs, dir_index, files, phase } = run;
    let name = match phase {
        ScanPhase::StatingEntry(name) => name,
        _ => String::new(),
    };
    match stat {
        Some(stat) => {
            if stat.is_file && dir_index < dirs.len() {
                let path = join3_text(request.inbox_root.as_str(), dirs[dir_index].as_str(), name.as_str());
                let p = path.clone();
                ScanStep::Next(
                    InboxScanRun { request, dirs, dir_index, files, phase: ScanPhase::ResolvingEntry(name, stat, path) },
                    ScanCommand::ResolveEntry(p))
            } else {
                ScanStep::Next(InboxScanRun { request, dirs, dir_index, files, phase: ScanPhase::ReadingDir },
                    ScanCommand::NextEntry)
            }
        },
        None => ScanStep::Next(InboxScanRun { request, dirs, dir_index, files, phase: ScanPhase::ReadingDir },
            ScanCommand::NextEntry),
    }
}

/// Whether the entry being looked at resolved to a path inside the workspace.
fn on_resolved(run: InboxScanRun, resolved: bool) -> (res: ScanStep)
    requires
        run.phase is ResolvingEntry,
    ensures
        scan_transition(run, ScanReply::Resolved(resolved), res),
        keeps_wf(run, res),
{
    let InboxScanRun { request, dirs, dir_index, files, phase } = run;
    let mut files = files;
    let ghost before = files@;
    if resolved && dir_index < dirs.len() {
        match phase {
            ScanPhase::ResolvingEntry(name, stat, path) => {
                let source_type = dirs[dir_index].clone();
                files.push(PendingFile {
                    path,
                    filename: name,
                    source_type,
                    size_bytes: stat.size_bytes,
                    modified_unix: stat.modified_unix,
                });
                proof {
                    assert(files@.drop_last() =~= before);
                    if run.wf() {
                        let req = run.request;
                        let last = files@.last();
                        assert(text_le(last.source_type@, dirs@[dir_index as int]@)) by {
                            lemma_text_le_refl(last.source_type@);
                        }
                        assert(last.reportable(req));
                        assert forall|i: int| 0 <= i < files@.len() implies (#[trigger] files@[i]).reportable(req) by {
                            if i < before.len() {
                                assert(files@[i] == before[i]);
                            }
                        }
                        assert forall|i: int, j: int| 0 <= i < j < files@.len()
                            implies text_le(files@[i].source_type@, files@[j].source_type@) by {
                            if j < before.len() {
                                assert(files@[i] == before[i] && files@[j] == before[j]);
                            } else {
                                assert(files@[i] == before[i]);
                            }
                        }
                        assert forall|i: int| 0 <= i < files@.len()
                            implies text_le((#[trigger] files@[i]).source_type@, dirs@[dir_index as int]@) by {
                            if i < before.len() {
                                assert(files@[i] == before[i]);
                            }
                        }
                    }
                }
            },
            _ => {},
        }
    }
    ScanStep::Next(InboxScanRun { request, dirs, dir_index, files, phase: ScanPhase::ReadingDir },
        ScanCommand::NextEntry)
}
/// A file that a scan reports is one that `file_stage` can claim with
/// `start`: its path has the start shape, with the scan's inbox root, source
/// type and file name as components. This holds whenever the inbox root and
/// the source type are safe names and the file name is a non-empty name
/// without `'/'` or NUL, as directory entry names are.
pub proof fn lemma_reported_file_can_be_claimed(request: ScanRequest, file: PendingFile)
    requires
        file.reportable(request),
        safe_component(request.inbox_root@),
        safe_component(file.source_type@),
        file.filename@.len() > 0,
        slash_free(file.filename@),
        !file.filename@.contains('\0'),
    ensures
        stage_target(StageAction::Start, file.path@)
            == Ok::<_, Seq<char>>((request.inbox_root@, file.source_type@, file.filename@)),
{
    let name = file.filename@;
    assert(name[0] != '.');
    assert(name != seq!['.']) by {
        if name == seq!['.'] { assert(name[0] == '.'); }
    }
    assert(name != seq!['.', '.']) by {
        if name == seq!['.', '.'] { assert(name[0] == '.'); }
    }
    lemma_start_shape_roundtrip(request.inbox_root@, file.source_type@, name);
}

/// `cmd` is the command that a run in its phase waits on the answer to.
pub open spec fn scan_awaits_command(run: InboxScanRun, cmd: ScanCommand) -> bool {
    let req = run.request;
    match run.phase {
        ScanPhase::CheckingRateLimit => cmd is CheckRateLimit,
        ScanPhase::CheckingRoot => cmd matches ScanCommand::CheckRootAllowed(r) && r@ == req.inbox_root@,
        ScanPhase::RecordingAction => cmd is RecordAction,
        ScanPhase::ListingInbox => cmd matches ScanCommand::ListInbox(r) && r@ == req.inbox_root@,
        ScanPhase::OpeningDir => cmd matches ScanCommand::OpenSourceDir(r, st)
            && r@ == req.inbox_root@ && st@ == run.dirs@[run.dir_index as int]@,
        ScanPhase::ReadingDir => cmd is NextEntry,
        ScanPhase::StatingEntry(_) => cmd is StatEntry,
        ScanPhase::ResolvingEntry(_, _, path) => cmd matches ScanCommand::ResolveEntry(p) && p@ == path@,
    }
}

/// How many of the three checks (rate limit, inbox root, action budget) a
/// run has passed.
pub open spec fn checks_passed(phase: ScanPhase) -> int {
    match phase {
        ScanPhase::CheckingRateLimit => 0,
        ScanPhase::CheckingRoot => 1,
        ScanPhase::RecordingAction => 2,
        _ => 3,
    }
}

/// The scan commands that go to the security policy.
pub open spec fn asks_policy(cmd: ScanCommand) -> bool {
    cmd is CheckRateLimit || cmd is CheckRootAllowed || cmd is RecordAction
}

/// The scan commands that read the file system: listing, opening and reading
/// directories, reading metadata, resolving paths.
pub open spec fn reads_files(cmd: ScanCommand) -> bool {
    cmd is ListInbox || cmd is OpenSourceDir || cmd is NextEntry || cmd is StatEntry || cmd is ResolveEntry
}

/// A whole scan call, from the run that `begin` gives to its end: the `i`-th
/// run waits on `cmds[i]`, which is answered by `replies[i]`; each run but
/// the last steps to the next one, and the last one ends the call with `end`.
pub open spec fn scan_call(
    runs: Seq<InboxScanRun>,
    cmds: Seq<ScanCommand>,
    replies: Seq<ScanReply>,
    end: ScanStep,
) -> bool {
    &&& runs.len() > 0
    &&& cmds.len() == runs.len()
    &&& replies.len() == runs.len()
    &&& runs[0].wf()
    &&& runs[0].phase is CheckingRateLimit
    &&& cmds[0] is CheckRateLimit
    &&& forall|i: int| 0 <= i < runs.len() ==> (#[trigger] runs[i]).awaits(replies[i])
    &&& forall|i: int| 0 <= i < runs.len() - 1
        ==> scan_transition(#[trigger] runs[i], replies[i], ScanStep::Next(runs[i + 1], cmds[i + 1]))
    &&& scan_transition(runs.last(), replies.last(), end)
    &&& !(end is Next)
}

/// Along a scan call every run keeps the request and waits on its command;
/// the first three runs wait on the three checks in turn, and no later run
/// goes back to them.
pub proof fn lemma_scan_call_runs(
    runs: Seq<InboxScanRun>,
    cmds: Seq<ScanCommand>,
    replies: Seq<ScanReply>,
    end: ScanStep,
    k: int,
)
    requires
        scan_call(runs, cmds, replies, end),
        0 <= k < runs.len(),
    ensures
        runs[k].request == runs[0].request,
        scan_awaits_command(runs[k], cmds[k]),
        checks_passed(runs[k].phase) == if k < 3 { k } else { 3 },
    decreases k,
{
    if k > 0 {
        lemma_scan_call_runs(runs, cmds, replies, end, k - 1);
        assert(scan_transition(runs[k - 1], replies[k - 1], ScanStep::Next(runs[k], cmds[k])));
    }
}

/// A scan changes nothing on disk: every command it asks for either goes to
/// the security policy or reads the file system.
pub proof fn lemma_scan_call_only_reads(
    runs: Seq<InboxScanRun>,
    cmds: Seq<ScanCommand>,
    replies: Seq<ScanReply>,
    end: ScanStep,
)
    requires
        scan_call(runs, cmds, replies, end),
    ensures
        forall|k: int| 0 <= k < cmds.len() ==> asks_policy(#[trigger] cmds[k]) || reads_files(cmds[k]),
        forall|k: int| 0 <= k < cmds.len() && asks_policy(#[trigger] cmds[k]) ==> k < 3,
{
    assert forall|k: int| 0 <= k < cmds.len() && asks_policy(#[trigger] cmds[k]) implies k < 3 by {
        lemma_scan_call_runs(runs, cmds, replies, end, k);
    }
}

/// A scan spends its action budget exactly once when the rate-limit check
/// and the check of its inbox root pass, as its third command, and not at
/// all otherwise. A failed check ends the call at once with its message:
/// the rate-limit message, `inbox_root path not allowed: {root}`, or the
/// budget message.
pub proof fn lemma_scan_call_spends_budget_after_checks(
    runs: Seq<InboxScanRun>,
    cmds: Seq<ScanCommand>,
    replies: Seq<ScanReply>,
    end: ScanStep,
)
    requires
        scan_call(runs, cmds, replies, end),
    ensures
        forall|k: int| 0 <= k < cmds.len() && #[trigger] cmds[k] is RecordAction ==> {
            &&& k == 2
            &&& replies[0] == ScanReply::Verdict(true)
            &&& cmds[1] matches ScanCommand::CheckRootAllowed(r) && r@ == runs[0].request.inbox_root@
            &&& replies[1] == ScanReply::Verdict(true)
        },
        replies[0] != ScanReply::Verdict(true) ==> runs.len() == 1
            && end.refuses("Rate limit exceeded: too many actions in the last hour"@),
        runs.len() > 1 ==> {
            &&& replies[0] == ScanReply::Verdict(true)
            &&& cmds[1] matches ScanCommand::CheckRootAllowed(r) && r@ == runs[0].request.inbox_root@
        },
        runs.len() > 1 && replies[1] != ScanReply::Verdict(true) ==> runs.len() == 2
            && end.refuses("inbox_root path not allowed: "@ + runs[0].request.inbox_root@),
        runs.len() > 1 && replies[1] == ScanReply::Verdict(true) ==> runs.len() > 2 && cmds[2] is RecordAction,
        runs.len() > 2 && replies[2] != ScanReply::Verdict(true) ==> runs.len() == 3
            && end.refuses("Rate limit exceeded: action budget exhausted"@),
{
    let n = runs.len() - 1;
    lemma_scan_call_runs(runs, cmds, replies, end, 0);
    lemma_scan_call_runs(runs, cmds, replies, end, n);
    if runs.len() > 1 {
        lemma_scan_call_runs(runs, cmds, replies, end, 1);
        assert(scan_transition(runs[0], replies[0], ScanStep::Next(runs[1], cmds[1])));
    }
    if runs.len() > 2 {
        lemma_scan_call_runs(runs, cmds, replies, end, 2);
        assert(scan_transition(runs[1], replies[1], ScanStep::Next(runs[2], cmds[2])));
    }
    if runs.len() > 3 {
        lemma_scan_call_runs(runs, cmds, replies, end, 3);
        assert(scan_transition(runs[2], replies[2], ScanStep::Next(runs[3], cmds[3])));
    }
    assert forall|k: int| 0 <= k < cmds.len() && #[trigger] cmds[k] is RecordAction implies {
        &&& k == 2
        &&& replies[0] == ScanReply::Verdict(true)
        &&& cmds[1] matches ScanCommand::CheckRootAllowed(r) && r@ == runs[0].request.inbox_root@
        &&& replies[1] == ScanReply::Verdict(true)
    } by {
        lemma_scan_call_runs(runs, cmds, replies, end, k);
    }
}

/// The run is done with its current source-type directory: it could not be
/// opened, or it has no entry left.
pub open spec fn leaves_dir(run: InboxScanRun, reply: ScanReply) -> bool {
    ||| run.phase is OpeningDir && reply == ScanReply::Opened(false)
    ||| run.phase is ReadingDir && reply == ScanReply::Entry(None)
}

/// Step `k` of a scan call reports a file: two steps before, an entry was
/// read while fewer files than the limit had been found, and its name is not
/// hidden or a note; its metadata then said it is a file, and its path now
/// resolved inside the workspace.
pub open spec fn eligible_at(runs: Seq<InboxScanRun>, replies: Seq<ScanReply>, k: int) -> bool {
    &&& 2 <= k < runs.len()
    &&& runs[k - 2].phase is ReadingDir
    &&& runs[k - 2].files@.len() < runs[k - 2].request.limit
    &&& replies[k - 2] matches ScanReply::Entry(Some(name)) && !skipped_name(name@)
    &&& replies[k - 1] matches ScanReply::Stat(Some(stat)) && stat.is_file
    &&& replies[k] == ScanReply::Resolved(true)
}

/// The row reported at an eligible step `k`: the entry's path, its name, the
/// source type being scanned, and the size and modification time from its
/// metadata.
pub open spec fn eligible_row(runs: Seq<InboxScanRun>, replies: Seq<ScanReply>, k: int) -> (Seq<char>, Seq<char>, Seq<char>, u64, u64) {
    let run = runs[k - 2];
    let source_type = run.dirs@[run.dir_index as int]@;
    let name = match replies[k - 2] {
        ScanReply::Entry(Some(n)) => n@,
        _ => Seq::<char>::empty(),
    };
    let stat = match replies[k - 1] {
        ScanReply::Stat(Some(s)) => s,
        _ => FileStat { is_file: false, size_bytes: 0, modified_unix: 0 },
    };
    (join_path3(run.request.inbox_root@, source_type, name), name, source_type, stat.size_bytes, stat.modified_unix)
}

/// The rows of the eligible steps before step `n`, in order.
pub open spec fn reported_rows(runs: Seq<InboxScanRun>, replies: Seq<ScanReply>, n: int) -> Seq<(Seq<char>, Seq<char>, Seq<char>, u64, u64)>
    decreases n,
{
    if n <= 0 {
        Seq::empty()
    } else if eligible_at(runs, replies, n - 1) {
        reported_rows(runs, replies, n - 1).push(eligible_row(runs, replies, n - 1))
    } else {
        reported_rows(runs, replies, n - 1)
    }
}

/// A run that receives `reply` adds a file: it is resolving an entry's path,
/// and the path resolved.
pub open spec fn adds_file(run: InboxScanRun, reply: ScanReply) -> bool {
    run.phase is ResolvingEntry && reply == ScanReply::Resolved(true) && run.dir_index < run.dirs@.len()
}

/// Every step that goes on keeps a run well formed.
proof fn lemma_scan_transition_keeps_wf(run: InboxScanRun, reply: ScanReply, next: InboxScanRun, cmd: ScanCommand)
    requires
        run.wf(),
        run.awaits(reply),
        scan_transition(run, reply, ScanStep::Next(next, cmd)),
    ensures
        next.wf(),
{
    let req = run.request;
    match run.phase {
        ScanPhase::ListingInbox => {
            assert(next.dirs@.to_multiset().len() == next.dirs@.len());
            match reply {
                ScanReply::Listing(Some(entries)) => {
                    let selected = selected_names(entries@, req.source_types);
                    assert(selected.to_multiset().len() == selected.len());
                },
                _ => {},
            }
        },
        ScanPhase::OpeningDir | ScanPhase::ReadingDir => {
            if next.dir_index == run.dir_index + 1 {
                let i0 = run.dir_index as int;
                assert forall|i: int| 0 <= i < next.files@.len()
                    implies text_le((#[trigger] next.files@[i]).source_type@, next.dirs@[next.dir_index as int]@) by {
                    let a = vstd::utf8::encode_utf8(next.files@[i].source_type@);
                    let b = vstd::utf8::encode_utf8(run.dirs@[i0]@);
                    let c = vstd::utf8::encode_utf8(run.dirs@[i0 + 1]@);
                    assert(text_le(run.files@[i].source_type@, run.dirs@[i0]@));
                    assert(text_le(run.dirs@[i0]@, run.dirs@[i0 + 1]@));
                    lemma_bytes_le_trans(a, b, c);
                }
            }
        },
        ScanPhase::ResolvingEntry(name, stat, path) => {
            if reply == ScanReply::Resolved(true) && run.dir_index < run.dirs@.len() {
                let before = run.files@;
                let after = next.files@;
                let last = after.last();
                assert forall|i: int| 0 <= i < before.len() implies after[i] == before[i] by {
                    assert(after.drop_last()[i] == after[i]);
                }
                assert(text_le(last.source_type@, run.dirs@[run.dir_index as int]@)) by {
                    lemma_text_le_refl(last.source_type@);
                }
                assert(last.reportable(req));
                assert forall|i: int| 0 <= i < after.len() implies (#[trigger] after[i]).reportable(req) by {
                    if i < before.len() {
                        assert(after[i] == before[i]);
                    }
                }
                assert forall|i: int, j: int| 0 <= i < j < after.len()
                    implies text_le(after[i].source_type@, after[j].source_type@) by {
                    assert(after[i] == before[i]);
                    if j < before.len() {
                        assert(after[j] == before[j]);
                    }
                }
                assert forall|i: int| 0 <= i < after.len()
                    implies text_le((#[trigger] after[i]).source_type@, next.dirs@[next.dir_index as int]@) by {
                    if i < before.len() {
                        assert(after[i] == before[i]);
                    }
                }
            }
        },
        _ => {},
    }
}

/// What holds of the `k`-th run of a scan call: it is well formed, keeps the
/// request, holds the rows of the eligible steps before it, is listing the
/// inbox as its fourth run and scanning from its fifth on, with the
/// directories of the fifth run.
proof fn lemma_scan_call_state(
    runs: Seq<InboxScanRun>,
    cmds: Seq<ScanCommand>,
    replies: Seq<ScanReply>,
    end: ScanStep,
    k: int,
)
    requires
        scan_call(runs, cmds, replies, end),
        0 <= k < runs.len(),
    ensures
        runs[k].wf(),
        runs[k].request == runs[0].request,
        pending_rows(runs[k].files@) == reported_rows(runs, replies, k),
        k == 3 ==> runs[k].phase is ListingInbox,
        k < 4 ==> !runs[k].scanning(),
        k >= 4 ==> runs[k].scanning() && runs[k].dirs == runs[4].dirs,
        adds_file(runs[k], replies[k]) <==> eligible_at(runs, replies, k),
        eligible_at(runs, replies, k) ==> k + 1 < runs.len() && runs[k + 1].files@ == runs[k].files@.push(
            runs[k + 1].files@.last()) && pending_rows(runs[k + 1].files@) == pending_rows(runs[k].files@).push(
            eligible_row(runs, replies, k)),
        !eligible_at(runs, replies, k) && k + 1 < runs.len() ==> runs[k + 1].files == runs[k].files,
    decreases k,
{
    lemma_scan_call_runs(runs, cmds, replies, end, k);
    if k > 0 {
        lemma_scan_call_state(runs, cmds, replies, end, k - 1);
        assert(scan_transition(runs[k - 1], replies[k - 1], ScanStep::Next(runs[k], cmds[k])));
        lemma_scan_transition_keeps_wf(runs[k - 1], replies[k - 1], runs[k], cmds[k]);
        if k >= 2 {
            lemma_scan_call_state(runs, cmds, replies, end, k - 2);
            assert(scan_transition(runs[k - 2], replies[k - 2], ScanStep::Next(runs[k - 1], cmds[k - 1])));
        }
        if k >= 2 {
            lemma_scan_call_runs(runs, cmds, replies, end, k - 1);
            lemma_scan_call_runs(runs, cmds, replies, end, k - 2);
        }
        if k == 3 {
            lemma_scan_call_runs(runs, cmds, replies, end, 2);
        }
        assert(reported_rows(runs, replies, k) == if eligible_at(runs, replies, k - 1) {
            reported_rows(runs, replies, k - 1).push(eligible_row(runs, replies, k - 1))
        } else {
            reported_rows(runs, replies, k - 1)
        });
        if eligible_at(runs, replies, k - 1) {
            assert(pending_rows(runs[k].files@) =~= pending_rows(runs[k - 1].files@).push(eligible_row(runs, replies, k - 1)));
        }
    }
    if k + 1 < runs.len() {
        assert(scan_transition(runs[k], replies[k], ScanStep::Next(runs[k + 1], cmds[k + 1])));
        if adds_file(runs[k], replies[k]) {
            let before = runs[k].files@;
            let after = runs[k + 1].files@;
            assert(after =~= before.push(after.last()));
            assert(pending_rows(after) =~= pending_rows(before).push(pending_rows(after).last()));
        }
    }
}

/// Along a scan, the index of the directory being scanned never goes back.
proof fn lemma_scan_call_dir_index_monotone(
    runs: Seq<InboxScanRun>,
    cmds: Seq<ScanCommand>,
    replies: Seq<ScanReply>,
    end: ScanStep,
    i: int,
    j: int,
)
    requires
        scan_call(runs, cmds, replies, end),
        4 <= i <= j < runs.len(),
    ensures
        runs[i].dir_index <= runs[j].dir_index,
    decreases j - i,
{
    if i < j {
        lemma_scan_call_dir_index_monotone(runs, cmds, replies, end, i, j - 1);
        lemma_scan_call_state(runs, cmds, replies, end, j - 1);
        assert(scan_transition(runs[j - 1], replies[j - 1], ScanStep::Next(runs[j], cmds[j])));
    }
}

/// What a whole scan reports. Once the three checks have passed and the
/// inbox root has been listed (the fourth reply), the scan walks the sorted
/// source-type directories of the listing from the first on, never going
/// back, and leaves a directory only when it could not be opened or has no
/// entry left. The files it ends with are exactly the eligible entries met
/// along the way, in the order they were read: each read while fewer files
/// than the limit had been found, not hidden or a note, a file, resolving
/// inside the workspace. It ends at the limit, when one more entry comes,
/// or after the last directory; a listing that fails or selects no
/// directory ends it with no file.
pub proof fn lemma_scan_call_reports_eligible_entries(
    runs: Seq<InboxScanRun>,
    cmds: Seq<ScanCommand>,
    replies: Seq<ScanReply>,
    end: ScanStep,
)
    requires
        scan_call(runs, cmds, replies, end),
    ensures
        end matches ScanStep::Done(files) ==> pending_rows(files@) == reported_rows(runs, replies, runs.len() as int),
        end matches ScanStep::Done(files) ==> scan_result(runs[0].request, files@),
        runs.len() > 4 ==> (replies[3] matches ScanReply::Listing(Some(entries)) && {
            let dirs = runs[4].dirs@;
            &&& names_sorted(dirs)
            &&& dirs.to_multiset() == selected_names(entries@, runs[0].request.source_types).to_multiset()
            &&& dirs.len() > 0
            &&& runs[4].dir_index == 0
        }),
        forall|k: int| 4 <= k < runs.len() ==> (#[trigger] runs[k]).dirs == runs[4].dirs
            && runs[k].dir_index < runs[4].dirs@.len(),
        forall|i: int, j: int| #![trigger runs[i], runs[j]]
            4 <= i <= j < runs.len() ==> runs[i].dir_index <= runs[j].dir_index,
        forall|k: int| 4 <= k < runs.len() - 1 && (#[trigger] runs[k + 1]).dir_index != runs[k].dir_index
            ==> runs[k + 1].dir_index == runs[k].dir_index + 1 && leaves_dir(runs[k], replies[k]),
        end is Done && runs.len() <= 4 ==> runs.len() == 4 && end.ends_with_files(Seq::empty()) && (
            replies[3] == ScanReply::Listing(None) || (replies[3] matches ScanReply::Listing(Some(entries))
                && selected_names(entries@, runs[0].request.source_types).len() == 0)),
        end matches ScanStep::Done(files) ==> runs.len() > 4 ==> {
            ||| files@.len() == runs[0].request.limit && runs.last().phase is ReadingDir
                && replies.last() is Entry && replies.last() != ScanReply::Entry(None)
            ||| runs.last().dir_index + 1 == runs[4].dirs@.len() && leaves_dir(runs.last(), replies.last())
        },
{
    let n = runs.len() - 1;
    lemma_scan_call_state(runs, cmds, replies, end, n);
    lemma_scan_call_runs(runs, cmds, replies, end, n);
    assert(reported_rows(runs, replies, n + 1) == reported_rows(runs, replies, n));
    if runs.len() > 4 {
        lemma_scan_call_state(runs, cmds, replies, end, 3);
        lemma_scan_call_state(runs, cmds, replies, end, 4);
        assert(scan_transition(runs[3], replies[3], ScanStep::Next(runs[4], cmds[4])));
        match replies[3] {
            ScanReply::Listing(Some(entries)) => {
                assert(runs[4].dirs@.to_multiset().len() == runs[4].dirs@.len());
            },
            _ => {},
        }
    }
    if runs.len() <= 4 && end is Done {
        if runs.len() < 4 {
            lemma_scan_call_spends_budget_after_checks(runs, cmds, replies, end);
        }
        lemma_scan_call_state(runs, cmds, replies, end, 3);
        assert(runs[3].files@ =~= Seq::<PendingFile>::empty());
    }
    assert forall|k: int| 4 <= k < runs.len() implies (#[trigger] runs[k]).dirs == runs[4].dirs
        && runs[k].dir_index < runs[4].dirs@.len() by {
        lemma_scan_call_state(runs, cmds, replies, end, k);
    }
    assert forall|i: int, j: int| #![trigger runs[i], runs[j]]
        4 <= i <= j < runs.len() implies runs[i].dir_index <= runs[j].dir_index by {
        lemma_scan_call_dir_index_monotone(runs, cmds, replies, end, i, j);
    }
    assert forall|k: int| 4 <= k < runs.len() - 1 && (#[trigger] runs[k + 1]).dir_index != runs[k].dir_index
        implies runs[k + 1].dir_index == runs[k].dir_index + 1 && leaves_dir(runs[k], replies[k]) by {
        lemma_scan_call_state(runs, cmds, replies, end, k);
        assert(scan_transition(runs[k], replies[k], ScanStep::Next(runs[k + 1], cmds[k + 1])));
    }
}

/// The member names of a reported file in the scan's JSON output.
pub open spec fn pending_file_keys() -> (Seq<char>, Seq<char>, Seq<char>, Seq<char>, Seq<char>) {
    ("path"@, "filename"@, "source_type"@, "size_bytes"@, "modified_unix"@)
}

/// The values of the reported files, in order.
pub open spec fn pending_rows(files: Seq<PendingFile>) -> Seq<(Seq<char>, Seq<char>, Seq<char>, u64, u64)> {
    files.map_values(|f: PendingFile| (f.path@, f.filename@, f.source_type@, f.size_bytes, f.modified_unix))
}

/// The output of a finished scan: the pretty JSON array of its files, each an
/// object with `path`, `filename`, `source_type`, `size_bytes` and
/// `modified_unix`; `[]` when the serializer fails, and `[]` when no file was found.
pub fn scan_output(files: Vec<PendingFile>) -> (res: ToolResult)
    ensures
        res.is_success(match pretty_json_rows(pending_file_keys(), pending_rows(files@)) {
            Some(t) => t,
            None => "[]"@,
        }),
        files@.len() == 0 ==> res.is_success("[]"@),
{
    let mut rows: Vec<(String, String, String, u64, u64)> = Vec::new();
    let mut i: usize = 0;
    while i < files.len()
        invariant
            i <= files.len(),
            crate::json::rows_view(rows@) == pending_rows(files@).take(i as int),
        decreases files.len() - i,
    {
        let f = &files[i];
        let ghost before = rows@;
        let row = (f.path.clone(), f.filename.clone(), f.source_type.clone(), f.size_bytes, f.modified_unix);
        rows.push(row);
        proof {
            let v = crate::json::rows_view(rows@);
            let w = pending_rows(files@).take(i + 1);
            assert(crate::json::rows_view(before).len() == before.len());
            assert(before.len() == i);
            assert(v.len() == w.len());
            assert forall|j: int| 0 <= j < v.len() implies v[j] == w[j] by {
                if j < i {
                    assert(rows@[j] == before[j]);
                    assert(crate::json::rows_view(before)[j] == v[j]);
                } else {
                    assert(rows@[j] == row);
                }
            }
            assert(v =~= w);
        }
        i = i + 1;
    }
    proof {
        assert(pending_rows(files@).take(files@.len() as int) =~= pending_rows(files@));
    }
    let text = match render_rows(("path", "filename", "source_type", "size_bytes", "modified_unix"), rows) {
        Some(t) => t,
        None => "[]".to_owned(),
    };
    ToolResult::succeeded(text)
}

} // verus!
