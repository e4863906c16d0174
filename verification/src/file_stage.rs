//! Moving a file through the inbox stages: path shapes, component safety,
//! and the decisions of one staging request.

use vstd::prelude::*;
use crate::json::{pretty_json_text_member, render_text_member};
use crate::tool_result::ToolResult;
use crate::text::{
    chars_of, concat2, concat3, same_text, join_with_slash, lemma_split_concat, lemma_split_len_monotone, lemma_split_rejoins,
    lemma_split_slash_free, slash_free, split_on_slash,
};

verus! {

/// The shape of a workspace-relative path: `(inbox_root, stage, source_type, filename)`.
/// Three pieces give the start shape (no stage), four the stage shape; any
/// other number of `'/'`-separated pieces has no shape.
pub open spec fn path_shape(path: Seq<char>) -> Option<(Seq<char>, Option<Seq<char>>, Seq<char>, Seq<char>)> {
    let parts = split_on_slash(path);
    if parts.len() == 3 {
        Some((parts[0], None, parts[1], parts[2]))
    } else if parts.len() == 4 {
        Some((parts[0], Some(parts[1]), parts[2], parts[3]))
    } else {
        None
    }
}

/// The view of an optional string slice.
pub open spec fn opt_str_view(o: Option<&str>) -> Option<Seq<char>> {
    match o {
        Some(s) => Some(s@),
        None => None,
    }
}

/// The view of a parsed path.
pub open spec fn shape_view(r: Option<(&str, Option<&str>, &str, &str)>) -> Option<(Seq<char>, Option<Seq<char>>, Seq<char>, Seq<char>)> {
    match r {
        Some((a, b, c, d)) => Some((a@, opt_str_view(b), c@, d@)),
        None => None,
    }
}

/// A path component is safe when it is a plain name: not empty, not `.` or
/// `..`, and free of `'/'` and NUL.
pub open spec fn safe_component(c: Seq<char>) -> bool {
    &&& c.len() > 0
    &&& c != seq!['.', '.']
    &&& c != seq!['.']
    &&& !c.contains('/')
    &&& !c.contains('\0')
}


/// `a/b/c`.
pub open spec fn join_path3(a: Seq<char>, b: Seq<char>, c: Seq<char>) -> Seq<char> {
    a + seq!['/'] + b + seq!['/'] + c
}

/// `a/b/c/d`.
pub open spec fn join_path4(a: Seq<char>, b: Seq<char>, c: Seq<char>, d: Seq<char>) -> Seq<char> {
    a + seq!['/'] + b + seq!['/'] + c + seq!['/'] + d
}

/// Joining three names that hold no `'/'` gives a start-shaped path, and
/// parsing that path gives the three names back.
pub proof fn lemma_start_shape_roundtrip(root: Seq<char>, source_type: Seq<char>, filename: Seq<char>)
    requires
        slash_free(root),
        slash_free(source_type),
        slash_free(filename),
    ensures
        path_shape(join_path3(root, source_type, filename)) == Some((root, None::<Seq<char>>, source_type, filename)),
{
    lemma_split_concat(root, source_type);
    lemma_split_concat(root + seq!['/'] + source_type, filename);
    lemma_split_slash_free(root);
    lemma_split_slash_free(source_type);
    lemma_split_slash_free(filename);
    assert(split_on_slash(join_path3(root, source_type, filename)) =~= seq![root, source_type, filename]);
}

/// Joining four names that hold no `'/'` gives a stage-shaped path, and
/// parsing that path gives the four names back.
pub proof fn lemma_stage_shape_roundtrip(root: Seq<char>, stage: Seq<char>, source_type: Seq<char>, filename: Seq<char>)
    requires
        slash_free(root),
        slash_free(stage),
        slash_free(source_type),
        slash_free(filename),
    ensures
        path_shape(join_path4(root, stage, source_type, filename)) == Some((root, Some(stage), source_type, filename)),
{
    lemma_split_concat(root, stage);
    lemma_split_concat(root + seq!['/'] + stage, source_type);
    lemma_split_concat(root + seq!['/'] + stage + seq!['/'] + source_type, filename);
    lemma_split_slash_free(root);
    lemma_split_slash_free(stage);
    lemma_split_slash_free(source_type);
    lemma_split_slash_free(filename);
    assert(split_on_slash(join_path4(root, stage, source_type, filename)) =~= seq![root, stage, source_type, filename]);
}

/// A path that has a shape is its components joined by `'/'`, and none of
/// the components holds a `'/'`.
pub proof fn lemma_shape_rejoins(path: Seq<char>)
    ensures
        match path_shape(path) {
            Some((root, None, source_type, filename)) => {
                &&& path == join_path3(root, source_type, filename)
                &&& slash_free(root) && slash_free(source_type) && slash_free(filename)
            },
            Some((root, Some(stage), source_type, filename)) => {
                &&& path == join_path4(root, stage, source_type, filename)
                &&& slash_free(root) && slash_free(stage) && slash_free(source_type) && slash_free(filename)
            },
            None => true,
        },
{
    lemma_split_rejoins(path);
    let ps = split_on_slash(path);
    if ps.len() == 3 {
        let q1 = ps.drop_last();
        let q2 = q1.drop_last();
        assert(q2 =~= seq![ps[0]]);
        assert(join_with_slash(q2) == ps[0]);
        assert(q1.last() == ps[1]);
        assert(join_with_slash(q1) == join_with_slash(q2) + seq!['/'] + q1.last());
        assert(join_with_slash(ps) == join_with_slash(q1) + seq!['/'] + ps.last());
        assert(join_with_slash(ps) =~= join_path3(ps[0], ps[1], ps[2]));
        assert(slash_free(ps[0]) && slash_free(ps[1]) && slash_free(ps[2]));
    } else if ps.len() == 4 {
        let q1 = ps.drop_last();
        let q2 = q1.drop_last();
        let q3 = q2.drop_last();
        assert(q3 =~= seq![ps[0]]);
        assert(join_with_slash(q3) == ps[0]);
        assert(q2.last() == ps[1]);
        assert(q1.last() == ps[2]);
        assert(join_with_slash(q2) == join_with_slash(q3) + seq!['/'] + q2.last());
        assert(join_with_slash(q1) == join_with_slash(q2) + seq!['/'] + q1.last());
        assert(join_with_slash(ps) == join_with_slash(q1) + seq!['/'] + ps.last());
        assert(join_with_slash(ps) =~= join_path4(ps[0], ps[1], ps[2], ps[3]));
        assert(slash_free(ps[0]) && slash_free(ps[1]) && slash_free(ps[2]) && slash_free(ps[3]));
    }
}


/// The three moves a file can make through the pipeline.
#[derive(Clone, Copy, Debug, PartialEq, Eq, Structural)]
pub enum StageAction {
    /// `inbox/{source_type}/{file}` to `inbox/processing/{source_type}/{file}`.
    Start,
    /// `inbox/processing/...` to `inbox/processed/...`, with an optional sidecar note.
    Complete,
    /// `inbox/processing/...` to `inbox/failed/...`, with an optional error note.
    Fail,
}

/// The action that a request names, if it names one.
pub open spec fn action_named(name: Seq<char>) -> Option<StageAction> {
    if name == "start"@ {
        Some(StageAction::Start)
    } else if name == "complete"@ {
        Some(StageAction::Complete)
    } else if name == "fail"@ {
        Some(StageAction::Fail)
    } else {
        None
    }
}

/// The stage directory that an action moves a file into.
pub open spec fn stage_dir_name(action: StageAction) -> Seq<char> {
    match action {
        StageAction::Start => "processing"@,
        StageAction::Complete => "processed"@,
        StageAction::Fail => "failed"@,
    }
}

/// Whether the stage piece of a parsed path suits the action: `start` takes
/// files that sit in no stage, `complete` and `fail` take files in `processing`.
pub open spec fn shape_fits(action: StageAction, stage: Option<Seq<char>>) -> bool {
    match action {
        StageAction::Start => stage is None,
        _ => stage == Some("processing"@),
    }
}

/// The message that refuses a path of the wrong shape for the action.
pub open spec fn shape_error(action: StageAction, path: Seq<char>) -> Seq<char> {
    match action {
        StageAction::Start => "Path '"@ + path
            + "' must match inbox/<source_type>/<filename> for action 'start'"@,
        StageAction::Complete => "Path '"@ + path
            + "' must match inbox/processing/<source_type>/<filename> for action 'complete'"@,
        StageAction::Fail => "Path '"@ + path
            + "' must match inbox/processing/<source_type>/<filename> for action 'fail'"@,
    }
}

/// The message that refuses a path with an unsafe component.
pub open spec fn disallowed_component_error() -> Seq<char> {
    "Path component contains disallowed characters"@
}

/// What staging `path` for `action` works on: `(inbox_root, source_type, filename)`,
/// or the message that refuses the path.
pub open spec fn stage_target(action: StageAction, path: Seq<char>) -> Result<(Seq<char>, Seq<char>, Seq<char>), Seq<char>> {
    match path_shape(path) {
        Some((root, stage, source_type, filename)) => {
            if !shape_fits(action, stage) {
                Err(shape_error(action, path))
            } else if safe_component(root) && safe_component(source_type) && safe_component(filename) {
                Ok((root, source_type, filename))
            } else {
                Err(disallowed_component_error())
            }
        },
        None => Err(shape_error(action, path)),
    }
}

impl StageAction {
    /// The action with the given name (`start`, `complete` or `fail`).
    pub fn from_name(name: &str) -> (res: Option<StageAction>)
        ensures
            res == action_named(name@),
    {
        if same_text(name, "start") {
            Some(StageAction::Start)
        } else if same_text(name, "complete") {
            Some(StageAction::Complete)
        } else if same_text(name, "fail") {
            Some(StageAction::Fail)
        } else {
            None
        }
    }

    /// The stage directory this action moves a file into.
    pub fn stage_dir(&self) -> (res: &'static str)
        ensures
            res@ == stage_dir_name(*self),
    {
        match self {
            StageAction::Start => "processing",
            StageAction::Complete => "processed",
            StageAction::Fail => "failed",
        }
    }

    /// The message that refuses `path` as being of the wrong shape for this action.
    pub fn shape_error(&self, path: &str) -> (res: String)
        ensures
            res@ == shape_error(*self, path@),
    {
        match self {
            StageAction::Start => concat3("Path '", path,
                "' must match inbox/<source_type>/<filename> for action 'start'"),
            StageAction::Complete => concat3("Path '", path,
                "' must match inbox/processing/<source_type>/<filename> for action 'complete'"),
            StageAction::Fail => concat3("Path '", path,
                "' must match inbox/processing/<source_type>/<filename> for action 'fail'"),
        }
    }
}

/// A file that a staging request has been cleared to move.
pub struct StagePlan {
    pub action: StageAction,
    pub inbox_root: String,
    pub source_type: String,
    pub filename: String,
}

impl StagePlan {
    /// The plan is the target of staging `path` for its action.
    pub open spec fn targets(&self, path: Seq<char>) -> bool {
        stage_target(self.action, path) == Ok::<_, Seq<char>>((self.inbox_root@, self.source_type@, self.filename@))
    }
}

/// Check `path` for `action`: its shape, then the safety of its components.
pub fn plan_stage(action: StageAction, path: &str) -> (res: Result<StagePlan, String>)
    ensures
        match res {
            Ok(plan) => plan.action == action && plan.targets(path@),
            Err(msg) => stage_target(action, path@) == Err::<(Seq<char>, Seq<char>, Seq<char>), _>(msg@),
        },
{
    let parsed = FileStageTool::parse_path(path);
    match parsed {
        None => Err(action.shape_error(path)),
        Some((root, stage, source_type, filename)) => {
            let fits = match action {
                StageAction::Start => stage.is_none(),
                _ => match stage {
                    Some(st) => same_text(st, "processing"),
                    None => false,
                },
            };
            if !fits {
                return Err(action.shape_error(path));
            }
            if !FileStageTool::is_safe_component(root) || !FileStageTool::is_safe_component(source_type)
                || !FileStageTool::is_safe_component(filename) {
                return Err("Path component contains disallowed characters".to_owned());
            }
            Ok(StagePlan {
                action,
                inbox_root: root.to_owned(),
                source_type: source_type.to_owned(),
                filename: filename.to_owned(),
            })
        },
    }
}


/// The directory a staged file moves into: `{inbox_root}/{stage}/{source_type}`
/// under the workspace.
pub struct StageDir {
    pub inbox_root: String,
    pub stage: String,
    pub source_type: String,
}

impl StageDir {
    /// The directory is the destination of `plan`.
    pub open spec fn is_for(&self, plan: StagePlan) -> bool {
        &&& self.inbox_root@ == plan.inbox_root@
        &&& self.stage@ == stage_dir_name(plan.action)
        &&& self.source_type@ == plan.source_type@
    }
}

/// The destination directory of `plan`.
pub fn destination(plan: &StagePlan) -> (res: StageDir)
    ensures
        res.is_for(*plan),
{
    StageDir {
        inbox_root: plan.inbox_root.clone(),
        stage: plan.action.stage_dir().to_owned(),
        source_type: plan.source_type.clone(),
    }
}

/// The arguments of a staging call, as the caller supplied them.
pub struct FileStageArgs {
    pub path: Option<String>,
    pub action: Option<String>,
    /// A `sidecar` value came with the call.
    pub has_sidecar: bool,
    /// The `error` text that came with the call, if any.
    pub error_note: Option<String>,
}

/// A staging call whose required arguments are present.
pub struct FileStageRequest {
    pub path: String,
    pub action: String,
    pub has_sidecar: bool,
    pub error_note: Option<String>,
}

/// A call that lacks a required argument.
#[derive(Clone, Copy, Debug, PartialEq, Eq, Structural)]
pub enum FileStageError {
    MissingPath,
    MissingAction,
}

impl FileStageError {
    /// The error message.
    pub fn message(&self) -> (res: String)
        ensures
            res@ == match self {
                FileStageError::MissingPath => "Missing 'path' parameter"@,
                FileStageError::MissingAction => "Missing 'action' parameter"@,
            },
    {
        match self {
            FileStageError::MissingPath => "Missing 'path' parameter".to_owned(),
            FileStageError::MissingAction => "Missing 'action' parameter".to_owned(),
        }
    }
}

/// What a staging call is waiting for.
pub enum StagePhase {
    CheckingRateLimit,
    CheckingPath,
    RecordingAction,
    Resolving,
    CheckingResolved,
    CreatingDir(StagePlan),
    CheckingDest(StagePlan),
    Moving(StagePlan),
    WritingNote(StagePlan),
}

/// How many more commands a call in `phase` can ask for at most.
pub open spec fn commands_left(phase: StagePhase) -> nat {
    match phase {
        StagePhase::CheckingRateLimit => 8,
        StagePhase::CheckingPath => 7,
        StagePhase::RecordingAction => 6,
        StagePhase::Resolving => 5,
        StagePhase::CheckingResolved => 4,
        StagePhase::CreatingDir(_) => 3,
        StagePhase::CheckingDest(_) => 2,
        StagePhase::Moving(_) => 1,
        StagePhase::WritingNote(_) => 0,
    }
}

/// A staging call in progress.
pub struct FileStageRun {
    pub request: FileStageRequest,
    pub phase: StagePhase,
}

/// The outside work a staging call asks for next. Each is answered with
/// `Ok(())` when the check passes or the operation succeeds, and with
/// `Err(text)` otherwise (`text` describes the failure where there is one).
pub enum StageCommand {
    /// Is the caller over its hourly action limit? (`Err` when it is.)
    CheckRateLimit,
    /// Does the security policy allow this workspace-relative path?
    CheckPathAllowed(String),
    /// Spend one action of the budget. (`Err` when it is exhausted.)
    RecordAction,
    /// Resolve this workspace-relative path to a canonical path.
    Resolve(String),
    /// Is the resolved path inside the workspace? (`Err` carries the policy's message.)
    CheckResolvedAllowed,
    /// Create the directory and its parents.
    CreateDir(StageDir),
    /// Is the directory inside the workspace?
    CheckDestAllowed(StageDir),
    /// Move the resolved file into the directory under this file name.
    MoveInto(StageDir, String),
    /// Write the call's sidecar value as JSON into the directory under this file name.
    WriteSidecar(StageDir, String),
    /// Write these bytes, the pretty JSON of `{"error": message}`, into the
    /// directory under this file name.
    WriteErrorNote(StageDir, String, Vec<u8>),
}

/// The outcome of one step of a staging call.
pub enum StageStep {
    Next(FileStageRun, StageCommand),
    Finish(ToolResult),
}

/// The message that refuses an action name that is not known.
pub open spec fn unknown_action_error(action: Seq<char>) -> Seq<char> {
    "Unknown action '"@ + action + "': must be 'start', 'complete', or 'fail'"@
}

/// The output of a successful staging.
pub open spec fn done_message(plan: StagePlan) -> Seq<char> {
    let prefix = match plan.action {
        StageAction::Start => "Claimed: "@,
        StageAction::Complete => "Completed: "@,
        StageAction::Fail => "Failed: "@,
    };
    prefix + join_path4(plan.inbox_root@, stage_dir_name(plan.action), plan.source_type@, plan.filename@)
}

impl StageStep {
    /// The call ends, refused with message `msg`.
    pub open spec fn refuses(self, msg: Seq<char>) -> bool {
        self matches StageStep::Finish(r) && r.is_refusal(msg)
    }

    /// The call ends successfully with output `out`.
    pub open spec fn succeeds(self, out: Seq<char>) -> bool {
        self matches StageStep::Finish(r) && r.is_success(out)
    }

    /// The call goes on with the same request, in `phase`.
    pub open spec fn goes_on(self, request: FileStageRequest, phase: StagePhase) -> bool {
        self matches StageStep::Next(r, _) && r.request == request && r.phase == phase
    }

    /// The command of a step that goes on.
    pub open spec fn command(self) -> StageCommand
        recommends
            self is Next,
    {
        self->Next_1
    }
}

impl FileStageRun {
    /// Every plan the run carries was cleared for its request's action and path.
    pub open spec fn wf(&self) -> bool {
        match self.phase {
            StagePhase::CreatingDir(plan) | StagePhase::CheckingDest(plan) | StagePhase::Moving(plan)
            | StagePhase::WritingNote(plan) => {
                &&& action_named(self.request.action@) == Some(plan.action)
                &&& plan.targets(self.request.path@)
            },
            _ => true,
        }
    }
}

/// The note that follows a successful move, if the call asks for one.
pub open spec fn note_command(request: FileStageRequest, plan: StagePlan, cmd: StageCommand) -> bool {
    match cmd {
        StageCommand::WriteSidecar(dir, name) => {
            &&& plan.action == StageAction::Complete
            &&& request.has_sidecar
            &&& dir.is_for(plan)
            &&& name@ == plan.filename@ + ".sidecar.json"@
        },
        StageCommand::WriteErrorNote(dir, name, bytes) => {
            &&& plan.action == StageAction::Fail
            &&& request.error_note matches Some(m) && pretty_json_text_member("error"@, m@) == Some(bytes@)
            &&& dir.is_for(plan)
            &&& name@ == plan.filename@ + ".error.json"@
        },
        _ => false,
    }
}

/// The call asks for a note after the move.
pub open spec fn wants_note(request: FileStageRequest, action: StageAction) -> bool {
    match action {
        StageAction::Start => false,
        StageAction::Complete => request.has_sidecar,
        StageAction::Fail => request.error_note matches Some(m) && pretty_json_text_member("error"@, m@) is Some,
    }
}

/// One step of a staging call: `run` receives `reply` to its last command.
pub open spec fn stage_transition(run: FileStageRun, reply: Result<(), String>, res: StageStep) -> bool {
    let req = run.request;
    match run.phase {
        StagePhase::CheckingRateLimit => match reply {
            Ok(_) => {
                &&& res.goes_on(req, StagePhase::CheckingPath)
                &&& res.command() matches StageCommand::CheckPathAllowed(p) && p@ == req.path@
            },
            Err(_) => res.refuses("Rate limit exceeded: too many actions in the last hour"@),
        },
        StagePhase::CheckingPath => match reply {
            Ok(_) => res.goes_on(req, StagePhase::RecordingAction) && res.command() is RecordAction,
            Err(_) => res.refuses("Path not allowed by security policy: "@ + req.path@),
        },
        StagePhase::RecordingAction => match reply {
            Ok(_) => {
                &&& res.goes_on(req, StagePhase::Resolving)
                &&& res.command() matches StageCommand::Resolve(p) && p@ == req.path@
            },
            Err(_) => res.refuses("Rate limit exceeded: action budget exhausted"@),
        },
        StagePhase::Resolving => match reply {
            Ok(_) => res.goes_on(req, StagePhase::CheckingResolved) && res.command() is CheckResolvedAllowed,
            Err(e) => res.refuses("Failed to resolve path: "@ + e@),
        },
        StagePhase::CheckingResolved => match reply {
            Err(violation) => res.refuses(violation@),
            Ok(_) => match action_named(req.action@) {
                None => res.refuses(unknown_action_error(req.action@)),
                Some(action) => match stage_target(action, req.path@) {
                    Err(msg) => res.refuses(msg),
                    Ok(_) => res matches StageStep::Next(r, StageCommand::CreateDir(dir)) && {
                        &&& r.request == req
                        &&& r.phase matches StagePhase::CreatingDir(plan) && {
                            &&& plan.action == action
                            &&& plan.targets(req.path@)
                            &&& dir.is_for(plan)
                        }
                    },
                },
            },
        },
        StagePhase::CreatingDir(plan) => match reply {
            Err(e) => res.refuses("Failed to create "@ + stage_dir_name(plan.action) + " dir: "@ + e@),
            Ok(_) => {
                &&& res.goes_on(req, StagePhase::CheckingDest(plan))
                &&& res.command() matches StageCommand::CheckDestAllowed(dir) && dir.is_for(plan)
            },
        },
        StagePhase::CheckingDest(plan) => match reply {
            Err(_) => res.refuses("Destination path escapes workspace"@),
            Ok(_) => {
                &&& res.goes_on(req, StagePhase::Moving(plan))
                &&& res.command() matches StageCommand::MoveInto(dir, name) && dir.is_for(plan)
                    && name@ == plan.filename@
            },
        },
        StagePhase::Moving(plan) => match reply {
            Err(e) => res.refuses("Failed to move file to "@ + stage_dir_name(plan.action) + ": "@ + e@),
            Ok(_) => if wants_note(req, plan.action) {
                res.goes_on(req, StagePhase::WritingNote(plan)) && note_command(req, plan, res.command())
            } else {
                res.succeeds(done_message(plan))
            },
        },
        StagePhase::WritingNote(plan) => res.succeeds(done_message(plan)),
    }
}

/// `root/stage/source_type/filename` as a string.
fn joined_path4(root: &str, stage: &str, source_type: &str, filename: &str) -> (res: String)
    ensures
        res@ == join_path4(root@, stage@, source_type@, filename@),
{
    proof {
        reveal_strlit("/");
        assert("/"@ =~= seq!['/']);
    }
    let s = concat3(root, "/", stage);
    let s = s.concat("/");
    let s = s.concat(source_type);
    let s = s.concat("/");
    let s = s.concat(filename);
    proof {
        assert(s@ =~= join_path4(root@, stage@, source_type@, filename@));
    }
    s
}

/// The output of a successful staging of `plan`.
fn finished(plan: &StagePlan) -> (res: ToolResult)
    ensures
        res.is_success(done_message(*plan)),
{
    let path = joined_path4(plan.inbox_root.as_str(), plan.action.stage_dir(), plan.source_type.as_str(), plan.filename.as_str());
    let prefix = match plan.action {
        StageAction::Start => "Claimed: ",
        StageAction::Complete => "Completed: ",
        StageAction::Fail => "Failed: ",
    };
    ToolResult::succeeded(concat2(prefix, path.as_str()))
}

/// A step that ends the call with the refusal `msg`.
fn refuse(msg: String) -> (res: StageStep)
    ensures
        res.refuses(msg@),
{
    StageStep::Finish(ToolResult::refusal(msg))
}


/// `dir` is where `request` may put its file: the request names a known
/// action, its path has the shape that action takes with three safe
/// components, and `dir` is `{inbox_root}/{stage of the action}/{source_type}`
/// of that path. `name`, when given, is the path's file name.
pub open spec fn request_destination(request: FileStageRequest, dir: StageDir, name: Option<Seq<char>>) -> bool {
    match action_named(request.action@) {
        Some(action) => match path_shape(request.path@) {
            Some((root, stage, source_type, filename)) => {
                &&& shape_fits(action, stage)
                &&& safe_component(root) && safe_component(source_type) && safe_component(filename)
                &&& dir.inbox_root@ == root
                &&& dir.stage@ == stage_dir_name(action)
                &&& dir.source_type@ == source_type
                &&& name matches Some(n) ==> n == filename
            },
            None => false,
        },
        None => false,
    }
}

/// Every command of a staging call that touches the file system touches
/// the destination of the call's own path.
pub open spec fn touches_only_destination(request: FileStageRequest, cmd: StageCommand) -> bool {
    match cmd {
        StageCommand::CreateDir(dir) => request_destination(request, dir, None),
        StageCommand::CheckDestAllowed(dir) => request_destination(request, dir, None),
        StageCommand::MoveInto(dir, name) => request_destination(request, dir, Some(name@)),
        StageCommand::WriteSidecar(dir, _) => request_destination(request, dir, None),
        StageCommand::WriteErrorNote(dir, _, _) => request_destination(request, dir, None),
        _ => true,
    }
}

/// A staging call creates directories, moves the file and writes notes
/// only in the destination of its own path, and only when that path has the
/// shape its action takes and all of its components are safe names.
pub proof fn lemma_staging_touches_only_destination(run: FileStageRun, reply: Result<(), String>, res: StageStep)
    requires
        run.wf(),
        stage_transition(run, reply, res),
    ensures
        res matches StageStep::Next(r, cmd) ==> touches_only_destination(r.request, cmd),
{
}


/// The path that `start` reports for a claimed file is exactly what
/// `complete` and `fail` take, with the same components, while `start`
/// itself refuses it (a file cannot be claimed twice).
pub proof fn lemma_claimed_path_moves_on(plan: StagePlan, path: Seq<char>)
    requires
        plan.action == StageAction::Start,
        plan.targets(path),
    ensures
        ({
            let claimed = join_path4(plan.inbox_root@, stage_dir_name(StageAction::Start), plan.source_type@, plan.filename@);
            &&& stage_target(StageAction::Complete, claimed) == Ok::<_, Seq<char>>((plan.inbox_root@, plan.source_type@, plan.filename@))
            &&& stage_target(StageAction::Fail, claimed) == Ok::<_, Seq<char>>((plan.inbox_root@, plan.source_type@, plan.filename@))
            &&& stage_target(StageAction::Start, claimed) is Err
        }),
{
    reveal_strlit("processing");
    assert(slash_free("processing"@));
    lemma_stage_shape_roundtrip(plan.inbox_root@, "processing"@, plan.source_type@, plan.filename@);
}

/// A file that `complete` or `fail` has moved is out of the pipeline:
/// no action takes the path that was reported for it.
pub proof fn lemma_finished_path_is_final(plan: StagePlan, path: Seq<char>, next: StageAction)
    requires
        plan.action != StageAction::Start,
        plan.targets(path),
    ensures
        stage_target(next, join_path4(plan.inbox_root@, stage_dir_name(plan.action), plan.source_type@, plan.filename@)) is Err,
{
    reveal_strlit("processing");
    reveal_strlit("processed");
    reveal_strlit("failed");
    assert(slash_free(stage_dir_name(plan.action)));
    assert(stage_dir_name(plan.action) != "processing"@) by {
        assert(stage_dir_name(plan.action)[4] != "processing"@[4] || stage_dir_name(plan.action).len() != "processing"@.len());
    }
    lemma_stage_shape_roundtrip(plan.inbox_root@, stage_dir_name(plan.action), plan.source_type@, plan.filename@);
}


/// `cmd` is the command that a run in its phase waits on the answer to.
pub open spec fn awaits_command(run: FileStageRun, cmd: StageCommand) -> bool {
    let req = run.request;
    match run.phase {
        StagePhase::CheckingRateLimit => cmd is CheckRateLimit,
        StagePhase::CheckingPath => cmd matches StageCommand::CheckPathAllowed(p) && p@ == req.path@,
        StagePhase::RecordingAction => cmd is RecordAction,
        StagePhase::Resolving => cmd matches StageCommand::Resolve(p) && p@ == req.path@,
        StagePhase::CheckingResolved => cmd is CheckResolvedAllowed,
        StagePhase::CreatingDir(plan) => cmd matches StageCommand::CreateDir(dir) && dir.is_for(plan),
        StagePhase::CheckingDest(plan) => cmd matches StageCommand::CheckDestAllowed(dir) && dir.is_for(plan),
        StagePhase::Moving(plan) => cmd matches StageCommand::MoveInto(dir, name) && dir.is_for(plan)
            && name@ == plan.filename@,
        StagePhase::WritingNote(plan) => note_command(req, plan, cmd),
    }
}

/// The commands that change the file system: creating a directory, moving
/// the file and writing a note.
pub open spec fn writes_files(cmd: StageCommand) -> bool {
    cmd is CreateDir || cmd is MoveInto || cmd is WriteSidecar || cmd is WriteErrorNote
}

/// A whole staging call, from the run that `begin` gives to the result: the
/// `i`-th run waits on `cmds[i]`, which is answered by `replies[i]`; each
/// run but the last steps to the next one, and the last ends with `result`.
pub open spec fn stage_call(
    runs: Seq<FileStageRun>,
    cmds: Seq<StageCommand>,
    replies: Seq<Result<(), String>>,
    result: ToolResult,
) -> bool {
    &&& runs.len() > 0
    &&& cmds.len() == runs.len()
    &&& replies.len() == runs.len()
    &&& runs[0].phase is CheckingRateLimit
    &&& cmds[0] is CheckRateLimit
    &&& forall|i: int| 0 <= i < runs.len() - 1
        ==> stage_transition(#[trigger] runs[i], replies[i], StageStep::Next(runs[i + 1], cmds[i + 1]))
    &&& stage_transition(runs.last(), replies.last(), StageStep::Finish(result))
}

/// Along a staging call every run keeps the request, passes through the
/// phases in order, waits on its command and is well formed; every reply
/// but the last is a success.
pub proof fn lemma_stage_call_runs(
    runs: Seq<FileStageRun>,
    cmds: Seq<StageCommand>,
    replies: Seq<Result<(), String>>,
    result: ToolResult,
    k: int,
)
    requires
        stage_call(runs, cmds, replies, result),
        0 <= k < runs.len(),
    ensures
        runs[k].request == runs[0].request,
        commands_left(runs[k].phase) == 8 - k,
        awaits_command(runs[k], cmds[k]),
        runs[k].wf(),
        k < runs.len() - 1 ==> replies[k] is Ok,
    decreases k,
{
    if k > 0 {
        lemma_stage_call_runs(runs, cmds, replies, result, k - 1);
        assert(stage_transition(runs[k - 1], replies[k - 1], StageStep::Next(runs[k], cmds[k])));
    }
    if k < runs.len() - 1 {
        assert(stage_transition(runs[k], replies[k], StageStep::Next(runs[k + 1], cmds[k + 1])));
    }
}

/// A staging call spends its action budget at most once: only as its third
/// command, after the rate-limit check and the check of its own path have
/// both passed. When the budget is exhausted the call is refused with the
/// budget message, and that is its last command.
pub proof fn lemma_stage_call_spends_budget_after_checks(
    runs: Seq<FileStageRun>,
    cmds: Seq<StageCommand>,
    replies: Seq<Result<(), String>>,
    result: ToolResult,
)
    requires
        stage_call(runs, cmds, replies, result),
    ensures
        forall|k: int| 0 <= k < cmds.len() && #[trigger] cmds[k] is RecordAction ==> {
            &&& k == 2
            &&& cmds[0] is CheckRateLimit && replies[0] is Ok
            &&& cmds[1] matches StageCommand::CheckPathAllowed(p) && p@ == runs[0].request.path@
            &&& replies[1] is Ok
            &&& replies[2] is Err ==> runs.len() == 3
                && result.is_refusal("Rate limit exceeded: action budget exhausted"@)
        },
{
    assert forall|k: int| 0 <= k < cmds.len() && #[trigger] cmds[k] is RecordAction implies {
        &&& k == 2
        &&& cmds[0] is CheckRateLimit && replies[0] is Ok
        &&& cmds[1] matches StageCommand::CheckPathAllowed(p) && p@ == runs[0].request.path@
        &&& replies[1] is Ok
        &&& replies[2] is Err ==> runs.len() == 3
            && result.is_refusal("Rate limit exceeded: action budget exhausted"@)
    } by {
        lemma_stage_call_runs(runs, cmds, replies, result, k);
        lemma_stage_call_runs(runs, cmds, replies, result, 0);
        lemma_stage_call_runs(runs, cmds, replies, result, 1);
        if replies[2] is Err && runs.len() > 3 {
            lemma_stage_call_runs(runs, cmds, replies, result, 2);
        }
    }
}

/// A staging call that fails ends with empty output and an error message,
/// and on the way it moved no file and wrote no note: every move it asked
/// for failed, and no note was asked for. (Directories it created stay empty.)
pub proof fn lemma_refused_stage_call_writes_nothing(
    runs: Seq<FileStageRun>,
    cmds: Seq<StageCommand>,
    replies: Seq<Result<(), String>>,
    result: ToolResult,
)
    requires
        stage_call(runs, cmds, replies, result),
        !result.success,
    ensures
        result.output@ == Seq::<char>::empty(),
        result.error is Some,
        forall|k: int| 0 <= k < cmds.len() ==> {
            &&& #[trigger] cmds[k] is MoveInto ==> replies[k] is Err
            &&& !(cmds[k] is WriteSidecar)
            &&& !(cmds[k] is WriteErrorNote)
            &&& writes_files(cmds[k]) ==> cmds[k] is CreateDir || cmds[k] is MoveInto
        },
{
    let n = runs.len() - 1;
    lemma_stage_call_runs(runs, cmds, replies, result, n);
    assert forall|k: int| 0 <= k < cmds.len() implies {
        &&& #[trigger] cmds[k] is MoveInto ==> replies[k] is Err
        &&& !(cmds[k] is WriteSidecar)
        &&& !(cmds[k] is WriteErrorNote)
        &&& writes_files(cmds[k]) ==> cmds[k] is CreateDir || cmds[k] is MoveInto
    } by {
        lemma_stage_call_runs(runs, cmds, replies, result, k);
        if k < n {
            lemma_stage_call_runs(runs, cmds, replies, result, k + 1);
        }
    }
}

/// A staging call succeeds exactly when the move of its file succeeded (a
/// note that follows cannot fail the call). Then the path passed the policy
/// check, the action is the one the request names, the path has the shape
/// that action takes with three safe components, the file went to
/// `{inbox_root}/{stage of the action}/{source_type}` under its own name, and
/// the output reports that new path.
pub proof fn lemma_successful_stage_call_moved_file(
    runs: Seq<FileStageRun>,
    cmds: Seq<StageCommand>,
    replies: Seq<Result<(), String>>,
    result: ToolResult,
)
    requires
        stage_call(runs, cmds, replies, result),
    ensures
        result.success <==> (runs.len() >= 8 && cmds[7] is MoveInto && replies[7] is Ok),
        result.success ==> {
            &&& cmds[1] matches StageCommand::CheckPathAllowed(p) && p@ == runs[0].request.path@
            &&& replies[1] is Ok
            &&& cmds[7] matches StageCommand::MoveInto(dir, name)
                && request_destination(runs[0].request, dir, Some(name@))
            &&& runs[7].phase matches StagePhase::Moving(plan) && {
                &&& action_named(runs[0].request.action@) == Some(plan.action)
                &&& plan.targets(runs[0].request.path@)
                &&& result.is_success(done_message(plan))
            }
        },
{
    let n = runs.len() - 1;
    lemma_stage_call_runs(runs, cmds, replies, result, n);
    lemma_stage_call_runs(runs, cmds, replies, result, 0);
    if runs.len() >= 8 {
        lemma_stage_call_runs(runs, cmds, replies, result, 1);
        lemma_stage_call_runs(runs, cmds, replies, result, 7);
        if n == 8 {
            assert(stage_transition(runs[7], replies[7], StageStep::Next(runs[8], cmds[8])));
        }
    }
}

/// The output of a successful staging names where the file went: it is the
/// action's word (`Claimed: `, `Completed: ` or `Failed: `) followed by the
/// directory of the move that succeeded and the file's name, joined by `'/'`.
/// That directory is the request path's own inbox root, the action's stage
/// directory and the path's source type, and the name is the path's file name.
pub proof fn lemma_successful_stage_call_reports_destination(
    runs: Seq<FileStageRun>,
    cmds: Seq<StageCommand>,
    replies: Seq<Result<(), String>>,
    result: ToolResult,
)
    requires
        stage_call(runs, cmds, replies, result),
        result.success,
    ensures
        cmds[7] matches StageCommand::MoveInto(dir, name) && {
            let req = runs[0].request;
            let dest = dir.inbox_root@ + seq!['/'] + dir.stage@ + seq!['/'] + dir.source_type@ + seq!['/'] + name@;
            &&& replies[7] is Ok
            &&& request_destination(req, dir, Some(name@))
            &&& path_shape(req.path@) matches Some((root, _, source_type, filename)) && {
                &&& dir.inbox_root@ == root
                &&& dir.source_type@ == source_type
                &&& name@ == filename
            }
            &&& req.action@ == "start"@ ==> dir.stage@ == "processing"@ && result.output@ == "Claimed: "@ + dest
            &&& req.action@ == "complete"@ ==> dir.stage@ == "processed"@ && result.output@ == "Completed: "@ + dest
            &&& req.action@ == "fail"@ ==> dir.stage@ == "failed"@ && result.output@ == "Failed: "@ + dest
        },
{
    lemma_successful_stage_call_moved_file(runs, cmds, replies, result);
    lemma_stage_call_runs(runs, cmds, replies, result, 7);
    reveal_strlit("start");
    reveal_strlit("complete");
    reveal_strlit("fail");
    assert("start"@.len() == 5 && "complete"@.len() == 8 && "fail"@.len() == 4);
    let req = runs[0].request;
    let plan = runs[7].phase->Moving_0;
    let dir = cmds[7]->MoveInto_0;
    let name = cmds[7]->MoveInto_1;
    assert(dir.is_for(plan) && name@ == plan.filename@);
    let dest = dir.inbox_root@ + seq!['/'] + dir.stage@ + seq!['/'] + dir.source_type@ + seq!['/'] + name@;
    assert(dest == join_path4(plan.inbox_root@, stage_dir_name(plan.action), plan.source_type@, plan.filename@));
    assert(result.output@ == done_message(plan));
    match plan.action {
        StageAction::Start => {
            assert(req.action@ == "start"@);
            assert(result.output@ =~= "Claimed: "@ + dest);

        },
        StageAction::Complete => {
            assert(req.action@ == "complete"@);
            assert(result.output@ =~= "Completed: "@ + dest);
        },
        StageAction::Fail => {
            assert(req.action@ == "fail"@);
            assert(result.output@ =~= "Failed: "@ + dest);
        },
    }
}

/// Advances files through the inbox pipeline (`start`, `complete`, `fail`).
pub struct FileStageTool {}

impl FileStageTool {
    /// Creates the tool.
    pub fn new() -> (res: FileStageTool) {
        FileStageTool {}
    }

    /// The tool's name.
    pub fn name(&self) -> (res: &'static str)
        ensures
            res@ == "file_stage"@,
    {
        "file_stage"
    }

    /// What the tool does, for the agent that calls it.
    pub fn description(&self) -> (res: &'static str)
        ensures
            res@ == "Advance a file through the inbox processing pipeline. Use action='start' to claim a file (moves it to processing/), 'complete' to mark it done (moves to processed/, optionally writes a .sidecar.json), or 'fail' to move it to failed/ with an optional error note. All paths are workspace-relative."@,
    {
        "Advance a file through the inbox processing pipeline. Use action='start' to claim a file (moves it to processing/), 'complete' to mark it done (moves to processed/, optionally writes a .sidecar.json), or 'fail' to move it to failed/ with an optional error note. All paths are workspace-relative."
    }

    /// Start a staging call: both `path` and `action` must be given. The first
    /// command asks whether the caller is rate limited.
    pub fn begin(&self, args: FileStageArgs) -> (res: Result<StageStep, FileStageError>)
        ensures
            match (args.path, args.action) {
                (None, _) => res == Err::<StageStep, _>(FileStageError::MissingPath),
                (Some(_), None) => res == Err::<StageStep, _>(FileStageError::MissingAction),
                (Some(p), Some(a)) => res matches Ok(StageStep::Next(run, StageCommand::CheckRateLimit)) && run.wf()
                    && run.phase is CheckingRateLimit && run.request == (FileStageRequest {
                        path: p,
                        action: a,
                        has_sidecar: args.has_sidecar,
                        error_note: args.error_note,
                    }),
            },
    {
        match args.path {
            None => Err(FileStageError::MissingPath),
            Some(path) => match args.action {
                None => Err(FileStageError::MissingAction),
                Some(action) => {
                    let request = FileStageRequest {
                        path,
                        action,
                        has_sidecar: args.has_sidecar,
                        error_note: args.error_note,
                    };
                    Ok(StageStep::Next(FileStageRun { request, phase: StagePhase::CheckingRateLimit }, StageCommand::CheckRateLimit))
                },
            },
        }
    }

    /// Advance a staging call: `reply` answers the command of its last step.
    pub fn step(&self, run: FileStageRun, reply: Result<(), String>) -> (res: StageStep)
        ensures
            stage_transition(run, reply, res),
            run.wf() ==> (res matches StageStep::Next(r, _) ==> r.wf()),
            res matches StageStep::Next(r, _) ==> commands_left(r.phase) < commands_left(run.phase),
    {
        let request = run.request;
        match run.phase {
            StagePhase::CheckingRateLimit => match reply {
                Ok(()) => {
                    let p = request.path.clone();
                    StageStep::Next(FileStageRun { request, phase: StagePhase::CheckingPath }, StageCommand::CheckPathAllowed(p))
                },
                Err(_) => refuse("Rate limit exceeded: too many actions in the last hour".to_owned()),
            },
            StagePhase::CheckingPath => match reply {
                Ok(()) => StageStep::Next(FileStageRun { request, phase: StagePhase::RecordingAction }, StageCommand::RecordAction),
                Err(_) => refuse(concat2("Path not allowed by security policy: ", request.path.as_str())),
            },
            StagePhase::RecordingAction => match reply {
                Ok(()) => {
                    let p = request.path.clone();
                    StageStep::Next(FileStageRun { request, phase: StagePhase::Resolving }, StageCommand::Resolve(p))
                },
                Err(_) => refuse("Rate limit exceeded: action budget exhausted".to_owned()),
            },
            StagePhase::Resolving => match reply {
                Ok(()) => StageStep::Next(FileStageRun { request, phase: StagePhase::CheckingResolved }, StageCommand::CheckResolvedAllowed),
                Err(e) => refuse(concat2("Failed to resolve path: ", e.as_str())),
            },
            StagePhase::CheckingResolved => match reply {
                Err(violation) => refuse(violation),
                Ok(()) => match StageAction::from_name(request.action.as_str()) {
                    None => refuse(concat3("Unknown action '", request.action.as_str(), "': must be 'start', 'complete', or 'fail'")),
                    Some(action) => match plan_stage(action, request.path.as_str()) {
                        Err(msg) => refuse(msg),
                        Ok(plan) => {
                            let dir = destination(&plan);
                            StageStep::Next(FileStageRun { request, phase: StagePhase::CreatingDir(plan) }, StageCommand::CreateDir(dir))
                        },
                    },
                },
            },
            StagePhase::CreatingDir(plan) => match reply {
                Err(e) => refuse(concat2(concat3("Failed to create ", plan.action.stage_dir(), " dir: ").as_str(), e.as_str())),
                Ok(()) => {
                    let dir = destination(&plan);
                    StageStep::Next(FileStageRun { request, phase: StagePhase::CheckingDest(plan) }, StageCommand::CheckDestAllowed(dir))
                },
            },
            StagePhase::CheckingDest(plan) => match reply {
                Err(_) => refuse("Destination path escapes workspace".to_owned()),
                Ok(()) => {
                    let dir = destination(&plan);
                    let name = plan.filename.clone();
                    StageStep::Next(FileStageRun { request, phase: StagePhase::Moving(plan) }, StageCommand::MoveInto(dir, name))
                },
            },
            StagePhase::Moving(plan) => match reply {
                Err(e) => refuse(concat2(concat3("Failed to move file to ", plan.action.stage_dir(), ": ").as_str(), e.as_str())),
                Ok(()) => match plan.action {
                    StageAction::Complete if request.has_sidecar => {
                        let dir = destination(&plan);
                        let name = concat2(plan.filename.as_str(), ".sidecar.json");
                        StageStep::Next(FileStageRun { request, phase: StagePhase::WritingNote(plan) }, StageCommand::WriteSidecar(dir, name))
                    },
                    StageAction::Fail => {
                        let note = match &request.error_note {
                            Some(m) => render_text_member("error", m.as_str()),
                            None => None,
                        };
                        match note {
                            Some(bytes) => {
                                let dir = destination(&plan);
                                let name = concat2(plan.filename.as_str(), ".error.json");
                                StageStep::Next(FileStageRun { request, phase: StagePhase::WritingNote(plan) },
                                    StageCommand::WriteErrorNote(dir, name, bytes))
                            },
                            None => StageStep::Finish(finished(&plan)),
                        }
                    },
                    _ => StageStep::Finish(finished(&plan)),
                },
            },
            StagePhase::WritingNote(plan) => StageStep::Finish(finished(&plan)),
        }
    }

    /// Parse a workspace-relative path into `(inbox_root, stage, source_type, filename)`.
    ///
    /// `start` paths have the shape `inbox/{source_type}/{filename}` (stage `None`);
    /// `complete`/`fail` paths have the shape `inbox/{stage}/{source_type}/{filename}`.
    pub fn parse_path(path: &str) -> (res: Option<(&str, Option<&str>, &str, &str)>)
        ensures
            shape_view(res) == path_shape(path@),
    {
        let chars = chars_of(path);
        let n = chars.len();
        let mut ranges: Vec<(usize, usize)> = Vec::new();
        ranges.push((0, 0));
        let mut i: usize = 0;
        proof {
            assert(path@.take(0) =~= Seq::<char>::empty());
        }
        while i < n && ranges.len() < 5
            invariant
                n == chars@.len(),
                chars@ == path@,
                i <= n,
                1 <= ranges.len() <= 5,
                ranges.len() == split_on_slash(path@.take(i as int)).len(),
                forall|k: int| 0 <= k < ranges.len() ==> {
                    &&& (#[trigger] ranges@[k]).0 <= ranges@[k].1 <= i
                    &&& path@.subrange(ranges@[k].0 as int, ranges@[k].1 as int)
                        == split_on_slash(path@.take(i as int))[k]
                },
                ranges@[ranges.len() - 1].1 == i,
            decreases n - i,
        {
            let c = chars[i];
            let ghost before = split_on_slash(path@.take(i as int));
            proof {
                assert(path@.take(i + 1).drop_last() =~= path@.take(i as int));
                assert(path@.take(i + 1).last() == c);
            }
            if c == '/' {
                ranges.push((i + 1, i + 1));
                proof {
                    assert(path@.subrange(i + 1, i + 1) =~= Seq::<char>::empty());
                }
            } else {
                let last = ranges.len() - 1;
                let (a, _) = ranges[last];
                ranges.set(last, (a, i + 1));
                proof {
                    assert(path@.subrange(a as int, i + 1) =~= path@.subrange(a as int, i as int).push(c));
                }
            }
            i = i + 1;
        }
        if ranges.len() == 5 {
            proof {
                lemma_split_len_monotone(path@, i as int);
            }
            return None;
        }
        proof {
            assert(path@.take(n as int) =~= path@);
        }
        if ranges.len() == 3 {
            let a = path.substring_char(ranges[0].0, ranges[0].1);
            let c = path.substring_char(ranges[1].0, ranges[1].1);
            let d = path.substring_char(ranges[2].0, ranges[2].1);
            Some((a, None, c, d))
        } else if ranges.len() == 4 {
            let a = path.substring_char(ranges[0].0, ranges[0].1);
            let b = path.substring_char(ranges[1].0, ranges[1].1);
            let c = path.substring_char(ranges[2].0, ranges[2].1);
            let d = path.substring_char(ranges[3].0, ranges[3].1);
            Some((a, Some(b), c, d))
        } else {
            None
        }
    }

    /// Verify that a path component is a plain name with no traversal characters.
    pub fn is_safe_component(component: &str) -> (res: bool)
        ensures
            res == safe_component(component@),
    {
        let chars = chars_of(component);
        let n = chars.len();
        if n == 0 {
            return false;
        }
        if n == 1 && chars[0] == '.' {
            proof {
                assert(component@ =~= seq!['.']);
            }
            return false;
        }
        if n == 2 && chars[0] == '.' && chars[1] == '.' {
            proof {
                assert(component@ =~= seq!['.', '.']);
            }
            return false;
        }
        let mut i: usize = 0;
        while i < n
            invariant
                n == chars@.len(),
                chars@ == component@,
                i <= n,
                forall|k: int| 0 <= k < i ==> chars@[k] != '/' && chars@[k] != '\0',
            decreases n - i,
        {
            if chars[i] == '/' || chars[i] == '\0' {
                return false;
            }
            i = i + 1;
        }
        proof {
            assert(component@ != seq!['.'] ) by {
                if n == 1 { assert(component@[0] != '.'); }
                else { assert(component@.len() != seq!['.'].len()); }
            }
            assert(component@ != seq!['.', '.']) by {
                if n == 2 { assert(component@[0] != '.' || component@[1] != '.'); }
                else { assert(component@.len() != seq!['.', '.'].len()); }
            }
        }
        true
    }
}

} // verus!
