use inbox_pipeline::file_stage::plan_stage;
use inbox_pipeline::{
    FileStageArgs, FileStageError, FileStageRun, FileStageTool, StageAction, StageCommand, StageDir, StageStep,
    ToolResult,
};

fn args(path: Option<&str>, action: Option<&str>) -> FileStageArgs {
    FileStageArgs {
        path: path.map(|p| p.to_string()),
        action: action.map(|a| a.to_string()),
        has_sidecar: false,
        error_note: None,
    }
}

fn next(step: StageStep) -> (FileStageRun, StageCommand) {
    match step {
        StageStep::Next(run, cmd) => (run, cmd),
        StageStep::Finish(r) => panic!("finished early: {:?} {:?} {:?}", r.success, r.output, r.error),
    }
}

fn finish(step: StageStep) -> ToolResult {
    match step {
        StageStep::Finish(r) => r,
        StageStep::Next(..) => panic!("expected the call to end"),
    }
}

fn dir_text(dir: &StageDir) -> String {
    format!("{}/{}/{}", dir.inbox_root, dir.stage, dir.source_type)
}

/// Answers every command with success until the call ends; returns the
/// commands it saw (as text) and the result.
fn run_all_ok(tool: &FileStageTool, a: FileStageArgs) -> (Vec<String>, ToolResult) {
    let mut step = tool.begin(a).ok().expect("arguments present");
    let mut seen = Vec::new();
    loop {
        match step {
            StageStep::Finish(r) => return (seen, r),
            StageStep::Next(run, cmd) => {
                seen.push(match &cmd {
                    StageCommand::CheckRateLimit => "rate".to_string(),
                    StageCommand::CheckPathAllowed(p) => format!("allowed {p}"),
                    StageCommand::RecordAction => "record".to_string(),
                    StageCommand::Resolve(p) => format!("resolve {p}"),
                    StageCommand::CheckResolvedAllowed => "resolved-allowed".to_string(),
                    StageCommand::CreateDir(d) => format!("mkdir {}", dir_text(d)),
                    StageCommand::CheckDestAllowed(d) => format!("dest {}", dir_text(d)),
                    StageCommand::MoveInto(d, n) => format!("move {}/{n}", dir_text(d)),
                    StageCommand::WriteSidecar(d, n) => format!("sidecar {}/{n}", dir_text(d)),
                    StageCommand::WriteErrorNote(d, n, b) => {
                        format!("error-note {}/{n} {}", dir_text(d), String::from_utf8_lossy(b))
                    },
                });
                step = tool.step(run, Ok(()));
            },
        }
    }
}

/// Runs a call, answering the `fail_at`-th command (counting from 0) with
/// `Err(text)` and every other with success.
fn run_failing_at(tool: &FileStageTool, a: FileStageArgs, fail_at: usize, text: &str) -> ToolResult {
    let mut step = tool.begin(a).ok().expect("arguments present");
    let mut i = 0;
    loop {
        match step {
            StageStep::Finish(r) => return r,
            StageStep::Next(run, _) => {
                let reply = if i == fail_at { Err(text.to_string()) } else { Ok(()) };
                step = tool.step(run, reply);
                i += 1;
            },
        }
    }
}

#[test]
fn file_stage_name() {
    let tool = FileStageTool::new();
    assert_eq!(tool.name(), "file_stage");
}

#[test]
fn parse_path_start_shape() {
    let result = FileStageTool::parse_path("inbox/emails/msg.eml");
    assert_eq!(
        result,
        Some(("inbox", None, "emails", "msg.eml")),
        "3-part path should parse as start shape"
    );
}

#[test]
fn parse_path_stage_shape() {
    let result = FileStageTool::parse_path("inbox/processing/emails/msg.eml");
    assert_eq!(
        result,
        Some(("inbox", Some("processing"), "emails", "msg.eml")),
        "4-part path should parse as stage shape"
    );
}

#[test]
fn parse_path_rejects_short_path() {
    assert!(
        FileStageTool::parse_path("inbox/msg.eml").is_none(),
        "2-part path should not parse"
    );
}

#[test]
fn is_safe_component_rejects_traversal() {
    assert!(!FileStageTool::is_safe_component(".."));
    assert!(!FileStageTool::is_safe_component("."));
    assert!(!FileStageTool::is_safe_component(""));
    assert!(!FileStageTool::is_safe_component("foo/bar"));
    assert!(FileStageTool::is_safe_component("emails"));
    assert!(FileStageTool::is_safe_component("msg.eml"));
}

#[test]
fn parse_path_rejects_long_and_single_paths() {
    assert!(FileStageTool::parse_path("a/b/c/d/e").is_none());
    assert!(FileStageTool::parse_path("a/b/c/d/e/f/g").is_none());
    assert!(FileStageTool::parse_path("msg.eml").is_none());
    assert!(FileStageTool::parse_path("").is_none());
}

#[test]
fn parse_path_keeps_empty_and_unicode_pieces() {
    assert_eq!(FileStageTool::parse_path("inbox//x"), Some(("inbox", None, "", "x")));
    assert_eq!(FileStageTool::parse_path("/a/b/"), Some(("", Some("a"), "b", "")));
    assert_eq!(
        FileStageTool::parse_path("inbox/courriels/été.eml"),
        Some(("inbox", None, "courriels", "été.eml"))
    );
}

#[test]
fn is_safe_component_rejects_nul_and_accepts_dots_inside() {
    assert!(!FileStageTool::is_safe_component("a\0b"));
    assert!(FileStageTool::is_safe_component("..."));
    assert!(FileStageTool::is_safe_component(".hidden"));
    assert!(FileStageTool::is_safe_component("a..b"));
}

#[test]
fn stage_action_names() {
    assert_eq!(StageAction::from_name("start"), Some(StageAction::Start));
    assert_eq!(StageAction::from_name("complete"), Some(StageAction::Complete));
    assert_eq!(StageAction::from_name("fail"), Some(StageAction::Fail));
    assert_eq!(StageAction::from_name("reprocess"), None);
    assert_eq!(StageAction::from_name("Start"), None);
    assert_eq!(StageAction::Start.stage_dir(), "processing");
    assert_eq!(StageAction::Complete.stage_dir(), "processed");
    assert_eq!(StageAction::Fail.stage_dir(), "failed");
}

#[test]
fn plan_stage_checks_shape_then_components() {
    let plan = plan_stage(StageAction::Start, "inbox/emails/msg.eml").ok().unwrap();
    assert_eq!(plan.inbox_root, "inbox");
    assert_eq!(plan.source_type, "emails");
    assert_eq!(plan.filename, "msg.eml");
    assert_eq!(
        plan_stage(StageAction::Start, "inbox/processing/emails/msg.eml").err().unwrap(),
        "Path 'inbox/processing/emails/msg.eml' must match inbox/<source_type>/<filename> for action 'start'"
    );
    assert_eq!(
        plan_stage(StageAction::Complete, "inbox/emails/msg.eml").err().unwrap(),
        "Path 'inbox/emails/msg.eml' must match inbox/processing/<source_type>/<filename> for action 'complete'"
    );
    assert_eq!(
        plan_stage(StageAction::Fail, "inbox/processed/emails/msg.eml").err().unwrap(),
        "Path 'inbox/processed/emails/msg.eml' must match inbox/processing/<source_type>/<filename> for action 'fail'"
    );
    assert_eq!(
        plan_stage(StageAction::Start, "../emails/msg.eml").err().unwrap(),
        "Path component contains disallowed characters"
    );
    assert_eq!(
        plan_stage(StageAction::Complete, "inbox/processing/./msg.eml").err().unwrap(),
        "Path component contains disallowed characters"
    );
    let plan = plan_stage(StageAction::Fail, "inbox/processing/emails/bad.eml").ok().unwrap();
    assert_eq!(plan.action, StageAction::Fail);
    assert_eq!(plan.filename, "bad.eml");
}

#[test]
fn missing_arguments_are_errors() {
    let tool = FileStageTool::new();
    let e = tool.begin(args(None, Some("start"))).err().unwrap();
    assert_eq!(e, FileStageError::MissingPath);
    assert_eq!(e.message(), "Missing 'path' parameter");
    let e = tool.begin(args(Some("inbox/emails/msg.eml"), None)).err().unwrap();
    assert_eq!(e, FileStageError::MissingAction);
    assert_eq!(e.message(), "Missing 'action' parameter");
    assert_eq!(tool.begin(args(None, None)).err().unwrap(), FileStageError::MissingPath);
}

#[test]
fn file_stage_start_moves_file_to_processing() {
    let tool = FileStageTool::new();
    let (seen, result) = run_all_ok(&tool, args(Some("inbox/emails/msg.eml"), Some("start")));
    assert_eq!(
        seen,
        vec![
            "rate",
            "allowed inbox/emails/msg.eml",
            "record",
            "resolve inbox/emails/msg.eml",
            "resolved-allowed",
            "mkdir inbox/processing/emails",
            "dest inbox/processing/emails",
            "move inbox/processing/emails/msg.eml",
        ]
    );
    assert!(result.success, "start should succeed: {:?}", result.error);
    assert!(result.output.contains("Claimed:"));
    assert_eq!(result.output, "Claimed: inbox/processing/emails/msg.eml");
    assert!(result.error.is_none());
}

#[test]
fn file_stage_complete_writes_sidecar_and_moves_file() {
    let tool = FileStageTool::new();
    let mut a = args(Some("inbox/processing/emails/msg.eml"), Some("complete"));
    a.has_sidecar = true;
    let (seen, result) = run_all_ok(&tool, a);
    assert_eq!(seen[5], "mkdir inbox/processed/emails");
    assert_eq!(seen[7], "move inbox/processed/emails/msg.eml");
    assert_eq!(seen[8], "sidecar inbox/processed/emails/msg.eml.sidecar.json");
    assert_eq!(seen.len(), 9);
    assert!(result.success, "complete should succeed: {:?}", result.error);
    assert!(result.output.contains("Completed:"));
    assert_eq!(result.output, "Completed: inbox/processed/emails/msg.eml");
}

#[test]
fn complete_without_sidecar_writes_no_note() {
    let tool = FileStageTool::new();
    let (seen, result) = run_all_ok(&tool, args(Some("inbox/processing/emails/msg.eml"), Some("complete")));
    assert_eq!(seen.len(), 8);
    assert_eq!(result.output, "Completed: inbox/processed/emails/msg.eml");
}

#[test]
fn file_stage_fail_moves_file_and_writes_error() {
    let tool = FileStageTool::new();
    let mut a = args(Some("inbox/processing/emails/bad.eml"), Some("fail"));
    a.error_note = Some("Could not parse email headers".to_string());
    let (seen, result) = run_all_ok(&tool, a);
    assert_eq!(seen[7], "move inbox/failed/emails/bad.eml");
    let note = seen[8].strip_prefix("error-note inbox/failed/emails/bad.eml.error.json ").unwrap();
    let error_json: serde_json::Value = serde_json::from_str(note).unwrap();
    assert_eq!(error_json["error"].as_str().unwrap(), "Could not parse email headers");
    assert_eq!(note, "{\n  \"error\": \"Could not parse email headers\"\n}");
    assert!(result.success, "fail should succeed: {:?}", result.error);
    assert!(result.output.contains("Failed:"));
    assert_eq!(result.output, "Failed: inbox/failed/emails/bad.eml");
}

#[test]
fn file_stage_start_rejects_wrong_path_shape() {
    let tool = FileStageTool::new();
    let (seen, result) = run_all_ok(&tool, args(Some("inbox/processing/emails/msg.eml"), Some("start")));
    assert_eq!(seen.len(), 5, "nothing is created or moved");
    assert!(!result.success);
    assert_eq!(
        result.error.as_deref(),
        Some("Path 'inbox/processing/emails/msg.eml' must match inbox/<source_type>/<filename> for action 'start'")
    );
}

#[test]
fn file_stage_rejects_unknown_action() {
    let tool = FileStageTool::new();
    let (seen, result) = run_all_ok(&tool, args(Some("inbox/emails/msg.eml"), Some("reprocess")));
    assert_eq!(seen.len(), 5);
    assert!(!result.success);
    assert!(result.output.is_empty());
    assert!(result.error.as_ref().unwrap().contains("Unknown action 'reprocess'"));
    assert_eq!(
        result.error.as_deref(),
        Some("Unknown action 'reprocess': must be 'start', 'complete', or 'fail'")
    );
}

#[test]
fn file_stage_rejects_path_outside_workspace() {
    let tool = FileStageTool::new();
    let r = run_failing_at(&tool, args(Some("../../../etc/passwd"), Some("start")), 1, "");
    assert!(!r.success);
    assert!(r.error.as_ref().unwrap().contains("not allowed"));
}

#[test]
fn file_stage_blocks_when_rate_limited() {
    let tool = FileStageTool::new();
    let r = run_failing_at(&tool, args(Some("inbox/emails/msg.eml"), Some("start")), 0, "");
    assert!(!r.success);
    assert!(r.error.as_deref().unwrap_or("").contains("Rate limit exceeded"));
}

#[test]
fn refusals_of_the_outside_checks() {
    let tool = FileStageTool::new();
    let a = || args(Some("../../../etc/passwd"), Some("start"));
    let r = run_failing_at(&tool, a(), 0, "");
    assert_eq!(r.error.as_deref(), Some("Rate limit exceeded: too many actions in the last hour"));
    let r = run_failing_at(&tool, a(), 1, "");
    assert_eq!(r.error.as_deref(), Some("Path not allowed by security policy: ../../../etc/passwd"));
    assert!(r.error.as_ref().unwrap().contains("not allowed"));
    let r = run_failing_at(&tool, a(), 2, "");
    assert_eq!(r.error.as_deref(), Some("Rate limit exceeded: action budget exhausted"));
    let r = run_failing_at(&tool, a(), 3, "No such file or directory (os error 2)");
    assert_eq!(r.error.as_deref(), Some("Failed to resolve path: No such file or directory (os error 2)"));
    let r = run_failing_at(&tool, a(), 4, "Resolved path escapes workspace: /etc/passwd");
    assert_eq!(r.error.as_deref(), Some("Resolved path escapes workspace: /etc/passwd"));
    assert!(!r.success);
}

#[test]
fn refusals_of_the_file_operations() {
    let tool = FileStageTool::new();
    let r = run_failing_at(&tool, args(Some("inbox/emails/msg.eml"), Some("start")), 5, "denied");
    assert_eq!(r.error.as_deref(), Some("Failed to create processing dir: denied"));
    let r = run_failing_at(&tool, args(Some("inbox/processing/emails/msg.eml"), Some("complete")), 6, "");
    assert_eq!(r.error.as_deref(), Some("Destination path escapes workspace"));
    let r = run_failing_at(&tool, args(Some("inbox/processing/emails/msg.eml"), Some("complete")), 7, "busy");
    assert_eq!(r.error.as_deref(), Some("Failed to move file to processed: busy"));
    let r = run_failing_at(&tool, args(Some("inbox/processing/emails/msg.eml"), Some("fail")), 5, "full");
    assert_eq!(r.error.as_deref(), Some("Failed to create failed dir: full"));
}

#[test]
fn failed_note_write_does_not_fail_the_call() {
    let tool = FileStageTool::new();
    let mut a = args(Some("inbox/processing/emails/msg.eml"), Some("complete"));
    a.has_sidecar = true;
    let r = run_failing_at(&tool, a, 8, "disk full");
    assert!(r.success);
    assert_eq!(r.output, "Completed: inbox/processed/emails/msg.eml");
}

#[test]
fn claimed_path_can_be_completed_but_not_claimed_again() {
    let tool = FileStageTool::new();
    let (_, result) = run_all_ok(&tool, args(Some("inbox/emails/msg.eml"), Some("start")));
    let claimed = result.output.strip_prefix("Claimed: ").unwrap().to_string();
    let plan = plan_stage(StageAction::Complete, &claimed).ok().unwrap();
    assert_eq!((plan.inbox_root.as_str(), plan.source_type.as_str(), plan.filename.as_str()), ("inbox", "emails", "msg.eml"));
    assert!(plan_stage(StageAction::Fail, &claimed).is_ok());
    assert!(plan_stage(StageAction::Start, &claimed).is_err());
}

#[test]
fn finished_path_is_taken_by_no_action() {
    let tool = FileStageTool::new();
    let (_, result) = run_all_ok(&tool, args(Some("inbox/processing/emails/msg.eml"), Some("complete")));
    let done = result.output.strip_prefix("Completed: ").unwrap().to_string();
    for action in [StageAction::Start, StageAction::Complete, StageAction::Fail] {
        assert!(plan_stage(action, &done).is_err());
    }
}

#[test]
fn destination_follows_the_path_components() {
    let tool = FileStageTool::new();
    let (seen, _) = run_all_ok(&tool, args(Some("box/processing/scans/p1.pdf"), Some("fail")));
    assert_eq!(seen[5], "mkdir box/failed/scans");
    assert_eq!(seen[7], "move box/failed/scans/p1.pdf");
    let step = tool.begin(args(Some("inbox/emails/msg.eml"), Some("start"))).ok().unwrap();
    let (run, cmd) = next(step);
    assert!(matches!(cmd, StageCommand::CheckRateLimit));
    assert_eq!(run.request.path, "inbox/emails/msg.eml");
    let r = finish(tool.step(run, Err(String::new())));
    assert!(!r.success);
}

/// Runs a call, answering the `fail_at`-th command with `Err` and every other
/// with success; returns the kinds of the commands asked for and the result.
fn commands_until_failure(tool: &FileStageTool, a: FileStageArgs, fail_at: usize) -> (Vec<&'static str>, ToolResult) {
    let mut step = tool.begin(a).ok().expect("arguments present");
    let mut kinds = Vec::new();
    loop {
        match step {
            StageStep::Finish(r) => return (kinds, r),
            StageStep::Next(run, cmd) => {
                kinds.push(match cmd {
                    StageCommand::CheckRateLimit => "rate",
                    StageCommand::CheckPathAllowed(_) => "allowed",
                    StageCommand::RecordAction => "record",
                    StageCommand::Resolve(_) => "resolve",
                    StageCommand::CheckResolvedAllowed => "resolved-allowed",
                    StageCommand::CreateDir(_) => "mkdir",
                    StageCommand::CheckDestAllowed(_) => "dest",
                    StageCommand::MoveInto(..) => "move",
                    StageCommand::WriteSidecar(..) => "sidecar",
                    StageCommand::WriteErrorNote(..) => "error-note",
                });
                let reply = if kinds.len() - 1 == fail_at { Err("no".to_string()) } else { Ok(()) };
                step = tool.step(run, reply);
            },
        }
    }
}

#[test]
fn budget_is_spent_once_after_both_checks() {
    let tool = FileStageTool::new();
    let (kinds, r) = commands_until_failure(&tool, args(Some("inbox/emails/msg.eml"), Some("start")), 2);
    assert_eq!(kinds, vec!["rate", "allowed", "record"]);
    assert_eq!(r.error.as_deref(), Some("Rate limit exceeded: action budget exhausted"));
    let (kinds, _) = commands_until_failure(&tool, args(Some("inbox/emails/msg.eml"), Some("start")), 1);
    assert_eq!(kinds, vec!["rate", "allowed"]);
    let (kinds, _) = commands_until_failure(&tool, args(Some("inbox/emails/msg.eml"), Some("start")), 99);
    assert_eq!(kinds.iter().filter(|k| **k == "record").count(), 1);
}

#[test]
fn refused_call_moves_and_writes_nothing() {
    let tool = FileStageTool::new();
    for fail_at in 0..8 {
        let mut a = args(Some("inbox/processing/emails/msg.eml"), Some("complete"));
        a.has_sidecar = true;
        let (kinds, r) = commands_until_failure(&tool, a, fail_at);
        assert!(!r.success);
        assert!(r.output.is_empty());
        assert!(r.error.is_some());
        assert!(!kinds.contains(&"sidecar"));
        assert!(!kinds.contains(&"move") || kinds.last() == Some(&"move"));
    }
    let mut a = args(Some("inbox/processing/emails/msg.eml"), Some("complete"));
    a.has_sidecar = true;
    let (_, r) = commands_until_failure(&tool, a, 8);
    assert!(r.success, "a failed note does not fail the call");
}
