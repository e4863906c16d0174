use inbox_pipeline::inbox_scan::{is_skipped_name, scan_output, select_source_dirs};
use inbox_pipeline::{
    FileStat, InboxEntry, InboxScanArgs, InboxScanTool, PendingFile, ScanCommand, ScanReply, ScanStep, ToolResult,
};

/// An in-memory inbox: the entries of the inbox root, and for each source
/// directory its entries as `(name, is_file, size)`.
struct FakeInbox {
    root: Option<Vec<(&'static str, bool)>>,
    dirs: Vec<(&'static str, Vec<(&'static str, bool, u64)>)>,
    rate_limited: bool,
    root_allowed: bool,
    budget_left: bool,
}

impl FakeInbox {
    fn new(root: Vec<(&'static str, bool)>, dirs: Vec<(&'static str, Vec<(&'static str, bool, u64)>)>) -> Self {
        FakeInbox { root: Some(root), dirs, rate_limited: false, root_allowed: true, budget_left: true }
    }
}

enum Outcome {
    Refused(ToolResult),
    Files(Vec<PendingFile>),
}

fn scan(inbox: &FakeInbox, args: InboxScanArgs) -> (Outcome, Vec<String>) {
    let tool = InboxScanTool::new();
    let mut step = tool.begin(args);
    let mut log = Vec::new();
    let mut open: Option<(Vec<(&'static str, bool, u64)>, usize)> = None;
    let mut current: Option<(bool, u64)> = None;
    loop {
        match step {
            ScanStep::Refuse(r) => return (Outcome::Refused(r), log),
            ScanStep::Done(files) => return (Outcome::Files(files), log),
            ScanStep::Next(run, cmd) => {
                let reply = match cmd {
                    ScanCommand::CheckRateLimit => ScanReply::Verdict(!inbox.rate_limited),
                    ScanCommand::CheckRootAllowed(_) => ScanReply::Verdict(inbox.root_allowed),
                    ScanCommand::RecordAction => {
                        log.push("record".to_string());
                        ScanReply::Verdict(inbox.budget_left)
                    },
                    ScanCommand::ListInbox(root) => {
                        log.push(format!("list {root}"));
                        ScanReply::Listing(inbox.root.as_ref().map(|entries| {
                            entries
                                .iter()
                                .map(|(n, d)| InboxEntry { name: n.to_string(), is_dir: *d })
                                .collect()
                        }))
                    },
                    ScanCommand::OpenSourceDir(root, st) => {
                        log.push(format!("open {root}/{st}"));
                        open = inbox.dirs.iter().find(|(n, _)| *n == st).map(|(_, e)| (e.clone(), 0));
                        ScanReply::Opened(open.is_some())
                    },
                    ScanCommand::NextEntry => {
                        let (entries, pos) = open.as_mut().unwrap();
                        if *pos < entries.len() {
                            let (name, is_file, size) = entries[*pos];
                            *pos += 1;
                            current = Some((is_file, size));
                            ScanReply::Entry(Some(name.to_string()))
                        } else {
                            ScanReply::Entry(None)
                        }
                    },
                    ScanCommand::StatEntry => {
                        let (is_file, size) = current.unwrap();
                        ScanReply::Stat(Some(FileStat { is_file, size_bytes: size, modified_unix: 1_700_000_000 }))
                    },
                    ScanCommand::ResolveEntry(path) => {
                        log.push(format!("resolve {path}"));
                        ScanReply::Resolved(!path.contains("escape"))
                    },
                };
                assert!(tool.expects(&run, &reply));
                step = tool.step(run, reply);
            },
        }
    }
}

fn no_args() -> InboxScanArgs {
    InboxScanArgs { inbox_root: None, limit: None, source_types: None }
}

fn files(o: Outcome) -> Vec<PendingFile> {
    match o {
        Outcome::Files(f) => f,
        Outcome::Refused(r) => panic!("refused: {:?}", r.error),
    }
}

fn refusal(o: Outcome) -> ToolResult {
    match o {
        Outcome::Refused(r) => r,
        Outcome::Files(_) => panic!("expected a refusal"),
    }
}

#[test]
fn inbox_scan_name() {
    let tool = InboxScanTool::new();
    assert_eq!(tool.name(), "inbox_scan");
}

#[test]
fn skipped_names() {
    assert!(is_skipped_name(".hidden"));
    assert!(is_skipped_name("msg.eml.sidecar.json"));
    assert!(is_skipped_name("msg.eml.error.json"));
    assert!(is_skipped_name(".sidecar.json"));
    assert!(!is_skipped_name("msg.eml"));
    assert!(!is_skipped_name("sidecar.json"));
    assert!(!is_skipped_name("error.json.txt"));
    assert!(!is_skipped_name(""));
}

#[test]
fn source_dirs_skip_stages_and_files_and_are_sorted() {
    let entries = vec![
        InboxEntry { name: "transcripts".to_string(), is_dir: true },
        InboxEntry { name: "processing".to_string(), is_dir: true },
        InboxEntry { name: "emails".to_string(), is_dir: true },
        InboxEntry { name: "notes.txt".to_string(), is_dir: false },
        InboxEntry { name: "failed".to_string(), is_dir: true },
        InboxEntry { name: "processed".to_string(), is_dir: true },
        InboxEntry { name: "Zeta".to_string(), is_dir: true },
        InboxEntry { name: "émails".to_string(), is_dir: true },
    ];
    let dirs = select_source_dirs(entries, &None);
    assert_eq!(dirs, vec!["Zeta", "emails", "transcripts", "émails"]);
}

#[test]
fn source_dirs_keep_only_requested_types() {
    let entries = vec![
        InboxEntry { name: "transcripts".to_string(), is_dir: true },
        InboxEntry { name: "emails".to_string(), is_dir: true },
        InboxEntry { name: "processing".to_string(), is_dir: true },
    ];
    let wanted = Some(vec!["emails".to_string(), "processing".to_string(), "faxes".to_string()]);
    assert_eq!(select_source_dirs(entries, &wanted), vec!["emails"]);
}

#[test]
fn scan_defaults_root_and_limit() {
    let tool = InboxScanTool::new();
    match tool.begin(no_args()) {
        ScanStep::Next(run, ScanCommand::CheckRateLimit) => {
            assert_eq!(run.request.inbox_root, "inbox");
            assert_eq!(run.request.limit, 5);
            assert!(run.files.is_empty());
        },
        _ => panic!("a scan starts with the rate-limit check"),
    }
    let step = tool.begin(InboxScanArgs { inbox_root: Some("mail".to_string()), limit: Some(2), source_types: None });
    match step {
        ScanStep::Next(run, _) => {
            assert_eq!(run.request.inbox_root, "mail");
            assert_eq!(run.request.limit, 2);
        },
        _ => panic!("a scan starts with the rate-limit check"),
    }
}

#[test]
fn inbox_scan_returns_empty_when_inbox_missing() {
    let mut inbox = FakeInbox::new(vec![], vec![]);
    inbox.root = None;
    let (o, log) = scan(&inbox, no_args());
    assert!(files(o).is_empty());
    assert_eq!(log, vec!["record", "list inbox"]);
}

#[test]
fn inbox_scan_returns_only_unprocessed_files() {
    let inbox = FakeInbox::new(
        vec![("emails", true), ("processing", true), ("processed", true)],
        vec![
            ("emails", vec![("msg.eml", true, 5)]),
            ("processing", vec![("old.eml", true, 11)]),
            ("processed", vec![("done.eml", true, 4)]),
        ],
    );
    let (o, _) = scan(&inbox, no_args());
    let found = files(o);
    assert_eq!(found.len(), 1, "only the pending file should be returned");
    assert_eq!(found[0].filename, "msg.eml");
    assert_eq!(found[0].source_type, "emails");
    assert_eq!(found[0].path, "inbox/emails/msg.eml");
    assert!(found[0].path.starts_with("inbox/emails/"));
    assert_eq!(found[0].size_bytes, 5);
    assert_eq!(found[0].modified_unix, 1_700_000_000);
}

#[test]
fn inbox_scan_respects_limit() {
    let names: Vec<&'static str> = vec![
        "msg00.eml", "msg01.eml", "msg02.eml", "msg03.eml", "msg04.eml", "msg05.eml", "msg06.eml", "msg07.eml",
        "msg08.eml", "msg09.eml",
    ];
    let inbox = FakeInbox::new(vec![("emails", true)], vec![("emails", names.iter().map(|n| (*n, true, 7)).collect())]);
    let (o, _) = scan(&inbox, InboxScanArgs { inbox_root: None, limit: Some(3), source_types: None });
    assert_eq!(files(o).len(), 3, "limit should cap results at 3");
    let (o, _) = scan(&inbox, InboxScanArgs { inbox_root: None, limit: Some(0), source_types: None });
    assert!(files(o).is_empty());
    let (o, _) = scan(&inbox, no_args());
    assert_eq!(files(o).len(), 5);
}

#[test]
fn inbox_scan_filters_by_source_types() {
    let inbox = FakeInbox::new(
        vec![("emails", true), ("transcripts", true)],
        vec![("emails", vec![("a.eml", true, 5)]), ("transcripts", vec![("b.txt", true, 10)])],
    );
    let (o, log) = scan(&inbox, InboxScanArgs { inbox_root: None, limit: None, source_types: Some(vec!["emails".to_string()]) });
    let found = files(o);
    assert_eq!(found.len(), 1);
    assert_eq!(found[0].source_type, "emails");
    assert!(!log.iter().any(|l| l.contains("transcripts")));
}

#[test]
fn inbox_scan_excludes_sidecar_files() {
    let inbox = FakeInbox::new(
        vec![("emails", true)],
        vec![("emails", vec![("msg.eml", true, 5), ("msg.eml.sidecar.json", true, 17), ("msg.eml.error.json", true, 16)])],
    );
    let (o, _) = scan(&inbox, no_args());
    let found = files(o);
    assert_eq!(found.len(), 1, "only the actual file, not sidecar/error files");
    assert_eq!(found[0].filename, "msg.eml");
}

#[test]
fn scan_excludes_sidecar_files_hidden_files_and_directories() {
    let inbox = FakeInbox::new(
        vec![("emails", true)],
        vec![(
            "emails",
            vec![
                ("msg.eml", true, 5),
                ("msg.eml.sidecar.json", true, 17),
                ("msg.eml.error.json", true, 16),
                (".DS_Store", true, 1),
                ("archive", false, 0),
            ],
        )],
    );
    let (o, _) = scan(&inbox, no_args());
    let found = files(o);
    assert_eq!(found.len(), 1, "only the actual file, not sidecar/error files");
    assert_eq!(found[0].filename, "msg.eml");
}

#[test]
fn scan_visits_source_types_in_sorted_order() {
    let inbox = FakeInbox::new(
        vec![("transcripts", true), ("emails", true), ("audio", true)],
        vec![
            ("transcripts", vec![("t.txt", true, 1)]),
            ("emails", vec![("e.eml", true, 2)]),
            ("audio", vec![("a.ogg", true, 3)]),
        ],
    );
    let (o, _) = scan(&inbox, no_args());
    let found = files(o);
    let types: Vec<&str> = found.iter().map(|f| f.source_type.as_str()).collect();
    assert_eq!(types, vec!["audio", "emails", "transcripts"]);
}

#[test]
fn scan_skips_unreadable_dirs_and_escaping_entries() {
    let inbox = FakeInbox::new(
        vec![("emails", true), ("gone", true)],
        vec![("emails", vec![("escape-link", true, 3), ("ok.eml", true, 2)])],
    );
    let (o, log) = scan(&inbox, no_args());
    let found = files(o);
    assert_eq!(found.len(), 1);
    assert_eq!(found[0].filename, "ok.eml");
    assert!(log.contains(&"open inbox/gone".to_string()));
}

#[test]
fn inbox_scan_rejects_path_traversal_inbox_root() {
    let mut inbox = FakeInbox::new(vec![], vec![]);
    inbox.root_allowed = false;
    let (o, _) = scan(&inbox, InboxScanArgs { inbox_root: Some("../../../etc".to_string()), limit: None, source_types: None });
    let r = refusal(o);
    assert!(!r.success);
    assert_eq!(r.error.as_deref(), Some("inbox_root path not allowed: ../../../etc"));
    assert!(r.error.as_ref().unwrap().contains("not allowed"));
}

#[test]
fn inbox_scan_blocks_when_rate_limited() {
    let mut inbox = FakeInbox::new(vec![], vec![]);
    inbox.rate_limited = true;
    let r = refusal(scan(&inbox, no_args()).0);
    assert_eq!(r.error.as_deref(), Some("Rate limit exceeded: too many actions in the last hour"));
    let mut inbox = FakeInbox::new(vec![], vec![]);
    inbox.budget_left = false;
    let r = refusal(scan(&inbox, no_args()).0);
    assert_eq!(r.error.as_deref(), Some("Rate limit exceeded: action budget exhausted"));
}

#[test]
fn reported_files_can_be_claimed() {
    let inbox = FakeInbox::new(vec![("emails", true)], vec![("emails", vec![("msg.eml", true, 5)])]);
    let found = files(scan(&inbox, no_args()).0);
    let plan = inbox_pipeline::file_stage::plan_stage(inbox_pipeline::StageAction::Start, &found[0].path).ok().unwrap();
    assert_eq!(plan.filename, "msg.eml");
    assert_eq!(plan.source_type, "emails");
}

#[test]
fn scan_spends_budget_once_after_checks() {
    let inbox = FakeInbox::new(vec![("emails", true)], vec![("emails", vec![("msg.eml", true, 5)])]);
    let (_, log) = scan(&inbox, no_args());
    assert_eq!(log.iter().filter(|l| *l == "record").count(), 1);
    assert_eq!(log[0], "record");
    let mut limited = FakeInbox::new(vec![], vec![]);
    limited.rate_limited = true;
    let (_, log) = scan(&limited, no_args());
    assert!(log.is_empty());
    let mut denied = FakeInbox::new(vec![], vec![]);
    denied.root_allowed = false;
    let (_, log) = scan(&denied, no_args());
    assert!(log.is_empty());
    let mut spent = FakeInbox::new(vec![("emails", true)], vec![]);
    spent.budget_left = false;
    let (o, log) = scan(&spent, no_args());
    assert_eq!(log, vec!["record"]);
    assert_eq!(refusal(o).error.as_deref(), Some("Rate limit exceeded: action budget exhausted"));
}

#[test]
fn scan_output_renders_files_as_json() {
    let empty = scan_output(Vec::new());
    assert!(empty.success);
    assert_eq!(empty.output.trim(), "[]");
    assert!(empty.error.is_none());
    let inbox = FakeInbox::new(vec![("emails", true)], vec![("emails", vec![("msg.eml", true, 5), ("b.eml", true, 9)])]);
    let found = files(scan(&inbox, no_args()).0);
    let out = scan_output(found);
    assert!(out.success);
    let parsed: Vec<serde_json::Value> = serde_json::from_str(&out.output).unwrap();
    assert_eq!(parsed.len(), 2);
    assert_eq!(parsed[0]["path"].as_str().unwrap(), "inbox/emails/msg.eml");
    assert_eq!(parsed[0]["filename"].as_str().unwrap(), "msg.eml");
    assert_eq!(parsed[0]["source_type"].as_str().unwrap(), "emails");
    assert_eq!(parsed[0]["size_bytes"].as_u64().unwrap(), 5);
    assert_eq!(parsed[0]["modified_unix"].as_u64().unwrap(), 1_700_000_000);
    assert_eq!(parsed[1]["filename"].as_str().unwrap(), "b.eml");
    assert!(out.output.starts_with("[\n  {\n    \"filename\": \"msg.eml\","));
}

#[test]
fn scan_reports_exactly_the_eligible_entries_in_order_up_to_the_limit() {
    let inbox = FakeInbox::new(
        vec![("transcripts", true), ("emails", true), ("audio", true), ("processed", true), ("notes.txt", false)],
        vec![
            ("audio", vec![("a1.ogg", true, 10), (".hidden", true, 1), ("sub", false, 0), ("a2.ogg", true, 20)]),
            (
                "emails",
                vec![("e1.eml", true, 30), ("e1.eml.sidecar.json", true, 5), ("escape.eml", true, 7), ("e2.eml", true, 40)],
            ),
            ("transcripts", vec![("t1.txt", true, 50)]),
            ("processed", vec![("done.eml", true, 60)]),
        ],
    );
    let all = InboxScanArgs { inbox_root: None, limit: Some(10), source_types: None };
    let (o, log) = scan(&inbox, all);
    let found: Vec<(String, String, String, u64)> =
        files(o).into_iter().map(|f| (f.path, f.filename, f.source_type, f.size_bytes)).collect();
    let expect = |p: &str, n: &str, t: &str, s: u64| (p.to_string(), n.to_string(), t.to_string(), s);
    assert_eq!(
        found,
        vec![
            expect("inbox/audio/a1.ogg", "a1.ogg", "audio", 10),
            expect("inbox/audio/a2.ogg", "a2.ogg", "audio", 20),
            expect("inbox/emails/e1.eml", "e1.eml", "emails", 30),
            expect("inbox/emails/e2.eml", "e2.eml", "emails", 40),
            expect("inbox/transcripts/t1.txt", "t1.txt", "transcripts", 50),
        ]
    );
    assert!(!log.iter().any(|l| l.contains("processed")));

    let three = InboxScanArgs { inbox_root: None, limit: Some(3), source_types: None };
    let (o, log) = scan(&inbox, three);
    let names: Vec<String> = files(o).into_iter().map(|f| f.filename).collect();
    assert_eq!(names, vec!["a1.ogg", "a2.ogg", "e1.eml"]);
    assert!(!log.contains(&"open inbox/transcripts".to_string()));
    assert!(!log.contains(&"resolve inbox/emails/escape.eml".to_string()));
}
