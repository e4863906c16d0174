//! Verified decision logic of the inbox pipeline tools: `file_stage`, which
//! moves a file from one inbox stage to the next, and `inbox_scan`, which
//! lists the files that wait to be processed.
//!
//! Both tools work against a workspace through outside services (a security
//! policy and the file system). The library holds their decisions: each call
//! is a run that asks for one piece of outside work at a time and decides
//! what comes next from the answer.

pub mod file_stage;
pub mod inbox_scan;
pub mod json;
pub mod text;
pub mod tool_result;

pub use file_stage::{
    FileStageArgs, FileStageError, FileStageRequest, FileStageRun, FileStageTool, StageAction, StageCommand,
    StageDir, StagePhase, StagePlan, StageStep,
};
pub use inbox_scan::{
    FileStat, InboxEntry, InboxScanArgs, InboxScanRun, InboxScanTool, PendingFile, ScanCommand, ScanPhase,
    ScanReply, ScanRequest, ScanStep,
};
pub use tool_result::ToolResult;
