//! What a tool reports back to its caller.

use vstd::prelude::*;

verus! {

/// The outcome of one tool call: whether it succeeded, what it printed, and
/// on failure an error message.
pub struct ToolResult {
    pub success: bool,
    pub output: String,
    pub error: Option<String>,
}

impl ToolResult {
    /// A failed call with empty output and error message `msg`.
    pub open spec fn is_refusal(&self, msg: Seq<char>) -> bool {
        &&& !self.success
        &&& self.output@ == Seq::<char>::empty()
        &&& self.error matches Some(e) && e@ == msg
    }

    /// A successful call with output `out` and no error.
    pub open spec fn is_success(&self, out: Seq<char>) -> bool {
        &&& self.success
        &&& self.output@ == out
        &&& self.error is None
    }

    /// A failed call with error message `msg`.
    pub fn refusal(msg: String) -> (res: ToolResult)
        ensures
            res.is_refusal(msg@),
    {
        ToolResult { success: false, output: String::new(), error: Some(msg) }
    }

    /// A successful call with output `out`.
    pub fn succeeded(out: String) -> (res: ToolResult)
        ensures
            res.is_success(out@),
    {
        ToolResult { success: true, output: out, error: None }
    }
}

} // verus!
