//! The one exit-status table every verb answers in.

use vstd::prelude::*;

verus! {

/// How a verb ended.
#[derive(Debug, Clone, Copy, PartialEq, Eq)]
pub enum ExitCode {
    /// `0`: the answer is yes, or the work was done.
    Success,
    /// `1`: the invocation itself was wrong.
    Usage,
    /// `2`: the policy verdict — a refusal.
    Violation,
    /// `3`: the verb could not look.
    Internal,
}

/// The number an exit code is.
pub open spec fn exit_number(code: ExitCode) -> i32 {
    match code {
        ExitCode::Success => 0,
        ExitCode::Usage => 1,
        ExitCode::Violation => 2,
        ExitCode::Internal => 3,
    }
}

impl ExitCode {
    /// The process exit status.
    pub fn code(self) -> (r: i32)
        ensures
            r == exit_number(self),
    {
        match self {
            ExitCode::Success => 0,
            ExitCode::Usage => 1,
            ExitCode::Violation => 2,
            ExitCode::Internal => 3,
        }
    }
}

} // verus!
