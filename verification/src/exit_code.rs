use vstd::prelude::*;

verus! {

/// Deterministic exit codes exposed so CI systems can distinguish quality
/// failure from execution failure and configuration errors.
#[derive(Debug, Clone, Copy, PartialEq, Eq, Structural)]
pub enum ExitCode {
    Success,
    QualityGateFailed,
    Usage,
    ToolExecution,
    Internal,
    Interrupted,
}

/// The numeric process exit status of each exit code.
pub open spec fn exit_code_value(code: ExitCode) -> int {
    match code {
        ExitCode::Success => 0,
        ExitCode::QualityGateFailed => 1,
        ExitCode::Usage => 2,
        ExitCode::ToolExecution => 3,
        ExitCode::Internal => 4,
        ExitCode::Interrupted => 5,
    }
}

impl ExitCode {
    pub fn as_i32(self) -> (r: i32)
        ensures
            r == exit_code_value(self),
    {
        match self {
            ExitCode::Success => 0,
            ExitCode::QualityGateFailed => 1,
            ExitCode::Usage => 2,
            ExitCode::ToolExecution => 3,
            ExitCode::Internal => 4,
            ExitCode::Interrupted => 5,
        }
    }
}

/// Distinct exit codes have distinct process statuses, so a caller can tell
/// every outcome apart; each status lies between zero and five.
pub proof fn lemma_exit_codes_distinct(a: ExitCode, b: ExitCode)
    ensures
        a != b ==> exit_code_value(a) != exit_code_value(b),
        0 <= exit_code_value(a) <= 5,
{
}

} // verus!
