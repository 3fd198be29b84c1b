use vstd::prelude::*;

verus! {

/// What running a compiled test program gave.
#[derive(Debug)]
pub enum ExecutionResult {
    /// The program ran: its exit status (none if a signal ended it) and what
    /// it wrote to standard output and standard error.
    Success { status: Option<i32>, stdout: String, stderr: String },
    /// An earlier stage failed, so the program never ran.
    Unreached,
}

/// The verdict of a differential test: the current pipeline passes when both
/// programs ran and their exit statuses and standard outputs are the same.
pub fn judge(refr: &ExecutionResult, curr: &ExecutionResult) -> (r: bool)
    ensures
        r == match (refr, curr) {
            (
                ExecutionResult::Success { status: rs, stdout: ro, .. },
                ExecutionResult::Success { status: cs, stdout: co, .. },
            ) => rs == cs && ro@ == co@,
            _ => false,
        },
{
    match (refr, curr) {
        (
            ExecutionResult::Success { status: refr_status, stdout: refr_stdout, .. },
            ExecutionResult::Success { status: curr_status, stdout: curr_stdout, .. },
        ) => {
            let same_status = match (refr_status, curr_status) {
                (Some(a), Some(b)) => *a == *b,
                (None, None) => true,
                _ => false,
            };
            same_status && crate::token::same_text(refr_stdout.as_str(), curr_stdout.as_str())
        },
        _ => false,
    }
}

} // verus!
