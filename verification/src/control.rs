//! Results and control-flow signals produced by executing a command.
use vstd::prelude::*;

verus! {

/// The observable outcome of one command invocation.
#[derive(Debug)]
pub struct RunResult {
    pub exit_code: i32,
    pub stdout: String,
    pub stderr: String,
    pub execution_time_ms: u64,
}

/// A result with exit code 0 and empty output buffers.
pub open spec fn spec_is_empty_result(r: RunResult) -> bool {
    &&& r.exit_code == 0
    &&& r.stdout@ == Seq::<char>::empty()
    &&& r.stderr@ == Seq::<char>::empty()
    &&& r.execution_time_ms == 0
}

impl RunResult {
    pub fn empty() -> (r: RunResult)
        ensures
            spec_is_empty_result(r),
    {
        RunResult { exit_code: 0, stdout: String::new(), stderr: String::new(), execution_time_ms: 0 }
    }
}

/// How a command's outcome propagates: ordinary results and terminal signals.
/// Signals other than `Normal` and `Exit` pass through pipelines unmodified.
#[derive(Debug)]
pub enum ControlFlow {
    Normal(RunResult),
    Exit(i32, String, String),
    Break,
    Continue,
    Return,
    Cancelled,
}

/// Hard failures crossing the host boundary abort the current command.
#[derive(Debug)]
pub enum ShellError {
    HostError(String),
}

} // verus!
