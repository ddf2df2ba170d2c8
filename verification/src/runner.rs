//! The rules of the subprocess runner: what is done with a run of the media
//! tool that is still going, and how a run that gave nothing is reported.

use crate::error::Error;
use vstd::prelude::*;

verus! {

/// What the runner does with the process it watches.
#[derive(Clone, Copy, Debug, PartialEq, Eq)]
pub enum RunStep {
    /// The process has ended: its status and its error output are the
    /// result.
    Finished,
    /// The deadline has passed: the process is ended by force and the run
    /// fails with a timeout.
    Kill,
    /// The process may go on: look again after a while.
    Wait,
}

/// Decides what the runner does with a process that was started
/// `elapsed_ms` ago: a process that has ended is finished, whatever the
/// time; one that has not is ended by force once the deadline is reached.
pub fn run_step(exited: bool, elapsed_ms: u64, deadline_ms: u64) -> (step: RunStep)
    ensures
        step == (if exited {
            RunStep::Finished
        } else if elapsed_ms >= deadline_ms {
            RunStep::Kill
        } else {
            RunStep::Wait
        }),
{
    if exited {
        RunStep::Finished
    } else if elapsed_ms >= deadline_ms {
        RunStep::Kill
    } else {
        RunStep::Wait
    }
}

/// The error of a run that gave no result: a timeout where the process was
/// ended by force, else the failure to start it.
pub fn run_error(timed_out: bool, detail: String) -> (e: Error)
    ensures
        e == (if timed_out {
            Error::Timeout
        } else {
            Error::Spawn(detail)
        }),
{
    if timed_out {
        Error::Timeout
    } else {
        Error::Spawn(detail)
    }
}

} // verus!
