//! Messages from the shell integration to the daemon.
use vstd::prelude::*;

verus! {

/// A request to the daemon.
#[derive(Debug, Clone, PartialEq, Eq)]
pub enum Request {
    /// Suggestions for the command line being typed.
    Suggest { cwd: String, line: String, cursor: usize },
    /// The shell changed directory.
    Cd { cwd: String },
    /// A command of a tool was run.
    Executed { cwd: String, command: String, tool: String },
    Status,
    Shutdown,
}

/// An uptime in whole hours, minutes and seconds.
pub fn uptime_parts(secs: u64) -> (r: (u64, u64, u64))
    ensures
        r.0 == secs / 3600,
        r.1 == (secs % 3600) / 60,
        r.2 == secs % 60,
        r.0 * 3600 + r.1 * 60 + r.2 == secs,
{
    let hours = secs / 3600;
    let minutes = (secs % 3600) / 60;
    let seconds = secs % 60;
    assert(hours * 3600 + minutes * 60 + seconds == secs) by (nonlinear_arith)
        requires
            hours == secs / 3600,
            minutes == (secs % 3600) / 60,
            seconds == secs % 60,
    ;
    (hours, minutes, seconds)
}

} // verus!
