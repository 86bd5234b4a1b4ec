//! Errors of the supervisor core.

use vstd::prelude::*;

verus! {

/// What can go wrong inside the core. Expected-state mismatches ("already
/// running", "not running") are not errors: operations report them as
/// notices and carry on.
#[derive(Debug)]
pub enum WorkerError {
    /// A requested name is not in the project catalog: a usage error.
    UnknownProject { name: String },
    /// Delivering a stop signal to a session failed; the session is gone or
    /// the signal was refused.
    SignalFailed { errno: i32 },
    /// A project whose logs were asked for is not running.
    NotRunning { display: String },
    /// A project's command line cannot be split into a program and its
    /// arguments.
    BadCommand { command: String },
}

} // verus!
