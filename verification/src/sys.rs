//! The operating-system edge of the core: the outcome of a fork, the POSIX
//! signals a project may be stopped with, and the two calls the lifecycle
//! logic makes into the process table — a liveness query and signal
//! delivery to a session's process group.

use vstd::prelude::*;

use crate::config::RunningProject;
use crate::error::WorkerError;

verus! {

/// Outcome of a fork: the parent learns the child's process id, the child
/// learns only that it is the child.
pub enum Fork {
    Parent(i32),
    Child,
}

/// The standard POSIX signal names. The numeric value of each is given by
/// [`Signal::number`]; no discriminants are attached to the variants.
#[derive(Clone, Copy, Debug, PartialEq, Eq, Structural)]
#[non_exhaustive]
pub enum Signal {
    SIGHUP,
    SIGINT,
    SIGQUIT,
    SIGILL,
    SIGTRAP,
    SIGABRT,
    SIGBUS,
    SIGFPE,
    SIGKILL,
    SIGUSR1,
    SIGSEGV,
    SIGUSR2,
    SIGPIPE,
    SIGALRM,
    SIGTERM,
    SIGSTKFLT,
    SIGCHLD,
    SIGCONT,
    SIGSTOP,
    SIGTSTP,
    SIGTTIN,
    SIGTTOU,
    SIGURG,
    SIGXCPU,
    SIGXFSZ,
    SIGVTALRM,
    SIGPROF,
    SIGWINCH,
    SIGIO,
    SIGPWR,
    SIGSYS,
}

/// The conventional number of each signal on Linux.
pub open spec fn spec_signal_number(s: Signal) -> int {
    match s {
        Signal::SIGHUP => 1,
        Signal::SIGINT => 2,
        Signal::SIGQUIT => 3,
        Signal::SIGILL => 4,
        Signal::SIGTRAP => 5,
        Signal::SIGABRT => 6,
        Signal::SIGBUS => 7,
        Signal::SIGFPE => 8,
        Signal::SIGKILL => 9,
        Signal::SIGUSR1 => 10,
        Signal::SIGSEGV => 11,
        Signal::SIGUSR2 => 12,
        Signal::SIGPIPE => 13,
        Signal::SIGALRM => 14,
        Signal::SIGTERM => 15,
        Signal::SIGSTKFLT => 16,
        Signal::SIGCHLD => 17,
        Signal::SIGCONT => 18,
        Signal::SIGSTOP => 19,
        Signal::SIGTSTP => 20,
        Signal::SIGTTIN => 21,
        Signal::SIGTTOU => 22,
        Signal::SIGURG => 23,
        Signal::SIGXCPU => 24,
        Signal::SIGXFSZ => 25,
        Signal::SIGVTALRM => 26,
        Signal::SIGPROF => 27,
        Signal::SIGWINCH => 28,
        Signal::SIGIO => 29,
        Signal::SIGPWR => 30,
        Signal::SIGSYS => 31,
    }
}

impl Signal {
    /// The numeric value delivered to the operating system for this signal.
    pub fn number(&self) -> (n: i32)
        ensures
            n == spec_signal_number(*self),
    {
        match self {
            Signal::SIGHUP => 1,
            Signal::SIGINT => 2,
            Signal::SIGQUIT => 3,
            Signal::SIGILL => 4,
            Signal::SIGTRAP => 5,
            Signal::SIGABRT => 6,
            Signal::SIGBUS => 7,
            Signal::SIGFPE => 8,
            Signal::SIGKILL => 9,
            Signal::SIGUSR1 => 10,
            Signal::SIGSEGV => 11,
            Signal::SIGUSR2 => 12,
            Signal::SIGPIPE => 13,
            Signal::SIGALRM => 14,
            Signal::SIGTERM => 15,
            Signal::SIGSTKFLT => 16,
            Signal::SIGCHLD => 17,
            Signal::SIGCONT => 18,
            Signal::SIGSTOP => 19,
            Signal::SIGTSTP => 20,
            Signal::SIGTTIN => 21,
            Signal::SIGTTOU => 22,
            Signal::SIGURG => 23,
            Signal::SIGXCPU => 24,
            Signal::SIGXFSZ => 25,
            Signal::SIGVTALRM => 26,
            Signal::SIGPROF => 27,
            Signal::SIGWINCH => 28,
            Signal::SIGIO => 29,
            Signal::SIGPWR => 30,
            Signal::SIGSYS => 31,
        }
    }

    /// The signal carrying a given number, if any; the inverse of
    /// [`Signal::number`].
    pub fn from_number(n: i32) -> (s: Option<Signal>)
        ensures
            s is Some <==> 1 <= n <= 31,
            s matches Some(sig) ==> spec_signal_number(sig) == n,
    {
        match n {
            1 => Some(Signal::SIGHUP),
            2 => Some(Signal::SIGINT),
            3 => Some(Signal::SIGQUIT),
            4 => Some(Signal::SIGILL),
            5 => Some(Signal::SIGTRAP),
            6 => Some(Signal::SIGABRT),
            7 => Some(Signal::SIGBUS),
            8 => Some(Signal::SIGFPE),
            9 => Some(Signal::SIGKILL),
            10 => Some(Signal::SIGUSR1),
            11 => Some(Signal::SIGSEGV),
            12 => Some(Signal::SIGUSR2),
            13 => Some(Signal::SIGPIPE),
            14 => Some(Signal::SIGALRM),
            15 => Some(Signal::SIGTERM),
            16 => Some(Signal::SIGSTKFLT),
            17 => Some(Signal::SIGCHLD),
            18 => Some(Signal::SIGCONT),
            19 => Some(Signal::SIGSTOP),
            20 => Some(Signal::SIGTSTP),
            21 => Some(Signal::SIGTTIN),
            22 => Some(Signal::SIGTTOU),
            23 => Some(Signal::SIGURG),
            24 => Some(Signal::SIGXCPU),
            25 => Some(Signal::SIGXFSZ),
            26 => Some(Signal::SIGVTALRM),
            27 => Some(Signal::SIGPROF),
            28 => Some(Signal::SIGWINCH),
            29 => Some(Signal::SIGIO),
            30 => Some(Signal::SIGPWR),
            31 => Some(Signal::SIGSYS),
            _ => None,
        }
    }
}

/// Relies on sysinfo's process table (`System::refresh_all`,
/// `Process::session_id`): whether at least one live process currently
/// belongs to the session `sid`. The answer depends on the machine's state
/// at the moment of the call, so nothing is promised of it.
#[verifier::external_body]
pub fn has_processes_running(sid: i32) -> bool {
    let mut sys = sysinfo::System::new();
    sys.refresh_all();
    sys.processes().iter().any(|(_, p)| {
        p.session_id().is_some_and(|session_id| session_id.as_u32() == sid as u32)
    })
}

/// Relies on nix's `killpg`: deliver the signal numbered `signum` to every
/// process in the group `sid`, handing back the error number when the
/// group is gone or the number names no signal. Whether delivery succeeds
/// depends on the machine's state, so nothing is promised of it.
#[verifier::external_body]
fn kill_group(sid: i32, signum: i32) -> Result<(), i32> {
    let sig = match nix::sys::signal::Signal::try_from(signum) {
        Ok(s) => s,
        Err(e) => return Err(e as i32),
    };
    match nix::sys::signal::killpg(nix::unistd::Pid::from_raw(sid), sig) {
        Ok(()) => Ok(()),
        Err(e) => Err(e as i32),
    }
}

/// Deliver `signal` to every process in the session `sid`. The error value
/// is the operating system's error number.
pub fn stop_pg(sid: i32, signal: &Signal) -> Result<(), i32> {
    kill_group(sid, signal.number())
}

impl RunningProject {
    /// The signal this project is stopped with: its configured stop
    /// signal, or interrupt when none is configured.
    pub open spec fn spec_stop_signal(&self) -> Signal {
        match self.stop_signal {
            Some(s) => s,
            None => Signal::SIGINT,
        }
    }

    /// Pick the signal this project is stopped with.
    pub fn effective_stop_signal(&self) -> (s: Signal)
        ensures
            s == self.spec_stop_signal(),
    {
        match self.stop_signal {
            Some(s) => s,
            None => Signal::SIGINT,
        }
    }

    /// Send the project's stop signal to its session. Delivery is up to
    /// the operating system; a refusal becomes
    /// [`WorkerError::SignalFailed`], and that is the only error this can
    /// report.
    pub fn stop(&self) -> (r: Result<(), WorkerError>)
        ensures
            r matches Err(e) ==> e matches WorkerError::SignalFailed { .. },
    {
        let signal = self.effective_stop_signal();
        match stop_pg(self.pid, &signal) {
            Ok(()) => Ok(()),
            Err(errno) => Err(WorkerError::SignalFailed { errno }),
        }
    }
}

} // verus!
