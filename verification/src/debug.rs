//! Symbolic names for diagnostic values: signals, directory-descriptor
//! sentinels, and sigmask "how" codes.

use vstd::prelude::*;
use crate::libc::{
    AT_FDCWD, SIGHUP, SIGINT, SIGQUIT, SIGILL, SIGTRAP, SIGABRT, SIGBUS, SIGFPE, SIGKILL, SIGUSR1,
    SIGSEGV, SIGUSR2, SIGPIPE, SIGALRM, SIGTERM, SIGSTKFLT, SIGCHLD, SIGCONT, SIGSTOP, SIGTSTP,
    SIGTTIN, SIGTTOU, SIGURG, SIGXCPU, SIGXFSZ, SIGVTALRM, SIGPROF, SIGWINCH, SIGIO, SIGPWR,
    SIGSYS, SIG_BLOCK, SIG_UNBLOCK, SIG_SETMASK,
};

verus! {

/// A directory descriptor argument, for diagnostics.
#[derive(Clone, Copy, Debug)]
pub struct DirFd(pub i32);

/// The symbolic name of a directory descriptor sentinel.
pub open spec fn spec_dirfd_name(v: i32) -> Option<&'static str> {
    if v == AT_FDCWD {
        Some("AT_FDCWD")
    } else {
        None
    }
}

impl DirFd {
    pub fn as_str(&self) -> (r: Option<&'static str>)
        ensures
            r == spec_dirfd_name(self.0),
    {
        if self.0 == AT_FDCWD {
            Some("AT_FDCWD")
        } else {
            None
        }
    }
}

/// A signal number, for diagnostics.
#[derive(Clone, Copy, Debug)]
pub struct Signal(pub u8);

/// The symbolic name of a signal number.
pub open spec fn spec_signal_name(v: u8) -> Option<&'static str> {
    if v == SIGHUP {
        Some("SIGHUP")
    } else if v == SIGINT {
        Some("SIGINT")
    } else if v == SIGQUIT {
        Some("SIGQUIT")
    } else if v == SIGILL {
        Some("SIGILL")
    } else if v == SIGTRAP {
        Some("SIGTRAP")
    } else if v == SIGABRT {
        Some("SIGABRT")
    } else if v == SIGBUS {
        Some("SIGBUS")
    } else if v == SIGFPE {
        Some("SIGFPE")
    } else if v == SIGKILL {
        Some("SIGKILL")
    } else if v == SIGUSR1 {
        Some("SIGUSR1")
    } else if v == SIGSEGV {
        Some("SIGSEGV")
    } else if v == SIGUSR2 {
        Some("SIGUSR2")
    } else if v == SIGPIPE {
        Some("SIGPIPE")
    } else if v == SIGALRM {
        Some("SIGALRM")
    } else if v == SIGTERM {
        Some("SIGTERM")
    } else if v == SIGSTKFLT {
        Some("SIGSTKFLT")
    } else if v == SIGCHLD {
        Some("SIGCHLD")
    } else if v == SIGCONT {
        Some("SIGCONT")
    } else if v == SIGSTOP {
        Some("SIGSTOP")
    } else if v == SIGTSTP {
        Some("SIGTSTP")
    } else if v == SIGTTIN {
        Some("SIGTTIN")
    } else if v == SIGTTOU {
        Some("SIGTTOU")
    } else if v == SIGURG {
        Some("SIGURG")
    } else if v == SIGXCPU {
        Some("SIGXCPU")
    } else if v == SIGXFSZ {
        Some("SIGXFSZ")
    } else if v == SIGVTALRM {
        Some("SIGVTALRM")
    } else if v == SIGPROF {
        Some("SIGPROF")
    } else if v == SIGWINCH {
        Some("SIGWINCH")
    } else if v == SIGIO {
        Some("SIGIO")
    } else if v == SIGPWR {
        Some("SIGPWR")
    } else if v == SIGSYS {
        Some("SIGSYS")
    } else {
        None
    }
}

impl Signal {
    pub fn as_str(&self) -> (r: Option<&'static str>)
        ensures
            r == spec_signal_name(self.0),
    {
        if self.0 == SIGHUP {
            Some("SIGHUP")
        } else if self.0 == SIGINT {
            Some("SIGINT")
        } else if self.0 == SIGQUIT {
            Some("SIGQUIT")
        } else if self.0 == SIGILL {
            Some("SIGILL")
        } else if self.0 == SIGTRAP {
            Some("SIGTRAP")
        } else if self.0 == SIGABRT {
            Some("SIGABRT")
        } else if self.0 == SIGBUS {
            Some("SIGBUS")
        } else if self.0 == SIGFPE {
            Some("SIGFPE")
        } else if self.0 == SIGKILL {
            Some("SIGKILL")
        } else if self.0 == SIGUSR1 {
            Some("SIGUSR1")
        } else if self.0 == SIGSEGV {
            Some("SIGSEGV")
        } else if self.0 == SIGUSR2 {
            Some("SIGUSR2")
        } else if self.0 == SIGPIPE {
            Some("SIGPIPE")
        } else if self.0 == SIGALRM {
            Some("SIGALRM")
        } else if self.0 == SIGTERM {
            Some("SIGTERM")
        } else if self.0 == SIGSTKFLT {
            Some("SIGSTKFLT")
        } else if self.0 == SIGCHLD {
            Some("SIGCHLD")
        } else if self.0 == SIGCONT {
            Some("SIGCONT")
        } else if self.0 == SIGSTOP {
            Some("SIGSTOP")
        } else if self.0 == SIGTSTP {
            Some("SIGTSTP")
        } else if self.0 == SIGTTIN {
            Some("SIGTTIN")
        } else if self.0 == SIGTTOU {
            Some("SIGTTOU")
        } else if self.0 == SIGURG {
            Some("SIGURG")
        } else if self.0 == SIGXCPU {
            Some("SIGXCPU")
        } else if self.0 == SIGXFSZ {
            Some("SIGXFSZ")
        } else if self.0 == SIGVTALRM {
            Some("SIGVTALRM")
        } else if self.0 == SIGPROF {
            Some("SIGPROF")
        } else if self.0 == SIGWINCH {
            Some("SIGWINCH")
        } else if self.0 == SIGIO {
            Some("SIGIO")
        } else if self.0 == SIGPWR {
            Some("SIGPWR")
        } else if self.0 == SIGSYS {
            Some("SIGSYS")
        } else {
            None
        }
    }
}

/// A sigmask "how" argument, for diagnostics.
#[derive(Clone, Copy, Debug)]
pub struct SigMask(pub u8);

/// The symbolic name of a sigmask "how" code.
pub open spec fn spec_sigmask_name(v: u8) -> Option<&'static str> {
    if v == SIG_BLOCK {
        Some("SIG_BLOCK")
    } else if v == SIG_UNBLOCK {
        Some("SIG_UNBLOCK")
    } else if v == SIG_SETMASK {
        Some("SIG_SETMASK")
    } else {
        None
    }
}

impl SigMask {
    pub fn as_str(&self) -> (r: Option<&'static str>)
        ensures
            r == spec_sigmask_name(self.0),
    {
        if self.0 == SIG_BLOCK {
            Some("SIG_BLOCK")
        } else if self.0 == SIG_UNBLOCK {
            Some("SIG_UNBLOCK")
        } else if self.0 == SIG_SETMASK {
            Some("SIG_SETMASK")
        } else {
            None
        }
    }
}

} // verus!
