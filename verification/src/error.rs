//! The syscall error model: a single numeric error type carrying a
//! Linux-compatible errno, with a lossy mapping from host I/O error kinds
//! and an encoding into the guest's return-value convention.

use vstd::prelude::*;
use crate::libc::{
    errno, errno_spec, EACCES, EBADF, EFAULT, EINVAL, EIO, ENOENT, ENOSYS, EISDIR, ENOTDIR, ERANGE,
};

verus! {

/// Syscall error: a positive errno value.
#[derive(Clone, Copy, PartialEq, Eq, Structural, Hash, Debug)]
pub struct Error(pub u64);

/// The kind of a host I/O failure, as far as the error model distinguishes
/// them.  Backends translate their platform error into one of these before
/// handing it to the engine.
#[derive(Clone, Copy, PartialEq, Eq, Structural, Debug)]
pub enum IoKind {
    InvalidData,
    InvalidInput,
    NotFound,
    PermissionDenied,
    Unsupported,
    Other,
}

/// The errno assigned to each host I/O error kind.
pub open spec fn spec_io_kind_errno(kind: IoKind) -> u64 {
    match kind {
        IoKind::InvalidData => EINVAL,
        IoKind::InvalidInput => EINVAL,
        IoKind::NotFound => ENOENT,
        IoKind::PermissionDenied => EACCES,
        IoKind::Unsupported => ENOSYS,
        IoKind::Other => EINVAL,
    }
}

/// The symbolic name of an errno value, for the few codes the engine uses.
pub open spec fn spec_errno_name(error: u64) -> Option<&'static str> {
    if error == EACCES {
        Some("EACCES")
    } else if error == EBADF {
        Some("EBADF")
    } else if error == EFAULT {
        Some("EFAULT")
    } else if error == EINVAL {
        Some("EINVAL")
    } else if error == EIO {
        Some("EIO")
    } else if error == ENOENT {
        Some("ENOENT")
    } else if error == ENOSYS {
        Some("ENOSYS")
    } else if error == EISDIR {
        Some("EISDIR")
    } else if error == ENOTDIR {
        Some("ENOTDIR")
    } else if error == ERANGE {
        Some("RANGE")
    } else {
        None
    }
}

impl Error {
    /// Convert into the raw return code of the syscall: the two's-complement
    /// negation of the errno.
    pub fn code(self) -> (r: u64)
        ensures
            r == errno_spec(self.0),
    {
        errno(self.0)
    }

    /// Get the error name.  Only some errors are covered by this function.
    pub fn as_str(self) -> (r: Option<&'static str>)
        ensures
            r == spec_errno_name(self.0),
    {
        if self.0 == EACCES {
            Some("EACCES")
        } else if self.0 == EBADF {
            Some("EBADF")
        } else if self.0 == EFAULT {
            Some("EFAULT")
        } else if self.0 == EINVAL {
            Some("EINVAL")
        } else if self.0 == EIO {
            Some("EIO")
        } else if self.0 == ENOENT {
            Some("ENOENT")
        } else if self.0 == ENOSYS {
            Some("ENOSYS")
        } else if self.0 == EISDIR {
            Some("EISDIR")
        } else if self.0 == ENOTDIR {
            Some("ENOTDIR")
        } else if self.0 == ERANGE {
            Some("RANGE")
        } else {
            None
        }
    }

    /// Map a host I/O error kind to its errno.
    pub fn from_io_kind(kind: IoKind) -> (r: Error)
        ensures
            r.0 == spec_io_kind_errno(kind),
    {
        match kind {
            IoKind::InvalidData => Error(EINVAL),
            IoKind::InvalidInput => Error(EINVAL),
            IoKind::NotFound => Error(ENOENT),
            IoKind::PermissionDenied => Error(EACCES),
            IoKind::Unsupported => Error(ENOSYS),
            IoKind::Other => Error(EINVAL),
        }
    }
}

/// How a handler result is folded into the guest's `A0` register.
pub trait IntoSyscallRet: Sized {
    /// The register image of this result.
    spec fn ret_spec(self) -> u64;

    fn into_ret(self) -> (r: u64)
        ensures
            r == self.ret_spec(),
    ;
}

impl IntoSyscallRet for Result<u64, Error> {
    open spec fn ret_spec(self) -> u64 {
        match self {
            Ok(ret) => ret,
            Err(e) => errno_spec(e.0),
        }
    }

    fn into_ret(self) -> (r: u64) {
        match self {
            Ok(ret) => ret,
            Err(e) => e.code(),
        }
    }
}

impl IntoSyscallRet for Result<u32, Error> {
    open spec fn ret_spec(self) -> u64 {
        match self {
            Ok(ret) => ret as u64,
            Err(e) => errno_spec(e.0),
        }
    }

    fn into_ret(self) -> (r: u64) {
        match self {
            Ok(ret) => ret as u64,
            Err(e) => e.code(),
        }
    }
}

impl IntoSyscallRet for Result<(), Error> {
    open spec fn ret_spec(self) -> u64 {
        match self {
            Ok(_) => 0u64,
            Err(e) => errno_spec(e.0),
        }
    }

    fn into_ret(self) -> (r: u64) {
        match self {
            Ok(_) => 0u64,
            Err(e) => e.code(),
        }
    }
}

} // verus!
