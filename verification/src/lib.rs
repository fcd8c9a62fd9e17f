//! A Linux-compatible system-call emulation layer for sandboxed `riscv64`
//! guest programs.
//!
//! The crate models the seam between a guest running inside a virtual
//! machine and its host: a syscall dispatcher reads the guest's argument
//! registers, marshals memory through the machine capability, and hands the
//! work to pluggable environment and file-system backends.  Every function
//! here carries a contract describing its effect on the guest-visible state.

pub mod debug;
pub mod env;
pub mod error;
pub mod fs;
pub mod in_memory;
pub mod kernel;
pub mod libc;
pub mod machine;
