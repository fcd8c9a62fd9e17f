//! The kernel engine: the syscall dispatcher, the descriptor table, and
//! the per-syscall handlers.
//!
//! The engine owns a composite context — machine, environment and file
//! system — and a descriptor table mapping guest-visible numbers to open
//! file handles.  Descriptors `0..=2` are reserved for the standard
//! streams; allocated descriptors are strictly greater and are never
//! reused, which the contracts state through the ghost set of numbers
//! ever issued.

use vstd::prelude::*;
use vstd::arithmetic::div_mod::lemma_mod_multiples_vanish;
use std::collections::BTreeMap;
use crate::env::Environment;
use crate::error::{Error, IntoSyscallRet};
use crate::fs::{FileSystem, SeekFrom, Metadata, spec_seek_target};
use crate::libc::{
    errno, errno_spec, spec_winsize_bytes, spec_timespec_bytes, spec_stat_bytes,
    spec_utsname_bytes, spec_utsname_field, utsname_field, utsname_bytes, winsize_bytes, timespec_bytes,
    stat_bytes, Stat, Timespec, WinSize, Utsname, AT_FDCWD, EACCES, EBADF, EFAULT,
    EINVAL, ENOENT, ENOSYS, ERANGE, FILENO_STDERR, FILENO_STDOUT, IOV_MAX, O_RDWR, O_WRONLY,
    PATH_MAX, SEEK_CUR, SEEK_END, SEEK_SET, F_SETFD, FD_CLOEXEC, SYS_FCNTL, SYS_CLOSE, SYS_EXIT,
    SYS_EXIT_GROUP, SYS_LSEEK, SYS_OPENAT, SYS_READ, SYS_READV, SYS_WRITE, SYS_WRITEV,
    SYS_SET_TID_ADDRESS, SYS_IOCTL, SYS_GETUID, SYS_GETEUID, SYS_GETGID, SYS_GETEGID, SYS_SETUID,
    SYS_SETGID, SYS_UNAME, SYS_NEWFSTATAT, SYS_CLOCK_GETTIME, SYS_GETDENTS64, SYS_FACCESSAT,
    SYS_GETGROUPS, SYS_SYNC, SYS_GETCWD, SYS_TKILL, SYS_PPOLL, SYS_RT_SIGACTION,
    SYS_RT_SIGPROCMASK, TIOCGWINSZ,
};
use crate::machine::{
    Machine, MachineError, Reg, mem_has_range, mem_bytes, mem_write, has_cstring,
};

verus! {

/// The composite execution context of all syscalls: one record holding the
/// three capabilities the engine drives.
pub struct Context<M, E, F> {
    pub machine: M,
    pub env: E,
    pub fs: F,
}

/// Serializable kernel state: the table of open descriptors.
pub struct KernelState<Fd> {
    pub fds: BTreeMap<u32, Fd>,
}

impl<Fd> KernelState<Fd> {
    pub fn new() -> (r: Self)
        ensures
            r.fds@ == Map::<u32, Fd>::empty(),
    {
        KernelState { fds: BTreeMap::new() }
    }
}

impl<Fd> Default for KernelState<Fd> {
    fn default() -> (r: Self)
        ensures
            r.fds@ == Map::<u32, Fd>::empty(),
    {
        Self::new()
    }
}

/// System call result.
#[derive(Debug, PartialEq, Eq, Structural)]
pub enum SyscallOutcome {
    /// Continue process execution.
    Continue,
    /// Exit the process with the provided code.
    Exit(u8),
}

/// The constant thread id reported to the guest.
pub const THREAD_ID: u32 = 1;

/// Guest descriptors `0`, `1` and `2` are reserved for the standard
/// streams.
pub const MAX_RESERVED_FD: u32 = 2;

/// The largest key of the table, or `0` when the table is empty.
fn max_key<Fd>(m: &BTreeMap<u32, Fd>) -> (r: u32)
    ensures
        forall|k: u32| m@.dom().contains(k) ==> k <= r,
        r == 0 || m@.dom().contains(r),
{
    let mut r: u32 = 0;
    for k in it: m.keys()
        invariant
            r == 0 || m@.dom().contains(r),
            it.seq().unref().to_set() == m@.dom(),
            forall|kk: u32|
                #![trigger m@.dom().contains(kk)]
                m@.dom().contains(kk) ==> kk <= r || (exists|j: int|
                    it.index() <= j < it.seq().len() && *#[trigger] it.seq()[j] == kk),
    {
        let ghost prev_r = r;
        let cur = *k;
        proof {
            assert(it.seq().unref()[it.index() as int] == cur);
            assert(it.seq().unref().contains(cur));
            assert(m@.dom().contains(cur));
        }
        if cur > r {
            r = cur;
        }
        proof {
            assert forall|kk: u32|
                #![trigger m@.dom().contains(kk)]
                m@.dom().contains(kk) && !(kk <= r) implies (exists|j: int|
                it.index() + 1 <= j < it.seq().len() && *#[trigger] it.seq()[j] == kk) by {
                assert(kk <= prev_r || (exists|j: int|
                    it.index() <= j < it.seq().len() && *#[trigger] it.seq()[j] == kk));
                let j = choose|j: int|
                    it.index() <= j < it.seq().len() && *#[trigger] it.seq()[j] == kk;
                if j == it.index() {
                    assert(kk == cur);
                }
            }
        }
    }
    r
}

/// Linux kernel engine that implements system calls.
pub struct Kernel<M: Machine, E: Environment, F: FileSystem> {
    /// The execution context of all syscalls.
    pub context: Context<M, E, F>,
    /// Persistent state.
    pub state: KernelState<F::Fd>,
    /// The stored user id.
    pub uid: u32,
    /// The stored group id.
    pub gid: u32,
    /// The allocation cursor: the last issued descriptor is `2 + max_fd`.
    /// Computed lazily from the table on the first open.
    pub max_fd: Option<u32>,
    /// The descriptor numbers ever handed out (or present at start-up).
    pub issued: Ghost<Set<u32>>,
}

impl<M: Machine, E: Environment, F: FileSystem> Kernel<M, E, F> {
    /// Engine well-formedness: the capabilities are well-formed, and the
    /// allocation cursor bounds every descriptor the engine has issued and
    /// every number present in the table, so the next allocation is fresh.
    /// Before the first open nothing has been issued.
    pub open spec fn wf(&self) -> bool {
        &&& self.context.machine.inv()
        &&& self.context.fs.inv()
        &&& match self.max_fd {
            Option::None => self.issued@ == Set::<u32>::empty(),
            Option::Some(m) => (forall|d: u32| self.issued@.contains(d) ==> d <= 2 + m) && (
            forall|d: u32| self.state.fds@.dom().contains(d) ==> d <= 2 + m),
        }
    }

    pub fn new(context: Context<M, E, F>, state: KernelState<F::Fd>) -> (r: Self)
        requires
            context.machine.inv(),
            context.fs.inv(),
        ensures
            r.wf(),
            r.context == context,
            r.state.fds@ == state.fds@,
            r.issued@ == Set::<u32>::empty(),
            r.uid == 0,
            r.gid == 0,
    {
        Kernel { context, state, uid: 0, gid: 0, max_fd: None, issued: Ghost(Set::empty()) }
    }

    /// What `handle_read` ensures, as a relation between the state before
    /// the call, the state after it, and its result.
    pub open spec fn read_post(pre: Self, post: Self, fd: i32, address: u64, length: u64, r: Result<u64, Error>) -> bool {
        &&& (post.wf())
        &&& (post.context.machine.regs() == pre.context.machine.regs())
        &&& (post.context.machine.mem().dom() == pre.context.machine.mem().dom())
        &&& (post.context.env == pre.context.env)
        &&& (post.uid == pre.uid)
        &&& (post.gid == pre.gid)
        &&& (post.issued@ == pre.issued@)
        &&& (post.state.fds@.dom() == pre.state.fds@.dom())
        &&& (fd < 0 || !pre.state.fds@.contains_key(fd as u32) ==> r == Err::<u64, Error>(
                Error(EBADF),
            ) && post.context == pre.context && post.state.fds@ == pre.state.fds@)
        &&& (fd >= 0 && pre.state.fds@.contains_key(fd as u32) && address + length
                > u32::MAX ==> r == Err::<u64, Error>(Error(EFAULT)) && post.context.machine
                == pre.context.machine && post.state.fds@ == pre.state.fds@
                && post.context.fs == pre.context.fs)
        &&& (fd >= 0 && pre.state.fds@.contains_key(fd as u32) ==> {
                let file = pre.state.fds@[fd as u32];
                let data = F::fd_data(&file);
                let p = F::fd_pos(&file);
                &&& (forall|k: u32|
                    k != fd as u32 && pre.state.fds@.contains_key(k)
                        ==> #[trigger] post.state.fds@[k] == pre.state.fds@[k])
                &&& F::fd_data(&post.state.fds@[fd as u32]) == data
                &&& r matches Ok(n) ==> n <= length && (n > 0 ==> p + n <= data.len() && post.context.machine.mem() == mem_write(
                    pre.context.machine.mem(),
                    address,
                    data.subrange(p as int, p + n),
                ) && F::fd_pos(&post.state.fds@[fd as u32]) == p + n) && (n == 0 ==> post.context.machine.mem() == pre.context.machine.mem()
                    && F::fd_pos(&post.state.fds@[fd as u32]) == p && (p >= data.len()
                    || length == 0))
            })
    }

    /// What `handle_write` ensures, as a relation between the state before
    /// the call, the state after it, and its result.
    pub open spec fn write_post(pre: Self, post: Self, fd: i32, address: u64, length: u64, r: Result<u64, Error>) -> bool {
        &&& (post.wf())
        &&& (post.context.machine.mem() == pre.context.machine.mem())
        &&& (post.context.machine.regs() == pre.context.machine.regs())
        &&& (post.context.fs == pre.context.fs)
        &&& (post.state.fds@ == pre.state.fds@)
        &&& (post.issued@ == pre.issued@)
        &&& (post.uid == pre.uid)
        &&& (post.gid == pre.gid)
        &&& (pre.context.env.stdout().is_prefix_of(post.context.env.stdout()))
        &&& (pre.context.env.stderr().is_prefix_of(post.context.env.stderr()))
        &&& (fd < 0 || (fd as u32 != FILENO_STDOUT && fd as u32 != FILENO_STDERR && !pre.state.fds@.contains_key(fd as u32)) ==> r == Err::<u64, Error>(Error(EBADF)) && post == pre)
        &&& (fd >= 0 && (fd as u32 == FILENO_STDOUT || fd as u32 == FILENO_STDERR || pre.state.fds@.contains_key(fd as u32)) && address + length > u32::MAX ==> r == Err::<
                u64,
                Error,
            >(Error(EFAULT)) && post == pre)
        &&& (fd >= 0 && (fd as u32 == FILENO_STDOUT || fd as u32 == FILENO_STDERR || pre.state.fds@.contains_key(fd as u32)) && address + length <= u32::MAX && !mem_has_range(
                pre.context.machine.mem(),
                address,
                length as int,
            ) ==> r == Err::<u64, Error>(Error(EFAULT)) && post.context.env == pre.context.env)
        &&& (fd >= 0 && fd as u32 == FILENO_STDOUT && address + length <= u32::MAX && mem_has_range(
                pre.context.machine.mem(),
                address,
                length as int,
            ) ==> {
                let data = mem_bytes(pre.context.machine.mem(), address, length as int);
                &&& r matches Ok(n) ==> n <= length && post.context.env.stdout() == pre.context.env.stdout() + data.take(n as int) && post.context.env.stderr()
                    == pre.context.env.stderr()
                &&& r is Err ==> post.context.env.stdout() == pre.context.env.stdout()
            })
        &&& (fd >= 0 && fd as u32 == FILENO_STDERR && address + length <= u32::MAX && mem_has_range(
                pre.context.machine.mem(),
                address,
                length as int,
            ) ==> {
                let data = mem_bytes(pre.context.machine.mem(), address, length as int);
                &&& r matches Ok(n) ==> n <= length && post.context.env.stderr() == pre.context.env.stderr() + data.take(n as int) && post.context.env.stdout()
                    == pre.context.env.stdout()
                &&& r is Err ==> post.context.env.stderr() == pre.context.env.stderr()
            })
        &&& (fd >= 0 && fd as u32 != FILENO_STDOUT && fd as u32 != FILENO_STDERR && pre.state.fds@.contains_key(fd as u32) && address + length <= u32::MAX && mem_has_range(
                pre.context.machine.mem(),
                address,
                length as int,
            ) ==> r == Err::<u64, Error>(Error(ENOSYS)) && post.context.env == pre.context.env)
    }

    /// What `handle_lseek` ensures, as a relation between the state before
    /// the call, the state after it, and its result.
    pub open spec fn lseek_post(pre: Self, post: Self, fd: i32, offset: i64, whence: u64, r: Result<u64, Error>) -> bool {
        &&& (post.wf())
        &&& (post.context.machine == pre.context.machine)
        &&& (post.context.env == pre.context.env)
        &&& (post.issued@ == pre.issued@)
        &&& (post.uid == pre.uid)
        &&& (post.gid == pre.gid)
        &&& (post.state.fds@.dom() == pre.state.fds@.dom())
        &&& (fd < 0 || !pre.state.fds@.contains_key(fd as u32) ==> r == Err::<u64, Error>(
                Error(EBADF),
            ) && post.context == pre.context && post.state.fds@ == pre.state.fds@)
        &&& (fd >= 0 && pre.state.fds@.contains_key(fd as u32) && whence != SEEK_SET && whence
                != SEEK_CUR && whence != SEEK_END ==> r == Err::<u64, Error>(Error(EINVAL)) && post.state.fds@ == pre.state.fds@ && post.context.fs == pre.context.fs)
        &&& (fd >= 0 && pre.state.fds@.contains_key(fd as u32) && (whence == SEEK_SET || whence
                == SEEK_CUR || whence == SEEK_END) ==> {
                let file = pre.state.fds@[fd as u32];
                let from = if whence == SEEK_SET {
                    SeekFrom::Start(offset as u64)
                } else if whence == SEEK_CUR {
                    SeekFrom::Current(offset)
                } else {
                    SeekFrom::End(offset)
                };
                &&& (forall|k: u32|
                    k != fd as u32 && pre.state.fds@.contains_key(k)
                        ==> #[trigger] post.state.fds@[k] == pre.state.fds@[k])
                &&& F::fd_data(&post.state.fds@[fd as u32]) == F::fd_data(&file)
                &&& r matches Ok(n) ==> n == spec_seek_target(
                    F::fd_data(&file).len() as u64,
                    F::fd_pos(&file),
                    from,
                ) && F::fd_pos(&post.state.fds@[fd as u32]) == n
            })
    }

    /// What `handle_close` ensures, as a relation between the state before
    /// the call, the state after it, and its result.
    pub open spec fn close_post(pre: Self, post: Self, fd: i32, r: Result<(), Error>) -> bool {
        &&& (post.wf())
        &&& (post.context == pre.context)
        &&& (post.issued@ == pre.issued@)
        &&& (post.uid == pre.uid)
        &&& (post.gid == pre.gid)
        &&& (r is Ok <==> fd >= 0 && pre.state.fds@.contains_key(fd as u32))
        &&& (r is Ok ==> post.state.fds@ == pre.state.fds@.remove(fd as u32))
        &&& (r is Err ==> r == Err::<(), Error>(Error(EBADF)) && post.state.fds@ == pre.state.fds@)
    }

    /// What `handle_readv` ensures, as a relation between the state before
    /// the call, the state after it, and its result.
    pub open spec fn readv_post(pre: Self, post: Self, fd: i32, iov: u64, iovcnt: u64, r: Result<u64, Error>) -> bool {
        &&& (post.wf())
        &&& (post.context.machine.regs() == pre.context.machine.regs())
        &&& (post.context.machine.mem().dom() == pre.context.machine.mem().dom())
        &&& (post.context.env == pre.context.env)
        &&& (post.uid == pre.uid)
        &&& (post.gid == pre.gid)
        &&& (post.issued@ == pre.issued@)
        &&& (post.state.fds@.dom() == pre.state.fds@.dom())
        &&& (iovcnt == 0 || iovcnt > IOV_MAX ==> r == Err::<u64, Error>(Error(EINVAL)) && post == pre)
        &&& (r matches Ok(total) ==> 0 < iovcnt <= IOV_MAX && total <= iovcnt * 0x1_0000_0000)
        &&& (r matches Ok(total) ==> Self::readv_trace(pre, post, fd, iov, iovcnt as int, total as int))
    }

    /// What `handle_writev` ensures, as a relation between the state before
    /// the call, the state after it, and its result.
    pub open spec fn writev_post(pre: Self, post: Self, fd: i32, iov: u64, iovcnt: u64, r: Result<u64, Error>) -> bool {
        &&& (post.wf())
        &&& (post.context.machine.regs() == pre.context.machine.regs())
        &&& (post.context.machine.mem().dom() == pre.context.machine.mem().dom())
        &&& (post.state.fds@ == pre.state.fds@)
        &&& (post.uid == pre.uid)
        &&& (post.gid == pre.gid)
        &&& (post.issued@ == pre.issued@)
        &&& (pre.context.env.stdout().is_prefix_of(post.context.env.stdout()))
        &&& (pre.context.env.stderr().is_prefix_of(post.context.env.stderr()))
        &&& (iovcnt == 0 || iovcnt > IOV_MAX ==> r == Err::<u64, Error>(Error(EINVAL)) && post == pre)
        &&& (r matches Ok(total) ==> 0 < iovcnt <= IOV_MAX && total <= iovcnt * 0x1_0000_0000)
        &&& (r matches Ok(total) ==> Self::writev_trace(pre, post, fd, iov, iovcnt as int, total as int))
    }

    /// What `handle_set_tid_address` ensures, as a relation between the state before
    /// the call, the state after it, and its result.
    pub open spec fn set_tid_address_post(pre: Self, post: Self, thread_id_address: u64, r: Result<u64, Error>) -> bool {
        &&& (post.wf())
        &&& (machine_frame(&pre, &post))
        &&& (thread_id_address == 0 ==> r == Ok::<u64, Error>(1) && post == pre)
        &&& (thread_id_address != 0 ==> {
                &&& r == Ok::<u64, Error>(1) <==> mem_has_range(
                    pre.context.machine.mem(),
                    thread_id_address,
                    4,
                )
                &&& r is Ok ==> post.context.machine.mem() == mem_write(
                    pre.context.machine.mem(),
                    thread_id_address,
                    vstd::bytes::spec_u32_to_le_bytes(THREAD_ID),
                )
                &&& r is Err ==> r == Err::<u64, Error>(Error(EFAULT)) && post.context.machine.mem() == pre.context.machine.mem()
            })
    }

    /// What `handle_ioctl` ensures, as a relation between the state before
    /// the call, the state after it, and its result.
    pub open spec fn ioctl_post(pre: Self, post: Self, op: u64, arg0: u64, r: Result<(), Error>) -> bool {
        &&& (post.wf())
        &&& (machine_frame(&pre, &post))
        &&& (op != TIOCGWINSZ ==> r == Err::<(), Error>(Error(ENOSYS)) && post == pre)
        &&& (op == TIOCGWINSZ ==> {
                &&& r is Ok <==> mem_has_range(pre.context.machine.mem(), arg0, 8)
                &&& r is Ok ==> post.context.machine.mem() == mem_write(
                    pre.context.machine.mem(),
                    arg0,
                    spec_winsize_bytes((WinSize { row: 25, col: 80, xpixel: 0, ypixel: 0 })),
                )
                &&& r is Err ==> r == Err::<(), Error>(Error(EFAULT)) && post.context.machine.mem() == pre.context.machine.mem()
            })
    }

    /// What `handle_fcntl` ensures, as a relation between the state before
    /// the call, the state after it, and its result.
    pub open spec fn fcntl_post(pre: Self, post: Self, fd: i32, op: u64, arg0: u64, r: Result<(), Error>) -> bool {
        &&& (post.wf())
        &&& (post == pre)
        &&& (r == if fd < 0 || !pre.state.fds@.contains_key(fd as u32) {
                Err::<(), Error>(Error(EBADF))
            } else if op == F_SETFD && arg0 == FD_CLOEXEC {
                Ok::<(), Error>(())
            } else {
                Err::<(), Error>(Error(ENOSYS))
            })
    }

    /// What `handle_uname` ensures, as a relation between the state before
    /// the call, the state after it, and its result.
    pub open spec fn uname_post(pre: Self, post: Self, address: u64, r: Result<(), Error>) -> bool {
        &&& (post.wf())
        &&& (machine_frame(&pre, &post))
        &&& (address == 0 ==> r == Err::<(), Error>(Error(EFAULT)) && post == pre)
        &&& (address != 0 ==> {
                &&& r is Ok <==> mem_has_range(pre.context.machine.mem(), address, 390)
                &&& r is Ok ==> post.context.machine.mem() == mem_write(
                    pre.context.machine.mem(),
                    address,
                    spec_uname_image(),
                )
                &&& r is Err ==> r == Err::<(), Error>(Error(EFAULT)) && post.context.machine.mem() == pre.context.machine.mem()
            })
    }

    /// What `handle_newfstatat` ensures, as a relation between the state before
    /// the call, the state after it, and its result.
    pub open spec fn newfstatat_post(pre: Self, post: Self, dirfd: u64, path_address: u64, stat_address: u64, r: Result<(), Error>) -> bool {
        &&& (post.wf())
        &&& (fs_machine_frame(&pre, &post))
        &&& (!has_cstring(pre.context.machine.mem(), path_address, PATH_MAX) ==> r == Err::<
                (),
                Error,
            >(Error(EFAULT)) && post.context.machine.mem() == pre.context.machine.mem())
        &&& (dirfd as i64 as i32 != AT_FDCWD ==> r is Err)
        &&& (has_cstring(pre.context.machine.mem(), path_address, PATH_MAX) && dirfd as i64
                as i32 != AT_FDCWD ==> r == Err::<(), Error>(Error(ENOSYS)))
        &&& (r is Err ==> r == Err::<(), Error>(Error(EFAULT)) || r == Err::<(), Error>(
                Error(ENOSYS),
            ) || r == Err::<(), Error>(Error(ENOENT)))
        &&& (r is Ok ==> mem_has_range(pre.context.machine.mem(), stat_address, 128)
                && exists|meta: Metadata|
                post.context.machine.mem() == mem_write(
                    pre.context.machine.mem(),
                    stat_address,
                    spec_stat_bytes(spec_stat_of(meta)),
                ))
    }

    /// What `handle_clock_gettime` ensures, as a relation between the state before
    /// the call, the state after it, and its result.
    pub open spec fn clock_gettime_post(pre: Self, post: Self, address: u64, r: Result<(), Error>) -> bool {
        &&& (post.wf())
        &&& (machine_frame(&pre, &post))
        &&& (address == 0 ==> r == Err::<(), Error>(Error(EFAULT)) && post == pre)
        &&& (address != 0 ==> {
                &&& r is Ok <==> mem_has_range(pre.context.machine.mem(), address, 16)
                &&& r is Ok ==> post.context.machine.mem() == mem_write(
                    pre.context.machine.mem(),
                    address,
                    spec_timespec_bytes((Timespec { tv_sec: 0, tv_nsec: 0 })),
                )
                &&& r is Err ==> r == Err::<(), Error>(Error(EFAULT)) && post.context.machine.mem() == pre.context.machine.mem()
            })
    }

    /// What `handle_getdents64` ensures, as a relation between the state before
    /// the call, the state after it, and its result.
    pub open spec fn getdents64_post(pre: Self, post: Self, fd: i32, buf_address: u64, buf_size: u64, r: Result<u64, Error>) -> bool {
        &&& (post.wf())
        &&& (post.context.machine.regs() == pre.context.machine.regs())
        &&& (post.context.machine.mem().dom() == pre.context.machine.mem().dom())
        &&& (post.context.env == pre.context.env)
        &&& (post.uid == pre.uid)
        &&& (post.gid == pre.gid)
        &&& (post.issued@ == pre.issued@)
        &&& (post.state.fds@.dom() == pre.state.fds@.dom())
        &&& (fd < 0 || !pre.state.fds@.contains_key(fd as u32) ==> r == Err::<u64, Error>(
                Error(EBADF),
            ) && post.context == pre.context && post.state.fds@ == pre.state.fds@)
        &&& (r matches Ok(n) ==> n <= buf_size && (exists|bytes: Seq<u8>|
                bytes.len() == n && post.context.machine.mem() == mem_write(
                    pre.context.machine.mem(),
                    buf_address,
                    bytes,
                )))
        &&& (r matches Ok(n) && n == 0 ==> post.context.machine.mem()
            == pre.context.machine.mem())
    }

    /// What `handle_faccessat` ensures, as a relation between the state before
    /// the call, the state after it, and its result.
    pub open spec fn faccessat_post(pre: Self, post: Self, dirfd: u64, path_address: u64, mode: u64, r: Result<(), Error>) -> bool {
        &&& (post.wf())
        &&& (fs_machine_frame(&pre, &post))
        &&& (post.context.machine.mem() == pre.context.machine.mem())
        &&& (!has_cstring(pre.context.machine.mem(), path_address, PATH_MAX) ==> r == Err::<
                (),
                Error,
            >(Error(EFAULT)))
        &&& (dirfd as i64 as i32 != AT_FDCWD ==> r is Err)
    }

    /// What `handle_getgroups` ensures, as a relation between the state before
    /// the call, the state after it, and its result.
    pub open spec fn getgroups_post(pre: Self, post: Self, size: u64, address: u64, r: Result<u64, Error>) -> bool {
        &&& (post.wf())
        &&& (machine_frame(&pre, &post))
        &&& (size == 0 ==> r == Ok::<u64, Error>(1) && post == pre)
        &&& (size != 0 ==> {
                &&& r == Ok::<u64, Error>(1) <==> mem_has_range(
                    pre.context.machine.mem(),
                    address,
                    4,
                )
                &&& r is Ok ==> post.context.machine.mem() == mem_write(
                    pre.context.machine.mem(),
                    address,
                    vstd::bytes::spec_u32_to_le_bytes(pre.gid),
                )
                &&& r is Err ==> r == Err::<u64, Error>(Error(EFAULT)) && post.context.machine.mem() == pre.context.machine.mem()
            })
    }

    /// What `handle_getcwd` ensures, as a relation between the state before
    /// the call, the state after it, and its result.
    pub open spec fn getcwd_post(pre: Self, post: Self, buf_address: u64, buf_size: u64, r: Result<u64, Error>) -> bool {
        &&& (post.wf())
        &&& (machine_frame(&pre, &post))
        &&& (buf_size < 2 ==> r == Err::<u64, Error>(Error(ERANGE)) && post == pre)
        &&& (buf_size >= 2 ==> {
                &&& r == Ok::<u64, Error>(2) <==> mem_has_range(
                    pre.context.machine.mem(),
                    buf_address,
                    2,
                )
                &&& r is Ok ==> post.context.machine.mem() == mem_write(
                    pre.context.machine.mem(),
                    buf_address,
                    seq![47u8, 0u8],
                )
                &&& r is Err ==> r == Err::<u64, Error>(Error(EFAULT)) && post.context.machine.mem() == pre.context.machine.mem()
            })
    }

    /// What `handle_setuid` ensures, as a relation between the state before
    /// the call, the state after it, and its result.
    pub open spec fn setuid_post(pre: Self, post: Self, uid: u64, r: Result<(), Error>) -> bool {
        &&& (post == pre)
        &&& (r == if uid == pre.uid as u64 {
                Ok::<(), Error>(())
            } else {
                Err::<(), Error>(Error(ENOSYS))
            })
    }

    /// What `handle_setgid` ensures, as a relation between the state before
    /// the call, the state after it, and its result.
    pub open spec fn setgid_post(pre: Self, post: Self, gid: u64, r: Result<(), Error>) -> bool {
        &&& (post == pre)
        &&& (r == if gid == pre.gid as u64 {
                Ok::<(), Error>(())
            } else {
                Err::<(), Error>(Error(ENOSYS))
            })
    }

    /// What `handle_tkill` ensures, as a relation between the state before
    /// the call, the state after it, and its result.
    pub open spec fn tkill_post(pre: Self, post: Self, pid: u64, r: Result<(), Error>) -> bool {
        &&& (post == pre)
        &&& (r == if pid != 0 {
                Err::<(), Error>(Error(ENOSYS))
            } else {
                Ok::<(), Error>(())
            })
    }

    /// A read-only probe of guest memory between two states: the machine
    /// model and everything else carry over unchanged, though the machine
    /// value itself may differ.
    pub open spec fn machine_probe(pre: Self, post: Self) -> bool {
        &&& post.context.machine.mem() == pre.context.machine.mem()
        &&& post.context.machine.regs() == pre.context.machine.regs()
        &&& post.context.env == pre.context.env
        &&& post.context.fs == pre.context.fs
        &&& post.state == pre.state
        &&& post.uid == pre.uid
        &&& post.gid == pre.gid
        &&& post.max_fd == pre.max_fd
        &&& post.issued@ == pre.issued@
    }

    /// The walk of `n` `iovec` entries starting at `iov`, read to read:
    /// each entry's address and length words come from the guest memory of
    /// the state the entry is reached in, the entry goes through the read
    /// path, and `total` is the sum of the requested lengths — not of the
    /// bytes actually transferred, which the guest libc relies on.
    pub open spec fn readv_trace(pre: Self, post: Self, fd: i32, iov: u64, n: int, total: int) -> bool
        decreases n,
    {
        if n <= 0 {
            post == pre && total == 0
        } else {
            exists|probe: Self, mid: Self, addr: u64, len: u64, m: u64|
                #![auto]
                {
                    &&& Self::machine_probe(pre, probe)
                    &&& mem_has_range(pre.context.machine.mem(), iov, 8)
                    &&& addr == vstd::bytes::spec_u64_from_le_bytes(
                        mem_bytes(pre.context.machine.mem(), iov, 8),
                    )
                    &&& mem_has_range(
                        pre.context.machine.mem(),
                        ((iov + 8) % 0x1_0000_0000_0000_0000) as u64,
                        8,
                    )
                    &&& len == vstd::bytes::spec_u64_from_le_bytes(
                        mem_bytes(
                            pre.context.machine.mem(),
                            ((iov + 8) % 0x1_0000_0000_0000_0000) as u64,
                            8,
                        ),
                    )
                    &&& Self::read_post(probe, mid, fd, addr, len, Ok(m))
                    &&& Self::readv_trace(
                        mid,
                        post,
                        fd,
                        ((iov + 16) % 0x1_0000_0000_0000_0000) as u64,
                        n - 1,
                        total - len,
                    )
                }
        }
    }

    /// The walk of `n` `iovec` entries through the write path, with the
    /// same shape and the same sum-of-requested-lengths accounting as
    /// [`Self::readv_trace`].
    pub open spec fn writev_trace(pre: Self, post: Self, fd: i32, iov: u64, n: int, total: int) -> bool
        decreases n,
    {
        if n <= 0 {
            post == pre && total == 0
        } else {
            exists|probe: Self, mid: Self, addr: u64, len: u64, m: u64|
                #![auto]
                {
                    &&& Self::machine_probe(pre, probe)
                    &&& mem_has_range(pre.context.machine.mem(), iov, 8)
                    &&& addr == vstd::bytes::spec_u64_from_le_bytes(
                        mem_bytes(pre.context.machine.mem(), iov, 8),
                    )
                    &&& mem_has_range(
                        pre.context.machine.mem(),
                        ((iov + 8) % 0x1_0000_0000_0000_0000) as u64,
                        8,
                    )
                    &&& len == vstd::bytes::spec_u64_from_le_bytes(
                        mem_bytes(
                            pre.context.machine.mem(),
                            ((iov + 8) % 0x1_0000_0000_0000_0000) as u64,
                            8,
                        ),
                    )
                    &&& Self::write_post(probe, mid, fd, addr, len, Ok(m))
                    &&& Self::writev_trace(
                        mid,
                        post,
                        fd,
                        ((iov + 16) % 0x1_0000_0000_0000_0000) as u64,
                        n - 1,
                        total - len,
                    )
                }
        }
    }

    /// A walk of `n` entries followed by one more dispatched entry is a
    /// walk of `n + 1` entries.
    proof fn lemma_readv_trace_snoc(
        pre: Self,
        mid: Self,
        probe: Self,
        post: Self,
        fd: i32,
        iov: u64,
        n: int,
        total: int,
        addr: u64,
        len: u64,
        m: u64,
    )
        requires
            n >= 0,
            Self::readv_trace(pre, mid, fd, iov, n, total),
            Self::machine_probe(mid, probe),
            ({
                let en = ((iov + 16 * n) % 0x1_0000_0000_0000_0000) as u64;
                &&& mem_has_range(mid.context.machine.mem(), en, 8)
                &&& addr == vstd::bytes::spec_u64_from_le_bytes(
                    mem_bytes(mid.context.machine.mem(), en, 8),
                )
                &&& mem_has_range(
                    mid.context.machine.mem(),
                    ((en + 8) % 0x1_0000_0000_0000_0000) as u64,
                    8,
                )
                &&& len == vstd::bytes::spec_u64_from_le_bytes(
                    mem_bytes(
                        mid.context.machine.mem(),
                        ((en + 8) % 0x1_0000_0000_0000_0000) as u64,
                        8,
                    ),
                )
            }),
            Self::read_post(probe, post, fd, addr, len, Ok(m)),
        ensures
            Self::readv_trace(pre, post, fd, iov, n + 1, total + len),
        decreases n,
    {
        let w16 = ((iov + 16) % 0x1_0000_0000_0000_0000) as u64;
        if n == 0 {
            assert(Self::readv_trace(post, post, fd, w16, 0, 0));
            assert(Self::readv_trace(pre, post, fd, iov, 1, total + len));
        } else {
            let (probe1, mid1, addr1, len1, m1) = choose|
                probe1: Self,
                mid1: Self,
                addr1: u64,
                len1: u64,
                m1: u64,
            |
                #![auto]
                {
                    &&& Self::machine_probe(pre, probe1)
                    &&& mem_has_range(pre.context.machine.mem(), iov, 8)
                    &&& addr1 == vstd::bytes::spec_u64_from_le_bytes(
                        mem_bytes(pre.context.machine.mem(), iov, 8),
                    )
                    &&& mem_has_range(
                        pre.context.machine.mem(),
                        ((iov + 8) % 0x1_0000_0000_0000_0000) as u64,
                        8,
                    )
                    &&& len1 == vstd::bytes::spec_u64_from_le_bytes(
                        mem_bytes(
                            pre.context.machine.mem(),
                            ((iov + 8) % 0x1_0000_0000_0000_0000) as u64,
                            8,
                        ),
                    )
                    &&& Self::read_post(probe1, mid1, fd, addr1, len1, Ok(m1))
                    &&& Self::readv_trace(mid1, mid, fd, w16, n - 1, total - len1)
                };
            let q = (iov + 16) / 0x1_0000_0000_0000_0000;
            lemma_mod_multiples_vanish(-q, iov + 16 * n, 0x1_0000_0000_0000_0000);
            assert((w16 + 16 * (n - 1)) % 0x1_0000_0000_0000_0000 == (iov + 16 * n)
                % 0x1_0000_0000_0000_0000);
            Self::lemma_readv_trace_snoc(
                mid1,
                mid,
                probe,
                post,
                fd,
                w16,
                n - 1,
                total - len1,
                addr,
                len,
                m,
            );
            assert(Self::readv_trace(pre, post, fd, iov, n + 1, total + len));
        }
    }

    /// A walk of `n` entries followed by one more dispatched entry is a
    /// walk of `n + 1` entries.
    proof fn lemma_writev_trace_snoc(
        pre: Self,
        mid: Self,
        probe: Self,
        post: Self,
        fd: i32,
        iov: u64,
        n: int,
        total: int,
        addr: u64,
        len: u64,
        m: u64,
    )
        requires
            n >= 0,
            Self::writev_trace(pre, mid, fd, iov, n, total),
            Self::machine_probe(mid, probe),
            ({
                let en = ((iov + 16 * n) % 0x1_0000_0000_0000_0000) as u64;
                &&& mem_has_range(mid.context.machine.mem(), en, 8)
                &&& addr == vstd::bytes::spec_u64_from_le_bytes(
                    mem_bytes(mid.context.machine.mem(), en, 8),
                )
                &&& mem_has_range(
                    mid.context.machine.mem(),
                    ((en + 8) % 0x1_0000_0000_0000_0000) as u64,
                    8,
                )
                &&& len == vstd::bytes::spec_u64_from_le_bytes(
                    mem_bytes(
                        mid.context.machine.mem(),
                        ((en + 8) % 0x1_0000_0000_0000_0000) as u64,
                        8,
                    ),
                )
            }),
            Self::write_post(probe, post, fd, addr, len, Ok(m)),
        ensures
            Self::writev_trace(pre, post, fd, iov, n + 1, total + len),
        decreases n,
    {
        let w16 = ((iov + 16) % 0x1_0000_0000_0000_0000) as u64;
        if n == 0 {
            assert(Self::writev_trace(post, post, fd, w16, 0, 0));
            assert(Self::writev_trace(pre, post, fd, iov, 1, total + len));
        } else {
            let (probe1, mid1, addr1, len1, m1) = choose|
                probe1: Self,
                mid1: Self,
                addr1: u64,
                len1: u64,
                m1: u64,
            |
                #![auto]
                {
                    &&& Self::machine_probe(pre, probe1)
                    &&& mem_has_range(pre.context.machine.mem(), iov, 8)
                    &&& addr1 == vstd::bytes::spec_u64_from_le_bytes(
                        mem_bytes(pre.context.machine.mem(), iov, 8),
                    )
                    &&& mem_has_range(
                        pre.context.machine.mem(),
                        ((iov + 8) % 0x1_0000_0000_0000_0000) as u64,
                        8,
                    )
                    &&& len1 == vstd::bytes::spec_u64_from_le_bytes(
                        mem_bytes(
                            pre.context.machine.mem(),
                            ((iov + 8) % 0x1_0000_0000_0000_0000) as u64,
                            8,
                        ),
                    )
                    &&& Self::write_post(probe1, mid1, fd, addr1, len1, Ok(m1))
                    &&& Self::writev_trace(mid1, mid, fd, w16, n - 1, total - len1)
                };
            let q = (iov + 16) / 0x1_0000_0000_0000_0000;
            lemma_mod_multiples_vanish(-q, iov + 16 * n, 0x1_0000_0000_0000_0000);
            assert((w16 + 16 * (n - 1)) % 0x1_0000_0000_0000_0000 == (iov + 16 * n)
                % 0x1_0000_0000_0000_0000);
            Self::lemma_writev_trace_snoc(
                mid1,
                mid,
                probe,
                post,
                fd,
                w16,
                n - 1,
                total - len1,
                addr,
                len,
                m,
            );
            assert(Self::writev_trace(pre, post, fd, iov, n + 1, total + len));
        }
    }

    /// The fold of a handler result into the register file: `A0` takes the
    /// encoded value and everything else carries over unchanged.
    pub open spec fn a0_result(mid: Self, post: Self, v: u64) -> bool {
        &&& post.context.machine.regs() == mid.context.machine.regs().insert(Reg::A0, v)
        &&& post.context.machine.mem() == mid.context.machine.mem()
        &&& post.context.env == mid.context.env
        &&& post.context.fs == mid.context.fs
        &&& post.state == mid.state
        &&& post.uid == mid.uid
        &&& post.gid == mid.gid
        &&& post.max_fd == mid.max_fd
        &&& post.issued@ == mid.issued@
    }

    /// Open a file and allocate a fresh descriptor for it.  Write access is
    /// refused before the file system is consulted.
    pub fn handle_open(&mut self, path: &[u8], flags: u64) -> (r: Result<u32, Error>)
        requires
            old(self).wf(),
        ensures
            final(self).wf(),
            final(self).context.machine == old(self).context.machine,
            final(self).context.env == old(self).context.env,
            final(self).uid == old(self).uid,
            final(self).gid == old(self).gid,
            (flags & (O_WRONLY | O_RDWR)) != 0 ==> r == Err::<u32, Error>(Error(EACCES)) && *final(self) == *old(self),
            r matches Ok(fd) ==> fd > MAX_RESERVED_FD && !old(self).issued@.contains(fd) && !old(self).state.fds@.dom().contains(fd) && final(self).issued@ == old(self).issued@.insert(fd)
                && final(self).state.fds@.dom() == old(self).state.fds@.dom().insert(fd) && (forall|k: u32|
                k != fd && old(self).state.fds@.contains_key(k)
                    ==> #[trigger] final(self).state.fds@[k] == old(self).state.fds@[k]) && final(self).state.fds@.contains_key(fd) && F::fd_pos(&final(self).state.fds@[fd]) == 0,
            r is Err ==> final(self).state.fds@ == old(self).state.fds@ && final(self).issued@
                == old(self).issued@,
    {
        if (flags & (O_WRONLY | O_RDWR)) != 0 {
            return Err(Error(EACCES));
        }
        let file = match self.context.fs.open(path, flags) {
            Ok(file) => file,
            Err(e) => {
                return Err(e);
            },
        };
        let m0 = match self.max_fd {
            Some(m) => m,
            None => max_key(&self.state.fds),
        };
        if m0 > u32::MAX - 3 {
            // The descriptor space is exhausted; treat the request as
            // unsupported rather than wrap the cursor around.
            return Err(Error(ENOSYS));
        }
        let m1 = m0 + 1;
        self.max_fd = Some(m1);
        let fd = MAX_RESERVED_FD + m1;
        proof {
            assert(!old(self).issued@.contains(fd));
            assert(!old(self).state.fds@.dom().contains(fd));
        }
        self.state.fds.insert(fd, file);
        proof {
            self.issued = Ghost(self.issued@.insert(fd));
            assert(final(self).state.fds@.dom() =~= old(self).state.fds@.dom().insert(fd));
        }
        Ok(fd)
    }

    /// `openat`: the path is read from guest memory; only `AT_FDCWD` is
    /// supported as the directory descriptor.
    pub fn handle_openat(&mut self, dirfd: u64, path: u64, flags: u64) -> (r: Result<u32, Error>)
        requires
            old(self).wf(),
        ensures
            final(self).wf(),
            final(self).context.machine.mem() == old(self).context.machine.mem(),
            final(self).context.machine.regs() == old(self).context.machine.regs(),
            final(self).context.env == old(self).context.env,
            final(self).uid == old(self).uid,
            final(self).gid == old(self).gid,
            !has_cstring(old(self).context.machine.mem(), path, PATH_MAX) ==> r == Err::<
                u32,
                Error,
            >(Error(EFAULT)) && final(self).state.fds@ == old(self).state.fds@ && final(self).issued@ == old(self).issued@,
            dirfd as i64 as i32 != AT_FDCWD ==> r is Err && final(self).state.fds@ == old(self).state.fds@ && final(self).issued@ == old(self).issued@,
            has_cstring(old(self).context.machine.mem(), path, PATH_MAX) && dirfd as i64 as i32
                != AT_FDCWD ==> r == Err::<u32, Error>(Error(ENOSYS)),
            has_cstring(old(self).context.machine.mem(), path, PATH_MAX) && dirfd as i64 as i32
                == AT_FDCWD && (flags & (O_WRONLY | O_RDWR)) != 0 ==> r == Err::<u32, Error>(
                Error(EACCES),
            ),
            (flags & (O_WRONLY | O_RDWR)) != 0 ==> r is Err && final(self).state.fds@ == old(self).state.fds@ && final(self).issued@ == old(self).issued@,
            r matches Ok(fd) ==> fd > MAX_RESERVED_FD && !old(self).issued@.contains(fd) && final(self).issued@ == old(self).issued@.insert(fd) && final(self).state.fds@.dom() == old(self).state.fds@.dom().insert(fd),
            r is Err ==> final(self).state.fds@ == old(self).state.fds@ && final(self).issued@
                == old(self).issued@,
    {
        let path_bytes = match self.context.machine.read_cstring(path, PATH_MAX) {
            Ok(p) => p,
            Err(_) => {
                return Err(Error(EFAULT));
            },
        };
        let dirfd32 = dirfd as i64 as i32;
        if dirfd32 != AT_FDCWD {
            return Err(Error(ENOSYS));
        }
        self.handle_open(path_bytes.as_slice(), flags)
    }

    /// `close`: drop the handle behind a descriptor.
    #[verifier::rlimit(60)]
    pub fn handle_close(&mut self, fd: i32) -> (r: Result<(), Error>)
        requires
            old(self).wf(),
        ensures
            Self::close_post(*old(self), *final(self), fd, r),
    {
        if fd < 0 {
            return Err(Error(EBADF));
        }
        let fdu = fd as u32;
        match self.state.fds.remove(&fdu) {
            Some(_file) => Ok(()),
            None => {
                proof {
                    assert(final(self).state.fds@ =~= old(self).state.fds@);
                }
                Err(Error(EBADF))
            },
        }
    }

    /// `read`: range-check the guest buffer, read from the file, and copy
    /// the bytes read into guest memory.
    #[verifier::rlimit(60)]
    pub fn handle_read(&mut self, fd: i32, address: u64, length: u64) -> (r: Result<u64, Error>)
        requires
            old(self).wf(),
        ensures
            Self::read_post(*old(self), *final(self), fd, address, length, r),
    {
        if fd < 0 {
            return Err(Error(EBADF));
        }
        let fdu = fd as u32;
        let mut file = match self.state.fds.remove(&fdu) {
            Some(file) => file,
            None => {
                proof {
                    assert(final(self).state.fds@ =~= old(self).state.fds@);
                }
                return Err(Error(EBADF));
            },
        };
        if address > u32::MAX as u64 || length > u32::MAX as u64 - address {
            self.state.fds.insert(fdu, file);
            proof {
                assert(final(self).state.fds@ =~= old(self).state.fds@);
                assert(final(self).state.fds@.dom() =~= old(self).state.fds@.dom());
            }
            return Err(Error(EFAULT));
        }
        let buf_len = length as usize;
        let mut buf: Vec<u8> = vec![0u8; buf_len];
        let read_result = self.context.fs.read(&mut file, &mut buf);
        let num_bytes_read = match read_result {
            Ok(n) => n,
            Err(e) => {
                self.state.fds.insert(fdu, file);
                proof {
                    assert(final(self).state.fds@.dom() =~= old(self).state.fds@.dom());
                }
                return Err(e);
            },
        };
        buf.truncate(num_bytes_read);
        proof {
            let file0 = old(self).state.fds@[fd as u32];
            if num_bytes_read > 0 {
                assert(buf@ =~= F::fd_data(&file0).subrange(
                    F::fd_pos(&file0) as int,
                    F::fd_pos(&file0) + num_bytes_read,
                ));
            }
        }
        let write_result = self.context.machine.write_memory(address, buf.as_slice());
        self.state.fds.insert(fdu, file);
        proof {
            assert(final(self).state.fds@.dom() =~= old(self).state.fds@.dom());
        }
        proof {
            assert(self.context.machine.mem().dom() =~= old(self).context.machine.mem().dom());
        }
        match write_result {
            Ok(_) => {
                proof {
                    if num_bytes_read == 0 {
                        assert(final(self).context.machine.mem() =~= old(self).context.machine.mem());
                    }
                }
                Ok(num_bytes_read as u64)
            },
            Err(_) => Err(Error(EFAULT)),
        }
    }

    /// `write`: descriptors `1` and `2` reach the environment's streams;
    /// any other open descriptor is validated and then refused, as no
    /// writable file-system target exists.
    pub fn handle_write(&mut self, fd: i32, address: u64, length: u64) -> (r: Result<u64, Error>)
        requires
            old(self).wf(),
        ensures
            Self::write_post(*old(self), *final(self), fd, address, length, r),
    {
        if fd < 0 {
            return Err(Error(EBADF));
        }
        let fdu = fd as u32;
        if fdu != FILENO_STDOUT && fdu != FILENO_STDERR && !self.state.fds.contains_key(&fdu) {
            return Err(Error(EBADF));
        }
        if address > u32::MAX as u64 || length > u32::MAX as u64 - address {
            return Err(Error(EFAULT));
        }
        let data = match self.context.machine.read_memory(address, length) {
            Ok(d) => d,
            Err(_) => {
                return Err(Error(EFAULT));
            },
        };
        if fdu == FILENO_STDOUT {
            self.context.env.write_to_stdout(data.as_slice())
        } else if fdu == FILENO_STDERR {
            self.context.env.write_to_stderr(data.as_slice())
        } else {
            Err(Error(ENOSYS))
        }
    }

    /// `lseek`: map the `whence` code to a seek anchor; any other code is
    /// invalid and leaves the descriptor untouched.
    pub fn handle_lseek(&mut self, fd: i32, offset: i64, whence: u64) -> (r: Result<u64, Error>)
        requires
            old(self).wf(),
        ensures
            Self::lseek_post(*old(self), *final(self), fd, offset, whence, r),
    {
        if fd < 0 {
            return Err(Error(EBADF));
        }
        let fdu = fd as u32;
        let mut file = match self.state.fds.remove(&fdu) {
            Some(file) => file,
            None => {
                proof {
                    assert(final(self).state.fds@ =~= old(self).state.fds@);
                }
                return Err(Error(EBADF));
            },
        };
        let from = if whence == SEEK_SET {
            SeekFrom::Start(offset as u64)
        } else if whence == SEEK_CUR {
            SeekFrom::Current(offset)
        } else if whence == SEEK_END {
            SeekFrom::End(offset)
        } else {
            self.state.fds.insert(fdu, file);
            proof {
                assert(final(self).state.fds@ =~= old(self).state.fds@);
                assert(final(self).state.fds@.dom() =~= old(self).state.fds@.dom());
            }
            return Err(Error(EINVAL));
        };
        let result = self.context.fs.seek(&mut file, from);
        self.state.fds.insert(fdu, file);
        proof {
            assert(final(self).state.fds@.dom() =~= old(self).state.fds@.dom());
        }
        result
    }

    /// `readv`: walk the table of `(address, length)` pairs, reading each
    /// in turn.  Returns the sum of the requested lengths, as the guest
    /// libc expects, not the bytes actually transferred.
    pub fn handle_readv(&mut self, fd: i32, iov: u64, iovcnt: u64) -> (r: Result<u64, Error>)
        requires
            old(self).wf(),
        ensures
            Self::readv_post(*old(self), *final(self), fd, iov, iovcnt, r),
    {
        if iovcnt == 0 || iovcnt > IOV_MAX {
            return Err(Error(EINVAL));
        }
        let mut total_length: u64 = 0;
        let mut n: u64 = 0;
        while n < iovcnt
            invariant
                self.wf(),
                n <= iovcnt,
                iovcnt <= IOV_MAX,
                total_length <= n * 0x1_0000_0000,
                self.context.machine.regs() == old(self).context.machine.regs(),
                self.context.machine.mem().dom() == old(self).context.machine.mem().dom(),
                self.context.env == old(self).context.env,
                self.uid == old(self).uid,
                self.gid == old(self).gid,
                self.issued@ == old(self).issued@,
                self.state.fds@.dom() == old(self).state.fds@.dom(),
                Self::readv_trace(*old(self), *self, fd, iov, n as int, total_length as int),
            decreases iovcnt - n,
        {
            let ghost it_pre = *self;
            let entry = entry_address(iov, n);
            let address = match self.context.machine.read_u64(entry) {
                Ok(a) => a,
                Err(_) => {
                    return Err(Error(EFAULT));
                },
            };
            let length = match self.context.machine.read_u64(entry_offset(entry)) {
                Ok(l) => l,
                Err(_) => {
                    return Err(Error(EFAULT));
                },
            };
            let ghost probe = *self;
            match self.handle_read(fd, address, length) {
                Ok(m) => {
                    proof {
                        Self::lemma_readv_trace_snoc(
                            *old(self),
                            it_pre,
                            probe,
                            *self,
                            fd,
                            iov,
                            n as int,
                            total_length as int,
                            address,
                            length,
                            m,
                        );
                    }
                },
                Err(e) => {
                    return Err(e);
                },
            }
            total_length = total_length + length;
            n = n + 1;
        }
        Ok(total_length)
    }

    /// `writev`: symmetric to `readv`.
    pub fn handle_writev(&mut self, fd: i32, iov: u64, iovcnt: u64) -> (r: Result<u64, Error>)
        requires
            old(self).wf(),
        ensures
            Self::writev_post(*old(self), *final(self), fd, iov, iovcnt, r),
    {
        if iovcnt == 0 || iovcnt > IOV_MAX {
            return Err(Error(EINVAL));
        }
        let mut total_length: u64 = 0;
        let mut n: u64 = 0;
        while n < iovcnt
            invariant
                self.wf(),
                n <= iovcnt,
                iovcnt <= IOV_MAX,
                total_length <= n * 0x1_0000_0000,
                self.context.machine.regs() == old(self).context.machine.regs(),
                self.context.machine.mem().dom() == old(self).context.machine.mem().dom(),
                self.state.fds@ == old(self).state.fds@,
                self.uid == old(self).uid,
                self.gid == old(self).gid,
                self.issued@ == old(self).issued@,
                old(self).context.env.stdout().is_prefix_of(self.context.env.stdout()),
                old(self).context.env.stderr().is_prefix_of(self.context.env.stderr()),
                Self::writev_trace(*old(self), *self, fd, iov, n as int, total_length as int),
            decreases iovcnt - n,
        {
            let ghost it_pre = *self;
            let ghost mid_out = self.context.env.stdout();
            let ghost mid_err = self.context.env.stderr();
            let entry = entry_address(iov, n);
            let address = match self.context.machine.read_u64(entry) {
                Ok(a) => a,
                Err(_) => {
                    return Err(Error(EFAULT));
                },
            };
            let length = match self.context.machine.read_u64(entry_offset(entry)) {
                Ok(l) => l,
                Err(_) => {
                    return Err(Error(EFAULT));
                },
            };
            let ghost probe = *self;
            match self.handle_write(fd, address, length) {
                Ok(m) => {
                    proof {
                        Self::lemma_writev_trace_snoc(
                            *old(self),
                            it_pre,
                            probe,
                            *self,
                            fd,
                            iov,
                            n as int,
                            total_length as int,
                            address,
                            length,
                            m,
                        );
                    }
                },
                Err(e) => {
                    proof {
                        lemma_prefix_trans(
                            old(self).context.env.stdout(),
                            mid_out,
                            self.context.env.stdout(),
                        );
                        lemma_prefix_trans(
                            old(self).context.env.stderr(),
                            mid_err,
                            self.context.env.stderr(),
                        );
                    }
                    return Err(e);
                },
            }
            proof {
                lemma_prefix_trans(
                    old(self).context.env.stdout(),
                    mid_out,
                    self.context.env.stdout(),
                );
                lemma_prefix_trans(
                    old(self).context.env.stderr(),
                    mid_err,
                    self.context.env.stderr(),
                );
            }
            total_length = total_length + length;
            n = n + 1;
        }
        Ok(total_length)
    }

    /// `set_tid_address`: record nothing, write the constant thread id if a
    /// destination was given, and return it.
    pub fn handle_set_tid_address(&mut self, thread_id_address: u64) -> (r: Result<u64, Error>)
        requires
            old(self).wf(),
        ensures
            Self::set_tid_address_post(*old(self), *final(self), thread_id_address, r),
    {
        if thread_id_address != 0 {
            let wr = self.context.machine.write_u32(thread_id_address, THREAD_ID);
            proof {
                assert(self.context.machine.mem().dom() =~= old(self).context.machine.mem().dom());
            }
            match wr {
                Ok(_) => {},
                Err(_) => {
                    return Err(Error(EFAULT));
                },
            }
        }
        Ok(THREAD_ID as u64)
    }

    /// `ioctl`: only the window-size probe is handled, with a fixed 80×25
    /// answer; it makes the guest libc line-buffer its standard output.
    pub fn handle_ioctl(&mut self, _fd: u64, op: u64, arg0: u64) -> (r: Result<(), Error>)
        requires
            old(self).wf(),
        ensures
            Self::ioctl_post(*old(self), *final(self), op, arg0, r),
    {
        if op == TIOCGWINSZ {
            let vt100_size = WinSize { col: 80, row: 25, xpixel: 0, ypixel: 0 };
            let bytes = winsize_bytes(&vt100_size);
            let wr = self.context.machine.write_memory(arg0, bytes.as_slice());
            proof {
                assert(self.context.machine.mem().dom() =~= old(self).context.machine.mem().dom());
            }
            return match wr {
                Ok(_) => Ok(()),
                Err(_) => Err(Error(EFAULT)),
            };
        }
        Err(Error(ENOSYS))
    }

    /// `fcntl`: only setting the close-on-exec flag is accepted, and it is
    /// a no-op.
    pub fn handle_fcntl(&mut self, fd: i32, op: u64, arg0: u64) -> (r: Result<(), Error>)
        requires
            old(self).wf(),
        ensures
            Self::fcntl_post(*old(self), *final(self), fd, op, arg0, r),
    {
        if fd < 0 {
            return Err(Error(EBADF));
        }
        let fdu = fd as u32;
        if !self.state.fds.contains_key(&fdu) {
            return Err(Error(EBADF));
        }
        if op == F_SETFD && arg0 == FD_CLOEXEC {
            Ok(())
        } else {
            Err(Error(ENOSYS))
        }
    }

    pub fn handle_getuid(&mut self) -> (r: Result<u32, Error>)
        ensures
            *final(self) == *old(self),
            r == Ok::<u32, Error>(old(self).uid),
    {
        Ok(self.uid)
    }

    pub fn handle_geteuid(&mut self) -> (r: Result<u32, Error>)
        ensures
            *final(self) == *old(self),
            r == Ok::<u32, Error>(old(self).uid),
    {
        Ok(self.uid)
    }

    pub fn handle_getgid(&mut self) -> (r: Result<u32, Error>)
        ensures
            *final(self) == *old(self),
            r == Ok::<u32, Error>(old(self).gid),
    {
        Ok(self.gid)
    }

    pub fn handle_getegid(&mut self) -> (r: Result<u32, Error>)
        ensures
            *final(self) == *old(self),
            r == Ok::<u32, Error>(old(self).gid),
    {
        Ok(self.gid)
    }

    /// `setuid` succeeds only when it changes nothing.
    pub fn handle_setuid(&mut self, uid: u64) -> (r: Result<(), Error>)
        ensures
            Self::setuid_post(*old(self), *final(self), uid, r),
    {
        if uid == self.uid as u64 {
            Ok(())
        } else {
            Err(Error(ENOSYS))
        }
    }

    /// `setgid` succeeds only when it changes nothing.
    pub fn handle_setgid(&mut self, gid: u64) -> (r: Result<(), Error>)
        ensures
            Self::setgid_post(*old(self), *final(self), gid, r),
    {
        if gid == self.gid as u64 {
            Ok(())
        } else {
            Err(Error(ENOSYS))
        }
    }

    /// `getgroups`: the single supplementary group is the stored gid; a
    /// zero-sized query only asks for the count.
    pub fn handle_getgroups(&mut self, size: u64, address: u64) -> (r: Result<u64, Error>)
        requires
            old(self).wf(),
        ensures
            Self::getgroups_post(*old(self), *final(self), size, address, r),
    {
        if size == 0 {
            return Ok(1);
        }
        let wr = self.context.machine.write_u32(address, self.gid);
        proof {
            assert(self.context.machine.mem().dom() =~= old(self).context.machine.mem().dom());
        }
        match wr {
            Ok(_) => Ok(1),
            Err(_) => Err(Error(EFAULT)),
        }
    }

    /// `uname`: write the fixed identification record.  The release value
    /// is what the guest libc's start-up checks expect of the emulated
    /// kernel.
    pub fn handle_uname(&mut self, address: u64) -> (r: Result<(), Error>)
        requires
            old(self).wf(),
        ensures
            Self::uname_post(*old(self), *final(self), address, r),
    {
        if address == 0 {
            return Err(Error(EFAULT));
        }
        let utsname = uname_record();
        let bytes = utsname_bytes(&utsname);
        let wr = self.context.machine.write_memory(address, bytes.as_slice());
        proof {
            assert(self.context.machine.mem().dom() =~= old(self).context.machine.mem().dom());
        }
        match wr {
            Ok(_) => Ok(()),
            Err(_) => Err(Error(EFAULT)),
        }
    }

    /// `newfstatat`: look the path's metadata up and write the packed
    /// `stat` record into guest memory.
    pub fn handle_newfstatat(
        &mut self,
        dirfd: u64,
        path_address: u64,
        stat_address: u64,
        flags: u64,
    ) -> (r: Result<(), Error>)
        requires
            old(self).wf(),
        ensures
            Self::newfstatat_post(*old(self), *final(self), dirfd, path_address, stat_address, r),
    {
        let path = match self.context.machine.read_cstring(path_address, PATH_MAX) {
            Ok(p) => p,
            Err(_) => {
                return Err(Error(EFAULT));
            },
        };
        let dirfd32 = dirfd as i64 as i32;
        self.do_handle_newfstatat(dirfd32, path.as_slice(), stat_address, flags)
    }

    pub fn do_handle_newfstatat(
        &mut self,
        dirfd: i32,
        path: &[u8],
        stat_address: u64,
        _flags: u64,
    ) -> (r: Result<(), Error>)
        requires
            old(self).wf(),
        ensures
            final(self).wf(),
            fs_machine_frame(old(self), final(self)),
            dirfd != AT_FDCWD ==> r == Err::<(), Error>(Error(ENOSYS)) && final(self).context.machine.mem() == old(self).context.machine.mem(),
            dirfd == AT_FDCWD && r is Err ==> r == Err::<(), Error>(Error(ENOENT)) || r == Err::<
                (),
                Error,
            >(Error(EFAULT)),
            r is Ok ==> mem_has_range(old(self).context.machine.mem(), stat_address, 128)
                && exists|meta: Metadata|
                final(self).context.machine.mem() == mem_write(
                    old(self).context.machine.mem(),
                    stat_address,
                    spec_stat_bytes(spec_stat_of(meta)),
                ),
            r is Err ==> final(self).context.machine.mem() == old(self).context.machine.mem(),
    {
        if dirfd != AT_FDCWD {
            return Err(Error(ENOSYS));
        }
        let meta = match self.context.fs.metadata(path) {
            Ok(m) => m,
            Err(_) => {
                // Every metadata failure collapses to ENOENT.
                return Err(Error(ENOENT));
            },
        };
        self.write_stat_record(&meta, stat_address)
    }

    /// Write the packed 128-byte `stat` record derived from the given
    /// metadata — inode, mode and size copied, one link, a 512-byte block
    /// count rounded up, every time zero — into guest memory.
    pub fn write_stat_record(&mut self, meta: &Metadata, stat_address: u64) -> (r: Result<
        (),
        Error,
    >)
        requires
            old(self).wf(),
        ensures
            final(self).wf(),
            machine_frame(old(self), final(self)),
            r is Ok <==> mem_has_range(old(self).context.machine.mem(), stat_address, 128),
            r is Ok ==> final(self).context.machine.mem() == mem_write(
                old(self).context.machine.mem(),
                stat_address,
                spec_stat_bytes(spec_stat_of(*meta)),
            ),
            r is Err ==> r == Err::<(), Error>(Error(EFAULT)) && final(self).context.machine.mem()
                == old(self).context.machine.mem(),
    {
        let blocks = meta.size / 512 + if meta.size % 512 != 0 {
            1
        } else {
            0
        };
        let stat = Stat {
            st_dev: 0,
            st_ino: meta.id,
            st_mode: meta.mode,
            st_nlink: 1,
            st_uid: 0,
            st_gid: 0,
            st_rdev: 0,
            __pad: 0,
            st_size: #[verifier::truncate] (meta.size as i64),
            st_blksize: #[verifier::truncate] (meta.block_size as i32),
            __pad2: 0,
            st_blocks: blocks as i64,
            st_atim: Timespec { tv_sec: 0, tv_nsec: 0 },
            st_mtim: Timespec { tv_sec: 0, tv_nsec: 0 },
            st_ctim: Timespec { tv_sec: 0, tv_nsec: 0 },
            __unused: 0,
        };
        proof {
            assert(stat == spec_stat_of(*meta));
        }
        let bytes = stat_bytes(&stat);
        let wr = self.context.machine.write_memory(stat_address, bytes.as_slice());
        proof {
            assert(self.context.machine.mem().dom() =~= old(self).context.machine.mem().dom());
        }
        match wr {
            Ok(_) => Ok(()),
            Err(_) => Err(Error(EFAULT)),
        }
    }

    /// `clock_gettime`: the clock stands still at zero.
    pub fn handle_clock_gettime(&mut self, _clock_id: u64, address: u64) -> (r: Result<(), Error>)
        requires
            old(self).wf(),
        ensures
            Self::clock_gettime_post(*old(self), *final(self), address, r),
    {
        if address == 0 {
            return Err(Error(EFAULT));
        }
        let ts = Timespec { tv_sec: 0, tv_nsec: 0 };
        let bytes = timespec_bytes(&ts);
        let wr = self.context.machine.write_memory(address, bytes.as_slice());
        proof {
            assert(self.context.machine.mem().dom() =~= old(self).context.machine.mem().dom());
        }
        match wr {
            Ok(_) => Ok(()),
            Err(_) => Err(Error(EFAULT)),
        }
    }

    /// `getdents64`: fill a buffer with packed directory entries by asking
    /// the file system repeatedly, then write the populated prefix to
    /// guest memory.
    #[verifier::rlimit(60)]
    pub fn handle_getdents64(&mut self, fd: i32, buf_address: u64, buf_size: u64) -> (r: Result<
        u64,
        Error,
    >)
        requires
            old(self).wf(),
        ensures
            Self::getdents64_post(*old(self), *final(self), fd, buf_address, buf_size, r),
    {
        if fd < 0 {
            return Err(Error(EBADF));
        }
        let fdu = fd as u32;
        let mut file = match self.state.fds.remove(&fdu) {
            Some(file) => file,
            None => {
                proof {
                    assert(final(self).state.fds@ =~= old(self).state.fds@);
                }
                return Err(Error(EBADF));
            },
        };
        let cap: usize = if buf_size > usize::MAX as u64 {
            usize::MAX
        } else {
            buf_size as usize
        };
        let mut out: Vec<u8> = Vec::new();
        let mut done = false;
        while !done && out.len() < cap
            invariant
                self.wf(),
                old(self).wf(),
                fd >= 0,
                fdu == fd as u32,
                old(self).state.fds@.contains_key(fdu),
                out@.len() <= cap,
                cap <= buf_size,
                self.context.machine == old(self).context.machine,
                self.context.env == old(self).context.env,
                self.uid == old(self).uid,
                self.gid == old(self).gid,
                self.max_fd == old(self).max_fd,
                self.issued@ == old(self).issued@,
                self.state.fds@ == old(self).state.fds@.remove(fdu),
            decreases cap - out@.len(), (if done {
                0int
            } else {
                1int
            }),
        {
            let remaining = cap - out.len();
            let mut tmp: Vec<u8> = vec![0u8; remaining];
            let n = match self.context.fs.read_dir(&mut file, &mut tmp) {
                Ok(n) => n,
                Err(e) => {
                    self.state.fds.insert(fdu, file);
                    proof {
                        assert(final(self).state.fds@.dom() =~= old(self).state.fds@.dom());
                    }
                    return Err(e);
                },
            };
            if n == 0 {
                done = true;
            } else {
                tmp.truncate(n);
                out.append(&mut tmp);
            }
        }
        let write_result = self.context.machine.write_memory(buf_address, out.as_slice());
        proof {
            if out@.len() == 0 {
                assert(mem_write(old(self).context.machine.mem(), buf_address, out@) =~= old(
                    self,
                ).context.machine.mem());
            }
        }
        let total = out.len() as u64;
        self.state.fds.insert(fdu, file);
        proof {
            assert(final(self).state.fds@.dom() =~= old(self).state.fds@.dom());
            assert(self.context.machine.mem().dom() =~= old(self).context.machine.mem().dom());
        }
        match write_result {
            Ok(_) => Ok(total),
            Err(_) => Err(Error(EFAULT)),
        }
    }

    /// `faccessat`: access is granted when the node's mode bits cover the
    /// requested ones.
    pub fn handle_faccessat(
        &mut self,
        dirfd: u64,
        path_address: u64,
        mode: u64,
        flags: u64,
    ) -> (r: Result<(), Error>)
        requires
            old(self).wf(),
        ensures
            Self::faccessat_post(*old(self), *final(self), dirfd, path_address, mode, r),
    {
        let path = match self.context.machine.read_cstring(path_address, PATH_MAX) {
            Ok(p) => p,
            Err(_) => {
                return Err(Error(EFAULT));
            },
        };
        let dirfd32 = dirfd as i64 as i32;
        let mode32 = #[verifier::truncate] (mode as u32);
        self.do_handle_faccessat(dirfd32, path.as_slice(), mode32, flags)
    }

    pub fn do_handle_faccessat(
        &mut self,
        dirfd: i32,
        path: &[u8],
        mode: u32,
        _flags: u64,
    ) -> (r: Result<(), Error>)
        requires
            old(self).wf(),
        ensures
            final(self).wf(),
            fs_machine_frame(old(self), final(self)),
            final(self).context.machine == old(self).context.machine,
            dirfd != AT_FDCWD ==> r == Err::<(), Error>(Error(ENOSYS)),
            r is Ok ==> dirfd == AT_FDCWD && (exists|meta: Metadata| #[trigger] meta.mode & mode
                == mode),
    {
        if dirfd != AT_FDCWD {
            return Err(Error(ENOSYS));
        }
        let meta = match self.context.fs.metadata(path) {
            Ok(m) => m,
            Err(e) => {
                return Err(e);
            },
        };
        let decision = access_decision(&meta, mode);
        proof {
            if decision is Ok {
                assert(meta.mode & mode == mode);
                assert(exists|m: Metadata| #[trigger] m.mode & mode == mode);
            }
        }
        decision
    }


    /// `getcwd`: the current directory is always the root.
    pub fn handle_getcwd(&mut self, buf_address: u64, buf_size: u64) -> (r: Result<u64, Error>)
        requires
            old(self).wf(),
        ensures
            Self::getcwd_post(*old(self), *final(self), buf_address, buf_size, r),
    {
        let mut cwd: Vec<u8> = Vec::new();
        cwd.push(47u8);
        cwd.push(0u8);
        if buf_size < cwd.len() as u64 {
            return Err(Error(ERANGE));
        }
        proof {
            assert(cwd@ =~= seq![47u8, 0u8]);
        }
        let wr = self.context.machine.write_memory(buf_address, cwd.as_slice());
        proof {
            assert(self.context.machine.mem().dom() =~= old(self).context.machine.mem().dom());
        }
        match wr {
            Ok(_) => Ok(2),
            Err(_) => Err(Error(EFAULT)),
        }
    }

    /// `tkill` aimed at another process is unsupported; a null signal to
    /// the own process succeeds.  (A real signal to the own process is
    /// turned into an exit by the dispatcher before this is reached.)
    pub fn handle_tkill(&mut self, pid: u64, _sig: u64) -> (r: Result<(), Error>)
        ensures
            Self::tkill_post(*old(self), *final(self), pid, r),
    {
        if pid != 0 {
            return Err(Error(ENOSYS));
        }
        Ok(())
    }

    /// `ppoll` is a stub: no descriptor ever reports an event.
    pub fn handle_ppoll(&mut self, _fds: u64, _nfds: u64, _timeout: u64, _sigmask: u64) -> (r: Result<
        u64,
        Error,
    >)
        ensures
            *final(self) == *old(self),
            r == Ok::<u64, Error>(0),
    {
        Ok(0)
    }

    /// `rt_sigaction` is accepted and ignored; signals are stubbed.
    pub fn handle_rt_sigaction(
        &mut self,
        _signum: u64,
        _action: u64,
        _old_action: u64,
        _sigset_size: u64,
    ) -> (r: Result<(), Error>)
        ensures
            *final(self) == *old(self),
            r == Ok::<(), Error>(()),
    {
        Ok(())
    }

    /// `rt_sigprocmask` is accepted and ignored; signals are stubbed.
    pub fn handle_rt_sigprocmask(
        &mut self,
        _signum: u64,
        _action: u64,
        _old_action: u64,
        _sigset_size: u64,
    ) -> (r: Result<(), Error>)
        ensures
            *final(self) == *old(self),
            r == Ok::<(), Error>(()),
    {
        Ok(())
    }

    /// Dispatch one trapped syscall: the number is taken from `A0`, the
    /// arguments from `A1..A5`, and the encoded result is written back to
    /// `A0`.  A guest `exit`, `exit_group`, or self-directed `tkill`
    /// terminates the guest instead.  Unknown numbers report `ENOSYS`.
    #[verifier::rlimit(100)]
    pub fn handle_syscall(&mut self) -> (r: Result<SyscallOutcome, MachineError>)
        requires
            old(self).wf(),
        ensures
            final(self).wf(),
            r is Ok,
            final(self).uid == old(self).uid,
            final(self).gid == old(self).gid,
            old(self).issued@.subset_of(final(self).issued@),
            old(self).context.env.stdout().is_prefix_of(final(self).context.env.stdout()),
            old(self).context.env.stderr().is_prefix_of(final(self).context.env.stderr()),
            ({
                let sys = old(self).context.machine.regs()[Reg::A0];
                let a1 = old(self).context.machine.regs()[Reg::A1];
                let a2 = old(self).context.machine.regs()[Reg::A2];
                let a3 = old(self).context.machine.regs()[Reg::A3];
                &&& (sys == SYS_EXIT || sys == SYS_EXIT_GROUP) ==> r == Ok::<
                    SyscallOutcome,
                    MachineError,
                >(SyscallOutcome::Exit(a1 as u8)) && *final(self) == *old(self)
                &&& (sys == SYS_TKILL && a1 == 0 && a2 != 0) ==> r == Ok::<
                    SyscallOutcome,
                    MachineError,
                >(SyscallOutcome::Exit(a2 as u8)) && *final(self) == *old(self)
                &&& !(sys == SYS_EXIT || sys == SYS_EXIT_GROUP || (sys == SYS_TKILL && a1 == 0 && a2
                    != 0)) ==> r == Ok::<SyscallOutcome, MachineError>(SyscallOutcome::Continue)
                &&& !spec_known_syscall(sys) ==> final(self).context.machine.mem() == old(self).context.machine.mem() && final(self).context.machine.regs() == old(self).context.machine.regs().insert(Reg::A0, errno_spec(ENOSYS)) && final(self).context.env == old(self).context.env && final(self).state.fds@ == old(self).state.fds@
                &&& sys == SYS_OPENAT ==> (exists|fd: u32|
                    #![auto]
                    fd > MAX_RESERVED_FD && !old(self).issued@.contains(fd) && final(self).issued@
                        == old(self).issued@.insert(fd) && final(self).context.machine.regs()
                        == old(self).context.machine.regs().insert(Reg::A0, fd as u64)) || (final(self).issued@ == old(self).issued@ && exists|e: u64|
                    #![auto]
                    final(self).context.machine.regs() == old(self).context.machine.regs().insert(
                        Reg::A0,
                        errno_spec(e),
                    ))
                &&& sys == SYS_READ ==> exists|mid: Self, res: Result<u64, Error>|
                    #![auto]
                    Self::read_post(*old(self), mid, a1 as i32, a2, a3, res) && Self::a0_result(
                        mid,
                        *final(self),
                        res.ret_spec(),
                    )
                &&& sys == SYS_READV ==> exists|mid: Self, res: Result<u64, Error>|
                    #![auto]
                    Self::readv_post(*old(self), mid, a1 as i32, a2, a3, res) && Self::a0_result(
                        mid,
                        *final(self),
                        res.ret_spec(),
                    )
                &&& sys == SYS_WRITE ==> exists|mid: Self, res: Result<u64, Error>|
                    #![auto]
                    Self::write_post(*old(self), mid, a1 as i32, a2, a3, res) && Self::a0_result(
                        mid,
                        *final(self),
                        res.ret_spec(),
                    )
                &&& sys == SYS_WRITEV ==> exists|mid: Self, res: Result<u64, Error>|
                    #![auto]
                    Self::writev_post(*old(self), mid, a1 as i32, a2, a3, res) && Self::a0_result(
                        mid,
                        *final(self),
                        res.ret_spec(),
                    )
                &&& sys == SYS_LSEEK ==> exists|mid: Self, res: Result<u64, Error>|
                    #![auto]
                    Self::lseek_post(*old(self), mid, a1 as i32, a2 as i64, a3, res) && Self::a0_result(
                        mid,
                        *final(self),
                        res.ret_spec(),
                    )
                &&& sys == SYS_CLOSE ==> exists|mid: Self, res: Result<(), Error>|
                    #![auto]
                    Self::close_post(*old(self), mid, a1 as i32, res) && Self::a0_result(
                        mid,
                        *final(self),
                        res.ret_spec(),
                    )
                &&& sys == SYS_SET_TID_ADDRESS ==> exists|mid: Self, res: Result<u64, Error>|
                    #![auto]
                    Self::set_tid_address_post(*old(self), mid, a1, res) && Self::a0_result(
                        mid,
                        *final(self),
                        res.ret_spec(),
                    )
                &&& sys == SYS_IOCTL ==> exists|mid: Self, res: Result<(), Error>|
                    #![auto]
                    Self::ioctl_post(*old(self), mid, a2, a3, res) && Self::a0_result(
                        mid,
                        *final(self),
                        res.ret_spec(),
                    )
                &&& sys == SYS_SETUID ==> exists|mid: Self, res: Result<(), Error>|
                    #![auto]
                    Self::setuid_post(*old(self), mid, a1, res) && Self::a0_result(
                        mid,
                        *final(self),
                        res.ret_spec(),
                    )
                &&& sys == SYS_SETGID ==> exists|mid: Self, res: Result<(), Error>|
                    #![auto]
                    Self::setgid_post(*old(self), mid, a1, res) && Self::a0_result(
                        mid,
                        *final(self),
                        res.ret_spec(),
                    )
                &&& sys == SYS_UNAME ==> exists|mid: Self, res: Result<(), Error>|
                    #![auto]
                    Self::uname_post(*old(self), mid, a1, res) && Self::a0_result(
                        mid,
                        *final(self),
                        res.ret_spec(),
                    )
                &&& sys == SYS_NEWFSTATAT ==> exists|mid: Self, res: Result<(), Error>|
                    #![auto]
                    Self::newfstatat_post(*old(self), mid, a1, a2, a3, res) && Self::a0_result(
                        mid,
                        *final(self),
                        res.ret_spec(),
                    )
                &&& sys == SYS_CLOCK_GETTIME ==> exists|mid: Self, res: Result<(), Error>|
                    #![auto]
                    Self::clock_gettime_post(*old(self), mid, a2, res) && Self::a0_result(
                        mid,
                        *final(self),
                        res.ret_spec(),
                    )
                &&& sys == SYS_FCNTL ==> exists|mid: Self, res: Result<(), Error>|
                    #![auto]
                    Self::fcntl_post(*old(self), mid, a1 as i32, a2, a3, res) && Self::a0_result(
                        mid,
                        *final(self),
                        res.ret_spec(),
                    )
                &&& sys == SYS_GETDENTS64 ==> exists|mid: Self, res: Result<u64, Error>|
                    #![auto]
                    Self::getdents64_post(*old(self), mid, a1 as i32, a2, a3, res) && Self::a0_result(
                        mid,
                        *final(self),
                        res.ret_spec(),
                    )
                &&& sys == SYS_FACCESSAT ==> exists|mid: Self, res: Result<(), Error>|
                    #![auto]
                    Self::faccessat_post(*old(self), mid, a1, a2, a3, res) && Self::a0_result(
                        mid,
                        *final(self),
                        res.ret_spec(),
                    )
                &&& sys == SYS_GETGROUPS ==> exists|mid: Self, res: Result<u64, Error>|
                    #![auto]
                    Self::getgroups_post(*old(self), mid, a1, a2, res) && Self::a0_result(
                        mid,
                        *final(self),
                        res.ret_spec(),
                    )
                &&& sys == SYS_GETCWD ==> exists|mid: Self, res: Result<u64, Error>|
                    #![auto]
                    Self::getcwd_post(*old(self), mid, a1, a2, res) && Self::a0_result(
                        mid,
                        *final(self),
                        res.ret_spec(),
                    )
                &&& sys == SYS_TKILL && !(a1 == 0 && a2 != 0) ==> exists|mid: Self, res: Result<(), Error>|
                    #![auto]
                    Self::tkill_post(*old(self), mid, a1, res) && Self::a0_result(
                        mid,
                        *final(self),
                        res.ret_spec(),
                    )
                &&& (sys == SYS_GETUID || sys == SYS_GETEUID) ==> final(self).context.machine.regs() == old(self).context.machine.regs().insert(
                    Reg::A0,
                    old(self).uid as u64,
                ) && final(self).context.machine.mem() == old(self).context.machine.mem()
                &&& (sys == SYS_GETGID || sys == SYS_GETEGID) ==> final(self).context.machine.regs() == old(self).context.machine.regs().insert(
                    Reg::A0,
                    old(self).gid as u64,
                ) && final(self).context.machine.mem() == old(self).context.machine.mem()
                &&& (sys == SYS_SYNC || sys == SYS_PPOLL || sys == SYS_RT_SIGACTION || sys
                    == SYS_RT_SIGPROCMASK) ==> final(self).context.machine.regs() == old(self).context.machine.regs().insert(Reg::A0, 0) && final(self).context.machine.mem()
                    == old(self).context.machine.mem() && final(self).context.env == old(self).context.env && final(self).state.fds@ == old(self).state.fds@
            }),
    {
        broadcast use lemma_prefix_refl;

        let syscall = self.context.machine.reg(Reg::A0);
        let a1 = self.context.machine.reg(Reg::A1);
        let a2 = self.context.machine.reg(Reg::A2);
        let a3 = self.context.machine.reg(Reg::A3);
        let a4 = self.context.machine.reg(Reg::A4);
        let _a5 = self.context.machine.reg(Reg::A5);
        match syscall {
            SYS_READ => {
                let fd = #[verifier::truncate] (a1 as i32);
                let result = self.handle_read(fd, a2, a3);
                let ghost mid = *self;
                self.context.machine.set_reg(Reg::A0, result.into_ret());
                proof {
                    assert(Self::read_post(*old(self), mid, a1 as i32, a2, a3, result));
                    assert(Self::a0_result(mid, *self, result.ret_spec()));
                }
            },
            SYS_READV => {
                let fd = #[verifier::truncate] (a1 as i32);
                let result = self.handle_readv(fd, a2, a3);
                let ghost mid = *self;
                self.context.machine.set_reg(Reg::A0, result.into_ret());
                proof {
                    assert(Self::readv_post(*old(self), mid, a1 as i32, a2, a3, result));
                    assert(Self::a0_result(mid, *self, result.ret_spec()));
                }
            },
            SYS_WRITE => {
                let fd = #[verifier::truncate] (a1 as i32);
                let result = self.handle_write(fd, a2, a3);
                let ghost mid = *self;
                self.context.machine.set_reg(Reg::A0, result.into_ret());
                proof {
                    assert(Self::write_post(*old(self), mid, a1 as i32, a2, a3, result));
                    assert(Self::a0_result(mid, *self, result.ret_spec()));
                }
            },
            SYS_WRITEV => {
                let fd = #[verifier::truncate] (a1 as i32);
                let result = self.handle_writev(fd, a2, a3);
                let ghost mid = *self;
                self.context.machine.set_reg(Reg::A0, result.into_ret());
                proof {
                    assert(Self::writev_post(*old(self), mid, a1 as i32, a2, a3, result));
                    assert(Self::a0_result(mid, *self, result.ret_spec()));
                }
            },
            SYS_EXIT => {
                return Ok(SyscallOutcome::Exit(#[verifier::truncate] (a1 as u8)));
            },
            SYS_EXIT_GROUP => {
                return Ok(SyscallOutcome::Exit(#[verifier::truncate] (a1 as u8)));
            },
            SYS_TKILL => {
                if a1 == 0 && a2 != 0 {
                    // The guest aborts itself with a signal.
                    return Ok(SyscallOutcome::Exit(#[verifier::truncate] (a2 as u8)));
                }
                let result = self.handle_tkill(a1, a2);
                let ghost mid = *self;
                self.context.machine.set_reg(Reg::A0, result.into_ret());
                proof {
                    assert(Self::tkill_post(*old(self), mid, a1, result));
                    assert(Self::a0_result(mid, *self, result.ret_spec()));
                }
            },
            SYS_OPENAT => {
                let result = self.handle_openat(a1, a2, a3);
                self.context.machine.set_reg(Reg::A0, result.into_ret());
                proof {
                    match result {
                        Ok(fd) => {
                            assert(fd > MAX_RESERVED_FD && !old(self).issued@.contains(fd)
                                && self.issued@ == old(self).issued@.insert(fd)
                                && self.context.machine.regs()
                                == old(self).context.machine.regs().insert(Reg::A0, fd as u64));
                        },
                        Err(e) => {
                            assert(self.context.machine.regs()
                                == old(self).context.machine.regs().insert(
                                Reg::A0,
                                errno_spec(e.0),
                            ));
                        },
                    }
                }
            },
            SYS_LSEEK => {
                let fd = #[verifier::truncate] (a1 as i32);
                let offset = #[verifier::truncate] (a2 as i64);
                let result = self.handle_lseek(fd, offset, a3);
                let ghost mid = *self;
                self.context.machine.set_reg(Reg::A0, result.into_ret());
                proof {
                    assert(Self::lseek_post(*old(self), mid, a1 as i32, a2 as i64, a3, result));
                    assert(Self::a0_result(mid, *self, result.ret_spec()));
                }
            },
            SYS_CLOSE => {
                let fd = #[verifier::truncate] (a1 as i32);
                let result = self.handle_close(fd);
                let ghost mid = *self;
                self.context.machine.set_reg(Reg::A0, result.into_ret());
                proof {
                    assert(Self::close_post(*old(self), mid, a1 as i32, result));
                    assert(Self::a0_result(mid, *self, result.ret_spec()));
                }
            },
            SYS_SET_TID_ADDRESS => {
                let result = self.handle_set_tid_address(a1);
                let ghost mid = *self;
                self.context.machine.set_reg(Reg::A0, result.into_ret());
                proof {
                    assert(Self::set_tid_address_post(*old(self), mid, a1, result));
                    assert(Self::a0_result(mid, *self, result.ret_spec()));
                }
            },
            SYS_IOCTL => {
                let result = self.handle_ioctl(a1, a2, a3);
                let ghost mid = *self;
                self.context.machine.set_reg(Reg::A0, result.into_ret());
                proof {
                    assert(Self::ioctl_post(*old(self), mid, a2, a3, result));
                    assert(Self::a0_result(mid, *self, result.ret_spec()));
                }
            },
            SYS_GETUID => {
                let result = self.handle_getuid();
                self.context.machine.set_reg(Reg::A0, result.into_ret());
            },
            SYS_GETEUID => {
                let result = self.handle_geteuid();
                self.context.machine.set_reg(Reg::A0, result.into_ret());
            },
            SYS_GETGID => {
                let result = self.handle_getgid();
                self.context.machine.set_reg(Reg::A0, result.into_ret());
            },
            SYS_GETEGID => {
                let result = self.handle_getegid();
                self.context.machine.set_reg(Reg::A0, result.into_ret());
            },
            SYS_SETUID => {
                let result = self.handle_setuid(a1);
                let ghost mid = *self;
                self.context.machine.set_reg(Reg::A0, result.into_ret());
                proof {
                    assert(Self::setuid_post(*old(self), mid, a1, result));
                    assert(Self::a0_result(mid, *self, result.ret_spec()));
                }
            },
            SYS_SETGID => {
                let result = self.handle_setgid(a1);
                let ghost mid = *self;
                self.context.machine.set_reg(Reg::A0, result.into_ret());
                proof {
                    assert(Self::setgid_post(*old(self), mid, a1, result));
                    assert(Self::a0_result(mid, *self, result.ret_spec()));
                }
            },
            SYS_UNAME => {
                let result = self.handle_uname(a1);
                let ghost mid = *self;
                self.context.machine.set_reg(Reg::A0, result.into_ret());
                proof {
                    assert(Self::uname_post(*old(self), mid, a1, result));
                    assert(Self::a0_result(mid, *self, result.ret_spec()));
                }
            },
            SYS_NEWFSTATAT => {
                let result = self.handle_newfstatat(a1, a2, a3, a4);
                let ghost mid = *self;
                self.context.machine.set_reg(Reg::A0, result.into_ret());
                proof {
                    assert(Self::newfstatat_post(*old(self), mid, a1, a2, a3, result));
                    assert(Self::a0_result(mid, *self, result.ret_spec()));
                }
            },
            SYS_CLOCK_GETTIME => {
                let result = self.handle_clock_gettime(a1, a2);
                let ghost mid = *self;
                self.context.machine.set_reg(Reg::A0, result.into_ret());
                proof {
                    assert(Self::clock_gettime_post(*old(self), mid, a2, result));
                    assert(Self::a0_result(mid, *self, result.ret_spec()));
                }
            },
            SYS_FCNTL => {
                let fd = #[verifier::truncate] (a1 as i32);
                let result = self.handle_fcntl(fd, a2, a3);
                let ghost mid = *self;
                self.context.machine.set_reg(Reg::A0, result.into_ret());
                proof {
                    assert(Self::fcntl_post(*old(self), mid, a1 as i32, a2, a3, result));
                    assert(Self::a0_result(mid, *self, result.ret_spec()));
                }
            },
            SYS_GETDENTS64 => {
                let fd = #[verifier::truncate] (a1 as i32);
                let result = self.handle_getdents64(fd, a2, a3);
                let ghost mid = *self;
                self.context.machine.set_reg(Reg::A0, result.into_ret());
                proof {
                    assert(Self::getdents64_post(*old(self), mid, a1 as i32, a2, a3, result));
                    assert(Self::a0_result(mid, *self, result.ret_spec()));
                }
            },
            SYS_FACCESSAT => {
                let result = self.handle_faccessat(a1, a2, a3, a4);
                let ghost mid = *self;
                self.context.machine.set_reg(Reg::A0, result.into_ret());
                proof {
                    assert(Self::faccessat_post(*old(self), mid, a1, a2, a3, result));
                    assert(Self::a0_result(mid, *self, result.ret_spec()));
                }
            },
            SYS_GETGROUPS => {
                let result = self.handle_getgroups(a1, a2);
                let ghost mid = *self;
                self.context.machine.set_reg(Reg::A0, result.into_ret());
                proof {
                    assert(Self::getgroups_post(*old(self), mid, a1, a2, result));
                    assert(Self::a0_result(mid, *self, result.ret_spec()));
                }
            },
            SYS_SYNC => {
                let result: Result<(), Error> = Ok(());
                self.context.machine.set_reg(Reg::A0, result.into_ret());
            },
            SYS_GETCWD => {
                let result = self.handle_getcwd(a1, a2);
                let ghost mid = *self;
                self.context.machine.set_reg(Reg::A0, result.into_ret());
                proof {
                    assert(Self::getcwd_post(*old(self), mid, a1, a2, result));
                    assert(Self::a0_result(mid, *self, result.ret_spec()));
                }
            },
            SYS_PPOLL => {
                let result = self.handle_ppoll(a1, a2, a3, a4);
                self.context.machine.set_reg(Reg::A0, result.into_ret());
            },
            SYS_RT_SIGACTION => {
                let result = self.handle_rt_sigaction(a1, a2, a3, a4);
                self.context.machine.set_reg(Reg::A0, result.into_ret());
            },
            SYS_RT_SIGPROCMASK => {
                let result = self.handle_rt_sigprocmask(a1, a2, a3, a4);
                self.context.machine.set_reg(Reg::A0, result.into_ret());
            },
            _ => {
                self.context.machine.set_reg(Reg::A0, errno(ENOSYS));
            },
        }
        Ok(SyscallOutcome::Continue)
    }
}


/// Only the machine's memory contents may differ between the two states.
pub open spec fn machine_frame<M: Machine, E: Environment, F: FileSystem>(
    a: &Kernel<M, E, F>,
    b: &Kernel<M, E, F>,
) -> bool {
    &&& b.context.env == a.context.env
    &&& b.context.fs == a.context.fs
    &&& b.state == a.state
    &&& b.uid == a.uid
    &&& b.gid == a.gid
    &&& b.max_fd == a.max_fd
    &&& b.issued@ == a.issued@
    &&& b.context.machine.regs() == a.context.machine.regs()
    &&& b.context.machine.mem().dom() == a.context.machine.mem().dom()
}

/// Only the machine's memory contents and the file-system backend may
/// differ between the two states.
pub open spec fn fs_machine_frame<M: Machine, E: Environment, F: FileSystem>(
    a: &Kernel<M, E, F>,
    b: &Kernel<M, E, F>,
) -> bool {
    &&& b.context.env == a.context.env
    &&& b.state == a.state
    &&& b.uid == a.uid
    &&& b.gid == a.gid
    &&& b.max_fd == a.max_fd
    &&& b.issued@ == a.issued@
    &&& b.context.machine.regs() == a.context.machine.regs()
    &&& b.context.machine.mem().dom() == a.context.machine.mem().dom()
}

/// The `stat` record reported for a node: inode, mode and size from the
/// metadata, one link, a 512-byte block count rounded up, all times zero.
pub open spec fn spec_stat_of(meta: Metadata) -> Stat {
    Stat {
        st_dev: 0,
        st_ino: meta.id,
        st_mode: meta.mode,
        st_nlink: 1,
        st_uid: 0,
        st_gid: 0,
        st_rdev: 0,
        __pad: 0,
        st_size: meta.size as i64,
        st_blksize: meta.block_size as i32,
        __pad2: 0,
        st_blocks: (meta.size / 512 + if meta.size % 512 == 0 {
            0int
        } else {
            1int
        }) as i64,
        st_atim: Timespec { tv_sec: 0, tv_nsec: 0 },
        st_mtim: Timespec { tv_sec: 0, tv_nsec: 0 },
        st_ctim: Timespec { tv_sec: 0, tv_nsec: 0 },
        __unused: 0,
    }
}

/// The system name reported by `uname`.
pub open spec fn spec_sysname() -> Seq<u8> {
    seq![76u8, 105u8, 110u8, 117u8, 120u8]
}

/// The node name reported by `uname`.
pub open spec fn spec_nodename() -> Seq<u8> {
    seq![110u8, 111u8, 100u8, 101u8]
}

/// The kernel release reported by `uname`.
pub open spec fn spec_release() -> Seq<u8> {
    seq![54u8, 46u8, 49u8, 53u8, 46u8, 48u8]
}

/// The version reported by `uname`: this package's name and version.
pub open spec fn spec_version() -> Seq<u8> {
    seq![
        112u8, 111u8, 108u8, 107u8, 97u8, 107u8, 101u8, 114u8, 110u8, 101u8, 108u8, 45u8, 48u8,
        46u8, 49u8, 46u8, 48u8,
    ]
}

/// The machine name reported by `uname`.
pub open spec fn spec_machine_name() -> Seq<u8> {
    seq![114u8, 105u8, 115u8, 99u8, 118u8, 54u8, 52u8, 101u8, 109u8, 97u8, 99u8]
}

/// The 390-byte `utsname` image that `uname` writes into guest memory.
pub open spec fn spec_uname_image() -> Seq<u8> {
    spec_utsname_field(spec_sysname()) + spec_utsname_field(spec_nodename()) + spec_utsname_field(
        spec_release(),
    ) + spec_utsname_field(spec_version()) + spec_utsname_field(spec_machine_name())
        + spec_utsname_field(Seq::<u8>::empty())
}

/// Build the identification record that `uname` reports.
fn uname_record() -> (u: Utsname)
    ensures
        u.wf(),
        spec_utsname_bytes(u) == spec_uname_image(),
{
    let mut sysname: Vec<u8> = Vec::new();
    sysname.push(76);
    sysname.push(105);
    sysname.push(110);
    sysname.push(117);
    sysname.push(120);
    proof {
        assert(sysname@ =~= spec_sysname());
    }
    let mut nodename: Vec<u8> = Vec::new();
    nodename.push(110);
    nodename.push(111);
    nodename.push(100);
    nodename.push(101);
    proof {
        assert(nodename@ =~= spec_nodename());
    }
    let mut release: Vec<u8> = Vec::new();
    release.push(54);
    release.push(46);
    release.push(49);
    release.push(53);
    release.push(46);
    release.push(48);
    proof {
        assert(release@ =~= spec_release());
    }
    let mut version: Vec<u8> = Vec::new();
    version.push(112);
    version.push(111);
    version.push(108);
    version.push(107);
    version.push(97);
    version.push(107);
    version.push(101);
    version.push(114);
    version.push(110);
    version.push(101);
    version.push(108);
    version.push(45);
    version.push(48);
    version.push(46);
    version.push(49);
    version.push(46);
    version.push(48);
    proof {
        assert(version@ =~= spec_version());
    }
    let mut machine: Vec<u8> = Vec::new();
    machine.push(114);
    machine.push(105);
    machine.push(115);
    machine.push(99);
    machine.push(118);
    machine.push(54);
    machine.push(52);
    machine.push(101);
    machine.push(109);
    machine.push(97);
    machine.push(99);
    proof {
        assert(machine@ =~= spec_machine_name());
    }
    let domain: Vec<u8> = Vec::new();
    let u = Utsname {
        sysname: utsname_field(sysname.as_slice()),
        nodename: utsname_field(nodename.as_slice()),
        release: utsname_field(release.as_slice()),
        version: utsname_field(version.as_slice()),
        machine: utsname_field(machine.as_slice()),
        domainname: utsname_field(domain.as_slice()),
    };
    u
}

/// A sequence is a prefix of itself.
pub broadcast proof fn lemma_prefix_refl(s: Seq<u8>)
    ensures
        #[trigger] s.is_prefix_of(s),
{
    assert(s =~= s.subrange(0, s.len() as int));
}

/// Being a prefix is transitive.
pub proof fn lemma_prefix_trans(a: Seq<u8>, b: Seq<u8>, c: Seq<u8>)
    requires
        a.is_prefix_of(b),
        b.is_prefix_of(c),
    ensures
        a.is_prefix_of(c),
{
    assert(a =~= c.subrange(0, a.len() as int));
}

/// The syscall numbers the dispatcher recognises.
pub open spec fn spec_known_syscall(sys: u64) -> bool {
    ||| sys == SYS_READ
    ||| sys == SYS_READV
    ||| sys == SYS_WRITE
    ||| sys == SYS_WRITEV
    ||| sys == SYS_EXIT
    ||| sys == SYS_EXIT_GROUP
    ||| sys == SYS_TKILL
    ||| sys == SYS_OPENAT
    ||| sys == SYS_LSEEK
    ||| sys == SYS_CLOSE
    ||| sys == SYS_SET_TID_ADDRESS
    ||| sys == SYS_IOCTL
    ||| sys == SYS_GETUID
    ||| sys == SYS_GETEUID
    ||| sys == SYS_GETGID
    ||| sys == SYS_GETEGID
    ||| sys == SYS_SETUID
    ||| sys == SYS_SETGID
    ||| sys == SYS_UNAME
    ||| sys == SYS_NEWFSTATAT
    ||| sys == SYS_CLOCK_GETTIME
    ||| sys == SYS_FCNTL
    ||| sys == SYS_GETDENTS64
    ||| sys == SYS_FACCESSAT
    ||| sys == SYS_GETGROUPS
    ||| sys == SYS_SYNC
    ||| sys == SYS_GETCWD
    ||| sys == SYS_PPOLL
    ||| sys == SYS_RT_SIGACTION
    ||| sys == SYS_RT_SIGPROCMASK
}


/// The access decision of `faccessat`: granted exactly when the node's
/// mode bits cover every requested one, refused with `EACCES` otherwise.
pub fn access_decision(meta: &Metadata, mode: u32) -> (r: Result<(), Error>)
    ensures
        r is Ok <==> meta.mode & mode == mode,
        r is Err ==> r == Err::<(), Error>(Error(EACCES)),
{
    if meta.mode & mode == mode {
        Ok(())
    } else {
        Err(Error(EACCES))
    }
}

/// The address of the `n`-th 16-byte `iovec` entry, with 64-bit wrap-around.
fn entry_address(iov: u64, n: u64) -> (r: u64)
    requires
        n <= IOV_MAX,
    ensures
        r == (iov + n * 16) % 0x1_0000_0000_0000_0000,
{
    let off = n * 16;
    if iov > u64::MAX - off {
        iov - (u64::MAX - off) - 1
    } else {
        iov + off
    }
}

/// The address of the length word of an `iovec` entry, with wrap-around.
fn entry_offset(entry: u64) -> (r: u64)
    ensures
        r == (entry + 8) % 0x1_0000_0000_0000_0000,
{
    if entry > u64::MAX - 8 {
        entry - (u64::MAX - 8) - 1
    } else {
        entry + 8
    }
}

} // verus!
