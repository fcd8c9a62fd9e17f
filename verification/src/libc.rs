//! Constants and on-wire record layouts of the guest libc ABI.
//!
//! The numeric catalogue (syscall numbers, errno values, flag bits) follows
//! the `riscv64` Linux tables as used by a statically linked musl program.
//! The record types carry explicit little-endian encoders, so that the byte
//! images written into guest memory are fully specified.

use vstd::prelude::*;
use vstd::bytes::{
    spec_u16_to_le_bytes, spec_u32_to_le_bytes, spec_u64_to_le_bytes, u16_to_le_bytes,
    u32_to_le_bytes, u64_to_le_bytes, lemma_auto_spec_u16_to_from_le_bytes,
    lemma_auto_spec_u32_to_from_le_bytes, lemma_auto_spec_u64_to_from_le_bytes,
};

verus! {

pub const AT_FDCWD: i32 = -100i32;

pub const AT_PAGESZ: u64 = 6;

pub const EACCES: u64 = 13;

pub const EBADF: u64 = 9;

pub const EFAULT: u64 = 14;

pub const ENOTDIR: u64 = 20;

pub const EINVAL: u64 = 22;

pub const EIO: u64 = 5;

pub const ENOENT: u64 = 2;

pub const ENOSYS: u64 = 38;

pub const EISDIR: u64 = 21;

pub const ERANGE: u64 = 34;

pub const FILENO_STDERR: u32 = 2;

pub const FILENO_STDOUT: u32 = 1;

pub const IOV_MAX: u64 = 1024;

pub const O_RDWR: u64 = 2;

pub const O_WRONLY: u64 = 1;

pub const O_CLOEXEC: u64 = 0o2000000;

pub const O_DIRECTORY: u64 = 0o40000;

pub const PATH_MAX: u64 = 4096;

pub const SEEK_CUR: u64 = 1;

pub const SEEK_END: u64 = 2;

pub const SEEK_SET: u64 = 0;

pub const F_SETFD: u64 = 2;

pub const FD_CLOEXEC: u64 = 1;

pub const SIGHUP: u8 = 1;

pub const SIGINT: u8 = 2;

pub const SIGQUIT: u8 = 3;

pub const SIGILL: u8 = 4;

pub const SIGTRAP: u8 = 5;

pub const SIGABRT: u8 = 6;

pub const SIGBUS: u8 = 7;

pub const SIGFPE: u8 = 8;

pub const SIGKILL: u8 = 9;

pub const SIGUSR1: u8 = 10;

pub const SIGSEGV: u8 = 11;

pub const SIGUSR2: u8 = 12;

pub const SIGPIPE: u8 = 13;

pub const SIGALRM: u8 = 14;

pub const SIGTERM: u8 = 15;

pub const SIGSTKFLT: u8 = 16;

pub const SIGCHLD: u8 = 17;

pub const SIGCONT: u8 = 18;

pub const SIGSTOP: u8 = 19;

pub const SIGTSTP: u8 = 20;

pub const SIGTTIN: u8 = 21;

pub const SIGTTOU: u8 = 22;

pub const SIGURG: u8 = 23;

pub const SIGXCPU: u8 = 24;

pub const SIGXFSZ: u8 = 25;

pub const SIGVTALRM: u8 = 26;

pub const SIGPROF: u8 = 27;

pub const SIGWINCH: u8 = 28;

pub const SIGIO: u8 = 29;

pub const SIGPWR: u8 = 30;

pub const SIGSYS: u8 = 31;

pub const SIG_BLOCK: u8 = 1;

pub const SIG_UNBLOCK: u8 = 2;

pub const SIG_SETMASK: u8 = 3;

pub const SYS_FCNTL: u64 = 25;

pub const SYS_CLOSE: u64 = 57;

pub const SYS_EXIT: u64 = 93;

pub const SYS_EXIT_GROUP: u64 = 94;

pub const SYS_LSEEK: u64 = 62;

pub const SYS_OPENAT: u64 = 56;

pub const SYS_READ: u64 = 63;

pub const SYS_READV: u64 = 65;

pub const SYS_WRITE: u64 = 64;

pub const SYS_WRITEV: u64 = 66;

pub const SYS_SET_TID_ADDRESS: u64 = 96;

pub const SYS_IOCTL: u64 = 29;

pub const SYS_GETUID: u64 = 174;

pub const SYS_GETEUID: u64 = 175;

pub const SYS_GETGID: u64 = 176;

pub const SYS_GETEGID: u64 = 177;

pub const SYS_SETUID: u64 = 146;

pub const SYS_SETGID: u64 = 144;

pub const SYS_UNAME: u64 = 160;

pub const SYS_NEWFSTATAT: u64 = 79;

pub const SYS_CLOCK_GETTIME: u64 = 113;

pub const SYS_GETDENTS64: u64 = 61;

pub const SYS_FACCESSAT: u64 = 48;

pub const SYS_GETGROUPS: u64 = 158;

pub const SYS_SYNC: u64 = 81;

pub const SYS_DUP3: u64 = 24;

pub const SYS_GETCWD: u64 = 17;

pub const SYS_TKILL: u64 = 130;

pub const SYS_PPOLL: u64 = 73;

pub const SYS_RT_SIGACTION: u64 = 134;

pub const SYS_RT_SIGPROCMASK: u64 = 135;

pub const SYS_FUTEX: u64 = 98;

pub const TIOCGWINSZ: u64 = 0x5413;

pub type DevT = u64;

pub type InoT = u64;

pub type ModeT = u32;

pub type NlinkT = u32;

pub type UidT = u32;

pub type GidT = u32;

pub type OffT = i64;

pub type BlksizeT = i32;

pub type BlkcntT = i64;

pub type ClockidT = i32;

/// Two's-complement negation of an errno value: the value the guest reads
/// back in `A0` after a failed syscall.
pub open spec fn errno_spec(error: u64) -> u64 {
    if error == 0 {
        0u64
    } else {
        (0x1_0000_0000_0000_0000 - error) as u64
    }
}

/// The value of a 64-bit register when interpreted as a signed integer.
pub open spec fn as_signed(x: u64) -> int {
    if x < 0x8000_0000_0000_0000 {
        x as int
    } else {
        x - 0x1_0000_0000_0000_0000
    }
}

/// Convert an errno value into the raw syscall return code.
pub fn errno(error: u64) -> (r: u64)
    ensures
        r == errno_spec(error),
{
    if error == 0 {
        0
    } else {
        u64::MAX - error + 1
    }
}

/// Decoding the signed interpretation of an encoded errno yields its
/// negation, for every errno that fits a signed register.
pub proof fn lemma_errno_round_trip(error: u64)
    requires
        error <= 0x8000_0000_0000_0000,
    ensures
        as_signed(errno_spec(error)) == -(error as int),
{
}

#[derive(Debug, Clone, Copy)]
pub struct Timespec {
    pub tv_sec: i64,
    pub tv_nsec: i64,
}

/// Little-endian image of a `timespec`: two signed 64-bit words.
pub open spec fn spec_timespec_bytes(ts: Timespec) -> Seq<u8> {
    spec_u64_to_le_bytes(ts.tv_sec as u64) + spec_u64_to_le_bytes(ts.tv_nsec as u64)
}

pub fn timespec_bytes(ts: &Timespec) -> (r: Vec<u8>)
    ensures
        r@ == spec_timespec_bytes(*ts),
        r@.len() == 16,
{
    proof {
        lemma_auto_spec_u64_to_from_le_bytes();
    }
    let mut r = u64_to_le_bytes(ts.tv_sec as u64);
    let mut nsec = u64_to_le_bytes(ts.tv_nsec as u64);
    r.append(&mut nsec);
    r
}

#[derive(Debug, Clone, Copy)]
pub struct Stat {
    pub st_dev: DevT,
    pub st_ino: InoT,
    pub st_mode: ModeT,
    pub st_nlink: NlinkT,
    pub st_uid: UidT,
    pub st_gid: GidT,
    pub st_rdev: DevT,
    pub __pad: u64,
    pub st_size: OffT,
    pub st_blksize: BlksizeT,
    pub __pad2: i32,
    pub st_blocks: BlkcntT,
    pub st_atim: Timespec,
    pub st_mtim: Timespec,
    pub st_ctim: Timespec,
    pub __unused: u64,
}

/// Little-endian image of a `stat` record, 128 bytes, field offsets as in
/// musl's `riscv64` definition.
pub open spec fn spec_stat_bytes(s: Stat) -> Seq<u8> {
    spec_u64_to_le_bytes(s.st_dev) + spec_u64_to_le_bytes(s.st_ino) + spec_u32_to_le_bytes(
        s.st_mode,
    ) + spec_u32_to_le_bytes(s.st_nlink) + spec_u32_to_le_bytes(s.st_uid) + spec_u32_to_le_bytes(
        s.st_gid,
    ) + spec_u64_to_le_bytes(s.st_rdev) + spec_u64_to_le_bytes(s.__pad) + spec_u64_to_le_bytes(
        s.st_size as u64,
    ) + spec_u32_to_le_bytes(s.st_blksize as u32) + spec_u32_to_le_bytes(s.__pad2 as u32)
        + spec_u64_to_le_bytes(s.st_blocks as u64) + spec_timespec_bytes(s.st_atim)
        + spec_timespec_bytes(s.st_mtim) + spec_timespec_bytes(s.st_ctim) + spec_u64_to_le_bytes(
        s.__unused,
    )
}

pub fn stat_bytes(s: &Stat) -> (r: Vec<u8>)
    ensures
        r@ == spec_stat_bytes(*s),
        r@.len() == 128,
{
    proof {
        lemma_auto_spec_u32_to_from_le_bytes();
        lemma_auto_spec_u64_to_from_le_bytes();
    }
    let mut r = u64_to_le_bytes(s.st_dev);
    let mut part = u64_to_le_bytes(s.st_ino);
    r.append(&mut part);
    let mut part = u32_to_le_bytes(s.st_mode);
    r.append(&mut part);
    let mut part = u32_to_le_bytes(s.st_nlink);
    r.append(&mut part);
    let mut part = u32_to_le_bytes(s.st_uid);
    r.append(&mut part);
    let mut part = u32_to_le_bytes(s.st_gid);
    r.append(&mut part);
    let mut part = u64_to_le_bytes(s.st_rdev);
    r.append(&mut part);
    let mut part = u64_to_le_bytes(s.__pad);
    r.append(&mut part);
    let mut part = u64_to_le_bytes(s.st_size as u64);
    r.append(&mut part);
    let mut part = u32_to_le_bytes(s.st_blksize as u32);
    r.append(&mut part);
    let mut part = u32_to_le_bytes(s.__pad2 as u32);
    r.append(&mut part);
    let mut part = u64_to_le_bytes(s.st_blocks as u64);
    r.append(&mut part);
    let mut part = timespec_bytes(&s.st_atim);
    r.append(&mut part);
    let mut part = timespec_bytes(&s.st_mtim);
    r.append(&mut part);
    let mut part = timespec_bytes(&s.st_ctim);
    r.append(&mut part);
    let mut part = u64_to_le_bytes(s.__unused);
    r.append(&mut part);
    r
}

#[derive(Debug, Clone, Copy)]
pub struct WinSize {
    pub row: u16,
    pub col: u16,
    pub xpixel: u16,
    pub ypixel: u16,
}

/// Little-endian image of a `winsize`: four unsigned 16-bit words.
pub open spec fn spec_winsize_bytes(w: WinSize) -> Seq<u8> {
    spec_u16_to_le_bytes(w.row) + spec_u16_to_le_bytes(w.col) + spec_u16_to_le_bytes(w.xpixel)
        + spec_u16_to_le_bytes(w.ypixel)
}

pub fn winsize_bytes(w: &WinSize) -> (r: Vec<u8>)
    ensures
        r@ == spec_winsize_bytes(*w),
        r@.len() == 8,
{
    proof {
        lemma_auto_spec_u16_to_from_le_bytes();
    }
    let mut r = u16_to_le_bytes(w.row);
    let mut part = u16_to_le_bytes(w.col);
    r.append(&mut part);
    let mut part = u16_to_le_bytes(w.xpixel);
    r.append(&mut part);
    let mut part = u16_to_le_bytes(w.ypixel);
    r.append(&mut part);
    r
}

/// A `utsname` field body padded with NUL bytes to its fixed width of 65.
pub open spec fn spec_utsname_field(value: Seq<u8>) -> Seq<u8> {
    value + Seq::new((65 - value.len()) as nat, |i: int| 0u8)
}

/// Pad a field body to the fixed 65-byte width of a `utsname` field.
pub fn utsname_field(value: &[u8]) -> (r: Vec<u8>)
    requires
        value@.len() <= 65,
    ensures
        r@ == spec_utsname_field(value@),
        r@.len() == 65,
{
    let mut r: Vec<u8> = Vec::new();
    let mut i: usize = 0;
    while i < 65
        invariant
            i <= 65,
            value@.len() <= 65,
            r@.len() == i,
            forall|j: int|
                0 <= j < i ==> r@[j] == if j < value@.len() {
                    value@[j]
                } else {
                    0u8
                },
        decreases 65 - i,
    {
        if i < value.len() {
            r.push(value[i]);
        } else {
            r.push(0u8);
        }
        i += 1;
    }
    proof {
        assert(r@ =~= spec_utsname_field(value@));
    }
    r
}

/// The six fixed-width fields of a `utsname` record; each must be exactly
/// 65 bytes, NUL-padded.
#[derive(Debug)]
pub struct Utsname {
    pub sysname: Vec<u8>,
    pub nodename: Vec<u8>,
    pub release: Vec<u8>,
    pub version: Vec<u8>,
    pub machine: Vec<u8>,
    pub domainname: Vec<u8>,
}

impl Utsname {
    pub open spec fn wf(&self) -> bool {
        &&& self.sysname@.len() == 65
        &&& self.nodename@.len() == 65
        &&& self.release@.len() == 65
        &&& self.version@.len() == 65
        &&& self.machine@.len() == 65
        &&& self.domainname@.len() == 65
    }
}

/// Byte image of a `utsname`: the six 65-byte fields in declaration order,
/// 390 bytes in all.
pub open spec fn spec_utsname_bytes(u: Utsname) -> Seq<u8> {
    u.sysname@ + u.nodename@ + u.release@ + u.version@ + u.machine@ + u.domainname@
}

pub fn utsname_bytes(u: &Utsname) -> (r: Vec<u8>)
    requires
        u.wf(),
    ensures
        r@ == spec_utsname_bytes(*u),
        r@.len() == 390,
{
    let mut r = u.sysname.clone();
    let mut part = u.nodename.clone();
    r.append(&mut part);
    let mut part = u.release.clone();
    r.append(&mut part);
    let mut part = u.version.clone();
    r.append(&mut part);
    let mut part = u.machine.clone();
    r.append(&mut part);
    let mut part = u.domainname.clone();
    r.append(&mut part);
    r
}

} // verus!
