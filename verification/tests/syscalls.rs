use polkakernel::env::BufferEnv;
use polkakernel::in_memory::InMemoryFileSystem;
use polkakernel::fs::Metadata;
use polkakernel::kernel::{access_decision, Context, Kernel, KernelState, SyscallOutcome};
use polkakernel::libc::{
    AT_FDCWD, SYS_CLOCK_GETTIME, SYS_CLOSE, SYS_EXIT, SYS_EXIT_GROUP, SYS_FACCESSAT, SYS_FCNTL,
    SYS_GETCWD, SYS_GETDENTS64, SYS_GETEGID, SYS_GETEUID, SYS_GETGID, SYS_GETGROUPS, SYS_GETUID,
    SYS_IOCTL, SYS_LSEEK, SYS_NEWFSTATAT, SYS_OPENAT, SYS_PPOLL, SYS_READ, SYS_READV,
    SYS_RT_SIGACTION, SYS_RT_SIGPROCMASK, SYS_SETGID, SYS_SETUID, SYS_SET_TID_ADDRESS, SYS_SYNC,
    SYS_TKILL, SYS_UNAME, SYS_WRITE, SYS_WRITEV,
};
use polkakernel::machine::{FlatMachine, Machine, Reg};

fn boot(files: &[(&str, &[u8])]) -> Kernel<FlatMachine, BufferEnv, InMemoryFileSystem> {
    let mut fs = InMemoryFileSystem::new();
    for (path, data) in files {
        fs.write_file(path.as_bytes().to_vec(), data.to_vec());
    }
    let machine = FlatMachine::new(1 << 22);
    let env = BufferEnv::new();
    Kernel::new(Context { machine, env, fs }, KernelState::new())
}

fn syscall(
    kernel: &mut Kernel<FlatMachine, BufferEnv, InMemoryFileSystem>,
    number: u64,
    args: [u64; 5],
) -> SyscallOutcome {
    kernel.context.machine.set_reg(Reg::A0, number);
    kernel.context.machine.set_reg(Reg::A1, args[0]);
    kernel.context.machine.set_reg(Reg::A2, args[1]);
    kernel.context.machine.set_reg(Reg::A3, args[2]);
    kernel.context.machine.set_reg(Reg::A4, args[3]);
    kernel.context.machine.set_reg(Reg::A5, args[4]);
    kernel.handle_syscall().unwrap()
}

fn ret(kernel: &Kernel<FlatMachine, BufferEnv, InMemoryFileSystem>) -> i64 {
    kernel.context.machine.reg(Reg::A0) as i64
}

fn put_cstr(
    kernel: &mut Kernel<FlatMachine, BufferEnv, InMemoryFileSystem>,
    addr: u64,
    s: &str,
) {
    let mut bytes = s.as_bytes().to_vec();
    bytes.push(0);
    kernel.context.machine.write_memory(addr, &bytes).unwrap();
}

const FDCWD: u64 = AT_FDCWD as i64 as u64;

#[test]
fn hello_world_writes_to_stdout() {
    let mut k = boot(&[]);
    k.context.machine.write_memory(0x100, b"hello\n").unwrap();
    let out = syscall(&mut k, SYS_WRITE, [1, 0x100, 6, 0, 0]);
    assert!(matches!(out, SyscallOutcome::Continue));
    assert_eq!(ret(&k), 6);
    assert_eq!(k.context.env.stdout, b"hello\n".to_vec());
    assert!(k.context.env.stderr.is_empty());
}

#[test]
fn write_to_stderr_is_kept_apart() {
    let mut k = boot(&[]);
    k.context.machine.write_memory(0x100, b"oops").unwrap();
    syscall(&mut k, SYS_WRITE, [2, 0x100, 4, 0, 0]);
    assert_eq!(ret(&k), 4);
    assert_eq!(k.context.env.stderr, b"oops".to_vec());
    assert!(k.context.env.stdout.is_empty());
}

#[test]
fn exit_returns_the_status() {
    let mut k = boot(&[]);
    let out = syscall(&mut k, SYS_EXIT, [7, 0, 0, 0, 0]);
    assert!(matches!(out, SyscallOutcome::Exit(7)));
}

#[test]
fn exit_group_returns_the_status() {
    let mut k = boot(&[]);
    let out = syscall(&mut k, SYS_EXIT_GROUP, [3, 0, 0, 0, 0]);
    assert!(matches!(out, SyscallOutcome::Exit(3)));
}

#[test]
fn open_read_close_round_trip() {
    let contents = b"127.0.0.1 localhost\n";
    let mut k = boot(&[("/etc/hosts", contents)]);
    put_cstr(&mut k, 0x200, "/etc/hosts");
    syscall(&mut k, SYS_OPENAT, [FDCWD, 0x200, 0, 0, 0]);
    assert_eq!(ret(&k), 3);
    syscall(&mut k, SYS_READ, [3, 0x400, 1024, 0, 0]);
    assert_eq!(ret(&k), 20);
    let read_back = k.context.machine.read_memory(0x400, 20).unwrap();
    assert_eq!(read_back, contents.to_vec());
    syscall(&mut k, SYS_CLOSE, [3, 0, 0, 0, 0]);
    assert_eq!(ret(&k), 0);
    syscall(&mut k, SYS_READ, [3, 0x400, 1024, 0, 0]);
    assert_eq!(ret(&k), -9);
}

#[test]
fn descriptors_are_never_reused() {
    let mut k = boot(&[("/a", b"x"), ("/b", b"y")]);
    put_cstr(&mut k, 0x200, "/a");
    put_cstr(&mut k, 0x300, "/b");
    syscall(&mut k, SYS_OPENAT, [FDCWD, 0x200, 0, 0, 0]);
    assert_eq!(ret(&k), 3);
    syscall(&mut k, SYS_CLOSE, [3, 0, 0, 0, 0]);
    assert_eq!(ret(&k), 0);
    syscall(&mut k, SYS_OPENAT, [FDCWD, 0x300, 0, 0, 0]);
    assert_eq!(ret(&k), 4);
}

#[test]
fn open_missing_path_is_enoent() {
    let mut k = boot(&[]);
    put_cstr(&mut k, 0x200, "/missing");
    syscall(&mut k, SYS_OPENAT, [FDCWD, 0x200, 0, 0, 0]);
    assert_eq!(ret(&k), -2);
}

#[test]
fn open_for_writing_is_refused_before_the_fs_is_asked() {
    let mut k = boot(&[("/etc/hosts", b"data")]);
    put_cstr(&mut k, 0x200, "/etc/hosts");
    syscall(&mut k, SYS_OPENAT, [FDCWD, 0x200, 1, 0, 0]);
    assert_eq!(ret(&k), -13);
    // Even a path that does not exist reports EACCES, not ENOENT: the
    // flags are refused before any lookup happens.
    put_cstr(&mut k, 0x300, "/missing");
    syscall(&mut k, SYS_OPENAT, [FDCWD, 0x300, 2, 0, 0]);
    assert_eq!(ret(&k), -13);
}

#[test]
fn open_with_other_dirfd_is_enosys() {
    let mut k = boot(&[("/a", b"x")]);
    put_cstr(&mut k, 0x200, "/a");
    syscall(&mut k, SYS_OPENAT, [5, 0x200, 0, 0, 0]);
    assert_eq!(ret(&k), -38);
}

#[test]
fn open_path_normalisation_applies() {
    let mut k = boot(&[("/etc/hosts", b"data")]);
    put_cstr(&mut k, 0x200, "/etc/./ignored/../hosts");
    syscall(&mut k, SYS_OPENAT, [FDCWD, 0x200, 0, 0, 0]);
    assert_eq!(ret(&k), 3);
}

#[test]
fn read_rejects_a_range_beyond_the_address_clamp() {
    let mut k = boot(&[("/a", b"x")]);
    put_cstr(&mut k, 0x200, "/a");
    syscall(&mut k, SYS_OPENAT, [FDCWD, 0x200, 0, 0, 0]);
    assert_eq!(ret(&k), 3);
    syscall(&mut k, SYS_READ, [3, u64::MAX - 2, 8, 0, 0]);
    assert_eq!(ret(&k), -14);
    syscall(&mut k, SYS_READ, [3, 0x1_0000_0000, 8, 0, 0]);
    assert_eq!(ret(&k), -14);
    // The failed attempts did not move the cursor.
    syscall(&mut k, SYS_READ, [3, 0x400, 1, 0, 0]);
    assert_eq!(ret(&k), 1);
    assert_eq!(k.context.machine.read_memory(0x400, 1).unwrap(), b"x".to_vec());
}

#[test]
fn write_rejects_a_range_beyond_the_address_clamp() {
    let mut k = boot(&[]);
    syscall(&mut k, SYS_WRITE, [1, u64::MAX - 2, 8, 0, 0]);
    assert_eq!(ret(&k), -14);
    assert!(k.context.env.stdout.is_empty());
}

#[test]
fn write_to_an_open_file_is_enosys_and_unknown_fd_is_ebadf() {
    let mut k = boot(&[("/a", b"x")]);
    put_cstr(&mut k, 0x200, "/a");
    syscall(&mut k, SYS_OPENAT, [FDCWD, 0x200, 0, 0, 0]);
    assert_eq!(ret(&k), 3);
    k.context.machine.write_memory(0x300, b"zz").unwrap();
    syscall(&mut k, SYS_WRITE, [3, 0x300, 2, 0, 0]);
    assert_eq!(ret(&k), -38);
    syscall(&mut k, SYS_WRITE, [9, 0x300, 2, 0, 0]);
    assert_eq!(ret(&k), -9);
}

#[test]
fn lseek_with_bad_whence_is_einval_and_keeps_the_cursor() {
    let mut k = boot(&[("/a", b"0123456789")]);
    put_cstr(&mut k, 0x200, "/a");
    syscall(&mut k, SYS_OPENAT, [FDCWD, 0x200, 0, 0, 0]);
    assert_eq!(ret(&k), 3);
    syscall(&mut k, SYS_LSEEK, [3, 5, 9, 0, 0]);
    assert_eq!(ret(&k), -22);
    syscall(&mut k, SYS_READ, [3, 0x400, 4, 0, 0]);
    assert_eq!(ret(&k), 4);
    assert_eq!(k.context.machine.read_memory(0x400, 4).unwrap(), b"0123".to_vec());
}

#[test]
fn lseek_anchors_and_clamps() {
    let mut k = boot(&[("/a", b"0123456789")]);
    put_cstr(&mut k, 0x200, "/a");
    syscall(&mut k, SYS_OPENAT, [FDCWD, 0x200, 0, 0, 0]);
    assert_eq!(ret(&k), 3);
    // End-anchored with a negative offset.
    syscall(&mut k, SYS_LSEEK, [3, (-4i64) as u64, 2, 0, 0]);
    assert_eq!(ret(&k), 6);
    syscall(&mut k, SYS_READ, [3, 0x400, 16, 0, 0]);
    assert_eq!(ret(&k), 4);
    assert_eq!(k.context.machine.read_memory(0x400, 4).unwrap(), b"6789".to_vec());
    // Current-anchored past the end clamps to the size.
    syscall(&mut k, SYS_LSEEK, [3, 100, 1, 0, 0]);
    assert_eq!(ret(&k), 10);
    // Start-anchored seeks are absolute, even beyond the end.
    syscall(&mut k, SYS_LSEEK, [3, 100, 0, 0, 0]);
    assert_eq!(ret(&k), 100);
    syscall(&mut k, SYS_READ, [3, 0x400, 4, 0, 0]);
    assert_eq!(ret(&k), 0);
}

#[test]
fn readv_reports_the_sum_of_the_requested_lengths() {
    let contents = b"abcdefghijklmnop";
    let mut k = boot(&[("/data", contents)]);
    put_cstr(&mut k, 0x200, "/data");
    syscall(&mut k, SYS_OPENAT, [FDCWD, 0x200, 0, 0, 0]);
    assert_eq!(ret(&k), 3);
    k.context.machine.write_u64(0x600, 0x700).unwrap();
    k.context.machine.write_u64(0x608, 4).unwrap();
    k.context.machine.write_u64(0x610, 0x800).unwrap();
    k.context.machine.write_u64(0x618, 8).unwrap();
    syscall(&mut k, SYS_READV, [3, 0x600, 2, 0, 0]);
    assert_eq!(ret(&k), 12);
    assert_eq!(k.context.machine.read_memory(0x700, 4).unwrap(), b"abcd".to_vec());
    assert_eq!(k.context.machine.read_memory(0x800, 8).unwrap(), b"efghijkl".to_vec());
}

#[test]
fn readv_rejects_a_bad_count() {
    let mut k = boot(&[("/a", b"x")]);
    put_cstr(&mut k, 0x200, "/a");
    syscall(&mut k, SYS_OPENAT, [FDCWD, 0x200, 0, 0, 0]);
    syscall(&mut k, SYS_READV, [3, 0x600, 0, 0, 0]);
    assert_eq!(ret(&k), -22);
    syscall(&mut k, SYS_READV, [3, 0x600, 1025, 0, 0]);
    assert_eq!(ret(&k), -22);
}

#[test]
fn writev_aggregates_stdout_writes() {
    let mut k = boot(&[]);
    k.context.machine.write_memory(0x700, b"he").unwrap();
    k.context.machine.write_memory(0x800, b"llo").unwrap();
    k.context.machine.write_u64(0x600, 0x700).unwrap();
    k.context.machine.write_u64(0x608, 2).unwrap();
    k.context.machine.write_u64(0x610, 0x800).unwrap();
    k.context.machine.write_u64(0x618, 3).unwrap();
    syscall(&mut k, SYS_WRITEV, [1, 0x600, 2, 0, 0]);
    assert_eq!(ret(&k), 5);
    assert_eq!(k.context.env.stdout, b"hello".to_vec());
}

#[test]
fn uname_writes_the_identification_record() {
    let mut k = boot(&[]);
    syscall(&mut k, SYS_UNAME, [0x1000, 0, 0, 0, 0]);
    assert_eq!(ret(&k), 0);
    let record = k.context.machine.read_memory(0x1000, 390).unwrap();
    assert_eq!(record.len(), 390);
    assert_eq!(&record[0..5], b"Linux");
    assert_eq!(record[5], 0);
    assert_eq!(&record[65..69], b"node");
    assert_eq!(&record[130..136], b"6.15.0");
    assert_eq!(&record[260..271], b"riscv64emac");
    syscall(&mut k, SYS_UNAME, [0, 0, 0, 0, 0]);
    assert_eq!(ret(&k), -14);
}

#[test]
fn ioctl_window_size_stub() {
    let mut k = boot(&[]);
    syscall(&mut k, SYS_IOCTL, [0, 0x5413, 0x2000, 0, 0]);
    assert_eq!(ret(&k), 0);
    let ws = k.context.machine.read_memory(0x2000, 8).unwrap();
    assert_eq!(ws, vec![25, 0, 80, 0, 0, 0, 0, 0]);
    syscall(&mut k, SYS_IOCTL, [0, 0x1234, 0x2000, 0, 0]);
    assert_eq!(ret(&k), -38);
}

#[test]
fn fcntl_only_accepts_set_cloexec() {
    let mut k = boot(&[("/a", b"x")]);
    put_cstr(&mut k, 0x200, "/a");
    syscall(&mut k, SYS_OPENAT, [FDCWD, 0x200, 0, 0, 0]);
    assert_eq!(ret(&k), 3);
    syscall(&mut k, SYS_FCNTL, [3, 2, 1, 0, 0]);
    assert_eq!(ret(&k), 0);
    syscall(&mut k, SYS_FCNTL, [3, 1, 1, 0, 0]);
    assert_eq!(ret(&k), -38);
    syscall(&mut k, SYS_FCNTL, [99, 2, 1, 0, 0]);
    assert_eq!(ret(&k), -9);
}

#[test]
fn getcwd_always_reports_the_root() {
    let mut k = boot(&[]);
    syscall(&mut k, SYS_GETCWD, [0x900, 1, 0, 0, 0]);
    assert_eq!(ret(&k), -34);
    syscall(&mut k, SYS_GETCWD, [0x900, 64, 0, 0, 0]);
    assert_eq!(ret(&k), 2);
    assert_eq!(k.context.machine.read_memory(0x900, 2).unwrap(), vec![b'/', 0]);
}

#[test]
fn uid_and_gid_family() {
    let mut k = boot(&[]);
    for n in [SYS_GETUID, SYS_GETEUID, SYS_GETGID, SYS_GETEGID] {
        syscall(&mut k, n, [0, 0, 0, 0, 0]);
        assert_eq!(ret(&k), 0);
    }
    syscall(&mut k, SYS_SETUID, [0, 0, 0, 0, 0]);
    assert_eq!(ret(&k), 0);
    syscall(&mut k, SYS_SETUID, [5, 0, 0, 0, 0]);
    assert_eq!(ret(&k), -38);
    syscall(&mut k, SYS_SETGID, [5, 0, 0, 0, 0]);
    assert_eq!(ret(&k), -38);
}

#[test]
fn getgroups_reports_one_group() {
    let mut k = boot(&[]);
    syscall(&mut k, SYS_GETGROUPS, [0, 0x900, 0, 0, 0]);
    assert_eq!(ret(&k), 1);
    syscall(&mut k, SYS_GETGROUPS, [1, 0x900, 0, 0, 0]);
    assert_eq!(ret(&k), 1);
    assert_eq!(k.context.machine.read_memory(0x900, 4).unwrap(), vec![0, 0, 0, 0]);
}

#[test]
fn set_tid_address_reports_the_constant_thread_id() {
    let mut k = boot(&[]);
    syscall(&mut k, SYS_SET_TID_ADDRESS, [0, 0, 0, 0, 0]);
    assert_eq!(ret(&k), 1);
    syscall(&mut k, SYS_SET_TID_ADDRESS, [0x900, 0, 0, 0, 0]);
    assert_eq!(ret(&k), 1);
    assert_eq!(k.context.machine.read_memory(0x900, 4).unwrap(), vec![1, 0, 0, 0]);
}

#[test]
fn clock_stands_still_at_zero() {
    let mut k = boot(&[]);
    syscall(&mut k, SYS_CLOCK_GETTIME, [0, 0x900, 0, 0, 0]);
    assert_eq!(ret(&k), 0);
    assert_eq!(k.context.machine.read_memory(0x900, 16).unwrap(), vec![0u8; 16]);
    syscall(&mut k, SYS_CLOCK_GETTIME, [0, 0, 0, 0, 0]);
    assert_eq!(ret(&k), -14);
}

#[test]
fn newfstatat_fills_the_stat_record() {
    let contents = b"0123456789abcdef0123"; // 20 bytes
    let mut k = boot(&[("/etc/hosts", contents)]);
    put_cstr(&mut k, 0x200, "/etc/hosts");
    syscall(&mut k, SYS_NEWFSTATAT, [FDCWD, 0x200, 0x3000, 0, 0]);
    assert_eq!(ret(&k), 0);
    let stat = k.context.machine.read_memory(0x3000, 128).unwrap();
    let mode = u32::from_le_bytes(stat[16..20].try_into().unwrap());
    assert_eq!(mode, 0o100644);
    let nlink = u32::from_le_bytes(stat[20..24].try_into().unwrap());
    assert_eq!(nlink, 1);
    let size = i64::from_le_bytes(stat[48..56].try_into().unwrap());
    assert_eq!(size, 20);
    let blksize = i32::from_le_bytes(stat[56..60].try_into().unwrap());
    assert_eq!(blksize, 20);
    let blocks = i64::from_le_bytes(stat[64..72].try_into().unwrap());
    assert_eq!(blocks, 1);
    put_cstr(&mut k, 0x280, "/missing");
    syscall(&mut k, SYS_NEWFSTATAT, [FDCWD, 0x280, 0x3000, 0, 0]);
    assert_eq!(ret(&k), -2);
}

#[test]
fn faccessat_compares_mode_bits() {
    let mut k = boot(&[("/a", b"x")]);
    put_cstr(&mut k, 0x200, "/a");
    syscall(&mut k, SYS_FACCESSAT, [FDCWD, 0x200, 4, 0, 0]);
    assert_eq!(ret(&k), 0);
    syscall(&mut k, SYS_FACCESSAT, [FDCWD, 0x200, 2, 0, 0]);
    assert_eq!(ret(&k), -13);
    put_cstr(&mut k, 0x280, "/missing");
    syscall(&mut k, SYS_FACCESSAT, [FDCWD, 0x280, 4, 0, 0]);
    assert_eq!(ret(&k), -2);
}

#[test]
fn getdents_on_the_memory_fs_is_enosys() {
    let mut k = boot(&[("/a", b"x")]);
    put_cstr(&mut k, 0x200, "/a");
    syscall(&mut k, SYS_OPENAT, [FDCWD, 0x200, 0, 0, 0]);
    assert_eq!(ret(&k), 3);
    syscall(&mut k, SYS_GETDENTS64, [3, 0x400, 128, 0, 0]);
    assert_eq!(ret(&k), -38);
    syscall(&mut k, SYS_GETDENTS64, [9, 0x400, 128, 0, 0]);
    assert_eq!(ret(&k), -9);
}

#[test]
fn tkill_aborts_only_the_own_process() {
    let mut k = boot(&[]);
    let out = syscall(&mut k, SYS_TKILL, [0, 9, 0, 0, 0]);
    assert!(matches!(out, SyscallOutcome::Exit(9)));
    let out = syscall(&mut k, SYS_TKILL, [0, 0, 0, 0, 0]);
    assert!(matches!(out, SyscallOutcome::Continue));
    assert_eq!(ret(&k), 0);
    syscall(&mut k, SYS_TKILL, [5, 9, 0, 0, 0]);
    assert_eq!(ret(&k), -38);
}

#[test]
fn stubbed_syscalls_succeed_quietly() {
    let mut k = boot(&[]);
    for n in [SYS_SYNC, SYS_PPOLL, SYS_RT_SIGACTION, SYS_RT_SIGPROCMASK] {
        let out = syscall(&mut k, n, [0, 0, 0, 0, 0]);
        assert!(matches!(out, SyscallOutcome::Continue));
        assert_eq!(ret(&k), 0);
    }
}

#[test]
fn unknown_syscalls_report_enosys() {
    let mut k = boot(&[]);
    syscall(&mut k, 98, [0, 0, 0, 0, 0]);
    assert_eq!(ret(&k), -38);
    syscall(&mut k, 4096, [0, 0, 0, 0, 0]);
    assert_eq!(ret(&k), -38);
}

#[test]
fn access_decision_compares_mode_bits_exactly() {
    let meta = Metadata { id: 1, size: 4, mode: 0o100644, block_size: 4 };
    assert!(access_decision(&meta, 0).is_ok());
    assert!(access_decision(&meta, 4).is_ok());
    assert!(access_decision(&meta, 0o644).is_ok());
    assert_eq!(access_decision(&meta, 2), Err(polkakernel::error::Error(13)));
    assert_eq!(access_decision(&meta, 7), Err(polkakernel::error::Error(13)));
}

#[test]
fn write_stat_record_encodes_the_given_metadata() {
    let mut k = boot(&[]);
    let meta = Metadata { id: 7, size: 1025, mode: 0o100644, block_size: 512 };
    k.write_stat_record(&meta, 0x3000).unwrap();
    let stat = k.context.machine.read_memory(0x3000, 128).unwrap();
    let ino = u64::from_le_bytes(stat[8..16].try_into().unwrap());
    assert_eq!(ino, 7);
    let size = i64::from_le_bytes(stat[48..56].try_into().unwrap());
    assert_eq!(size, 1025);
    let blksize = i32::from_le_bytes(stat[56..60].try_into().unwrap());
    assert_eq!(blksize, 512);
    let blocks = i64::from_le_bytes(stat[64..72].try_into().unwrap());
    assert_eq!(blocks, 3);
    // An unmapped destination reports the fault and writes nothing.
    assert_eq!(k.write_stat_record(&meta, u64::MAX - 64), Err(polkakernel::error::Error(14)));
}
