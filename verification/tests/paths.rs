use polkakernel::debug::{DirFd, SigMask, Signal};
use polkakernel::error::{Error, IoKind};
use polkakernel::fs::{dir_entry_len, normalize_path, wrap_add, write_dir_entry, WriteDirEntryErr};
use polkakernel::libc::{errno, utsname_field};

fn norm(p: &str) -> Vec<u8> {
    normalize_path(p.as_bytes())
}

#[test]
fn normalisation_drops_dot_and_pops_dotdot() {
    assert_eq!(norm("/a/./b/../c"), b"/a/c".to_vec());
    assert_eq!(norm("a//b///c"), b"a/b/c".to_vec());
    assert_eq!(norm("/../.."), b"/".to_vec());
    assert_eq!(norm("a/.."), b"".to_vec());
    assert_eq!(norm(""), b"".to_vec());
    assert_eq!(norm("/"), b"/".to_vec());
    assert_eq!(norm("./a/"), b"a".to_vec());
}

#[test]
fn normalisation_is_idempotent_on_samples() {
    for p in ["/a/./b/../c", "a//b///c", "/../..", "a/..", "", "/", "x/y/z/", "../x"] {
        let once = normalize_path(p.as_bytes());
        let twice = normalize_path(&once);
        assert_eq!(once, twice);
    }
}

#[test]
fn errno_encoding_round_trips() {
    for e in [2u64, 9, 13, 14, 22, 34, 38] {
        assert_eq!(errno(e) as i64, -(e as i64));
    }
    assert_eq!(errno(0), 0);
}

#[test]
fn error_codes_and_names() {
    assert_eq!(Error(13).code() as i64, -13);
    assert_eq!(Error(13).as_str(), Some("EACCES"));
    assert_eq!(Error(9).as_str(), Some("EBADF"));
    assert_eq!(Error(14).as_str(), Some("EFAULT"));
    assert_eq!(Error(22).as_str(), Some("EINVAL"));
    assert_eq!(Error(5).as_str(), Some("EIO"));
    assert_eq!(Error(2).as_str(), Some("ENOENT"));
    assert_eq!(Error(38).as_str(), Some("ENOSYS"));
    assert_eq!(Error(21).as_str(), Some("EISDIR"));
    assert_eq!(Error(20).as_str(), Some("ENOTDIR"));
    assert_eq!(Error(34).as_str(), Some("RANGE"));
    assert_eq!(Error(99).as_str(), None);
}

#[test]
fn io_kinds_map_to_errnos() {
    assert_eq!(Error::from_io_kind(IoKind::InvalidData), Error(22));
    assert_eq!(Error::from_io_kind(IoKind::InvalidInput), Error(22));
    assert_eq!(Error::from_io_kind(IoKind::NotFound), Error(2));
    assert_eq!(Error::from_io_kind(IoKind::PermissionDenied), Error(13));
    assert_eq!(Error::from_io_kind(IoKind::Unsupported), Error(38));
    assert_eq!(Error::from_io_kind(IoKind::Other), Error(22));
}

#[test]
fn dir_entry_length_is_padded_to_eight() {
    assert_eq!(dir_entry_len(1), 24);
    assert_eq!(dir_entry_len(5), 24);
    assert_eq!(dir_entry_len(6), 32);
    assert_eq!(dir_entry_len(13), 32);
}

#[test]
fn dir_entries_are_packed_little_endian() {
    let mut buf = vec![0xffu8; 64];
    let n = write_dir_entry(0x0102030405060708, b"hosts", &mut buf).unwrap();
    assert_eq!(n, 32);
    assert_eq!(&buf[0..8], &[8, 7, 6, 5, 4, 3, 2, 1]);
    assert_eq!(&buf[8..16], &[0u8; 8]);
    assert_eq!(&buf[16..18], &[32, 0]);
    assert_eq!(buf[18], 0);
    assert_eq!(&buf[19..24], b"hosts");
    assert_eq!(buf[24], 0);
    // Padding and the rest of the buffer are untouched.
    assert_eq!(&buf[25..32], &[0xff; 7]);
    assert_eq!(&buf[32..64], &[0xff; 32]);
}

#[test]
fn dir_entry_errors() {
    let mut tiny = vec![0u8; 8];
    assert_eq!(write_dir_entry(1, b"hosts", &mut tiny), Err(WriteDirEntryErr::BufferTooSmall));
    let name = vec![b'a'; 70000];
    let mut big = vec![0u8; 80000];
    assert_eq!(write_dir_entry(1, &name, &mut big), Err(WriteDirEntryErr::NameTooLong));
}

#[test]
fn wrap_add_wraps_like_the_machine() {
    assert_eq!(wrap_add(10, 5), 15);
    assert_eq!(wrap_add(10, -5), 5);
    assert_eq!(wrap_add(3, -5), u64::MAX - 1);
    assert_eq!(wrap_add(u64::MAX, 1), 0);
    assert_eq!(wrap_add(0, i64::MIN), 0x8000_0000_0000_0000);
}

#[test]
fn utsname_fields_are_nul_padded() {
    let f = utsname_field(b"Linux");
    assert_eq!(f.len(), 65);
    assert_eq!(&f[0..5], b"Linux");
    assert!(f[5..].iter().all(|b| *b == 0));
}

#[test]
fn debug_names_cover_the_catalogue() {
    assert_eq!(DirFd(-100).as_str(), Some("AT_FDCWD"));
    assert_eq!(DirFd(3).as_str(), None);
    assert_eq!(Signal(9).as_str(), Some("SIGKILL"));
    assert_eq!(Signal(11).as_str(), Some("SIGSEGV"));
    assert_eq!(Signal(0).as_str(), None);
    assert_eq!(SigMask(1).as_str(), Some("SIG_BLOCK"));
    assert_eq!(SigMask(9).as_str(), None);
}
