use polkakernel::in_memory::InMemoryFileSystem;
use polkakernel::machine::{FlatMachine, Machine, MachineError, Reg};

#[test]
fn typed_reads_and_writes_round_trip() {
    let mut m = FlatMachine::new(0x1000);
    m.write_u64(0x100, 0x0102030405060708).unwrap();
    assert_eq!(m.read_u64(0x100).unwrap(), 0x0102030405060708);
    assert_eq!(m.read_u32(0x100).unwrap(), 0x05060708);
    assert_eq!(m.read_u16(0x100).unwrap(), 0x0708);
    assert_eq!(m.read_u8(0x100).unwrap(), 0x08);
    m.write_u16(0x200, 0xbeef).unwrap();
    assert_eq!(m.read_u16(0x200).unwrap(), 0xbeef);
    m.write_u32(0x300, 0xdeadbeef).unwrap();
    assert_eq!(m.read_u32(0x300).unwrap(), 0xdeadbeef);
    m.write_u8(0x400, 0x7f).unwrap();
    assert_eq!(m.read_u8(0x400).unwrap(), 0x7f);
}

#[test]
fn out_of_range_accesses_fail() {
    let mut m = FlatMachine::new(0x100);
    assert_eq!(m.read_u8(0x100), Err(MachineError::BadAddress));
    assert_eq!(m.read_u64(0xfc), Err(MachineError::BadAddress));
    assert_eq!(m.write_u64(0xfc, 1), Err(MachineError::BadAddress));
    assert_eq!(m.read_memory(0xf0, 17), Err(MachineError::BadAddress));
    assert!(m.read_memory(0xf0, 16).is_ok());
    assert_eq!(m.read_u64(u64::MAX - 3), Err(MachineError::BadAddress));
}

#[test]
fn registers_hold_their_values() {
    let mut m = FlatMachine::new(0);
    m.set_reg(Reg::A3, 77);
    m.set_reg(Reg::SP, 0x8000);
    assert_eq!(m.reg(Reg::A3), 77);
    assert_eq!(m.reg(Reg::SP), 0x8000);
    assert_eq!(m.reg(Reg::T0), 0);
}

#[test]
fn cstring_reads_stop_at_the_terminator() {
    let mut m = FlatMachine::new(0x1000);
    m.write_memory(0x100, b"hello\0world").unwrap();
    assert_eq!(m.read_cstring(0x100, 4096).unwrap(), b"hello".to_vec());
    assert_eq!(m.read_cstring(0x100, 6).unwrap(), b"hello".to_vec());
    // The terminator must lie within `max_len` bytes.
    assert_eq!(m.read_cstring(0x100, 5), Err(MachineError::BadAddress));
    // An unterminated string runs into invalid memory.
    m.write_memory(0xff0, b"0123456789abcdef").unwrap();
    assert_eq!(m.read_cstring(0xff0, 4096), Err(MachineError::BadAddress));
}

#[test]
fn init_builds_the_startup_stack() {
    let mut m = FlatMachine::new(0x10000);
    let argv = vec![b"prog".to_vec(), b"arg".to_vec()];
    let envp = vec![b"A=B".to_vec()];
    m.init(0x8000, 0x1234, &argv, &envp).unwrap();
    let table = 0x8000 - 8 * 10; // argc + 2 argv + NULL + 1 envp + NULL + 2 auxv pairs
    let fsp = table - 13; // "prog\0" + "arg\0" + "A=B\0"
    assert_eq!(m.reg(Reg::SP), fsp);
    assert_eq!(m.reg(Reg::A0), table);
    assert_eq!(m.reg(Reg::RA), 0x1234);
    assert_eq!(m.read_u64(table).unwrap(), 2);
    let argv0 = m.read_u64(table + 8).unwrap();
    let argv1 = m.read_u64(table + 16).unwrap();
    assert_eq!(argv0, table - 5);
    assert_eq!(argv1, table - 9);
    assert_eq!(m.read_memory(argv0, 5).unwrap(), b"prog\0".to_vec());
    assert_eq!(m.read_memory(argv1, 4).unwrap(), b"arg\0".to_vec());
    assert_eq!(m.read_u64(table + 24).unwrap(), 0);
    let envp0 = m.read_u64(table + 32).unwrap();
    assert_eq!(envp0, table - 13);
    assert_eq!(m.read_memory(envp0, 4).unwrap(), b"A=B\0".to_vec());
    assert_eq!(m.read_u64(table + 40).unwrap(), 0);
    assert_eq!(m.read_u64(table + 48).unwrap(), 6);
    assert_eq!(m.read_u64(table + 56).unwrap(), 4096);
    assert_eq!(m.read_u64(table + 64).unwrap(), 0);
    assert_eq!(m.read_u64(table + 72).unwrap(), 0);
    assert_eq!(fsp, m.reg(Reg::SP));
}

#[test]
fn init_fails_when_the_stack_region_is_invalid() {
    let mut m = FlatMachine::new(0x40);
    let argv = vec![b"p".to_vec()];
    let envp: Vec<Vec<u8>> = Vec::new();
    // The image needs 8 * 9 + 2 bytes, ending above the 0x40 limit.
    assert_eq!(m.init(0x100, 0, &argv, &envp), Err(MachineError::BadAddress));
}

#[test]
fn memory_fs_stores_and_replaces_blobs() {
    let mut fs = InMemoryFileSystem::new();
    assert!(fs.read_file(b"/a").is_none());
    fs.write_file(b"/a".to_vec(), b"one".to_vec());
    fs.write_file(b"/b".to_vec(), b"two".to_vec());
    assert_eq!(fs.read_file(b"/a").unwrap(), &b"one".to_vec());
    assert_eq!(fs.read_file(b"/b").unwrap(), &b"two".to_vec());
    fs.write_file(b"/a".to_vec(), b"three".to_vec());
    assert_eq!(fs.read_file(b"/a").unwrap(), &b"three".to_vec());
    // Lookup by `read_file` is exact; the engine normalises before asking.
    assert!(fs.read_file(b"/a/").is_none());
}
