//! The machine capability: register access and typed guest-memory access
//! for the virtual machine the guest runs in.
//!
//! A machine is modelled by two abstract maps: `mem`, from every valid
//! guest address to its byte, and `regs`, from every virtual register to
//! its value.  Every memory access is specified against this model, so the
//! syscall engine above can state exactly which guest bytes it reads and
//! writes.

use vstd::prelude::*;
use vstd::bytes::{
    spec_u16_from_le_bytes, spec_u32_from_le_bytes, spec_u64_from_le_bytes, spec_u16_to_le_bytes,
    spec_u32_to_le_bytes, spec_u64_to_le_bytes, u16_from_le_bytes, u32_from_le_bytes,
    u64_from_le_bytes, u16_to_le_bytes, u32_to_le_bytes, u64_to_le_bytes,
};

verus! {

/// Machine-specific error.
#[derive(Debug, Clone, Copy, PartialEq, Eq, Structural)]
pub enum MachineError {
    /// Memory access error.
    BadAddress,
}

/// Available registers.  The numeric codes are stable; a virtual machine
/// maps them onto its own register bank.
#[derive(Clone, Copy, PartialEq, Eq, Structural, Hash, Debug)]
pub enum Reg {
    RA,
    SP,
    T0,
    T1,
    T2,
    S0,
    S1,
    A0,
    A1,
    A2,
    A3,
    A4,
    A5,
}

impl Reg {
    /// The stable numeric code of this register.
    pub open spec fn code_spec(self) -> int {
        match self {
            Reg::RA => 0,
            Reg::SP => 1,
            Reg::T0 => 2,
            Reg::T1 => 3,
            Reg::T2 => 4,
            Reg::S0 => 5,
            Reg::S1 => 6,
            Reg::A0 => 7,
            Reg::A1 => 8,
            Reg::A2 => 9,
            Reg::A3 => 10,
            Reg::A4 => 11,
            Reg::A5 => 12,
        }
    }

    pub fn code(self) -> (c: u32)
        ensures
            c == self.code_spec(),
    {
        match self {
            Reg::RA => 0,
            Reg::SP => 1,
            Reg::T0 => 2,
            Reg::T1 => 3,
            Reg::T2 => 4,
            Reg::S0 => 5,
            Reg::S1 => 6,
            Reg::A0 => 7,
            Reg::A1 => 8,
            Reg::A2 => 9,
            Reg::A3 => 10,
            Reg::A4 => 11,
            Reg::A5 => 12,
        }
    }
}

/// Every address of `[addr, addr + len)` is a valid guest address of `m`,
/// and the range does not wrap around the 64-bit address space.
pub open spec fn mem_has_range(m: Map<u64, u8>, addr: u64, len: int) -> bool {
    &&& addr + len <= u64::MAX + 1
    &&& forall|a: u64| addr <= a < addr + len ==> #[trigger] m.dom().contains(a)
}

/// The bytes of `m` at `[addr, addr + len)`.
pub open spec fn mem_bytes(m: Map<u64, u8>, addr: u64, len: int) -> Seq<u8> {
    Seq::new(len as nat, |i: int| m[(addr + i) as u64])
}

/// `m` with the bytes at `[addr, addr + data.len())` replaced by `data`.
/// The domain — the set of valid addresses — is unchanged.
pub open spec fn mem_write(m: Map<u64, u8>, addr: u64, data: Seq<u8>) -> Map<u64, u8> {
    Map::new(
        |a: u64| m.dom().contains(a),
        |a: u64|
            if addr <= a < addr + data.len() {
                data[a - addr]
            } else {
                m[a]
            },
    )
}

/// `s` is the NUL-terminated string stored at `addr` in `m`: its bytes are
/// the bytes of `m` from `addr` up to, and not including, the first NUL.
pub open spec fn cstring_at(m: Map<u64, u8>, addr: u64, s: Seq<u8>) -> bool {
    &&& mem_has_range(m, addr, s.len() + 1 as int)
    &&& s == mem_bytes(m, addr, s.len() as int)
    &&& forall|i: int| 0 <= i < s.len() ==> #[trigger] s[i] != 0
    &&& m[(addr + s.len()) as u64] == 0
}

/// Some NUL-terminated string of fewer than `max_len` bytes (terminator
/// included) is stored at `addr` in `m`.
pub open spec fn has_cstring(m: Map<u64, u8>, addr: u64, max_len: u64) -> bool {
    exists|s: Seq<u8>| s.len() + 1 <= max_len && cstring_at(m, addr, s)
}

/// The bytes that a list of strings occupies on the startup stack: each
/// string's length plus its NUL terminator.
pub open spec fn cstr_block_len(args: Seq<Vec<u8>>) -> int
    decreases args.len(),
{
    if args.len() == 0 {
        0
    } else {
        cstr_block_len(args.drop_last()) + args.last()@.len() + 1
    }
}

/// The address of the startup pointer table: the given stack top minus one
/// word for `argc`, one per argument, a terminator, one per environment
/// string, a terminator, and two auxiliary pairs.
pub open spec fn init_table_addr(default_sp: u64, argc: int, envn: int) -> int {
    default_sp - 8 * (argc + envn + 7)
}

/// The stack pointer after the startup image is in place: the string
/// bodies sit just below the pointer table.
pub open spec fn init_final_sp(default_sp: u64, argv: Seq<Vec<u8>>, envp: Seq<Vec<u8>>) -> int {
    init_table_addr(default_sp, argv.len() as int, envp.len() as int) - cstr_block_len(argv)
        - cstr_block_len(envp)
}

/// Where the body of the `i`-th argument string lives: strings are laid
/// out downwards from `table`, in order.
pub open spec fn arg_string_addr(table: int, args: Seq<Vec<u8>>, i: int) -> int {
    table - cstr_block_len(args.take(i + 1))
}

/// Where the body of the `j`-th environment string lives: below all the
/// argument strings, in order.
pub open spec fn env_string_addr(table: int, argv: Seq<Vec<u8>>, envp: Seq<Vec<u8>>, j: int) -> int {
    table - cstr_block_len(argv) - cstr_block_len(envp.take(j + 1))
}

/// The range `[a, a + data.len())` is valid in `m` and holds `data`.
pub open spec fn cell_ok(m: Map<u64, u8>, a: int, data: Seq<u8>) -> bool {
    &&& 0 <= a
    &&& mem_has_range(m, a as u64, data.len() as int)
    &&& mem_bytes(m, a as u64, data.len() as int) == data
}

/// The `i`-th argument pointer word holds the argument's string address.
pub open spec fn arg_ptr_ok(m: Map<u64, u8>, table: int, argv: Seq<Vec<u8>>, i: int) -> bool {
    cell_ok(
        m,
        table + 8 + 8 * i,
        spec_u64_to_le_bytes(arg_string_addr(table, argv, i) as u64),
    )
}

/// The `i`-th argument string body is in place, NUL-terminated.
pub open spec fn arg_str_ok(m: Map<u64, u8>, table: int, argv: Seq<Vec<u8>>, i: int) -> bool {
    cell_ok(m, arg_string_addr(table, argv, i), argv[i]@ + seq![0u8])
}

/// The `j`-th environment pointer word holds its string address.
pub open spec fn env_ptr_ok(
    m: Map<u64, u8>,
    table: int,
    argv: Seq<Vec<u8>>,
    envp: Seq<Vec<u8>>,
    j: int,
) -> bool {
    cell_ok(
        m,
        table + 8 * (argv.len() + 2) + 8 * j,
        spec_u64_to_le_bytes(env_string_addr(table, argv, envp, j) as u64),
    )
}

/// The `j`-th environment string body is in place, NUL-terminated.
pub open spec fn env_str_ok(
    m: Map<u64, u8>,
    table: int,
    argv: Seq<Vec<u8>>,
    envp: Seq<Vec<u8>>,
    j: int,
) -> bool {
    cell_ok(m, env_string_addr(table, argv, envp, j), envp[j]@ + seq![0u8])
}

/// The complete System V style startup image: `argc`, the argument
/// pointers, a NULL, the environment pointers, a NULL, the auxiliary
/// vector `(AT_PAGESZ, 4096)` with its zero terminator, and every string
/// body, NUL-terminated, just below the table.
pub open spec fn init_image_ok(
    m: Map<u64, u8>,
    default_sp: u64,
    argv: Seq<Vec<u8>>,
    envp: Seq<Vec<u8>>,
) -> bool {
    let argc = argv.len() as int;
    let envn = envp.len() as int;
    let table = init_table_addr(default_sp, argc, envn);
    &&& cell_ok(m, table, spec_u64_to_le_bytes(argc as u64))
    &&& forall|i: int| 0 <= i < argc ==> #[trigger] arg_ptr_ok(m, table, argv, i)
    &&& forall|i: int| 0 <= i < argc ==> #[trigger] arg_str_ok(m, table, argv, i)
    &&& cell_ok(m, table + 8 * (argc + 1), spec_u64_to_le_bytes(0))
    &&& forall|j: int| 0 <= j < envn ==> #[trigger] env_ptr_ok(m, table, argv, envp, j)
    &&& forall|j: int| 0 <= j < envn ==> #[trigger] env_str_ok(m, table, argv, envp, j)
    &&& cell_ok(m, table + 8 * (argc + envn + 2), spec_u64_to_le_bytes(0))
    &&& cell_ok(m, table + 8 * (argc + envn + 3), spec_u64_to_le_bytes(6))
    &&& cell_ok(m, table + 8 * (argc + envn + 4), spec_u64_to_le_bytes(4096))
    &&& cell_ok(m, table + 8 * (argc + envn + 5), spec_u64_to_le_bytes(0))
    &&& cell_ok(m, table + 8 * (argc + envn + 6), spec_u64_to_le_bytes(0))
}

/// One more string adds its length and terminator to the block.
proof fn lemma_cstr_take_step(args: Seq<Vec<u8>>, i: int)
    requires
        0 <= i < args.len(),
    ensures
        cstr_block_len(args.take(i + 1)) == cstr_block_len(args.take(i)) + args[i]@.len() + 1,
{
    assert(args.take(i + 1).drop_last() =~= args.take(i));
    assert(args.take(i + 1).last() == args[i]);
}

/// String blocks never have negative length.
proof fn lemma_cstr_nonneg(args: Seq<Vec<u8>>)
    ensures
        cstr_block_len(args) >= 0,
    decreases args.len(),
{
    if args.len() > 0 {
        lemma_cstr_nonneg(args.drop_last());
    }
}

/// String blocks have non-negative length, and prefixes take no more room
/// than the whole.
proof fn lemma_cstr_prefix_mono(args: Seq<Vec<u8>>, i: int)
    requires
        0 <= i <= args.len(),
    ensures
        0 <= cstr_block_len(args.take(i)) <= cstr_block_len(args),
    decreases args.len() - i,
{
    lemma_cstr_nonneg(args.take(i));
    if i == args.len() {
        assert(args.take(i) =~= args);
    } else {
        lemma_cstr_take_step(args, i);
        lemma_cstr_prefix_mono(args, i + 1);
    }
}

/// A write to a disjoint range leaves a valid cell untouched.
proof fn lemma_write_preserves_cell(m: Map<u64, u8>, wa: u64, d: Seq<u8>, a: u64, n: int)
    requires
        n >= 0,
        mem_has_range(m, a, n),
        a + n <= wa || wa + d.len() <= a,
    ensures
        mem_has_range(mem_write(m, wa, d), a, n),
        mem_bytes(mem_write(m, wa, d), a, n) == mem_bytes(m, a, n),
{
    assert(mem_write(m, wa, d).dom() =~= m.dom());
    assert forall|i: int| 0 <= i < n implies mem_bytes(mem_write(m, wa, d), a, n)[i] == mem_bytes(
        m,
        a,
        n,
    )[i] by {
        let x = (a + i) as u64;
        assert(m.dom().contains(x));
        assert(mem_write(m, wa, d)[x] == m[x]);
    }
    assert(mem_bytes(mem_write(m, wa, d), a, n) =~= mem_bytes(m, a, n));
}

/// Reading back the range just written yields the written data.
proof fn lemma_write_reads_back(m: Map<u64, u8>, wa: u64, d: Seq<u8>)
    requires
        mem_has_range(m, wa, d.len() as int),
    ensures
        mem_has_range(mem_write(m, wa, d), wa, d.len() as int),
        mem_bytes(mem_write(m, wa, d), wa, d.len() as int) == d,
{
    assert(mem_write(m, wa, d).dom() =~= m.dom());
    assert forall|i: int| 0 <= i < d.len() implies mem_bytes(
        mem_write(m, wa, d),
        wa,
        d.len() as int,
    )[i] == d[i] by {
        let x = (wa + i) as u64;
        assert(m.dom().contains(x));
        assert(mem_write(m, wa, d)[x] == d[i]);
    }
    assert(mem_bytes(mem_write(m, wa, d), wa, d.len() as int) =~= d);
}

/// A sub-range of a valid range is valid.
proof fn lemma_range_subset(m: Map<u64, u8>, a: u64, n: int, a2: u64, n2: int)
    requires
        mem_has_range(m, a, n),
        a <= a2,
        n2 >= 0,
        a2 + n2 <= a + n,
    ensures
        mem_has_range(m, a2, n2),
{
}

/// A machine, virtual or physical, in which user-space programs run.
pub trait Machine: Sized {
    /// Implementation-specific well-formedness; every operation preserves it.
    spec fn inv(&self) -> bool;

    /// Model of guest memory: every valid address maps to its byte.
    spec fn mem(&self) -> Map<u64, u8>;

    /// Model of the register file.
    spec fn regs(&self) -> Map<Reg, u64>;

    /// Get register value.
    fn reg(&self, name: Reg) -> (v: u64)
        requires
            self.inv(),
        ensures
            v == self.regs()[name],
    ;

    /// Set register value.
    fn set_reg(&mut self, name: Reg, value: u64)
        requires
            old(self).inv(),
        ensures
            final(self).inv(),
            final(self).mem() == old(self).mem(),
            final(self).regs() == old(self).regs().insert(name, value),
    ;

    /// Read `u8` from the specified address.
    fn read_u8(&mut self, address: u64) -> (r: Result<u8, MachineError>)
        requires
            old(self).inv(),
        ensures
            final(self).inv(),
            final(self).mem() == old(self).mem(),
            final(self).regs() == old(self).regs(),
            r matches Ok(v) ==> old(self).mem().dom().contains(address) && v == old(
                self,
            ).mem()[address],
            r is Err <==> !old(self).mem().dom().contains(address),
    ;

    /// Read `u16` from the specified address, little-endian.
    fn read_u16(&mut self, address: u64) -> (r: Result<u16, MachineError>)
        requires
            old(self).inv(),
        ensures
            final(self).inv(),
            final(self).mem() == old(self).mem(),
            final(self).regs() == old(self).regs(),
            r matches Ok(v) ==> mem_has_range(old(self).mem(), address, 2) && v
                == spec_u16_from_le_bytes(mem_bytes(old(self).mem(), address, 2)),
            r is Err <==> !mem_has_range(old(self).mem(), address, 2),
    ;

    /// Read `u32` from the specified address, little-endian.
    fn read_u32(&mut self, address: u64) -> (r: Result<u32, MachineError>)
        requires
            old(self).inv(),
        ensures
            final(self).inv(),
            final(self).mem() == old(self).mem(),
            final(self).regs() == old(self).regs(),
            r matches Ok(v) ==> mem_has_range(old(self).mem(), address, 4) && v
                == spec_u32_from_le_bytes(mem_bytes(old(self).mem(), address, 4)),
            r is Err <==> !mem_has_range(old(self).mem(), address, 4),
    ;

    /// Read `u64` from the specified address, little-endian.
    fn read_u64(&mut self, address: u64) -> (r: Result<u64, MachineError>)
        requires
            old(self).inv(),
        ensures
            final(self).inv(),
            final(self).mem() == old(self).mem(),
            final(self).regs() == old(self).regs(),
            r matches Ok(v) ==> mem_has_range(old(self).mem(), address, 8) && v
                == spec_u64_from_le_bytes(mem_bytes(old(self).mem(), address, 8)),
            r is Err <==> !mem_has_range(old(self).mem(), address, 8),
    ;

    /// Read `length` bytes of memory starting at `address`.
    fn read_memory(&mut self, address: u64, length: u64) -> (r: Result<Vec<u8>, MachineError>)
        requires
            old(self).inv(),
        ensures
            final(self).inv(),
            final(self).mem() == old(self).mem(),
            final(self).regs() == old(self).regs(),
            r matches Ok(v) ==> v@ == mem_bytes(old(self).mem(), address, length as int)
                && v@.len() == length,
            r is Ok <==> mem_has_range(old(self).mem(), address, length as int) && length
                <= usize::MAX as u64,
    ;

    /// Write `u8` at the specified address.
    fn write_u8(&mut self, address: u64, value: u8) -> (r: Result<(), MachineError>)
        requires
            old(self).inv(),
        ensures
            final(self).inv(),
            final(self).regs() == old(self).regs(),
            r is Ok <==> mem_has_range(old(self).mem(), address, 1),
            r is Ok ==> final(self).mem() == mem_write(
                old(self).mem(),
                address,
                seq![value],
            ),
            r is Err ==> final(self).mem() == old(self).mem(),
    ;

    /// Write `u16` at the specified address, little-endian.
    fn write_u16(&mut self, address: u64, value: u16) -> (r: Result<(), MachineError>)
        requires
            old(self).inv(),
        ensures
            final(self).inv(),
            final(self).regs() == old(self).regs(),
            r is Ok <==> mem_has_range(old(self).mem(), address, 2),
            r is Ok ==> final(self).mem() == mem_write(
                old(self).mem(),
                address,
                spec_u16_to_le_bytes(value),
            ),
            r is Err ==> final(self).mem() == old(self).mem(),
    ;

    /// Write `u32` at the specified address, little-endian.
    fn write_u32(&mut self, address: u64, value: u32) -> (r: Result<(), MachineError>)
        requires
            old(self).inv(),
        ensures
            final(self).inv(),
            final(self).regs() == old(self).regs(),
            r is Ok <==> mem_has_range(old(self).mem(), address, 4),
            r is Ok ==> final(self).mem() == mem_write(
                old(self).mem(),
                address,
                spec_u32_to_le_bytes(value),
            ),
            r is Err ==> final(self).mem() == old(self).mem(),
    ;

    /// Write `u64` at the specified address, little-endian.
    fn write_u64(&mut self, address: u64, value: u64) -> (r: Result<(), MachineError>)
        requires
            old(self).inv(),
        ensures
            final(self).inv(),
            final(self).regs() == old(self).regs(),
            r is Ok <==> mem_has_range(old(self).mem(), address, 8),
            r is Ok ==> final(self).mem() == mem_write(
                old(self).mem(),
                address,
                spec_u64_to_le_bytes(value),
            ),
            r is Err ==> final(self).mem() == old(self).mem(),
    ;

    /// Write a slice at the specified address.
    fn write_memory(&mut self, address: u64, slice: &[u8]) -> (r: Result<(), MachineError>)
        requires
            old(self).inv(),
        ensures
            final(self).inv(),
            final(self).regs() == old(self).regs(),
            r is Ok <==> mem_has_range(old(self).mem(), address, slice@.len() as int),
            r is Ok ==> final(self).mem() == mem_write(old(self).mem(), address, slice@),
            r is Err ==> final(self).mem() == old(self).mem(),
    ;

    /// Read a NUL-terminated string from the provided address.
    ///
    /// `max_len` is the maximum number of bytes in the string, the NUL byte
    /// included.  The returned bytes do not include the terminator.
    ///
    /// The provided implementation reads the string byte by byte.
    /// Implementers may provide a faster version, as long as it keeps the
    /// same meaning.
    fn read_cstring(&mut self, address: u64, max_len: u64) -> (r: Result<Vec<u8>, MachineError>)
        requires
            old(self).inv(),
        ensures
            final(self).inv(),
            final(self).mem() == old(self).mem(),
            final(self).regs() == old(self).regs(),
            r matches Ok(s) ==> s@.len() + 1 <= max_len && cstring_at(old(self).mem(), address, s@),
            r is Err ==> !has_cstring(old(self).mem(), address, max_len),
    {
        let ghost m = old(self).mem();
        let mut buffer: Vec<u8> = Vec::new();
        let mut k: u64 = 0;
        while k < max_len
            invariant
                self.inv(),
                m == old(self).mem(),
                self.mem() == m,
                self.regs() == old(self).regs(),
                k <= max_len,
                buffer@.len() == k,
                mem_has_range(m, address, k as int),
                buffer@ == mem_bytes(m, address, k as int),
                forall|i: int| 0 <= i < k ==> #[trigger] buffer@[i] != 0,
            decreases max_len - k,
        {
            if k > u64::MAX - address {
                // The scan ran off the end of the address space without
                // finding a terminator.
                proof {
                    lemma_no_cstring_short_or_invalid(m, address, max_len, k as int, buffer@);
                }
                return Err(MachineError::BadAddress);
            }
            let byte = match self.read_u8(address + k) {
                Ok(b) => b,
                Err(_) => {
                    proof {
                        lemma_no_cstring_short_or_invalid(m, address, max_len, k as int, buffer@);
                    }
                    return Err(MachineError::BadAddress);
                },
            };
            if byte == 0 {
                proof {
                    assert forall|a: u64| address <= a < address + (k + 1) implies #[trigger] m
                        .dom()
                        .contains(a) by {
                        if a < address + k {
                        } else {
                            assert(a == address + k);
                        }
                    }
                }
                return Ok(buffer);
            }
            buffer.push(byte);
            k += 1;
            proof {
                assert(buffer@ =~= mem_bytes(m, address, k as int));
            }
        }
        proof {
            lemma_no_cstring_short_or_invalid(m, address, max_len, k as int, buffer@);
        }
        Err(MachineError::BadAddress)
    }

    /// Prepare the machine for calling the program's entry point.
    ///
    /// Builds the System V style startup stack below `default_sp`: the
    /// argument and environment strings, then the pointer table with
    /// `argc`, the argument and environment pointers, their NULL
    /// terminators, and the auxiliary vector `(AT_PAGESZ, 4096)` with its
    /// zero pair.  `SP` is left at the bottom of the image, `A0` at the
    /// `argc` word, and `RA` at `default_ra`.
    fn init(
        &mut self,
        default_sp: u64,
        default_ra: u64,
        argv: &Vec<Vec<u8>>,
        envp: &Vec<Vec<u8>>,
    ) -> (r: Result<(), MachineError>)
        requires
            old(self).inv(),
            8 * (argv@.len() + envp@.len() + 7) + cstr_block_len(argv@) + cstr_block_len(envp@)
                <= default_sp,
        ensures
            final(self).inv(),
            final(self).mem().dom() == old(self).mem().dom(),
            ({
                let table = init_table_addr(default_sp, argv@.len() as int, envp@.len() as int);
                let fsp = init_final_sp(default_sp, argv@, envp@);
                &&& forall|a: u64|
                    #![trigger old(self).mem().dom().contains(a)]
                    (a < fsp || a >= default_sp) && old(self).mem().dom().contains(a) ==> final(self).mem()[a] == old(self).mem()[a]
                &&& mem_has_range(old(self).mem(), fsp as u64, default_sp - fsp) ==> r is Ok
                &&& r is Err ==> final(self).regs() == old(self).regs()
                &&& r is Ok ==> final(self).regs() == old(self).regs().insert(
                    Reg::SP,
                    fsp as u64,
                ).insert(Reg::A0, table as u64).insert(Reg::RA, default_ra) && init_image_ok(
                    final(self).mem(),
                    default_sp,
                    argv@,
                    envp@,
                )
            }),
    {
        proof {
            lemma_cstr_prefix_mono(argv@, 0);
            lemma_cstr_prefix_mono(envp@, 0);
            lemma_cstr_prefix_mono(argv@, argv@.len() as int);
            lemma_cstr_prefix_mono(envp@, envp@.len() as int);
        }
        let ghost m0 = old(self).mem();
        let argc: u64 = argv.len() as u64;
        let envn: u64 = envp.len() as u64;
        let words: u64 = argc + envn + 7;
        let table: u64 = default_sp - 8 * words;
        let ghost fsp = init_final_sp(default_sp, argv@, envp@);
        let ghost total = default_sp - fsp;
        let mut sp: u64 = table;
        let mut tblv = u64_to_le_bytes(argc);
        proof {
            vstd::bytes::lemma_auto_spec_u64_to_from_le_bytes();
        }
        // The argument strings, descending from the table, while their
        // addresses accumulate in the table image.
        let mut i: usize = 0;
        while i < argv.len()
            invariant
                self.inv(),
                m0 == old(self).mem(),
                argc == argv@.len(),
                envn == envp@.len(),
                words == argc + envn + 7,
                8 * (argv@.len() + envp@.len() + 7) + cstr_block_len(argv@) + cstr_block_len(envp@)
                    <= default_sp,
                table as int == init_table_addr(default_sp, argv@.len() as int, envp@.len() as int),
                fsp == init_final_sp(default_sp, argv@, envp@),
                total == default_sp - fsp,
                0 <= fsp,
                i <= argv@.len(),
                sp as int == table - cstr_block_len(argv@.take(i as int)),
                tblv@.len() == 8 * (1 + i),
                tbl_slot(tblv@, 0) == spec_u64_to_le_bytes(argc),
                forall|i2: int|
                    0 <= i2 < i ==> #[trigger] tbl_slot(tblv@, 1 + i2) == spec_u64_to_le_bytes(
                        arg_string_addr(table as int, argv@, i2) as u64,
                    ),
                self.mem().dom() == m0.dom(),
                self.regs() == old(self).regs(),
                forall|a: u64|
                    #![trigger m0.dom().contains(a)]
                    (a < sp || a >= default_sp) && m0.dom().contains(a) ==> self.mem()[a] == m0[a],
                forall|i2: int|
                    0 <= i2 < i ==> #[trigger] arg_str_ok(self.mem(), table as int, argv@, i2),
            decreases argv@.len() - i,
        {
            proof {
                lemma_cstr_take_step(argv@, i as int);
                lemma_cstr_prefix_mono(argv@, i as int);
                lemma_cstr_prefix_mono(argv@, i as int + 1);
                lemma_cstr_nonneg(envp@);
                lemma_cstr_nonneg(argv@);
            }
            let arg = &argv[i];
            let len1: u64 = arg.len() as u64 + 1;
            sp = sp - len1;
            let mut sbuf = vstd::slice::slice_to_vec(arg.as_slice());
            sbuf.push(0u8);
            proof {
                assert(sbuf@ =~= argv@[i as int]@ + seq![0u8]);
            }
            let ghost mpre = self.mem();
            let wr = self.write_memory(sp, sbuf.as_slice());
            proof {
                assert(self.mem().dom() =~= m0.dom());
            }
            match wr {
                Ok(_) => {},
                Err(_) => {
                    proof {
                        lemma_cstr_nonneg(argv@);
                        lemma_cstr_nonneg(envp@);
                        if mem_has_range(m0, fsp as u64, total as int) {
                            lemma_range_subset(
                                m0,
                                fsp as u64,
                                total as int,
                                sp,
                                sbuf@.len() as int,
                            );
                        }
                    }
                    return Err(MachineError::BadAddress);
                },
            }
            proof {
                assert forall|i2: int| 0 <= i2 < i implies #[trigger] arg_str_ok(
                    self.mem(),
                    table as int,
                    argv@,
                    i2,
                ) by {
                    lemma_cstr_prefix_mono(argv@.take(i as int), i2 + 1);
                    assert(argv@.take(i as int).take(i2 + 1) =~= argv@.take(i2 + 1));
                    lemma_cstr_prefix_mono(argv@, i2 + 1);
                    lemma_cstr_nonneg(envp@);
                    assert(arg_str_ok(mpre, table as int, argv@, i2));
                    lemma_write_preserves_cell(
                        mpre,
                        sp,
                        sbuf@,
                        arg_string_addr(table as int, argv@, i2) as u64,
                        argv@[i2]@.len() + 1 as int,
                    );
                }
                lemma_write_reads_back(mpre, sp, sbuf@);
                assert(arg_str_ok(self.mem(), table as int, argv@, i as int));
            }
            let mut ptr_bytes = u64_to_le_bytes(sp);
            let ghost tbl_pre = tblv@;
            tblv.append(&mut ptr_bytes);
            proof {
                assert forall|i2: int| 0 <= i2 < i + 1 implies #[trigger] tbl_slot(tblv@, 1 + i2)
                    == spec_u64_to_le_bytes(arg_string_addr(table as int, argv@, i2) as u64) by {
                    if i2 < i {
                        assert(tbl_slot(tblv@, 1 + i2) =~= tbl_slot(tbl_pre, 1 + i2));
                    } else {
                        assert(tbl_slot(tblv@, 1 + i2) =~= spec_u64_to_le_bytes(sp));
                    }
                }
                assert(tbl_slot(tblv@, 0) =~= tbl_slot(tbl_pre, 0));
            }
            i += 1;
        }
        proof {
            assert(argv@.take(argv@.len() as int) =~= argv@);
        }
        // The environment strings, below the argument strings, while their
        // addresses follow the NULL terminator in the table image.
        let mut null_bytes = u64_to_le_bytes(0);
        let ghost tbl_pre = tblv@;
        tblv.append(&mut null_bytes);
        proof {
            assert(tbl_slot(tblv@, 0) =~= tbl_slot(tbl_pre, 0));
            assert forall|i2: int| 0 <= i2 < argc implies #[trigger] tbl_slot(tblv@, 1 + i2)
                == spec_u64_to_le_bytes(arg_string_addr(table as int, argv@, i2) as u64) by {
                assert(tbl_slot(tblv@, 1 + i2) =~= tbl_slot(tbl_pre, 1 + i2));
            }
            assert(tbl_slot(tblv@, argc + 1 as int) =~= spec_u64_to_le_bytes(0));
        }
        let mut j: usize = 0;
        while j < envp.len()
            invariant
                self.inv(),
                m0 == old(self).mem(),
                argc == argv@.len(),
                envn == envp@.len(),
                words == argc + envn + 7,
                8 * (argv@.len() + envp@.len() + 7) + cstr_block_len(argv@) + cstr_block_len(envp@)
                    <= default_sp,
                table as int == init_table_addr(default_sp, argv@.len() as int, envp@.len() as int),
                fsp == init_final_sp(default_sp, argv@, envp@),
                total == default_sp - fsp,
                0 <= fsp,
                j <= envp@.len(),
                sp as int == table - cstr_block_len(argv@) - cstr_block_len(envp@.take(j as int)),
                tblv@.len() == 8 * (2 + argc + j),
                tbl_slot(tblv@, 0) == spec_u64_to_le_bytes(argc),
                forall|i2: int|
                    0 <= i2 < argc ==> #[trigger] tbl_slot(tblv@, 1 + i2) == spec_u64_to_le_bytes(
                        arg_string_addr(table as int, argv@, i2) as u64,
                    ),
                tbl_slot(tblv@, argc + 1 as int) == spec_u64_to_le_bytes(0),
                forall|j2: int|
                    0 <= j2 < j ==> #[trigger] tbl_slot(tblv@, argc + 2 + j2)
                        == spec_u64_to_le_bytes(
                        env_string_addr(table as int, argv@, envp@, j2) as u64,
                    ),
                self.mem().dom() == m0.dom(),
                self.regs() == old(self).regs(),
                forall|a: u64|
                    #![trigger m0.dom().contains(a)]
                    (a < sp || a >= default_sp) && m0.dom().contains(a) ==> self.mem()[a] == m0[a],
                forall|i2: int|
                    0 <= i2 < argc ==> #[trigger] arg_str_ok(self.mem(), table as int, argv@, i2),
                forall|j2: int|
                    0 <= j2 < j ==> #[trigger] env_str_ok(
                        self.mem(),
                        table as int,
                        argv@,
                        envp@,
                        j2,
                    ),
            decreases envp@.len() - j,
        {
            proof {
                lemma_cstr_take_step(envp@, j as int);
                lemma_cstr_prefix_mono(envp@, j as int);
                lemma_cstr_prefix_mono(envp@, j as int + 1);
                lemma_cstr_nonneg(envp@);
                lemma_cstr_nonneg(argv@);
            }
            let arg = &envp[j];
            let len1: u64 = arg.len() as u64 + 1;
            sp = sp - len1;
            let mut sbuf = vstd::slice::slice_to_vec(arg.as_slice());
            sbuf.push(0u8);
            proof {
                assert(sbuf@ =~= envp@[j as int]@ + seq![0u8]);
            }
            let ghost mpre = self.mem();
            let wr = self.write_memory(sp, sbuf.as_slice());
            proof {
                assert(self.mem().dom() =~= m0.dom());
            }
            match wr {
                Ok(_) => {},
                Err(_) => {
                    proof {
                        lemma_cstr_nonneg(argv@);
                        lemma_cstr_nonneg(envp@);
                        if mem_has_range(m0, fsp as u64, total as int) {
                            lemma_range_subset(
                                m0,
                                fsp as u64,
                                total as int,
                                sp,
                                sbuf@.len() as int,
                            );
                        }
                    }
                    return Err(MachineError::BadAddress);
                },
            }
            proof {
                assert forall|i2: int| 0 <= i2 < argc implies #[trigger] arg_str_ok(
                    self.mem(),
                    table as int,
                    argv@,
                    i2,
                ) by {
                    lemma_cstr_prefix_mono(argv@, i2 + 1);
                    lemma_cstr_nonneg(envp@);
                    lemma_cstr_prefix_mono(envp@, j as int);
                    assert(arg_str_ok(mpre, table as int, argv@, i2));
                    lemma_write_preserves_cell(
                        mpre,
                        sp,
                        sbuf@,
                        arg_string_addr(table as int, argv@, i2) as u64,
                        argv@[i2]@.len() + 1 as int,
                    );
                }
                assert forall|j2: int| 0 <= j2 < j implies #[trigger] env_str_ok(
                    self.mem(),
                    table as int,
                    argv@,
                    envp@,
                    j2,
                ) by {
                    lemma_cstr_prefix_mono(envp@.take(j as int), j2 + 1);
                    assert(envp@.take(j as int).take(j2 + 1) =~= envp@.take(j2 + 1));
                    lemma_cstr_prefix_mono(envp@, j2 + 1);
                    lemma_cstr_nonneg(argv@);
                    assert(env_str_ok(mpre, table as int, argv@, envp@, j2));
                    lemma_write_preserves_cell(
                        mpre,
                        sp,
                        sbuf@,
                        env_string_addr(table as int, argv@, envp@, j2) as u64,
                        envp@[j2]@.len() + 1 as int,
                    );
                }
                lemma_write_reads_back(mpre, sp, sbuf@);
                assert(env_str_ok(self.mem(), table as int, argv@, envp@, j as int));
            }
            let mut ptr_bytes = u64_to_le_bytes(sp);
            let ghost tbl_pre = tblv@;
            tblv.append(&mut ptr_bytes);
            proof {
                assert(tbl_slot(tblv@, 0) =~= tbl_slot(tbl_pre, 0));
                assert forall|i2: int| 0 <= i2 < argc implies #[trigger] tbl_slot(tblv@, 1 + i2)
                    == spec_u64_to_le_bytes(arg_string_addr(table as int, argv@, i2) as u64) by {
                    assert(tbl_slot(tblv@, 1 + i2) =~= tbl_slot(tbl_pre, 1 + i2));
                }
                assert(tbl_slot(tblv@, argc + 1 as int) =~= tbl_slot(tbl_pre, argc + 1 as int));
                assert forall|j2: int| 0 <= j2 < j + 1 implies #[trigger] tbl_slot(
                    tblv@,
                    argc + 2 + j2,
                ) == spec_u64_to_le_bytes(
                    env_string_addr(table as int, argv@, envp@, j2) as u64,
                ) by {
                    if j2 < j {
                        assert(tbl_slot(tblv@, argc + 2 + j2) =~= tbl_slot(tbl_pre, argc + 2 + j2));
                    } else {
                        assert(tbl_slot(tblv@, argc + 2 + j2) =~= spec_u64_to_le_bytes(sp));
                    }
                }
            }
            j += 1;
        }
        proof {
            assert(envp@.take(envp@.len() as int) =~= envp@);
            assert(sp as int == fsp);
        }
        // The tail of the table: the NULL after the environment pointers
        // and the auxiliary vector with its zero terminator.
        let tail_words: [u64; 5] = [0, 6, 4096, 0, 0];
        let mut t: usize = 0;
        while t < 5
            invariant
                t <= 5,
                argc == argv@.len(),
                envn == envp@.len(),
                tail_words@ =~= seq![0u64, 6u64, 4096u64, 0u64, 0u64],
                tblv@.len() == 8 * (2 + argc + envn + t),
                tbl_slot(tblv@, 0) == spec_u64_to_le_bytes(argc),
                forall|i2: int|
                    0 <= i2 < argc ==> #[trigger] tbl_slot(tblv@, 1 + i2) == spec_u64_to_le_bytes(
                        arg_string_addr(table as int, argv@, i2) as u64,
                    ),
                tbl_slot(tblv@, argc + 1 as int) == spec_u64_to_le_bytes(0),
                forall|j2: int|
                    0 <= j2 < envn ==> #[trigger] tbl_slot(tblv@, argc + 2 + j2)
                        == spec_u64_to_le_bytes(
                        env_string_addr(table as int, argv@, envp@, j2) as u64,
                    ),
                forall|t2: int|
                    0 <= t2 < t ==> #[trigger] tbl_slot(tblv@, argc + envn + 2 + t2)
                        == spec_u64_to_le_bytes(tail_words@[t2]),
            decreases 5 - t,
        {
            let mut word_bytes = u64_to_le_bytes(tail_words[t]);
            let ghost tbl_pre = tblv@;
            tblv.append(&mut word_bytes);
            proof {
                assert(tbl_slot(tblv@, 0) =~= tbl_slot(tbl_pre, 0));
                assert forall|i2: int| 0 <= i2 < argc implies #[trigger] tbl_slot(tblv@, 1 + i2)
                    == spec_u64_to_le_bytes(arg_string_addr(table as int, argv@, i2) as u64) by {
                    assert(tbl_slot(tblv@, 1 + i2) =~= tbl_slot(tbl_pre, 1 + i2));
                }
                assert(tbl_slot(tblv@, argc + 1 as int) =~= tbl_slot(tbl_pre, argc + 1 as int));
                assert forall|j2: int| 0 <= j2 < envn implies #[trigger] tbl_slot(
                    tblv@,
                    argc + 2 + j2,
                ) == spec_u64_to_le_bytes(
                    env_string_addr(table as int, argv@, envp@, j2) as u64,
                ) by {
                    assert(tbl_slot(tblv@, argc + 2 + j2) =~= tbl_slot(tbl_pre, argc + 2 + j2));
                }
                assert forall|t2: int| 0 <= t2 < t + 1 implies #[trigger] tbl_slot(
                    tblv@,
                    argc + envn + 2 + t2,
                ) == spec_u64_to_le_bytes(tail_words@[t2]) by {
                    if t2 < t {
                        assert(tbl_slot(tblv@, argc + envn + 2 + t2) =~= tbl_slot(
                            tbl_pre,
                            argc + envn + 2 + t2,
                        ));
                    } else {
                        assert(tbl_slot(tblv@, argc + envn + 2 + t2) =~= spec_u64_to_le_bytes(
                            tail_words@[t2],
                        ));
                    }
                }
            }
            t += 1;
        }
        // One write lays the whole pointer table down.
        let ghost mpre = self.mem();
        let wr = self.write_memory(table, tblv.as_slice());
        proof {
            assert(self.mem().dom() =~= m0.dom());
        }
        match wr {
            Ok(_) => {},
            Err(_) => {
                proof {
                    if mem_has_range(m0, fsp as u64, total as int) {
                        lemma_range_subset(m0, fsp as u64, total as int, table, tblv@.len() as int);
                    }
                }
                return Err(MachineError::BadAddress);
            },
        }
        proof {
            assert forall|i2: int| 0 <= i2 < argc implies #[trigger] arg_str_ok(
                self.mem(),
                table as int,
                argv@,
                i2,
            ) by {
                lemma_cstr_take_step(argv@, i2);
                lemma_cstr_prefix_mono(argv@, i2);
                lemma_cstr_prefix_mono(argv@, i2 + 1);
                lemma_cstr_nonneg(envp@);
                assert(arg_str_ok(mpre, table as int, argv@, i2));
                lemma_write_preserves_cell(
                    mpre,
                    table,
                    tblv@,
                    arg_string_addr(table as int, argv@, i2) as u64,
                    argv@[i2]@.len() + 1 as int,
                );
            }
            assert forall|j2: int| 0 <= j2 < envn implies #[trigger] env_str_ok(
                self.mem(),
                table as int,
                argv@,
                envp@,
                j2,
            ) by {
                lemma_cstr_take_step(envp@, j2);
                lemma_cstr_prefix_mono(envp@, j2);
                lemma_cstr_prefix_mono(envp@, j2 + 1);
                lemma_cstr_nonneg(argv@);
                assert(env_str_ok(mpre, table as int, argv@, envp@, j2));
                lemma_write_preserves_cell(
                    mpre,
                    table,
                    tblv@,
                    env_string_addr(table as int, argv@, envp@, j2) as u64,
                    envp@[j2]@.len() + 1 as int,
                );
            }
            lemma_write_reads_sub(mpre, table, tblv@, 0, 8);
            assert(mem_bytes(self.mem(), table, 8) =~= tbl_slot(tblv@, 0));
            assert forall|i2: int| 0 <= i2 < argc implies #[trigger] arg_ptr_ok(
                self.mem(),
                table as int,
                argv@,
                i2,
            ) by {
                lemma_write_reads_sub(mpre, table, tblv@, 8 * (1 + i2), 8);
                assert(mem_bytes(self.mem(), (table + 8 * (1 + i2)) as u64, 8) =~= tbl_slot(
                    tblv@,
                    1 + i2,
                ));
            }
            assert forall|j2: int| 0 <= j2 < envn implies #[trigger] env_ptr_ok(
                self.mem(),
                table as int,
                argv@,
                envp@,
                j2,
            ) by {
                lemma_write_reads_sub(mpre, table, tblv@, 8 * (argc + 2 + j2), 8);
                assert(mem_bytes(self.mem(), (table + 8 * (argc + 2 + j2)) as u64, 8) =~= tbl_slot(
                    tblv@,
                    argc + 2 + j2,
                ));
            }
            lemma_write_reads_sub(mpre, table, tblv@, 8 * (argc + 1 as int), 8);
            assert(mem_bytes(self.mem(), (table + 8 * (argc + 1)) as u64, 8) =~= tbl_slot(
                tblv@,
                argc + 1 as int,
            ));
            assert(tbl_slot(tblv@, argc + envn + 2 + 0) == spec_u64_to_le_bytes(tail_words@[0]));
            assert(tbl_slot(tblv@, argc + envn + 2 + 1) == spec_u64_to_le_bytes(tail_words@[1]));
            assert(tbl_slot(tblv@, argc + envn + 2 + 2) == spec_u64_to_le_bytes(tail_words@[2]));
            assert(tbl_slot(tblv@, argc + envn + 2 + 3) == spec_u64_to_le_bytes(tail_words@[3]));
            assert(tbl_slot(tblv@, argc + envn + 2 + 4) == spec_u64_to_le_bytes(tail_words@[4]));
            lemma_write_reads_sub(mpre, table, tblv@, 8 * (argc + envn + 2 as int), 8);
            assert(mem_bytes(self.mem(), (table + 8 * (argc + envn + 2)) as u64, 8) =~= tbl_slot(
                tblv@,
                argc + envn + 2 as int,
            ));
            lemma_write_reads_sub(mpre, table, tblv@, 8 * (argc + envn + 3 as int), 8);
            assert(mem_bytes(self.mem(), (table + 8 * (argc + envn + 3)) as u64, 8) =~= tbl_slot(
                tblv@,
                argc + envn + 3 as int,
            ));
            lemma_write_reads_sub(mpre, table, tblv@, 8 * (argc + envn + 4 as int), 8);
            assert(mem_bytes(self.mem(), (table + 8 * (argc + envn + 4)) as u64, 8) =~= tbl_slot(
                tblv@,
                argc + envn + 4 as int,
            ));
            lemma_write_reads_sub(mpre, table, tblv@, 8 * (argc + envn + 5 as int), 8);
            assert(mem_bytes(self.mem(), (table + 8 * (argc + envn + 5)) as u64, 8) =~= tbl_slot(
                tblv@,
                argc + envn + 5 as int,
            ));
            lemma_write_reads_sub(mpre, table, tblv@, 8 * (argc + envn + 6 as int), 8);
            assert(mem_bytes(self.mem(), (table + 8 * (argc + envn + 6)) as u64, 8) =~= tbl_slot(
                tblv@,
                argc + envn + 6 as int,
            ));
        }
        self.set_reg(Reg::SP, sp);
        self.set_reg(Reg::A0, table);
        self.set_reg(Reg::RA, default_ra);
        proof {
            assert(init_image_ok(self.mem(), default_sp, argv@, envp@));
        }
        Ok(())
    }
}

/// The `k`-th eight-byte word of a table image.
pub open spec fn tbl_slot(v: Seq<u8>, k: int) -> Seq<u8> {
    v.subrange(8 * k, 8 * k + 8)
}

/// Reading a sub-range of the range just written yields the matching part
/// of the written data.
proof fn lemma_write_reads_sub(m: Map<u64, u8>, wa: u64, d: Seq<u8>, off: int, n: int)
    requires
        mem_has_range(m, wa, d.len() as int),
        0 <= off,
        n >= 0,
        off + n <= d.len(),
    ensures
        mem_has_range(mem_write(m, wa, d), (wa + off) as u64, n),
        mem_bytes(mem_write(m, wa, d), (wa + off) as u64, n) == d.subrange(off, off + n),
{
    assert(mem_write(m, wa, d).dom() =~= m.dom());
    let a2 = (wa + off) as u64;
    assert forall|i: int| 0 <= i < n implies mem_bytes(mem_write(m, wa, d), a2, n)[i]
        == d.subrange(off, off + n)[i] by {
        let x = (a2 + i) as u64;
        assert(m.dom().contains(x));
        assert(mem_write(m, wa, d)[x] == d[off + i]);
    }
    assert(mem_bytes(mem_write(m, wa, d), a2, n) =~= d.subrange(off, off + n));
}

/// If the first `k` bytes at `addr` are non-NUL, and either `k` reached
/// `max_len` or the byte after them is unreadable, then no NUL-terminated
/// string of fewer than `max_len` bytes is stored at `addr`.
proof fn lemma_no_cstring_short_or_invalid(
    m: Map<u64, u8>,
    addr: u64,
    max_len: u64,
    k: int,
    prefix: Seq<u8>,
)
    requires
        0 <= k <= max_len,
        prefix.len() == k,
        mem_has_range(m, addr, k),
        prefix == mem_bytes(m, addr, k),
        forall|i: int| 0 <= i < k ==> #[trigger] prefix[i] != 0,
        k == max_len || addr + k > u64::MAX || !m.dom().contains((addr + k) as u64),
    ensures
        !has_cstring(m, addr, max_len),
{
    assert forall|s: Seq<u8>| s.len() + 1 <= max_len implies !cstring_at(m, addr, s) by {
        if cstring_at(m, addr, s) {
            if s.len() < k {
                assert(m[(addr + s.len()) as u64] == 0);
                assert(prefix[s.len() as int] == m[(addr + s.len()) as u64]);
                assert(prefix[s.len() as int] != 0);
            } else {
                // The terminator would lie at or past offset `k`, so the
                // range of `s` covers the failing address.
                assert(s.len() + 1 <= max_len);
                assert(k < max_len);
                assert(addr + k <= addr + s.len());
                if addr + k > u64::MAX {
                    assert(addr + s.len() + 1 > u64::MAX + 1);
                } else {
                    assert(m.dom().contains((addr + k) as u64));
                }
            }
        }
    }
}

/// A machine backed by a flat byte array: addresses `0 .. size` are valid,
/// and the thirteen registers live in an ordinary vector.
pub struct FlatMachine {
    regs: Vec<u64>,
    mem: Vec<u8>,
}

impl FlatMachine {
    /// A machine whose memory is `size` zero bytes, with all registers zero.
    pub fn new(size: usize) -> (r: FlatMachine)
        ensures
            r.inv(),
            r.mem() == Map::<u64, u8>::new(|a: u64| a < size as u64, |a: u64| 0u8),
            r.regs() == Map::<Reg, u64>::new(|x: Reg| true, |x: Reg| 0u64),
    {
        let r = FlatMachine { regs: vec![0u64; 13], mem: vec![0u8; size] };
        proof {
            assert(r.mem() =~= Map::<u64, u8>::new(|a: u64| a < size as u64, |a: u64| 0u8));
            assert(r.regs() =~= Map::<Reg, u64>::new(|x: Reg| true, |x: Reg| 0u64));
        }
        r
    }

    /// Fetch `len` bytes starting at `address`, if the whole range is valid.
    fn take_bytes(&self, address: u64, len: u64) -> (r: Option<Vec<u8>>)
        requires
            self.inv(),
        ensures
            r matches Some(v) ==> mem_has_range(self.mem(), address, len as int) && v@ == mem_bytes(
                self.mem(),
                address,
                len as int,
            ) && v@.len() == len && len <= usize::MAX as u64,
            r is None <==> !mem_has_range(self.mem(), address, len as int),
    {
        if len == 0 {
            proof {
                assert(Seq::<u8>::empty() =~= mem_bytes(self.mem(), address, 0));
            }
            return Some(Vec::new());
        }
        let mlen: usize = self.mem.len();
        if len - 1 > u64::MAX - address || address + (len - 1) >= mlen as u64 {
            proof {
                if address + len <= u64::MAX + 1 {
                    let bad = (address + len - 1) as u64;
                    assert(!self.mem().dom().contains(bad));
                }
            }
            return None;
        }
        let base: usize = address as usize;
        let n: usize = len as usize;
        let mut v: Vec<u8> = Vec::new();
        let mut i: usize = 0;
        while i < n
            invariant
                self.inv(),
                i <= n,
                base == address,
                n == len,
                base + n <= self.mem@.len(),
                base + n <= usize::MAX,
                self.mem@.len() <= usize::MAX,
                v@.len() == i,
                v@ == mem_bytes(self.mem(), address, i as int),
            decreases n - i,
        {
            v.push(self.mem[base + i]);
            i += 1;
            proof {
                assert(v@ =~= mem_bytes(self.mem(), address, i as int));
            }
        }
        proof {
            assert forall|a: u64| address <= a < address + len implies #[trigger] self
                .mem()
                .dom()
                .contains(a) by {}
        }
        Some(v)
    }

    /// Store `data` at `address`, if the whole range is valid.
    fn put_bytes(&mut self, address: u64, data: &[u8]) -> (r: Result<(), MachineError>)
        requires
            old(self).inv(),
        ensures
            final(self).inv(),
            final(self).regs() == old(self).regs(),
            r is Ok <==> mem_has_range(old(self).mem(), address, data@.len() as int),
            r is Ok ==> final(self).mem() == mem_write(old(self).mem(), address, data@),
            r is Err ==> final(self).mem() == old(self).mem(),
    {
        let len = data.len() as u64;
        if len == 0 {
            proof {
                assert(self.mem() =~= mem_write(self.mem(), address, data@));
            }
            return Ok(());
        }
        let mlen: usize = self.mem.len();
        if len - 1 > u64::MAX - address || address + (len - 1) >= mlen as u64 {
            proof {
                if address + len <= u64::MAX + 1 {
                    let bad = (address + len - 1) as u64;
                    assert(!self.mem().dom().contains(bad));
                }
            }
            return Err(MachineError::BadAddress);
        }
        let ghost m0 = self.mem();
        let base: usize = address as usize;
        let n: usize = data.len();
        let mut i: usize = 0;
        while i < n
            invariant
                self.inv(),
                i <= n,
                base == address,
                n == data@.len(),
                base + n <= self.mem@.len(),
                base + n <= usize::MAX,
                self.mem@.len() <= usize::MAX,
                self.regs() == old(self).regs(),
                self.mem@.len() == old(self).mem@.len(),
                forall|j: int|
                    0 <= j < self.mem@.len() ==> #[trigger] self.mem@[j] == if address <= j
                        < address + i {
                        data@[j - address]
                    } else {
                        old(self).mem@[j]
                    },
            decreases n - i,
        {
            self.mem[base + i] = data[i];
            i += 1;
        }
        proof {
            assert forall|a: u64| address <= a < address + len implies #[trigger] m0
                .dom()
                .contains(a) by {}
            assert(self.mem() =~= mem_write(m0, address, data@));
        }
        Ok(())
    }
}

impl Machine for FlatMachine {
    closed spec fn inv(&self) -> bool {
        self.regs@.len() == 13
    }

    closed spec fn mem(&self) -> Map<u64, u8> {
        Map::new(|a: u64| a < self.mem@.len() as u64, |a: u64| self.mem@[a as int])
    }

    closed spec fn regs(&self) -> Map<Reg, u64> {
        Map::new(|x: Reg| true, |x: Reg| self.regs@[x.code_spec()])
    }

    fn reg(&self, name: Reg) -> (v: u64) {
        let c = name.code();
        self.regs[c as usize]
    }

    fn set_reg(&mut self, name: Reg, value: u64) {
        let c = name.code();
        self.regs[c as usize] = value;
        proof {
            assert forall|x: Reg| true implies #[trigger] self.regs()[x] == old(self).regs().insert(
                name,
                value,
            )[x] by {
                if x == name {
                } else {
                    assert(x.code_spec() != name.code_spec());
                }
            }
            assert(self.regs() =~= old(self).regs().insert(name, value));
        }
    }

    fn read_u8(&mut self, address: u64) -> (r: Result<u8, MachineError>) {
        if address < self.mem.len() as u64 {
            Ok(self.mem[address as usize])
        } else {
            Err(MachineError::BadAddress)
        }
    }

    fn read_u16(&mut self, address: u64) -> (r: Result<u16, MachineError>) {
        match self.take_bytes(address, 2) {
            Some(v) => Ok(u16_from_le_bytes(v.as_slice())),
            None => Err(MachineError::BadAddress),
        }
    }

    fn read_u32(&mut self, address: u64) -> (r: Result<u32, MachineError>) {
        match self.take_bytes(address, 4) {
            Some(v) => Ok(u32_from_le_bytes(v.as_slice())),
            None => Err(MachineError::BadAddress),
        }
    }

    fn read_u64(&mut self, address: u64) -> (r: Result<u64, MachineError>) {
        match self.take_bytes(address, 8) {
            Some(v) => Ok(u64_from_le_bytes(v.as_slice())),
            None => Err(MachineError::BadAddress),
        }
    }

    fn read_memory(&mut self, address: u64, length: u64) -> (r: Result<Vec<u8>, MachineError>) {
        match self.take_bytes(address, length) {
            Some(v) => Ok(v),
            None => Err(MachineError::BadAddress),
        }
    }

    fn write_u8(&mut self, address: u64, value: u8) -> (r: Result<(), MachineError>) {
        let data = [value];
        let r = self.put_bytes(address, data.as_slice());
        proof {
            assert(data@ =~= seq![value]);
        }
        r
    }

    fn write_u16(&mut self, address: u64, value: u16) -> (r: Result<(), MachineError>) {
        let data = u16_to_le_bytes(value);
        self.put_bytes(address, data.as_slice())
    }

    fn write_u32(&mut self, address: u64, value: u32) -> (r: Result<(), MachineError>) {
        let data = u32_to_le_bytes(value);
        self.put_bytes(address, data.as_slice())
    }

    fn write_u64(&mut self, address: u64, value: u64) -> (r: Result<(), MachineError>) {
        let data = u64_to_le_bytes(value);
        self.put_bytes(address, data.as_slice())
    }

    fn write_memory(&mut self, address: u64, slice: &[u8]) -> (r: Result<(), MachineError>) {
        self.put_bytes(address, slice)
    }
}

} // verus!
