//! The file-system capability, the directory-entry encoder, and the
//! lexical path normaliser.
//!
//! Paths are NUL-free byte strings.  The normaliser drops empty and `.`
//! components, lets `..` pop one component, and preserves a leading slash;
//! it is purely lexical, and provably idempotent.

use vstd::prelude::*;
use vstd::bytes::{
    spec_u16_to_le_bytes, spec_u64_to_le_bytes, u16_to_le_bytes, u64_to_le_bytes,
    lemma_auto_spec_u16_to_from_le_bytes, lemma_auto_spec_u64_to_from_le_bytes,
};
use crate::error::Error;

verus! {

/// File system node metadata.
#[derive(Debug, Clone, Copy)]
pub struct Metadata {
    pub id: u64,
    pub size: u64,
    pub mode: u32,
    pub block_size: u64,
}

/// File read/write position anchor.
#[derive(Debug, Clone, Copy, PartialEq, Eq, Structural)]
pub enum SeekFrom {
    /// Offset from the start of the file.
    Start(u64),
    /// Offset from the end of the file.
    End(i64),
    /// Offset from the current read/write position.
    Current(i64),
}

/// `x + off`, wrapped into the 64-bit range.  `x` is an unsigned register
/// value, `off` a signed displacement, so the true sum lies strictly
/// between `-2^64` and `2^65` and a single correction suffices.
pub open spec fn spec_wrap_add(x: u64, off: i64) -> int {
    if x + off < 0 {
        x + off + 0x1_0000_0000_0000_0000
    } else if x + off > u64::MAX {
        x + off - 0x1_0000_0000_0000_0000
    } else {
        x + off
    }
}

/// The offset that a seek lands on: start-anchored seeks are absolute,
/// current- and end-anchored seeks wrap like 64-bit machine arithmetic and
/// clamp to the file size.
pub open spec fn spec_seek_target(size: u64, pos: u64, from: SeekFrom) -> int {
    match from {
        SeekFrom::Start(o) => o as int,
        SeekFrom::Current(o) => vstd::math::min(spec_wrap_add(pos, o), size as int),
        SeekFrom::End(o) => vstd::math::min(spec_wrap_add(size, o), size as int),
    }
}

/// `x + off` wrapped to 64 bits, computed without overflow.
pub fn wrap_add(x: u64, off: i64) -> (r: u64)
    ensures
        r == spec_wrap_add(x, off),
{
    if off >= 0 {
        let inc = off as u64;
        if x > u64::MAX - inc {
            // Wraps: x + inc - 2^64.
            x - (u64::MAX - inc) - 1
        } else {
            x + inc
        }
    } else {
        let dec: u64 = if off == i64::MIN {
            0x8000_0000_0000_0000u64
        } else {
            (-off) as u64
        };
        if x >= dec {
            x - dec
        } else {
            // Wraps: x - dec + 2^64.
            (u64::MAX - dec) + 1 + x
        }
    }
}

/// File system of a user-space program.
///
/// A file handle is modelled by the byte contents visible through it and a
/// current offset.  Which paths exist, and what they hold, is left to the
/// implementation; the contracts here pin down how each operation treats
/// an open handle.
pub trait FileSystem: Sized {
    type Fd;

    /// Implementation-specific well-formedness; every operation preserves it.
    spec fn inv(&self) -> bool;

    /// The file contents visible through an open handle.
    spec fn fd_data(fd: &Self::Fd) -> Seq<u8>;

    /// The current read offset of an open handle.
    spec fn fd_pos(fd: &Self::Fd) -> u64;

    /// Open the file under the provided path.  A freshly opened handle
    /// reads from offset zero.
    fn open(&mut self, path: &[u8], flags: u64) -> (r: Result<Self::Fd, Error>)
        requires
            old(self).inv(),
        ensures
            final(self).inv(),
            r matches Ok(fd) ==> Self::fd_pos(&fd) == 0,
    ;

    /// Set the current read offset of the opened file.  Returns the
    /// resulting offset, per [`spec_seek_target`].
    fn seek(&mut self, fd: &mut Self::Fd, from: SeekFrom) -> (r: Result<u64, Error>)
        requires
            old(self).inv(),
        ensures
            final(self).inv(),
            Self::fd_data(final(fd)) == Self::fd_data(old(fd)),
            r matches Ok(n) ==> n == Self::fd_pos(final(fd)) && n == spec_seek_target(
                Self::fd_data(old(fd)).len() as u64,
                Self::fd_pos(old(fd)),
                from,
            ),
            r is Err ==> Self::fd_pos(final(fd)) == Self::fd_pos(old(fd)),
    ;

    /// Read from the opened file into the front of `buf`, advancing the
    /// handle's offset.  Short reads are allowed; `0` signals end of file
    /// (or an empty buffer).
    fn read(&mut self, fd: &mut Self::Fd, buf: &mut Vec<u8>) -> (r: Result<usize, Error>)
        requires
            old(self).inv(),
        ensures
            final(self).inv(),
            Self::fd_data(final(fd)) == Self::fd_data(old(fd)),
            final(buf)@.len() == old(buf)@.len(),
            r matches Ok(n) ==> {
                let data = Self::fd_data(old(fd));
                let p = Self::fd_pos(old(fd));
                &&& n <= old(buf)@.len()
                &&& n > 0 ==> p + n <= data.len() && final(buf)@ == data.subrange(
                    p as int,
                    p + n,
                ) + old(buf)@.skip(n as int) && Self::fd_pos(final(fd)) == p + n
                &&& n == 0 ==> (p >= data.len() || old(buf)@.len() == 0) && final(buf)@ == old(
                    buf,
                )@ && Self::fd_pos(final(fd)) == p
            },
            r is Err ==> final(buf)@ == old(buf)@ && Self::fd_pos(final(fd)) == Self::fd_pos(
                old(fd),
            ),
    ;

    /// Read packed directory entries into the front of `buf`.  Returns the
    /// number of bytes written; `0` means there are no more entries.
    fn read_dir(&mut self, fd: &mut Self::Fd, buf: &mut Vec<u8>) -> (r: Result<usize, Error>)
        requires
            old(self).inv(),
        ensures
            final(self).inv(),
            final(buf)@.len() == old(buf)@.len(),
            r matches Ok(n) ==> n <= old(buf)@.len() && final(buf)@.skip(n as int) == old(
                buf,
            )@.skip(n as int),
            r is Err ==> final(buf)@ == old(buf)@,
    ;

    /// Read file metadata from the provided path.
    fn metadata(&mut self, path: &[u8]) -> (r: Result<Metadata, Error>)
        requires
            old(self).inv(),
        ensures
            final(self).inv(),
    ;
}

/// The padded length of a directory entry whose file name, NUL included,
/// is `name_len` bytes: the 19-byte header plus the name, rounded up to an
/// 8-byte boundary.
pub open spec fn spec_dir_entry_len(name_len: int) -> int {
    ((19 + name_len + 7) / 8) * 8
}

/// Get the directory entry length for the provided file name length
/// (which counts the terminating NUL).
pub fn dir_entry_len(name_len: usize) -> (r: usize)
    requires
        name_len <= usize::MAX - 26,
    ensures
        r == spec_dir_entry_len(name_len as int),
{
    let real_len = 8 + 8 + 2 + 1 + name_len;
    ((real_len + 7) / 8) * 8
}

/// Error from [`write_dir_entry`].
#[derive(Debug, PartialEq, Eq, Structural)]
pub enum WriteDirEntryErr {
    NameTooLong,
    BufferTooSmall,
}

/// The written head of a directory entry for file `name` (given without
/// its NUL) and inode `id`: inode, offset word, record length, type byte,
/// then the NUL-terminated name.  The padding bytes up to the record
/// length are left as they were.
pub open spec fn spec_dir_entry_head(id: u64, name: Seq<u8>) -> Seq<u8> {
    spec_u64_to_le_bytes(id) + spec_u64_to_le_bytes(0) + spec_u16_to_le_bytes(
        spec_dir_entry_len(name.len() + 1 as int) as u16,
    ) + seq![0u8] + name + seq![0u8]
}

/// Write a directory entry for the specified file name to the front of the
/// provided buffer.
///
/// Meant to be used in implementations of [`FileSystem::read_dir`].
pub fn write_dir_entry(id: u64, name: &[u8], buf: &mut Vec<u8>) -> (r: Result<
    usize,
    WriteDirEntryErr,
>)
    requires
        name@.len() <= usize::MAX - 27,
    ensures
        final(buf)@.len() == old(buf)@.len(),
        r matches Ok(n) ==> {
            &&& n == spec_dir_entry_len(name@.len() + 1 as int)
            &&& n <= old(buf)@.len()
            &&& n <= u16::MAX
            &&& final(buf)@.subrange(0, name@.len() + 20 as int) == spec_dir_entry_head(id, name@)
            &&& final(buf)@.skip(n as int) == old(buf)@.skip(n as int)
            &&& final(buf)@.subrange(name@.len() + 20 as int, n as int) == old(buf)@.subrange(
                name@.len() + 20 as int,
                n as int,
            )
        },
        r == Err::<usize, WriteDirEntryErr>(WriteDirEntryErr::BufferTooSmall) <==> spec_dir_entry_len(
            name@.len() + 1 as int,
        ) > old(buf)@.len(),
        r == Err::<usize, WriteDirEntryErr>(WriteDirEntryErr::NameTooLong) <==> spec_dir_entry_len(
            name@.len() + 1 as int,
        ) <= old(buf)@.len() && spec_dir_entry_len(name@.len() + 1 as int) > u16::MAX,
        r is Err ==> final(buf)@ == old(buf)@,
{
    let name_len = name.len() + 1;
    let entry_len = dir_entry_len(name_len);
    if entry_len > buf.len() {
        return Err(WriteDirEntryErr::BufferTooSmall);
    }
    if entry_len > u16::MAX as usize {
        return Err(WriteDirEntryErr::NameTooLong);
    }
    proof {
        lemma_auto_spec_u16_to_from_le_bytes();
        lemma_auto_spec_u64_to_from_le_bytes();
    }
    let mut head = u64_to_le_bytes(id);
    let mut part = u64_to_le_bytes(0);
    head.append(&mut part);
    let mut part = u16_to_le_bytes(entry_len as u16);
    head.append(&mut part);
    head.push(0u8);
    let mut part = vstd::slice::slice_to_vec(name);
    head.append(&mut part);
    head.push(0u8);
    let ghost head_snap = head@;
    proof {
        assert(head_snap =~= spec_dir_entry_head(id, name@));
    }
    let n = head.len();
    let mut i: usize = 0;
    while i < n
        invariant
            i <= n,
            n == head_snap.len(),
            head@ == head_snap,
            n <= buf@.len(),
            buf@.len() == old(buf)@.len(),
            forall|j: int|
                0 <= j < buf@.len() ==> #[trigger] buf@[j] == if 0 <= j < i {
                    head_snap[j]
                } else {
                    old(buf)@[j]
                },
        decreases n - i,
    {
        let b = head[i];
        buf[i] = b;
        i += 1;
    }
    proof {
        assert(buf@.subrange(0, name@.len() + 20 as int) =~= spec_dir_entry_head(id, name@));
        assert(buf@.skip(entry_len as int) =~= old(buf)@.skip(entry_len as int));
        assert(buf@.subrange(name@.len() + 20 as int, entry_len as int) =~= old(buf)@.subrange(
            name@.len() + 20 as int,
            entry_len as int,
        ));
    }
    Ok(entry_len)
}

/// `c` holds no path separator.
pub open spec fn slash_free(c: Seq<u8>) -> bool {
    forall|j: int| 0 <= j < c.len() ==> #[trigger] c[j] != 47
}

/// `c` is the single-dot component `"."`.
pub open spec fn is_dot(c: Seq<u8>) -> bool {
    c.len() == 1 && c[0] == 46
}

/// `c` is the double-dot component `".."`.
pub open spec fn is_dotdot(c: Seq<u8>) -> bool {
    c.len() == 2 && c[0] == 46 && c[1] == 46
}

/// A component that survives normalisation: non-empty, not `.` or `..`,
/// and free of separators.
pub open spec fn good_comp(c: Seq<u8>) -> bool {
    c.len() > 0 && !is_dot(c) && !is_dotdot(c) && slash_free(c)
}

/// The components of `s`, split at every `/`.  Splitting the empty string
/// yields one empty component, as `split` does.
pub open spec fn spec_split_slash(s: Seq<u8>) -> Seq<Seq<u8>>
    decreases s.len(),
{
    if s.len() == 0 {
        seq![Seq::<u8>::empty()]
    } else if s[0] == 47 {
        seq![Seq::<u8>::empty()] + spec_split_slash(s.drop_first())
    } else {
        let rest = spec_split_slash(s.drop_first());
        rest.update(0, seq![s[0]] + rest[0])
    }
}

/// One step of normalisation: empty and `.` components are dropped, `..`
/// pops the last kept component, anything else is kept.
pub open spec fn spec_step(acc: Seq<Seq<u8>>, c: Seq<u8>) -> Seq<Seq<u8>> {
    if c.len() == 0 || is_dot(c) {
        acc
    } else if is_dotdot(c) {
        if acc.len() == 0 {
            acc
        } else {
            acc.drop_last()
        }
    } else {
        acc.push(c)
    }
}

/// The components kept after walking `cs` from left to right.
pub open spec fn spec_process(cs: Seq<Seq<u8>>) -> Seq<Seq<u8>>
    decreases cs.len(),
{
    if cs.len() == 0 {
        Seq::<Seq<u8>>::empty()
    } else {
        spec_step(spec_process(cs.drop_last()), cs.last())
    }
}

/// The components joined with `/` between them.
pub open spec fn spec_join_slash(cs: Seq<Seq<u8>>) -> Seq<u8>
    decreases cs.len(),
{
    if cs.len() == 0 {
        Seq::<u8>::empty()
    } else if cs.len() == 1 {
        cs[0]
    } else {
        cs[0] + seq![47u8] + spec_join_slash(cs.drop_first())
    }
}

/// The lexical normal form of a path: empty and `.` components dropped,
/// `..` popping one component, a leading `/` preserved.
pub open spec fn spec_normalize(p: Seq<u8>) -> Seq<u8> {
    let joined = spec_join_slash(spec_process(spec_split_slash(p)));
    if p.len() > 0 && p[0] == 47 {
        seq![47u8] + joined
    } else {
        joined
    }
}

/// Splitting never yields an empty component list, and every component is
/// free of separators.
proof fn lemma_split_wf(s: Seq<u8>)
    ensures
        spec_split_slash(s).len() >= 1,
        forall|k: int|
            0 <= k < spec_split_slash(s).len() ==> slash_free(#[trigger] spec_split_slash(s)[k]),
    decreases s.len(),
{
    if s.len() == 0 {
    } else {
        lemma_split_wf(s.drop_first());
        if s[0] == 47 {
        } else {
            let rest = spec_split_slash(s.drop_first());
            let whole = spec_split_slash(s);
            assert forall|k: int| 0 <= k < whole.len() implies slash_free(#[trigger] whole[k]) by {
                if k == 0 {
                    assert(slash_free(rest[0]));
                    assert forall|j: int| 0 <= j < whole[0].len() implies #[trigger] whole[0][j]
                        != 47 by {
                        if j == 0 {
                        } else {
                            assert(whole[0][j] == rest[0][j - 1]);
                        }
                    }
                } else {
                    assert(whole[k] == rest[k]);
                }
            }
        }
    }
}

/// How splitting reacts to one more byte at the end: a separator opens a
/// fresh empty component, any other byte extends the last one.
proof fn lemma_split_push(s: Seq<u8>, b: u8)
    ensures
        b == 47 ==> spec_split_slash(s.push(b)) == spec_split_slash(s).push(Seq::<u8>::empty()),
        b != 47 ==> spec_split_slash(s.push(b)) == spec_split_slash(s).update(
            spec_split_slash(s).len() - 1,
            spec_split_slash(s).last().push(b),
        ),
    decreases s.len(),
{
    reveal_with_fuel(spec_split_slash, 3);
    lemma_split_wf(s);
    if s.len() == 0 {
        let t = s.push(b);
        assert(t[0] == b);
        assert(t.drop_first() =~= Seq::<u8>::empty());
        if b == 47 {
            assert(spec_split_slash(t) =~= spec_split_slash(s).push(Seq::<u8>::empty()));
        } else {
            let rest = spec_split_slash(t.drop_first());
            assert(rest == seq![Seq::<u8>::empty()]);
            assert(seq![b] + rest[0] =~= seq![Seq::<u8>::empty()].last().push(b));
            assert(spec_split_slash(t) =~= spec_split_slash(s).update(
                0,
                spec_split_slash(s).last().push(b),
            ));
        }
    } else {
        let t = s.push(b);
        lemma_split_push(s.drop_first(), b);
        lemma_split_wf(s.drop_first());
        assert(t.drop_first() =~= s.drop_first().push(b));
        let rest = spec_split_slash(s.drop_first());
        let rest_t = spec_split_slash(t.drop_first());
        if s[0] == 47 {
            if b == 47 {
                assert(spec_split_slash(t) =~= spec_split_slash(s).push(Seq::<u8>::empty()));
            } else {
                assert(rest_t == rest.update(rest.len() - 1, rest.last().push(b)));
                assert(spec_split_slash(t) =~= spec_split_slash(s).update(
                    spec_split_slash(s).len() - 1,
                    spec_split_slash(s).last().push(b),
                ));
            }
        } else {
            if b == 47 {
                assert(rest_t == rest.push(Seq::<u8>::empty()));
                assert(rest_t[0] == rest[0]);
                assert(spec_split_slash(t) =~= spec_split_slash(s).push(Seq::<u8>::empty()));
            } else {
                assert(rest_t == rest.update(rest.len() - 1, rest.last().push(b)));
                if rest.len() == 1 {
                    assert(rest_t[0] == rest[0].push(b));
                    assert(spec_split_slash(t) =~= spec_split_slash(s).update(
                        spec_split_slash(s).len() - 1,
                        spec_split_slash(s).last().push(b),
                    ));
                } else {
                    assert(rest_t[0] == rest[0]);
                    assert(spec_split_slash(t) =~= spec_split_slash(s).update(
                        spec_split_slash(s).len() - 1,
                        spec_split_slash(s).last().push(b),
                    ));
                }
            }
        }
    }
}

/// Processing one more component applies one step.
proof fn lemma_process_snoc(cs: Seq<Seq<u8>>, c: Seq<u8>)
    ensures
        spec_process(cs.push(c)) == spec_step(spec_process(cs), c),
{
    assert(cs.push(c).drop_last() =~= cs);
    assert(cs.push(c).last() == c);
}

/// Joining one more component appends a separator and the component.
proof fn lemma_join_snoc(cs: Seq<Seq<u8>>, c: Seq<u8>)
    ensures
        cs.len() == 0 ==> spec_join_slash(cs.push(c)) == c,
        cs.len() > 0 ==> spec_join_slash(cs.push(c)) == spec_join_slash(cs) + seq![47u8] + c,
    decreases cs.len(),
{
    reveal_with_fuel(spec_join_slash, 3);
    if cs.len() == 0 {
        assert(cs.push(c)[0] == c);
    } else if cs.len() == 1 {
        assert(cs.push(c).drop_first() =~= seq![c]);
        assert(spec_join_slash(cs.push(c)) == cs[0] + seq![47u8] + c);
    } else {
        lemma_join_snoc(cs.drop_first(), c);
        assert(cs.push(c).drop_first() =~= cs.drop_first().push(c));
        assert(spec_join_slash(cs.push(c)) =~= spec_join_slash(cs) + seq![47u8] + c);
    }
}

/// Every component kept by processing separator-free components survives
/// normalisation unchanged next time round.
proof fn lemma_process_wf(cs: Seq<Seq<u8>>)
    requires
        forall|k: int| 0 <= k < cs.len() ==> slash_free(#[trigger] cs[k]),
    ensures
        forall|k: int|
            0 <= k < spec_process(cs).len() ==> good_comp(#[trigger] spec_process(cs)[k]),
    decreases cs.len(),
{
    if cs.len() == 0 {
    } else {
        assert(forall|k: int|
            0 <= k < cs.drop_last().len() ==> slash_free(#[trigger] cs.drop_last()[k]));
        lemma_process_wf(cs.drop_last());
        let prev = spec_process(cs.drop_last());
        let c = cs.last();
        if c.len() == 0 || is_dot(c) {
        } else if is_dotdot(c) {
        } else {
            assert(slash_free(c));
            assert forall|k: int|
                0 <= k < spec_process(cs).len() implies good_comp(
                #[trigger] spec_process(cs)[k],
            ) by {
                if k < prev.len() {
                    assert(spec_process(cs)[k] == prev[k]);
                } else {
                    assert(spec_process(cs)[k] == c);
                }
            }
        }
    }
}

/// A separator-free string splits into itself alone.
proof fn lemma_split_no_slash(c: Seq<u8>)
    requires
        slash_free(c),
    ensures
        spec_split_slash(c) == seq![c],
    decreases c.len(),
{
    if c.len() == 0 {
        assert(spec_split_slash(c) =~~= seq![c]);
    } else {
        assert(slash_free(c.drop_first()));
        lemma_split_no_slash(c.drop_first());
        assert(seq![c[0]] + c.drop_first() =~= c);
        assert(spec_split_slash(c) =~~= seq![c]);
    }
}

/// Splitting `a/t` where `a` is separator-free peels off `a`.
proof fn lemma_split_prepend_comp(a: Seq<u8>, t: Seq<u8>)
    requires
        slash_free(a),
    ensures
        spec_split_slash(a + seq![47u8] + t) == seq![a] + spec_split_slash(t),
    decreases a.len(),
{
    reveal_with_fuel(spec_split_slash, 3);
    if a.len() == 0 {
        let s = a + seq![47u8] + t;
        assert(s[0] == 47);
        assert(s.drop_first() =~= t);
        assert(a =~= Seq::<u8>::empty());
        assert(spec_split_slash(s) =~= seq![a] + spec_split_slash(t));
    } else {
        assert(slash_free(a.drop_first()));
        lemma_split_prepend_comp(a.drop_first(), t);
        let s = a + seq![47u8] + t;
        assert(s[0] == a[0]);
        assert(s[0] != 47);
        assert(s.drop_first() =~= a.drop_first() + seq![47u8] + t);
        let rest = spec_split_slash(s.drop_first());
        assert(rest == seq![a.drop_first()] + spec_split_slash(t));
        assert(rest[0] == a.drop_first());
        assert(seq![s[0]] + rest[0] =~= a);
        assert(spec_split_slash(s) == rest.update(0, seq![s[0]] + rest[0]));
        assert(spec_split_slash(s) =~~= seq![a] + spec_split_slash(t));
    }
}

/// Splitting undoes joining, for good components.
proof fn lemma_split_join(cs: Seq<Seq<u8>>)
    requires
        cs.len() >= 1,
        forall|k: int| 0 <= k < cs.len() ==> good_comp(#[trigger] cs[k]),
    ensures
        spec_split_slash(spec_join_slash(cs)) == cs,
    decreases cs.len(),
{
    if cs.len() == 1 {
        lemma_split_no_slash(cs[0]);
        assert(seq![cs[0]] =~= cs);
    } else {
        lemma_split_join(cs.drop_first());
        lemma_split_prepend_comp(cs[0], spec_join_slash(cs.drop_first()));
        assert(cs[0] + seq![47u8] + spec_join_slash(cs.drop_first()) == spec_join_slash(cs));
        assert(seq![cs[0]] + cs.drop_first() =~= cs);
    }
}

/// Processing leaves good components untouched.
proof fn lemma_process_all_good(cs: Seq<Seq<u8>>)
    requires
        forall|k: int| 0 <= k < cs.len() ==> good_comp(#[trigger] cs[k]),
    ensures
        spec_process(cs) == cs,
    decreases cs.len(),
{
    if cs.len() == 0 {
        assert(spec_process(cs) =~= cs);
    } else {
        assert(forall|k: int|
            0 <= k < cs.drop_last().len() ==> good_comp(#[trigger] cs.drop_last()[k]));
        lemma_process_all_good(cs.drop_last());
        assert(good_comp(cs.last()));
        assert(spec_process(cs) =~= cs);
    }
}

/// A leading empty component — the shadow of a leading separator — does
/// not change the outcome of processing.
proof fn lemma_process_leading_empty(cs: Seq<Seq<u8>>)
    ensures
        spec_process(seq![Seq::<u8>::empty()] + cs) == spec_process(cs),
    decreases cs.len(),
{
    reveal_with_fuel(spec_process, 3);
    let ext = seq![Seq::<u8>::empty()] + cs;
    if cs.len() == 0 {
        assert(ext.drop_last() =~= Seq::<Seq<u8>>::empty());
        assert(ext.last() == Seq::<u8>::empty());
        assert(spec_process(ext) =~= spec_process(cs));
    } else {
        lemma_process_leading_empty(cs.drop_last());
        assert(ext.drop_last() =~= seq![Seq::<u8>::empty()] + cs.drop_last());
        assert(ext.last() == cs.last());
    }
}

/// The component views of a stack of byte vectors.
pub open spec fn views(s: Seq<Vec<u8>>) -> Seq<Seq<u8>> {
    s.map_values(|v: Vec<u8>| v@)
}

/// Normalise a path lexically: drop empty and `.` components, let `..`
/// pop one component, keep a leading `/`.
pub fn normalize_path(path: &[u8]) -> (r: Vec<u8>)
    ensures
        r@ == spec_normalize(path@),
{
    let mut stack: Vec<Vec<u8>> = Vec::new();
    let mut cur: Vec<u8> = Vec::new();
    let ghost mut closed: Seq<Seq<u8>> = Seq::<Seq<u8>>::empty();
    proof {
        assert(path@.take(0) =~= Seq::<u8>::empty());
        assert(closed.push(cur@) =~~= spec_split_slash(path@.take(0)));
        assert(views(stack@) =~= spec_process(closed));
    }
    let n = path.len();
    let mut i: usize = 0;
    while i < n
        invariant
            i <= n,
            n == path@.len(),
            closed.push(cur@) == spec_split_slash(path@.take(i as int)),
            views(stack@) == spec_process(closed),
        decreases n - i,
    {
        let b = path[i];
        proof {
            lemma_split_push(path@.take(i as int), b);
            assert(path@.take(i + 1 as int) =~= path@.take(i as int).push(b));
        }
        if b == 47 {
            let comp = cur;
            cur = Vec::new();
            let ghost c = comp@;
            let ghost sv = views(stack@);
            if comp.len() == 0 || (comp.len() == 1 && comp[0] == 46) {
                // dropped component
            } else if comp.len() == 2 && comp[0] == 46 && comp[1] == 46 {
                if stack.len() > 0 {
                    let _dropped = stack.pop();
                }
            } else {
                stack.push(comp);
            }
            proof {
                assert(views(stack@) =~= spec_step(sv, c));
                lemma_process_snoc(closed, c);
                closed = closed.push(c);
                assert(closed.push(cur@) =~~= spec_split_slash(path@.take(i + 1 as int)));
            }
        } else {
            cur.push(b);
            proof {
                assert(closed.push(cur@) =~~= spec_split_slash(path@.take(i as int)).update(
                    spec_split_slash(path@.take(i as int)).len() - 1,
                    spec_split_slash(path@.take(i as int)).last().push(b),
                ));
            }
        }
        i += 1;
    }
    // Close the final component.
    let comp = cur;
    let ghost c = comp@;
    let ghost sv = views(stack@);
    if comp.len() == 0 || (comp.len() == 1 && comp[0] == 46) {
        // dropped component
    } else if comp.len() == 2 && comp[0] == 46 && comp[1] == 46 {
        if stack.len() > 0 {
            let _dropped = stack.pop();
        }
    } else {
        stack.push(comp);
    }
    let ghost cs = spec_process(spec_split_slash(path@));
    proof {
        assert(path@.take(n as int) =~= path@);
        assert(views(stack@) =~= spec_step(sv, c));
        lemma_process_snoc(closed, c);
        assert(views(stack@) == cs);
    }
    // Join the kept components, with the preserved leading separator.
    let mut r: Vec<u8> = Vec::new();
    if path.len() > 0 && path[0] == 47 {
        r.push(47u8);
    }
    let ghost lead = r@;
    proof {
        assert(spec_join_slash(views(stack@).take(0)) =~= Seq::<u8>::empty());
        assert(r@ =~= lead + spec_join_slash(views(stack@).take(0)));
    }
    let m = stack.len();
    let mut j: usize = 0;
    while j < m
        invariant
            j <= m,
            m == stack@.len(),
            views(stack@) == cs,
            lead == if path@.len() > 0 && path@[0] == 47 {
                seq![47u8]
            } else {
                Seq::<u8>::empty()
            },
            r@ == lead + spec_join_slash(cs.take(j as int)),
        decreases m - j,
    {
        if j > 0 {
            r.push(47u8);
        }
        let ghost mid = r@;
        let comp_len = stack[j].len();
        let mut t: usize = 0;
        while t < comp_len
            invariant
                t <= comp_len,
                j < m,
                m == stack@.len(),
                views(stack@) == cs,
                comp_len == stack@[j as int]@.len(),
                r@ == mid + stack@[j as int]@.take(t as int),
            decreases comp_len - t,
        {
            let b = stack[j][t];
            r.push(b);
            t += 1;
            proof {
                assert(r@ =~= mid + stack@[j as int]@.take(t as int));
            }
        }
        proof {
            lemma_join_snoc(cs.take(j as int), cs[j as int]);
            assert(cs.take(j + 1 as int) =~= cs.take(j as int).push(cs[j as int]));
            assert(stack@[j as int]@.take(comp_len as int) =~= cs[j as int]);
            assert(r@ =~= lead + spec_join_slash(cs.take(j + 1 as int)));
        }
        j += 1;
    }
    proof {
        assert(cs.take(m as int) =~= cs);
        assert(r@ =~= spec_normalize(path@));
    }
    r
}

/// Normalisation is idempotent: normalising a normal form changes nothing.
pub proof fn lemma_normalize_idempotent(p: Seq<u8>)
    ensures
        spec_normalize(spec_normalize(p)) == spec_normalize(p),
{
    reveal_with_fuel(spec_split_slash, 4);
    reveal_with_fuel(spec_process, 3);
    reveal_with_fuel(spec_join_slash, 3);
    lemma_split_wf(p);
    lemma_process_wf(spec_split_slash(p));
    let cs = spec_process(spec_split_slash(p));
    let joined = spec_join_slash(cs);
    let q = spec_normalize(p);
    let lead = p.len() > 0 && p[0] == 47;
    if cs.len() == 0 {
        if lead {
            assert(q =~= seq![47u8]);
            assert(q[0] == 47);
            assert(q.drop_first() =~= Seq::<u8>::empty());
            assert(spec_split_slash(q) =~= seq![Seq::<u8>::empty(), Seq::<u8>::empty()]);
            lemma_process_leading_empty(seq![Seq::<u8>::empty()]);
            assert(seq![Seq::<u8>::empty()] + seq![Seq::<u8>::empty()] =~= seq![
                Seq::<u8>::empty(),
                Seq::<u8>::empty(),
            ]);
            lemma_process_leading_empty(Seq::<Seq<u8>>::empty());
            assert(seq![Seq::<u8>::empty()] + Seq::<Seq<u8>>::empty() =~= seq![
                Seq::<u8>::empty(),
            ]);
            assert(spec_process(spec_split_slash(q)) =~= Seq::<Seq<u8>>::empty());
            assert(spec_normalize(q) == q);
        } else {
            assert(q =~= Seq::<u8>::empty());
            assert(spec_split_slash(q) =~= seq![Seq::<u8>::empty()]);
            lemma_process_leading_empty(Seq::<Seq<u8>>::empty());
            assert(seq![Seq::<u8>::empty()] + Seq::<Seq<u8>>::empty() =~= seq![
                Seq::<u8>::empty(),
            ]);
            assert(spec_process(spec_split_slash(q)) =~= Seq::<Seq<u8>>::empty());
            assert(spec_normalize(q) == q);
        }
    } else {
        lemma_split_join(cs);
        assert(good_comp(cs[0]));
        // The joined form starts with the first component's first byte.
        if cs.len() == 1 {
            assert(joined == cs[0]);
        } else {
            assert(joined == cs[0] + seq![47u8] + spec_join_slash(cs.drop_first()));
        }
        assert(joined.len() > 0);
        assert(joined[0] == cs[0][0]);
        assert(joined[0] != 47);
        if lead {
            assert(q == seq![47u8] + joined);
            assert(q[0] == 47);
            assert(q.drop_first() =~= joined);
            assert(spec_split_slash(q) == seq![Seq::<u8>::empty()] + spec_split_slash(joined));
            lemma_process_leading_empty(spec_split_slash(joined));
            lemma_process_all_good(cs);
            assert(spec_process(spec_split_slash(q)) == cs);
            assert(spec_normalize(q) == q);
        } else {
            assert(q == joined);
            assert(q[0] != 47);
            lemma_process_all_good(cs);
            assert(spec_process(spec_split_slash(q)) == cs);
            assert(spec_normalize(q) == q);
        }
    }
}

} // verus!
