//! An in-memory file system: a mapping from paths to immutable blobs.
//!
//! `open` normalises the path, looks the blob up, and returns a cursor
//! over a copy of its bytes.  Directory reading is not supported.

use vstd::prelude::*;
use vstd::map::*;
use crate::error::Error;
use crate::fs::{
    FileSystem, Metadata, SeekFrom, normalize_path, spec_normalize, spec_seek_target, wrap_add,
};
use crate::libc::{ENOENT, ENOSYS};

verus! {

/// In-memory-specific file system error.
#[derive(Debug, Clone, Copy, PartialEq, Eq, Structural)]
pub enum InMemoryError {
    NotFound,
}

/// In-memory file contents.
pub type FileBlob = Vec<u8>;

/// An open handle into an [`InMemoryFileSystem`]: a read position and the
/// file's bytes.
pub struct InMemoryFd {
    pub position: u64,
    pub blob: FileBlob,
}

impl InMemoryFd {
    /// The size of the underlying blob.
    pub fn size(&self) -> (r: u64)
        ensures
            r == self.blob@.len(),
    {
        self.blob.len() as u64
    }
}

/// The keys of the entry list are pairwise distinct.
pub open spec fn keys_distinct(s: Seq<(Vec<u8>, Vec<u8>)>) -> bool {
    forall|i: int, j: int| 0 <= i < j < s.len() ==> #[trigger] s[i].0@ != #[trigger] s[j].0@
}

/// The entry list as a map from path to contents.
pub open spec fn files_map(s: Seq<(Vec<u8>, Vec<u8>)>) -> Map<Seq<u8>, Seq<u8>> {
    Map::new(
        |p: Seq<u8>| exists|i: int| #![auto] 0 <= i < s.len() && s[i].0@ == p,
        |p: Seq<u8>|
            {
                let i = choose|i: int| #![auto] 0 <= i < s.len() && s[i].0@ == p;
                s[i].1@
            },
    )
}

/// With distinct keys, the entry at `i` decides the map at its path.
proof fn lemma_files_map_at(s: Seq<(Vec<u8>, Vec<u8>)>, i: int)
    requires
        keys_distinct(s),
        0 <= i < s.len(),
    ensures
        files_map(s).contains_key(s[i].0@),
        files_map(s)[s[i].0@] == s[i].1@,
{
    let p = s[i].0@;
    assert(exists|j: int| #![auto] 0 <= j < s.len() && s[j].0@ == p);
    let j = choose|j: int| #![auto] 0 <= j < s.len() && s[j].0@ == p;
    if j != i {
        if j < i {
            assert(s[j].0@ != s[i].0@);
        } else {
            assert(s[i].0@ != s[j].0@);
        }
    }
}

/// An implementation of [`FileSystem`] that stores files in memory.
pub struct InMemoryFileSystem {
    files: Vec<(Vec<u8>, Vec<u8>)>,
}

/// Whether two byte strings hold the same bytes.
fn bytes_eq(a: &[u8], b: &[u8]) -> (r: bool)
    ensures
        r <==> a@ == b@,
{
    if a.len() != b.len() {
        proof {
            assert(a@.len() != b@.len());
        }
        return false;
    }
    let n = a.len();
    let mut i: usize = 0;
    while i < n
        invariant
            i <= n,
            n == a@.len(),
            n == b@.len(),
            forall|j: int| 0 <= j < i ==> a@[j] == b@[j],
        decreases n - i,
    {
        if a[i] != b[i] {
            return false;
        }
        i += 1;
    }
    proof {
        assert(a@ =~= b@);
    }
    true
}

impl InMemoryFileSystem {
    /// The stored files, as a map from path to contents.
    pub closed spec fn files(&self) -> Map<Seq<u8>, Seq<u8>> {
        files_map(self.files@)
    }

    /// The stable identifier of the file stored under `path`: the index of
    /// its entry, which insertion fixes for the life of the store.
    pub closed spec fn spec_file_id(&self, path: Seq<u8>) -> u64 {
        (choose|i: int| #![auto] 0 <= i < self.files@.len() && self.files@[i].0@ == path) as u64
    }

    /// An empty file system.
    pub fn new() -> (r: InMemoryFileSystem)
        ensures
            r.inv(),
            r.files() == Map::<Seq<u8>, Seq<u8>>::empty(),
    {
        let r = InMemoryFileSystem { files: Vec::new() };
        proof {
            assert(r.files() =~= Map::<Seq<u8>, Seq<u8>>::empty());
        }
        r
    }

    /// The index of the entry stored under `path`, if any.
    fn find(&self, path: &[u8]) -> (r: Option<usize>)
        requires
            self.inv(),
        ensures
            r matches Some(i) ==> i < self.files@.len() && self.files@[i as int].0@ == path@
                && self.files().contains_key(path@) && self.files()[path@]
                == self.files@[i as int].1@,
            r is None ==> !self.files().contains_key(path@),
    {
        let n = self.files.len();
        let mut i: usize = 0;
        while i < n
            invariant
                self.inv(),
                i <= n,
                n == self.files@.len(),
                forall|j: int| 0 <= j < i ==> #[trigger] self.files@[j].0@ != path@,
            decreases n - i,
        {
            if bytes_eq(self.files[i].0.as_slice(), path) {
                proof {
                    lemma_files_map_at(self.files@, i as int);
                }
                return Some(i);
            }
            i += 1;
        }
        proof {
            if self.files().contains_key(path@) {
                let j = choose|j: int| #![auto]
                    0 <= j < self.files@.len() && self.files@[j].0@ == path@;
                assert(self.files@[j].0@ != path@);
            }
        }
        None
    }

    /// The contents stored under `path`, if any.  The path is looked up as
    /// given, without normalisation.
    pub fn read_file(&self, path: &[u8]) -> (r: Option<&Vec<u8>>)
        requires
            self.inv(),
        ensures
            r matches Some(v) ==> self.files().contains_key(path@) && v@ == self.files()[path@],
            r is None ==> !self.files().contains_key(path@),
    {
        match self.find(path) {
            Some(i) => Some(&self.files[i].1),
            None => None,
        }
    }

    /// Store `data` under `path`, replacing any previous contents.
    pub fn write_file(&mut self, path: Vec<u8>, data: Vec<u8>)
        requires
            old(self).inv(),
        ensures
            final(self).inv(),
            final(self).files() == old(self).files().insert(path@, data@),
            forall|p: Seq<u8>|
                old(self).files().contains_key(p) ==> #[trigger] final(self).spec_file_id(p)
                    == old(self).spec_file_id(p),
    {
        let ghost old_files = self.files@;
        match self.find(path.as_slice()) {
            Some(i) => {
                self.files[i].1 = data;
                proof {
                    assert(keys_distinct(self.files@));
                    assert_maps_equal!(self.files(), old(self).files().insert(path@, data@), p => {
                        if p == path@ {
                            lemma_files_map_at(self.files@, i as int);
                            lemma_files_map_at(old_files, i as int);
                        } else {
                            if files_map(old_files).contains_key(p) {
                                let j = choose|j: int| #![auto]
                                    0 <= j < old_files.len() && old_files[j].0@ == p;
                                lemma_files_map_at(old_files, j);
                                lemma_files_map_at(self.files@, j);
                            }
                            if files_map(self.files@).contains_key(p) {
                                let j = choose|j: int| #![auto]
                                    0 <= j < self.files@.len() && self.files@[j].0@ == p;
                                lemma_files_map_at(old_files, j);
                                lemma_files_map_at(self.files@, j);
                            }
                        }
                    });
                    lemma_file_ids_stable(old_files, self.files@);
                }
            },
            None => {
                let ghost pv = path@;
                let ghost dv = data@;
                self.files.push((path, data));
                proof {
                    assert forall|i: int, j: int| 0 <= i < j < self.files@.len() implies #[trigger] self
                        .files@[i].0@ != #[trigger] self.files@[j].0@ by {
                        if j < old_files.len() {
                        } else {
                            assert(self.files@[j].0@ == pv);
                            lemma_files_map_at(old_files, i);
                        }
                    }
                    assert_maps_equal!(self.files(), old(self).files().insert(pv, dv), p => {
                        if p == pv {
                            lemma_files_map_at(self.files@, old_files.len() as int);
                        } else {
                            if files_map(old_files).contains_key(p) {
                                let j = choose|j: int| #![auto]
                                    0 <= j < old_files.len() && old_files[j].0@ == p;
                                lemma_files_map_at(old_files, j);
                                lemma_files_map_at(self.files@, j);
                            }
                            if files_map(self.files@).contains_key(p) {
                                let j = choose|j: int| #![auto]
                                    0 <= j < self.files@.len() && self.files@[j].0@ == p;
                                if j < old_files.len() {
                                    lemma_files_map_at(old_files, j);
                                }
                                lemma_files_map_at(self.files@, j);
                            }
                        }
                    });
                    lemma_file_ids_stable(old_files, self.files@);
                }
            },
        }
    }
}

/// When an update keeps every old entry's key at its index, the chosen
/// index of every previously stored path is unchanged.
proof fn lemma_file_ids_stable(pre: Seq<(Vec<u8>, Vec<u8>)>, post: Seq<(Vec<u8>, Vec<u8>)>)
    requires
        keys_distinct(pre),
        keys_distinct(post),
        pre.len() <= post.len(),
        forall|i: int| 0 <= i < pre.len() ==> #[trigger] post[i].0@ == pre[i].0@,
    ensures
        forall|p: Seq<u8>|
            files_map(pre).contains_key(p) ==> (choose|i: int|
                #![auto]
                0 <= i < post.len() && post[i].0@ == p) == (choose|i: int|
                #![auto]
                0 <= i < pre.len() && pre[i].0@ == p),
{
    assert forall|p: Seq<u8>| files_map(pre).contains_key(p) implies (choose|i: int|
        #![auto]
        0 <= i < post.len() && post[i].0@ == p) == (choose|i: int|
        #![auto]
        0 <= i < pre.len() && pre[i].0@ == p) by {
        let i_pre = choose|i: int| #![auto] 0 <= i < pre.len() && pre[i].0@ == p;
        assert(post[i_pre].0@ == p);
        let i_post = choose|i: int| #![auto] 0 <= i < post.len() && post[i].0@ == p;
        if i_post != i_pre {
            if i_post < i_pre {
                assert(post[i_post].0@ != post[i_pre].0@);
            } else {
                assert(post[i_pre].0@ != post[i_post].0@);
            }
        }
    }
}

impl FileSystem for InMemoryFileSystem {
    type Fd = InMemoryFd;

    closed spec fn inv(&self) -> bool {
        keys_distinct(self.files@)
    }

    open spec fn fd_data(fd: &InMemoryFd) -> Seq<u8> {
        fd.blob@
    }

    open spec fn fd_pos(fd: &InMemoryFd) -> u64 {
        fd.position
    }

    fn open(&mut self, path: &[u8], _flags: u64) -> (r: Result<InMemoryFd, Error>)
        ensures
            final(self).files() == old(self).files(),
            r is Ok <==> old(self).files().contains_key(spec_normalize(path@)),
            r matches Ok(fd) ==> fd.position == 0 && fd.blob@ == old(self).files()[spec_normalize(
                path@,
            )],
            r is Err ==> r == Err::<InMemoryFd, Error>(Error(ENOENT)),
    {
        let norm = normalize_path(path);
        match self.find(norm.as_slice()) {
            Some(i) => {
                let blob = vstd::slice::slice_to_vec(self.files[i].1.as_slice());
                Ok(InMemoryFd { position: 0, blob })
            },
            None => Err(Error(ENOENT)),
        }
    }

    fn seek(&mut self, fd: &mut InMemoryFd, from: SeekFrom) -> (r: Result<u64, Error>)
        ensures
            r is Ok,
            *final(self) == *old(self),
    {
        let size = fd.size();
        match from {
            SeekFrom::Start(offset) => {
                fd.position = offset;
            },
            SeekFrom::Current(offset) => {
                let target = wrap_add(fd.position, offset);
                fd.position = if target < size {
                    target
                } else {
                    size
                };
            },
            SeekFrom::End(offset) => {
                let target = wrap_add(size, offset);
                fd.position = if target < size {
                    target
                } else {
                    size
                };
            },
        }
        Ok(fd.position)
    }

    fn read(&mut self, fd: &mut InMemoryFd, buf: &mut Vec<u8>) -> (r: Result<usize, Error>)
        ensures
            r is Ok,
            *final(self) == *old(self),
            r matches Ok(n) ==> n as int == if old(fd).position < old(fd).blob@.len() {
                vstd::math::min(old(buf)@.len() as int, old(fd).blob@.len() - old(fd).position)
            } else {
                0int
            },
    {
        let size = fd.blob.len() as u64;
        if fd.position >= size || buf.len() == 0 {
            return Ok(0);
        }
        let start = fd.position as usize;
        let remaining = fd.blob.len() - start;
        let n = if buf.len() < remaining {
            buf.len()
        } else {
            remaining
        };
        let mut t: usize = 0;
        while t < n
            invariant
                t <= n,
                start + n <= fd.blob@.len(),
                start + n <= usize::MAX,
                n <= buf@.len(),
                buf@.len() == old(buf)@.len(),
                fd.blob@ == old(fd).blob@,
                fd.position == old(fd).position,
                start == old(fd).position,
                forall|j: int|
                    0 <= j < buf@.len() ==> #[trigger] buf@[j] == if j < t {
                        fd.blob@[start + j]
                    } else {
                        old(buf)@[j]
                    },
            decreases n - t,
        {
            let b = fd.blob[start + t];
            buf[t] = b;
            t += 1;
        }
        fd.position = fd.position + n as u64;
        proof {
            assert(buf@ =~= fd.blob@.subrange(start as int, start + n) + old(buf)@.skip(n as int));
        }
        Ok(n)
    }

    fn read_dir(&mut self, _fd: &mut InMemoryFd, _buf: &mut Vec<u8>) -> (r: Result<usize, Error>)
        ensures
            r == Err::<usize, Error>(Error(ENOSYS)),
            *final(self) == *old(self),
    {
        Err(Error(ENOSYS))
    }

    fn metadata(&mut self, path: &[u8]) -> (r: Result<Metadata, Error>)
        ensures
            *final(self) == *old(self),
            final(self).files() == old(self).files(),
            r is Ok <==> old(self).files().contains_key(spec_normalize(path@)),
            r matches Ok(meta) ==> meta.size == old(self).files()[spec_normalize(path@)].len()
                && meta.mode == 0o100644 && meta.block_size == meta.size && meta.id == old(
                self,
            ).spec_file_id(spec_normalize(path@)),
            r is Err ==> r == Err::<Metadata, Error>(Error(ENOENT)),
    {
        let norm = normalize_path(path);
        match self.find(norm.as_slice()) {
            Some(i) => {
                let size = self.files[i].1.len() as u64;
                proof {
                    let j = choose|j: int| #![auto]
                        0 <= j < self.files@.len() && self.files@[j].0@ == spec_normalize(path@);
                    if j != i {
                        if j < i {
                            assert(self.files@[j].0@ != self.files@[i as int].0@);
                        } else {
                            assert(self.files@[i as int].0@ != self.files@[j].0@);
                        }
                    }
                }
                Ok(Metadata { id: i as u64, mode: 0o100644, size, block_size: size })
            },
            None => Err(Error(ENOENT)),
        }
    }
}

} // verus!
