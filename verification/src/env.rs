//! The environment capability: byte-stream sinks for the guest's standard
//! output and standard error.

use vstd::prelude::*;
use crate::error::Error;

verus! {

/// Execution environment of a user-space program.
///
/// The model is a pair of abstract byte streams.  A write appends the
/// accepted prefix of the data to the matching stream; short writes are
/// allowed, and a failing write leaves both streams as they were.
pub trait Environment: Sized {
    /// Every byte accepted so far on standard output.
    spec fn stdout(&self) -> Seq<u8>;

    /// Every byte accepted so far on standard error.
    spec fn stderr(&self) -> Seq<u8>;

    /// Write the provided data to the standard output stream.
    ///
    /// Returns the number of bytes written.
    fn write_to_stdout(&mut self, data: &[u8]) -> (r: Result<u64, Error>)
        ensures
            final(self).stderr() == old(self).stderr(),
            r matches Ok(n) ==> n <= data@.len() && final(self).stdout() == old(self).stdout()
                + data@.take(n as int),
            r is Err ==> final(self).stdout() == old(self).stdout(),
    ;

    /// Write the provided data to the standard error stream.
    ///
    /// Returns the number of bytes written.
    fn write_to_stderr(&mut self, data: &[u8]) -> (r: Result<u64, Error>)
        ensures
            final(self).stdout() == old(self).stdout(),
            r matches Ok(n) ==> n <= data@.len() && final(self).stderr() == old(self).stderr()
                + data@.take(n as int),
            r is Err ==> final(self).stderr() == old(self).stderr(),
    ;
}

/// An [`Environment`] that accumulates both streams in memory.  It accepts
/// every byte offered and never fails.
pub struct BufferEnv {
    pub stdout: Vec<u8>,
    pub stderr: Vec<u8>,
}

impl BufferEnv {
    pub fn new() -> (r: BufferEnv)
        ensures
            r.stdout@ == Seq::<u8>::empty(),
            r.stderr@ == Seq::<u8>::empty(),
    {
        BufferEnv { stdout: Vec::new(), stderr: Vec::new() }
    }
}

impl Environment for BufferEnv {
    open spec fn stdout(&self) -> Seq<u8> {
        self.stdout@
    }

    open spec fn stderr(&self) -> Seq<u8> {
        self.stderr@
    }

    fn write_to_stdout(&mut self, data: &[u8]) -> (r: Result<u64, Error>) {
        let mut copy = vstd::slice::slice_to_vec(data);
        let ghost len = copy@.len();
        self.stdout.append(&mut copy);
        proof {
            assert(data@.take(len as int) =~= data@);
        }
        Ok(data.len() as u64)
    }

    fn write_to_stderr(&mut self, data: &[u8]) -> (r: Result<u64, Error>) {
        let mut copy = vstd::slice::slice_to_vec(data);
        let ghost len = copy@.len();
        self.stderr.append(&mut copy);
        proof {
            assert(data@.take(len as int) =~= data@);
        }
        Ok(data.len() as u64)
    }
}

} // verus!
