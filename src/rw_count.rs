use vstd::prelude::*;

use crate::backend::{Backend, SeekFrom};

verus! {

/// A layer that counts the reads, writes and seeks passed through it to the
/// backend below (`read_exact` is a read and `write_all` a write). Each count
/// wraps around at 2^64.
pub struct RWCount<B: Backend> {
    pub backend: B,
    pub read_count: u64,
    pub write_count: u64,
    pub seek_count: u64,
}

impl<B: Backend> RWCount<B> {
    /// Counts from zero over `backend`.
    pub fn new(backend: B) -> (r: Self)
        ensures
            r.backend == backend,
            r.read_count == 0,
            r.write_count == 0,
            r.seek_count == 0,
    {
        Self { backend, read_count: 0, write_count: 0, seek_count: 0 }
    }
}

impl<B: Backend> Backend for RWCount<B> {
    open spec fn image(&self) -> Seq<u8> {
        self.backend.image()
    }

    open spec fn cursor(&self) -> nat {
        self.backend.cursor()
    }

    fn read(&mut self, buf: &mut Vec<u8>) -> (r: Result<usize, std::io::Error>)
        ensures
            final(self).read_count == old(self).read_count.wrapping_add(1),
            final(self).write_count == old(self).write_count,
            final(self).seek_count == old(self).seek_count,
    {
        self.read_count = self.read_count.wrapping_add(1);
        self.backend.read(buf)
    }

    fn read_exact(&mut self, buf: &mut Vec<u8>) -> (r: Result<(), std::io::Error>)
        ensures
            final(self).read_count == old(self).read_count.wrapping_add(1),
            final(self).write_count == old(self).write_count,
            final(self).seek_count == old(self).seek_count,
    {
        self.read_count = self.read_count.wrapping_add(1);
        self.backend.read_exact(buf)
    }

    fn write(&mut self, buf: &[u8]) -> (r: Result<usize, std::io::Error>)
        ensures
            final(self).read_count == old(self).read_count,
            final(self).write_count == old(self).write_count.wrapping_add(1),
            final(self).seek_count == old(self).seek_count,
    {
        self.write_count = self.write_count.wrapping_add(1);
        self.backend.write(buf)
    }

    fn write_all(&mut self, buf: &[u8]) -> (r: Result<(), std::io::Error>)
        ensures
            final(self).read_count == old(self).read_count,
            final(self).write_count == old(self).write_count.wrapping_add(1),
            final(self).seek_count == old(self).seek_count,
    {
        self.write_count = self.write_count.wrapping_add(1);
        self.backend.write_all(buf)
    }

    fn flush(&mut self) -> (r: Result<(), std::io::Error>)
        ensures
            final(self).read_count == old(self).read_count,
            final(self).write_count == old(self).write_count,
            final(self).seek_count == old(self).seek_count,
    {
        self.backend.flush()
    }

    fn seek(&mut self, pos: SeekFrom) -> (r: Result<u64, std::io::Error>)
        ensures
            final(self).read_count == old(self).read_count,
            final(self).write_count == old(self).write_count,
            final(self).seek_count == old(self).seek_count.wrapping_add(1),
    {
        self.seek_count = self.seek_count.wrapping_add(1);
        self.backend.seek(pos)
    }

    fn stream_position(&mut self) -> (r: Result<u64, std::io::Error>)
        ensures
            final(self).read_count == old(self).read_count,
            final(self).write_count == old(self).write_count,
            final(self).seek_count == old(self).seek_count,
    {
        self.backend.stream_position()
    }

    fn real_flush(&mut self) -> (r: Result<(), std::io::Error>)
        ensures
            final(self).read_count == old(self).read_count,
            final(self).write_count == old(self).write_count,
            final(self).seek_count == old(self).seek_count,
    {
        self.backend.real_flush()
    }
}

} // verus!
