//! Byte sources: a fixed sequence of bytes read from a movable position.
use vstd::prelude::*;

verus! {

/// What a successful read of at most `max` bytes at `offset` of `contents`
/// may hand back: a prefix of the bytes that start there, non-empty unless
/// the offset is at or past the end or nothing was asked for.
pub open spec fn read_result_ok(contents: Seq<u8>, offset: int, max: int, bytes: Seq<u8>) -> bool {
    &&& bytes.len() <= max
    &&& offset >= contents.len() ==> bytes.len() == 0
    &&& offset < contents.len() ==> {
        &&& offset + bytes.len() <= contents.len()
        &&& bytes == contents.subrange(offset, offset + bytes.len())
        &&& max > 0 ==> bytes.len() > 0
    }
}

/// A seekable source of bytes whose length does not change.
pub trait ByteSource: Sized {
    /// What a failed seek or read reports.
    type Error;

    /// The bytes of the source. An implementation outside verified code
    /// keeps this default, and nothing is proved of it.
    closed spec fn contents(&self) -> Seq<u8> {
        Seq::empty()
    }

    /// Where the next read starts. An implementation outside verified code
    /// keeps this default.
    closed spec fn position(&self) -> int {
        0
    }

    /// The total length of the source.
    fn length(&self) -> (r: u64)
        ensures
            r == self.contents().len(),
    ;

    /// Moves the read position to `pos`.
    fn seek_to(&mut self, pos: u64) -> (r: Result<(), Self::Error>)
        ensures
            final(self).contents() == old(self).contents(),
            r is Ok ==> final(self).position() == pos,
    ;

    /// Reads at most `max` bytes from the current position and moves past
    /// them. A failed read has read nothing.
    fn read_some(&mut self, max: usize) -> (r: Result<Vec<u8>, Self::Error>)
        ensures
            final(self).contents() == old(self).contents(),
            match r {
                Ok(bytes) => {
                    &&& read_result_ok(old(self).contents(), old(self).position(), max as int, bytes@)
                    &&& final(self).position() == old(self).position() + bytes.len()
                },
                Err(_) => final(self).position() == old(self).position(),
            },
    ;
}

/// A byte source held in memory.
pub struct MemorySource {
    data: Vec<u8>,
    pos: u64,
}

impl MemorySource {
    /// A source over `data`, positioned at its start.
    pub fn new(data: Vec<u8>) -> (r: MemorySource)
        ensures
            r.contents() == data@,
            r.position() == 0,
    {
        MemorySource { data, pos: 0 }
    }
}

impl ByteSource for MemorySource {
    /// Reading or seeking in memory never fails.
    type Error = ();

    closed spec fn contents(&self) -> Seq<u8> {
        self.data@
    }

    closed spec fn position(&self) -> int {
        self.pos as int
    }

    fn length(&self) -> (r: u64) {
        self.data.len() as u64
    }

    fn seek_to(&mut self, pos: u64) -> (r: Result<(), ()>) {
        self.pos = pos;
        Ok(())
    }

    fn read_some(&mut self, max: usize) -> (r: Result<Vec<u8>, ()>) {
        let mut out: Vec<u8> = Vec::new();
        if self.pos >= self.data.len() as u64 {
            return Ok(out);
        }
        let start: usize = self.pos as usize;
        let avail: usize = self.data.len() - start;
        let n: usize = if max < avail { max } else { avail };
        let mut i: usize = 0;
        while i < n
            invariant
                start + n <= self.data.len(),
                i <= n,
                out@ == self.data@.subrange(start as int, start + i),
            decreases n - i,
        {
            out.push(self.data[start + i]);
            i = i + 1;
            assert(out@ =~= self.data@.subrange(start as int, start + i));
        }
        self.pos = self.pos + n as u64;
        Ok(out)
    }
}

/// A read at the end of the source returns no bytes.
pub proof fn lemma_read_at_end_is_empty(contents: Seq<u8>, max: int, bytes: Seq<u8>)
    requires
        read_result_ok(contents, contents.len() as int, max, bytes),
    ensures
        bytes.len() == 0,
{
}

} // verus!
