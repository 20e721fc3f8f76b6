//! A seekable reader that many holders share, each with a cursor of its own.
use std::sync::Arc;
use vstd::prelude::*;
use vstd::rwlock::RwLock;

use crate::seek::{resolve_seek, seek_target, SeekError, SeekPos};
use crate::source::{read_result_ok, ByteSource};

verus! {

/// The shared state behind every clone of a [`CloneableSeekableReader`].
pub struct Inner<S: ByteSource> {
    /// The underlying source.
    r: S,
    /// The position of `r`; `None` after a failed seek left it unknown.
    pos: Option<u64>,
    /// The length of `r`, loaded on first need.
    len: Option<u64>,
}

impl<S: ByteSource> Inner<S> {
    /// The bytes of the underlying source.
    pub closed spec fn contents(&self) -> Seq<u8> {
        self.r.contents()
    }

    /// The recorded position and cached length agree with the source.
    pub closed spec fn wf(&self) -> bool {
        &&& self.pos matches Some(p) ==> p == self.r.position()
        &&& self.len matches Some(l) ==> l == self.r.contents().len()
    }

    /// Wraps a source, with no position or length recorded yet.
    pub fn new(r: S) -> (s: Self)
        requires
            length_fits(r.contents()),
        ensures
            s.wf(),
            s.contents() == r.contents(),
    {
        Inner { r, pos: None, len: None }
    }

    /// The length of the source, asked of it once and remembered.
    pub fn len(&mut self) -> (r: u64)
        requires
            old(self).wf(),
        ensures
            final(self).wf(),
            final(self).contents() == old(self).contents(),
            r == old(self).contents().len(),
    {
        match self.len {
            Some(l) => l,
            None => {
                let l = self.r.length();
                self.len = Some(l);
                l
            },
        }
    }

    /// Reads at most `max` bytes starting at `offset`, seeking the source
    /// first unless it already stands there.
    pub fn read_at(&mut self, offset: u64, max: usize) -> (r: Result<Vec<u8>, S::Error>)
        requires
            old(self).wf(),
        ensures
            final(self).wf(),
            final(self).contents() == old(self).contents(),
            r matches Ok(bytes) ==> read_result_ok(old(self).contents(), offset as int, max as int, bytes@),
    {
        if self.pos != Some(offset) {
            match self.r.seek_to(offset) {
                Ok(()) => {
                    self.pos = Some(offset);
                },
                Err(e) => {
                    self.pos = None;
                    return Err(e);
                },
            }
        }
        let read_result = self.r.read_some(max);
        match read_result {
            Ok(bytes) => {
                if offset < u64::MAX - bytes.len() as u64 {
                    self.pos = Some(offset + bytes.len() as u64);
                } else {
                    self.pos = None;
                }
                Ok(bytes)
            },
            Err(e) => Err(e),
        }
    }
}

/// Why an exact read failed.
#[derive(Debug)]
pub enum ReadExactError<E> {
    /// The source ended before enough bytes were read.
    UnexpectedEof,
    /// The source failed.
    Source(E),
}

/// The lock invariant: the shared state is well formed and holds `data`.
pub open spec fn inner_pred<S: ByteSource>(data: Seq<u8>) -> spec_fn(Inner<S>) -> bool {
    |v: Inner<S>| v.wf() && v.contents() == data
}

/// A stream length that a `u64` position can reach.
pub open spec fn length_fits(data: Seq<u8>) -> bool {
    data.len() <= u64::MAX
}

/// A reader over a shared source, cheap to clone. Each clone keeps its own
/// position; the source is moved to that position under a lock before each
/// read.
#[verifier::reject_recursive_types(S)]
pub struct CloneableSeekableReader<S: ByteSource> {
    /// The shared state, behind a lock.
    inner: Arc<RwLock<Inner<S>, spec_fn(Inner<S>) -> bool>>,
    /// The position of this reader.
    pos: u64,
    /// The bytes of the source.
    data: Ghost<Seq<u8>>,
}

impl<S: ByteSource> CloneableSeekableReader<S> {
    /// The bytes this reader reads from.
    pub closed spec fn contents(&self) -> Seq<u8> {
        self.data@
    }

    /// The position of this reader.
    pub closed spec fn position(&self) -> int {
        self.pos as int
    }

    /// The lock guards state that holds this reader's bytes.
    pub closed spec fn wf(&self) -> bool {
        &&& self.inner.pred() == inner_pred::<S>(self.data@)
        &&& length_fits(self.data@)
    }

    /// Takes ownership of a source whose length stays fixed.
    pub fn new(r: S) -> (s: Self)
        requires
            length_fits(r.contents()),
        ensures
            s.wf(),
            s.contents() == r.contents(),
            s.position() == 0,
    {
        let ghost data = r.contents();
        let inner = Inner::new(r);
        let lock = RwLock::new(inner, Ghost(inner_pred::<S>(data)));
        CloneableSeekableReader { inner: Arc::new(lock), pos: 0, data: Ghost(data) }
    }

    /// A new holder of the same source, with its own position, starting at
    /// the start.
    pub fn clone(&self) -> (r: Self)
        requires
            self.wf(),
        ensures
            r.wf(),
            r.contents() == self.contents(),
            r.position() == 0,
    {
        CloneableSeekableReader { inner: share(&self.inner), pos: 0, data: Ghost(self.data@) }
    }

    /// This reader's position.
    pub fn stream_position(&self) -> (r: u64)
        ensures
            r == self.position(),
    {
        self.pos
    }

    /// Moves this reader's position; no other holder's position changes and
    /// the source is not touched, except to learn its length.
    pub fn seek(&mut self, from: SeekPos) -> (r: Result<u64, SeekError>)
        requires
            old(self).wf(),
        ensures
            final(self).wf(),
            final(self).contents() == old(self).contents(),
            match r {
                Ok(p) => {
                    &&& seek_target(old(self).position(), old(self).contents().len() as int, from) == Some(p as int)
                    &&& final(self).position() == p
                },
                Err(_) => {
                    &&& seek_target(old(self).position(), old(self).contents().len() as int, from) is None
                    &&& final(self).position() == old(self).position()
                },
            },
    {
        let len: u64 = match from {
            SeekPos::End(_) => self.source_len(),
            _ => 0,
        };
        let r = resolve_seek(self.pos, len, from);
        if let Ok(p) = r {
            self.pos = p;
        }
        r
    }

    /// Moves this reader back to the start.
    pub fn rewind(&mut self) -> (r: Result<u64, SeekError>)
        requires
            old(self).wf(),
        ensures
            final(self).wf(),
            final(self).contents() == old(self).contents(),
            r == Ok::<u64, SeekError>(0),
            final(self).position() == 0,
    {
        self.seek(SeekPos::Start(0))
    }

    /// Reads exactly `n` bytes at this reader's position and moves past them;
    /// fails with [`ReadExactError::UnexpectedEof`] where the source ends
    /// first.
    pub fn read_exact(&mut self, n: usize) -> (r: Result<Vec<u8>, ReadExactError<S::Error>>)
        requires
            old(self).wf(),
        ensures
            final(self).wf(),
            final(self).contents() == old(self).contents(),
            r matches Ok(bytes) ==> {
                &&& bytes@.len() == n
                &&& n > 0 ==> old(self).position() + n <= old(self).contents().len()
                &&& n > 0 ==> bytes@ == old(self).contents().subrange(old(self).position(), old(self).position() + n)
                &&& final(self).position() == old(self).position() + n
            },
            r matches Err(ReadExactError::UnexpectedEof) ==> old(self).position() + n > old(self).contents().len(),
    {
        let ghost start = self.pos as int;
        let mut out: Vec<u8> = Vec::new();
        while out.len() < n
            invariant
                self.wf(),
                self.contents() == old(self).contents(),
                out.len() <= n,
                out.len() > 0 ==> start + out.len() <= self.contents().len(),
                out.len() > 0 ==> out@ == self.contents().subrange(start, start + out.len()),
                self.position() == start + out.len(),
                start == old(self).position(),
            decreases n - out.len(),
        {
            let want: usize = n - out.len();
            let ghost at = self.position();
            let res = self.read(want);
            match res {
                Ok(mut bytes) => {
                    if bytes.len() == 0 {
                        return Err(ReadExactError::UnexpectedEof);
                    }
                    let ghost before = out@;
                    assert(bytes@ == self.contents().subrange(at, at + bytes@.len()));
                    if out.len() == 0 {
                        assert(before =~= self.contents().subrange(start, at));
                    }
                    assert(before == self.contents().subrange(start, at));
                    out.append(&mut bytes);
                    assert(out@ =~= self.contents().subrange(start, start + out.len()));
                },
                Err(e) => {
                    return Err(ReadExactError::Source(e));
                },
            }
        }
        Ok(out)
    }

    /// The length of the source.
    pub fn source_len(&self) -> (r: u64)
        requires
            self.wf(),
        ensures
            r == self.contents().len(),
    {
        let (mut inner, handle) = self.inner.acquire_write();
        let l = inner.len();
        handle.release_write(inner);
        l
    }

    /// Reads at most `max` bytes at this reader's position and moves past
    /// them.
    pub fn read(&mut self, max: usize) -> (r: Result<Vec<u8>, S::Error>)
        requires
            old(self).wf(),
        ensures
            final(self).wf(),
            final(self).contents() == old(self).contents(),
            match r {
                Ok(bytes) => {
                    &&& read_result_ok(old(self).contents(), old(self).position(), max as int, bytes@)
                    &&& final(self).position() == old(self).position() + bytes.len()
                },
                Err(_) => final(self).position() == old(self).position(),
            },
    {
        let (mut inner, handle) = self.inner.acquire_write();
        let read_result = inner.read_at(self.pos, max);
        handle.release_write(inner);
        if let Ok(bytes) = &read_result {
            self.pos = self.pos + bytes.len() as u64;
        }
        read_result
    }
}

/// Relies on `Arc::clone`: the new handle refers to the same value.
#[verifier::external_body]
fn share<T>(a: &Arc<T>) -> (r: Arc<T>)
    ensures
        r == *a,
{
    Arc::clone(a)
}

} // verus!
