//! Seek arithmetic on a logical cursor.
use vstd::prelude::*;

verus! {

/// Where a seek is measured from, as in `std::io::SeekFrom`.
#[derive(Clone, Copy, Debug, PartialEq, Eq, Structural)]
pub enum SeekPos {
    /// An absolute position.
    Start(u64),
    /// An offset from the end of the stream.
    End(i64),
    /// An offset from the current position.
    Current(i64),
}

/// A seek that would land before the start of the stream, or beyond what a
/// `u64` position can hold.
#[derive(Clone, Copy, Debug, PartialEq, Eq, Structural)]
pub enum SeekError {
    InvalidInput,
}

/// The position a seek lands on, from position `pos` in a stream of length
/// `len`; `None` where that position is negative or too large for a `u64`.
pub open spec fn seek_target(pos: int, len: int, from: SeekPos) -> Option<int> {
    let t = match from {
        SeekPos::Start(n) => n as int,
        SeekPos::End(k) => len + k,
        SeekPos::Current(k) => pos + k,
    };
    if 0 <= t <= u64::MAX {
        Some(t)
    } else {
        None
    }
}

/// Adds a signed offset to a base position, failing where the result falls
/// outside what a `u64` position can hold.
pub fn offset_position(base: u64, offset: i64) -> (r: Result<u64, SeekError>)
    ensures
        match r {
            Ok(p) => p == base + offset,
            Err(_) => !(0 <= base + offset <= u64::MAX),
        },
{
    if offset >= 0 {
        let k: u64 = offset as u64;
        if base > u64::MAX - k {
            Err(SeekError::InvalidInput)
        } else {
            Ok(base + k)
        }
    } else {
        let k: u64 = (-(offset + 1)) as u64 + 1;
        if k > base {
            Err(SeekError::InvalidInput)
        } else {
            Ok(base - k)
        }
    }
}

/// The position that seeking to `from` reaches from `pos` in a stream of
/// length `len`.
pub fn resolve_seek(pos: u64, len: u64, from: SeekPos) -> (r: Result<u64, SeekError>)
    ensures
        match r {
            Ok(p) => seek_target(pos as int, len as int, from) == Some(p as int),
            Err(_) => seek_target(pos as int, len as int, from) is None,
        },
{
    match from {
        SeekPos::Start(n) => Ok(n),
        SeekPos::End(k) => offset_position(len, k),
        SeekPos::Current(k) => offset_position(pos, k),
    }
}

/// Seeking to where a seek from the end landed lands there again, so the
/// reader reads the same bytes.
pub proof fn lemma_seek_end_then_start(pos: int, len: int, offset: i64, other: int)
    requires
        seek_target(pos, len, SeekPos::End(offset)) is Some,
    ensures
        ({
            let p = seek_target(pos, len, SeekPos::End(offset)).unwrap();
            seek_target(other, len, SeekPos::Start(p as u64)) == Some(p)
        }),
{
}

/// Seeking further back from the end than the stream is long fails.
pub proof fn lemma_seek_before_start_fails(pos: int, len: int, offset: i64)
    requires
        offset < 0,
        -offset > len,
    ensures
        seek_target(pos, len, SeekPos::End(offset)) is None,
{
}

} // verus!
