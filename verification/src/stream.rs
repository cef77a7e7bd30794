//! An in-memory model of seekable byte sources.
//!
//! Every reader in this crate operates on a [`Stream`]: a byte window with a
//! logical position, a declared size, and a bound on how far seeks may go.
//! The base implementation is [`ByteCursor`], which owns a byte buffer; the
//! fenced and decrypting readers wrap any `Stream` and are streams themselves.

use vstd::prelude::*;

verus! {

/// Where a seek starts from, mirroring the usual positioned-stream interface.
#[derive(Debug, Clone, Copy, PartialEq, Eq, Structural)]
pub enum SeekFrom {
    /// Offset from the start of the stream.
    Start(u64),
    /// Offset from the declared end of the stream.
    End(i64),
    /// Offset from the current position.
    Current(i64),
}

/// The ways a stream operation can fail.
#[derive(Debug, Clone, Copy, PartialEq, Eq, Structural)]
pub enum StreamError {
    /// A seek left the allowed range of the stream.
    OutOfBounds,
    /// Fewer bytes were available than an exact read demanded.
    ShortRead,
}

/// The position a seek request resolves to, which may lie outside `[0, u64::MAX]`.
pub open spec fn seek_target(from: SeekFrom, size: int, pos: int) -> int {
    match from {
        SeekFrom::Start(o) => o as int,
        SeekFrom::End(o) => size + o as int,
        SeekFrom::Current(o) => pos + o as int,
    }
}

/// How many bytes a read of `n` returns on a stream of `len` readable bytes at `pos`.
pub open spec fn read_len(len: int, pos: int, n: int) -> int {
    if pos >= len {
        0
    } else if n <= len - pos {
        n
    } else {
        len - pos
    }
}

/// A seekable byte source.
///
/// `contents()` is the sequence of readable bytes; `size()` is the declared
/// length, which may exceed `contents().len()` when a window reaches past the
/// data that actually backs it; seeks are accepted exactly on
/// `[0, seek_bound()]`.
pub trait Stream: Sized {
    /// The readable bytes of the stream.
    spec fn contents(&self) -> Seq<u8>;

    /// The current logical position.
    spec fn pos(&self) -> int;

    /// The declared length, the base of `SeekFrom::End`.
    spec fn size(&self) -> int;

    /// The largest position a seek may reach.
    spec fn seek_bound(&self) -> int;

    /// The invariant each implementation maintains.
    spec fn inv(&self) -> bool;

    /// Basic bounds every stream obeys.
    proof fn lemma_inv(&self)
        requires
            self.inv(),
        ensures
            0 <= self.pos() <= self.seek_bound(),
            self.contents().len() <= self.size(),
            self.size() <= self.seek_bound(),
            self.seek_bound() <= u64::MAX,
            self.contents().len() <= usize::MAX,
    ;

    /// Reports the current logical position.
    fn position(&self) -> (r: u64)
        requires
            self.inv(),
        ensures
            r as int == self.pos(),
    ;

    /// Reads up to `n` bytes from the current position and advances past them.
    fn read(&mut self, n: usize) -> (r: Vec<u8>)
        requires
            old(self).inv(),
        ensures
            final(self).inv(),
            final(self).contents() == old(self).contents(),
            final(self).size() == old(self).size(),
            final(self).seek_bound() == old(self).seek_bound(),
            r@.len() == read_len(old(self).contents().len() as int, old(self).pos(), n as int),
            final(self).pos() == old(self).pos() + r@.len(),
            forall|i: int|
                0 <= i < r@.len() ==> r@[i] == old(self).contents()[old(self).pos() + i],
    ;

    /// Moves the position, succeeding exactly when the target lies in
    /// `[0, seek_bound()]`, and reports the new position.
    fn seek(&mut self, from: SeekFrom) -> (r: Result<u64, StreamError>)
        requires
            old(self).inv(),
        ensures
            final(self).inv(),
            final(self).contents() == old(self).contents(),
            final(self).size() == old(self).size(),
            final(self).seek_bound() == old(self).seek_bound(),
            ({
                let t = seek_target(from, old(self).size(), old(self).pos());
                match r {
                    Ok(p) => 0 <= t <= old(self).seek_bound() && final(self).pos() == t
                        && p as int == t,
                    Err(e) => !(0 <= t <= old(self).seek_bound()) && final(self).pos() == old(
                        self,
                    ).pos() && e == StreamError::OutOfBounds,
                }
            }),
    ;
}

/// Resolves a seek request against a declared size and position, reporting the
/// target when it fits in a `u64` position.
pub fn resolve_seek_target(from: SeekFrom, size: u64, pos: u64) -> (r: Option<u64>)
    ensures
        ({
            let t = seek_target(from, size as int, pos as int);
            match r {
                Some(p) => p as int == t,
                None => !(0 <= t <= u64::MAX),
            }
        }),
{
    match from {
        SeekFrom::Start(o) => Some(o),
        SeekFrom::End(o) => offset_from(size, o),
        SeekFrom::Current(o) => offset_from(pos, o),
    }
}

/// Adds a signed offset to an unsigned base, reporting the sum when it fits in a `u64`.
fn offset_from(base: u64, offset: i64) -> (r: Option<u64>)
    ensures
        match r {
            Some(p) => p as int == base + offset,
            None => !(0 <= base + offset <= u64::MAX),
        },
{
    if offset >= 0 {
        let off = offset as u64;
        if base <= u64::MAX - off {
            Some(base + off)
        } else {
            None
        }
    } else {
        let neg = ((-(offset + 1)) as u64) + 1;
        if neg <= base {
            Some(base - neg)
        } else {
            None
        }
    }
}

/// An owned in-memory byte source: the whole buffer is readable, and seeks may
/// go anywhere a `u64` position reaches, including past the end of the data.
pub struct ByteCursor {
    data: Vec<u8>,
    pos: u64,
}

impl ByteCursor {
    /// Wraps a byte buffer, positioned at its start.
    pub fn new(data: Vec<u8>) -> (r: ByteCursor)
        ensures
            r.inv(),
            r.contents() == data@,
            r.pos() == 0,
            r.size() == data@.len(),
            r.seek_bound() == u64::MAX,
    {
        ByteCursor { data, pos: 0 }
    }
}

impl Stream for ByteCursor {
    closed spec fn contents(&self) -> Seq<u8> {
        self.data@
    }

    closed spec fn pos(&self) -> int {
        self.pos as int
    }

    closed spec fn size(&self) -> int {
        self.data@.len() as int
    }

    closed spec fn seek_bound(&self) -> int {
        u64::MAX as int
    }

    closed spec fn inv(&self) -> bool {
        true
    }

    proof fn lemma_inv(&self) {
        vstd::std_specs::vec::axiom_spec_len(&self.data);
    }

    fn position(&self) -> (r: u64) {
        self.pos
    }

    fn read(&mut self, n: usize) -> (r: Vec<u8>) {
        let len = self.data.len();
        if self.pos >= len as u64 {
            let r: Vec<u8> = Vec::new();
            return r;
        }
        let start = self.pos as usize;
        let avail = len - start;
        let m = if n <= avail {
            n
        } else {
            avail
        };
        let mut out: Vec<u8> = Vec::new();
        let mut i: usize = 0;
        while i < m
            invariant
                self.data@.len() <= usize::MAX,
                start + m <= self.data@.len(),
                i <= m,
                out@.len() == i as int,
                forall|j: int| 0 <= j < i as int ==> out@[j] == self.data@[start + j],
            decreases m - i,
        {
            let b = self.data[start + i];
            out.push(b);
            i = i + 1;
        }
        self.pos = self.pos + m as u64;
        out
    }

    fn seek(&mut self, from: SeekFrom) -> (r: Result<u64, StreamError>) {
        let size = self.data.len() as u64;
        match resolve_seek_target(from, size, self.pos) {
            Some(t) => {
                self.pos = t;
                Ok(t)
            },
            None => Err(StreamError::OutOfBounds),
        }
    }
}

/// Reads exactly `n` bytes, failing with `ShortRead` when fewer are available.
pub fn read_exact<S: Stream>(s: &mut S, n: usize) -> (r: Result<Vec<u8>, StreamError>)
    requires
        old(s).inv(),
    ensures
        final(s).inv(),
        final(s).contents() == old(s).contents(),
        final(s).size() == old(s).size(),
        final(s).seek_bound() == old(s).seek_bound(),
        ({
            let avail = read_len(old(s).contents().len() as int, old(s).pos(), n as int);
            match r {
                Ok(v) => avail == n && final(s).pos() == old(s).pos() + n && v@.len() == n
                    && forall|i: int|
                    0 <= i < n as int ==> v@[i] == old(s).contents()[old(s).pos() + i],
                Err(e) => avail < n && e == StreamError::ShortRead && final(s).pos() == old(
                    s,
                ).pos() + avail,
            }
        }),
{
    let v = s.read(n);
    if v.len() == n {
        Ok(v)
    } else {
        Err(StreamError::ShortRead)
    }
}

/// The value of four little-endian bytes of `s` starting at `p`.
pub open spec fn le32_at(s: Seq<u8>, p: int) -> int {
    s[p] + 0x100 * s[p + 1] + 0x1_0000 * s[p + 2] + 0x100_0000 * s[p + 3]
}

/// The value of eight little-endian bytes of `s` starting at `p`.
pub open spec fn le64_at(s: Seq<u8>, p: int) -> int {
    le32_at(s, p) + 0x1_0000_0000 * le32_at(s, p + 4)
}

/// Reads a little-endian 32-bit word, failing with `ShortRead` past the data.
pub fn read_u32_le<S: Stream>(s: &mut S) -> (r: Result<u32, StreamError>)
    requires
        old(s).inv(),
    ensures
        final(s).inv(),
        final(s).contents() == old(s).contents(),
        final(s).size() == old(s).size(),
        final(s).seek_bound() == old(s).seek_bound(),
        ({
            let avail = read_len(old(s).contents().len() as int, old(s).pos(), 4);
            match r {
                Ok(v) => avail == 4 && final(s).pos() == old(s).pos() + 4 && v as int == le32_at(
                    old(s).contents(),
                    old(s).pos(),
                ),
                Err(e) => avail < 4 && e == StreamError::ShortRead && final(s).pos() == old(
                    s,
                ).pos() + avail,
            }
        }),
{
    let v = match read_exact(s, 4) {
        Ok(v) => v,
        Err(e) => {
            return Err(e);
        },
    };
    let b0 = v[0] as u32;
    let b1 = v[1] as u32;
    let b2 = v[2] as u32;
    let b3 = v[3] as u32;
    Ok(b0 + 0x100 * b1 + 0x1_0000 * b2 + 0x100_0000 * b3)
}

/// Reads a little-endian 64-bit word, failing with `ShortRead` past the data.
pub fn read_u64_le<S: Stream>(s: &mut S) -> (r: Result<u64, StreamError>)
    requires
        old(s).inv(),
    ensures
        final(s).inv(),
        final(s).contents() == old(s).contents(),
        final(s).size() == old(s).size(),
        final(s).seek_bound() == old(s).seek_bound(),
        ({
            let avail = read_len(old(s).contents().len() as int, old(s).pos(), 8);
            match r {
                Ok(v) => avail == 8 && final(s).pos() == old(s).pos() + 8 && v as int == le64_at(
                    old(s).contents(),
                    old(s).pos(),
                ),
                Err(e) => avail < 8 && e == StreamError::ShortRead && final(s).pos() == old(
                    s,
                ).pos() + avail,
            }
        }),
{
    let v = match read_exact(s, 8) {
        Ok(v) => v,
        Err(e) => {
            return Err(e);
        },
    };
    let lo = (v[0] as u64) + 0x100 * (v[1] as u64) + 0x1_0000 * (v[2] as u64) + 0x100_0000 * (
    v[3] as u64);
    let hi = (v[4] as u64) + 0x100 * (v[5] as u64) + 0x1_0000 * (v[6] as u64) + 0x100_0000 * (
    v[7] as u64);
    let value = lo + 0x1_0000_0000 * hi;
    proof {
        let c = old(s).contents();
        let p = old(s).pos();
        assert(v@[0] == c[p] && v@[1] == c[p + 1] && v@[2] == c[p + 2] && v@[3] == c[p + 3]
            && v@[4] == c[p + 4] && v@[5] == c[p + 5] && v@[6] == c[p + 6] && v@[7] == c[p + 7]);
    }
    Ok(value)
}

} // verus!
