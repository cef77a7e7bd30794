//! A reader that restricts a stream to a `[start, end)` window.
//!
//! Logical position 0 of the window sits at absolute position `start` of the
//! wrapped stream; reads are clipped so they never cross `end`, and seeks are
//! accepted exactly when they land inside `[0, end - start]`.

use vstd::prelude::*;
use crate::stream::{SeekFrom, Stream, StreamError, read_len, resolve_seek_target, seek_target};

verus! {

/// The bytes of the window `[start, start + len)` that `s` actually backs.
pub open spec fn fence_window(s: Seq<u8>, start: int, len: int) -> Seq<u8> {
    let lo = vstd::math::min(start, s.len() as int);
    let hi = vstd::math::min(start + len, s.len() as int);
    s.subrange(lo, hi)
}

/// A length-bounded view of a stream, with its own position coordinates.
pub struct FencedReader<S: Stream> {
    inner: S,
    start: u64,
    end: u64,
}

impl<S: Stream> FencedReader<S> {
    /// Fences the wrapped stream to the next `len` bytes from its current
    /// position. Fails with `OutOfBounds` exactly when the end of that window
    /// is not seekable in the wrapped stream.
    pub fn take(mut inner: S, len: u64) -> (r: Result<FencedReader<S>, StreamError>)
        requires
            inner.inv(),
        ensures
            match r {
                Ok(f) => inner.pos() + len <= inner.seek_bound() && f.inv() && f.contents()
                    == fence_window(inner.contents(), inner.pos(), len as int) && f.pos() == 0
                    && f.size() == len && f.seek_bound() == len,
                Err(e) => inner.pos() + len > inner.seek_bound() && e == StreamError::OutOfBounds,
            },
    {
        proof {
            inner.lemma_inv();
        }
        let current = inner.position();
        if len > u64::MAX - current {
            return Err(StreamError::OutOfBounds);
        }
        let end = current + len;
        match inner.seek(SeekFrom::Start(end)) {
            Ok(_) => {},
            Err(e) => {
                return Err(e);
            },
        }
        match inner.seek(SeekFrom::Start(current)) {
            Ok(_) => {},
            Err(e) => {
                proof {
                    assert(false);
                }
                return Err(e);
            },
        }
        Ok(FencedReader { inner, start: current, end })
    }
}

impl<S: Stream> Stream for FencedReader<S> {
    closed spec fn contents(&self) -> Seq<u8> {
        fence_window(self.inner.contents(), self.start as int, self.end - self.start)
    }

    closed spec fn pos(&self) -> int {
        self.inner.pos() - self.start
    }

    closed spec fn size(&self) -> int {
        self.end - self.start
    }

    closed spec fn seek_bound(&self) -> int {
        self.end - self.start
    }

    closed spec fn inv(&self) -> bool {
        &&& self.inner.inv()
        &&& self.start <= self.end
        &&& self.end <= self.inner.seek_bound()
        &&& self.start <= self.inner.pos()
        &&& self.inner.pos() <= self.end
    }

    proof fn lemma_inv(&self) {
        self.inner.lemma_inv();
    }

    fn position(&self) -> (r: u64) {
        proof {
            self.inner.lemma_inv();
        }
        let p = self.inner.position();
        p - self.start
    }

    fn read(&mut self, n: usize) -> (r: Vec<u8>) {
        proof {
            self.inner.lemma_inv();
        }
        let p = self.inner.position();
        let rem = self.end - p;
        let m: usize = if rem < n as u64 {
            rem as usize
        } else {
            n
        };
        self.inner.read(m)
    }

    fn seek(&mut self, from: SeekFrom) -> (r: Result<u64, StreamError>) {
        proof {
            self.inner.lemma_inv();
        }
        let size = self.end - self.start;
        let p = self.inner.position();
        match resolve_seek_target(from, size, p - self.start) {
            Some(t) => {
                if t <= size {
                    match self.inner.seek(SeekFrom::Start(self.start + t)) {
                        Ok(_) => Ok(t),
                        Err(e) => {
                            proof {
                                assert(false);
                            }
                            Err(e)
                        },
                    }
                } else {
                    Err(StreamError::OutOfBounds)
                }
            },
            None => Err(StreamError::OutOfBounds),
        }
    }
}

} // verus!
