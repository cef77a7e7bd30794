//! A forward-only reader that XOR-decrypts what it reads.
//!
//! This reader advances a private counter on every read and indexes the
//! keystream with it, so it only decrypts correctly when the wrapped stream
//! is consumed strictly in order from the position it was constructed at.
//! The seekable reader in `xor_reader` supersedes it for random access.

use vstd::prelude::*;
use crate::stream::{Stream, read_len};

verus! {

/// A reader that XORs the data with a key up to 32 bytes in length, keeping
/// its own count of bytes delivered so far as the keystream index.
pub struct XorReader<S: Stream> {
    inner: S,
    key: Vec<u8>,
    current_offset: u64,
}

impl<S: Stream> XorReader<S> {
    /// The bytes of the wrapped stream.
    pub closed spec fn contents(&self) -> Seq<u8> {
        self.inner.contents()
    }

    /// The wrapped stream's position.
    pub closed spec fn stream_pos(&self) -> int {
        self.inner.pos()
    }

    /// The key the reader was constructed with.
    pub closed spec fn key_model(&self) -> Seq<u8> {
        self.key@
    }

    /// How many bytes have been delivered since construction.
    pub closed spec fn counter(&self) -> int {
        self.current_offset as int
    }

    /// The invariant of the reader.
    pub closed spec fn inv(&self) -> bool {
        &&& self.inner.inv()
        &&& 1 <= self.key@.len() <= 32
        &&& self.current_offset <= self.inner.pos()
    }

    /// Wraps a stream with the given key, which must hold 1 to 32 bytes.
    pub fn new(inner: S, key_slice: &[u8]) -> (r: XorReader<S>)
        requires
            inner.inv(),
            1 <= key_slice@.len() <= 32,
        ensures
            r.inv(),
            r.contents() == inner.contents(),
            r.stream_pos() == inner.pos(),
            r.key_model() == key_slice@,
            r.counter() == 0,
    {
        proof {
            inner.lemma_inv();
        }
        let key = vstd::slice::slice_to_vec(key_slice);
        XorReader { inner, key, current_offset: 0 }
    }

    /// Reads up to `n` bytes and XORs each with the key byte selected by the
    /// private counter, which then advances by the number of bytes read.
    pub fn read(&mut self, n: usize) -> (r: Vec<u8>)
        requires
            old(self).inv(),
        ensures
            final(self).inv(),
            final(self).contents() == old(self).contents(),
            final(self).key_model() == old(self).key_model(),
            r@.len() == read_len(old(self).contents().len() as int, old(self).stream_pos(), n as int),
            final(self).stream_pos() == old(self).stream_pos() + r@.len(),
            final(self).counter() == old(self).counter() + r@.len(),
            forall|i: int|
                0 <= i < r@.len() ==> r@[i] == (old(self).contents()[old(self).stream_pos() + i]
                    ^ old(self).key_model()[(old(self).counter() + i) % (
                old(self).key_model().len() as int)]),
    {
        let off = self.current_offset;
        let mut data = self.inner.read(n);
        let ghost plain = data@;
        let klen = self.key.len();
        let m = data.len();
        proof {
            self.inner.lemma_inv();
        }
        let mut i: usize = 0;
        while i < m
            invariant
                self.key@.len() == klen,
                1 <= klen <= 32,
                data@.len() == m,
                plain.len() == m,
                i <= m,
                off + m <= u64::MAX,
                forall|j: int| i as int <= j < m as int ==> data@[j] == plain[j],
                forall|j: int|
                    0 <= j < i as int ==> data@[j] == (plain[j] ^ self.key@[(off + j) % (
                    klen as int)]),
            decreases m - i,
        {
            let idx = ((off + i as u64) % (klen as u64)) as usize;
            let b = data[i];
            let kb = self.key[idx];
            data[i] = b ^ kb;
            i = i + 1;
        }
        self.current_offset = off + m as u64;
        data
    }
}

} // verus!
