//! A seekable reader that XOR-decrypts what it reads.
//!
//! The keystream index of every output byte is derived from the wrapped
//! stream's position at read time, never from a private counter, so the
//! decryption stays aligned across arbitrary seeks.

use vstd::prelude::*;
use crate::stream::{SeekFrom, Stream, StreamError};

verus! {

/// `s` XOR-combined with `k` repeated from the start of `s`.
pub open spec fn xor_seq(s: Seq<u8>, k: Seq<u8>) -> Seq<u8>
    recommends
        1 <= k.len(),
{
    Seq::new(s.len(), |i: int| s[i] ^ k[i % (k.len() as int)])
}

/// Applying the same key twice gives the original bytes back, so a decrypting
/// reader layered over an encrypting one reproduces its input no matter how
/// the reads are chunked or interleaved with seeks.
pub proof fn lemma_xor_round_trip(s: Seq<u8>, k: Seq<u8>)
    requires
        1 <= k.len(),
    ensures
        xor_seq(xor_seq(s, k), k) == s,
{
    assert forall|i: int| 0 <= i < s.len() implies xor_seq(xor_seq(s, k), k)[i] == s[i] by {
        let b = s[i];
        let kb = k[i % (k.len() as int)];
        assert((b ^ kb) ^ kb == b) by (bit_vector);
    }
    assert(xor_seq(xor_seq(s, k), k) =~= s);
}

/// A reader that XORs the data with a key up to 32 bytes in length. Seeks pass
/// through to the wrapped stream, and the keystream realigns to the new
/// position on the next read.
pub struct XorReader<S: Stream> {
    inner: S,
    key: Vec<u8>,
}

impl<S: Stream> XorReader<S> {
    /// Wraps a stream with the given key, which must hold 1 to 32 bytes.
    pub fn new(inner: S, key_slice: &[u8]) -> (r: XorReader<S>)
        requires
            inner.inv(),
            1 <= key_slice@.len() <= 32,
        ensures
            r.inv(),
            r.contents() == xor_seq(inner.contents(), key_slice@),
            r.pos() == inner.pos(),
            r.size() == inner.size(),
            r.seek_bound() == inner.seek_bound(),
    {
        let key = vstd::slice::slice_to_vec(key_slice);
        XorReader { inner, key }
    }
}

impl<S: Stream> Stream for XorReader<S> {
    closed spec fn contents(&self) -> Seq<u8> {
        xor_seq(self.inner.contents(), self.key@)
    }

    closed spec fn pos(&self) -> int {
        self.inner.pos()
    }

    closed spec fn size(&self) -> int {
        self.inner.size()
    }

    closed spec fn seek_bound(&self) -> int {
        self.inner.seek_bound()
    }

    closed spec fn inv(&self) -> bool {
        &&& self.inner.inv()
        &&& 1 <= self.key@.len() <= 32
    }

    proof fn lemma_inv(&self) {
        self.inner.lemma_inv();
    }

    fn position(&self) -> (r: u64) {
        self.inner.position()
    }

    fn read(&mut self, n: usize) -> (r: Vec<u8>) {
        proof {
            self.inner.lemma_inv();
        }
        let p = self.inner.position();
        let mut data = self.inner.read(n);
        let ghost plain = data@;
        let klen = self.key.len();
        let m = data.len();
        proof {
            self.inner.lemma_inv();
        }
        let mut i: usize = 0;
        while i < m
            invariant
                self.key@.len() == klen,
                1 <= klen <= 32,
                data@.len() == m,
                plain.len() == m,
                i <= m,
                p + m <= u64::MAX,
                forall|j: int|
                    i as int <= j < m as int ==> data@[j] == plain[j],
                forall|j: int|
                    0 <= j < i as int ==> data@[j] == (plain[j] ^ self.key@[(p + j) % (
                    klen as int)]),
            decreases m - i,
        {
            let idx = ((p + i as u64) % (klen as u64)) as usize;
            let b = data[i];
            let kb = self.key[idx];
            data[i] = b ^ kb;
            i = i + 1;
        }
        data
    }

    fn seek(&mut self, from: SeekFrom) -> (r: Result<u64, StreamError>) {
        self.inner.seek(from)
    }
}

} // verus!
