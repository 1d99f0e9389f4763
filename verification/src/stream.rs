//! The byte-stream abstraction the codecs read from.
//!
//! The codecs only ever need "read exactly `n` bytes". `ByteSource` states
//! that operation over the sequence of bytes still to come, and
//! `MemoryStream` is the verified in-memory source used by the tests and by
//! callers that already hold the received bytes.

use vstd::prelude::*;
use vstd::slice::{slice_subrange, slice_to_vec};

verus! {

/// A source of bytes with read-exact-N semantics.
pub trait ByteSource {
    /// The bytes this source will still deliver, in order.
    spec fn pending(&self) -> Seq<u8>;

    /// Reads exactly `n` bytes from the front of the source, or reports
    /// exhaustion without consuming anything.
    fn read_exact_bytes(&mut self, n: usize) -> (r: Option<Vec<u8>>)
        ensures
            r matches Some(v) ==> n <= old(self).pending().len() && v@ == old(
                self,
            ).pending().take(n as int) && final(self).pending() == old(self).pending().skip(
                n as int,
            ),
            r is None ==> n > old(self).pending().len() && final(self).pending() == old(
                self,
            ).pending(),
    ;
}

/// An in-memory byte source over an owned buffer.
#[derive(Debug)]
pub struct MemoryStream {
    data: Vec<u8>,
    pos: usize,
}

impl MemoryStream {
    #[verifier::type_invariant]
    spec fn inv(&self) -> bool {
        self.pos <= self.data@.len()
    }

    /// Wraps a buffer as a stream that delivers exactly its bytes.
    pub fn new(data: Vec<u8>) -> (r: MemoryStream)
        ensures
            r.pending() == data@,
    {
        let r = MemoryStream { data, pos: 0 };
        proof {
            assert(r.pending() =~= r.data@);
        }
        r
    }
}

impl ByteSource for MemoryStream {
    closed spec fn pending(&self) -> Seq<u8> {
        self.data@.skip(self.pos as int)
    }

    fn read_exact_bytes(&mut self, n: usize) -> (r: Option<Vec<u8>>) {
        proof {
            use_type_invariant(&*self);
        }
        if n <= self.data.len() - self.pos {
            let taken = slice_subrange(self.data.as_slice(), self.pos, self.pos + n);
            let v = slice_to_vec(taken);
            self.pos = self.pos + n;
            proof {
                assert(v@ =~= old(self).pending().take(n as int));
                assert(self.pending() =~= old(self).pending().skip(n as int));
            }
            Some(v)
        } else {
            None
        }
    }
}

} // verus!
