//! An in-memory byte source.
//!
//! The handshake core never touches a socket: the surrounding program hands
//! it the received bytes, and this reader doles them out.  Running out of
//! bytes models the peer closing the stream mid-read.

use vstd::prelude::*;

use crate::errors::BsshError;

verus! {

/// A reader over a byte buffer, consumed front to back.
pub struct ByteReader {
    data: Vec<u8>,
    pos: usize,
}

impl ByteReader {
    #[verifier::type_invariant]
    spec fn inv(self) -> bool {
        self.pos <= self.data@.len()
    }

    /// The bytes not yet consumed.
    pub closed spec fn remaining(self) -> Seq<u8> {
        self.data@.skip(self.pos as int)
    }

    /// A reader over the given bytes, none consumed yet.
    pub fn new(data: Vec<u8>) -> (r: ByteReader)
        ensures
            r.remaining() == data@,
    {
        let r = ByteReader { data, pos: 0 };
        proof {
            assert(r.remaining() =~= r.data@);
        }
        r
    }

    /// Consume and return the next byte; the empty reader reports the stream
    /// as ended.
    pub fn read_byte(&mut self) -> (r: Result<u8, BsshError>)
        ensures
            old(self).remaining().len() > 0 ==> r == Ok::<u8, BsshError>(
                old(self).remaining()[0],
            ) && final(self).remaining() == old(self).remaining().skip(1),
            old(self).remaining().len() == 0 ==> r == Err::<u8, BsshError>(
                BsshError::ConnectionEndedUnexpectedly,
            ) && final(self).remaining() == old(self).remaining(),
    {
        proof {
            use_type_invariant(&*self);
        }
        if self.pos < self.data.len() {
            let b = self.data[self.pos];
            self.pos = self.pos + 1;
            proof {
                assert(final(self).remaining() =~= old(self).remaining().skip(1));
            }
            Ok(b)
        } else {
            Err(BsshError::ConnectionEndedUnexpectedly)
        }
    }

    /// Consume and return the next `n` bytes; a reader with fewer reports the
    /// stream as ended and consumes nothing.
    pub fn read_exact(&mut self, n: usize) -> (r: Result<Vec<u8>, BsshError>)
        ensures
            old(self).remaining().len() >= n ==> (match r {
                Ok(v) => v@ == old(self).remaining().take(n as int) && final(self).remaining()
                    == old(self).remaining().skip(n as int),
                Err(_) => false,
            }),
            old(self).remaining().len() < n ==> r == Err::<Vec<u8>, BsshError>(
                BsshError::ConnectionEndedUnexpectedly,
            ) && final(self).remaining() == old(self).remaining(),
    {
        proof {
            use_type_invariant(&*self);
        }
        if n > self.data.len() - self.pos {
            return Err(BsshError::ConnectionEndedUnexpectedly);
        }
        let mut v: Vec<u8> = Vec::new();
        let mut i: usize = 0;
        while i < n
            invariant
                i <= n,
                self == old(self),
                self.inv(),
                self.pos + n <= self.data@.len(),
                self.data@.len() <= usize::MAX,
                v@ == self.remaining().take(i as int),
            decreases n - i,
        {
            v.push(self.data[self.pos + i]);
            i = i + 1;
            proof {
                assert(v@ =~= self.remaining().take(i as int));
            }
        }
        self.pos = self.pos + n;
        proof {
            assert(final(self).remaining() =~= old(self).remaining().skip(n as int));
        }
        Ok(v)
    }
}

} // verus!
