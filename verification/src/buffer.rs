//! A verified read cursor over a byte region, and small byte-slice helpers.
//!
//! The cursor is the input side of the codec: decoding reads a varint length
//! and then consumes exactly that many bytes, never past the end of the
//! caller-supplied region.

use vstd::prelude::*;
use vstd::slice::{slice_subrange, slice_to_vec};

verus! {

/// A cursor-style reader over an owned byte region. The region itself never
/// changes; only the read position advances.
pub struct Reader {
    data: Vec<u8>,
    pos: usize,
}

impl Reader {
    /// The whole underlying byte region.
    pub closed spec fn all_bytes(&self) -> Seq<u8> {
        self.data@
    }

    /// How many bytes have been consumed so far.
    pub closed spec fn position(&self) -> int {
        self.pos as int
    }

    /// The bytes not yet consumed.
    pub open spec fn remaining_bytes(&self) -> Seq<u8> {
        self.all_bytes().skip(self.position())
    }

    #[verifier::type_invariant]
    spec fn inv(self) -> bool {
        self.pos <= self.data@.len()
    }

    pub fn new(data: Vec<u8>) -> (r: Reader)
        ensures
            r.all_bytes() == data@,
            r.position() == 0,
    {
        Reader { data, pos: 0 }
    }

    /// The number of bytes not yet consumed.
    pub fn remaining(&self) -> (r: usize)
        ensures
            r == self.remaining_bytes().len(),
            0 <= self.position(),
            self.position() + r == self.all_bytes().len(),
    {
        proof {
            use_type_invariant(self);
        }
        self.data.len() - self.pos
    }

    /// Reads the byte `off` places past the current position, without
    /// consuming anything.
    pub(crate) fn peek(&self, off: usize) -> (r: u8)
        requires
            off < self.remaining_bytes().len(),
        ensures
            r == self.remaining_bytes()[off as int],
    {
        proof {
            use_type_invariant(self);
        }
        // An exec length fits in usize, which bounds the index arithmetic.
        let total: usize = self.data.len();
        self.data[self.pos + off]
    }

    /// Consumes `n` bytes without looking at them.
    pub(crate) fn advance(&mut self, n: usize)
        requires
            n <= old(self).remaining_bytes().len(),
        ensures
            final(self).all_bytes() == old(self).all_bytes(),
            final(self).position() == old(self).position() + n,
    {
        proof {
            use_type_invariant(&*self);
        }
        // An exec length fits in usize, which bounds the position arithmetic.
        let total: usize = self.data.len();
        self.pos = self.pos + n;
    }

    /// Consumes the next `n` bytes and hands them out as an owned copy.
    pub(crate) fn take(&mut self, n: usize) -> (r: Vec<u8>)
        requires
            n <= old(self).remaining_bytes().len(),
        ensures
            r@ == old(self).remaining_bytes().take(n as int),
            final(self).all_bytes() == old(self).all_bytes(),
            final(self).position() == old(self).position() + n,
    {
        proof {
            use_type_invariant(&*self);
        }
        // An exec length fits in usize, which bounds the position arithmetic.
        let total: usize = self.data.len();
        let chunk = slice_to_vec(slice_subrange(self.data.as_slice(), self.pos, self.pos + n));
        self.pos = self.pos + n;
        proof {
            assert(chunk@ =~= old(self).remaining_bytes().take(n as int));
        }
        chunk
    }
}

/// Appends every byte of `data` to `out`, in order.
pub fn append_slice(out: &mut Vec<u8>, data: &[u8])
    ensures
        final(out)@ == old(out)@ + data@,
{
    let mut i: usize = 0;
    while i < data.len()
        invariant
            i <= data@.len(),
            out@ == old(out)@ + data@.take(i as int),
        decreases data@.len() - i,
    {
        let b: u8 = data[i];
        out.push(b);
        i = i + 1;
        proof {
            assert(out@ =~= old(out)@ + data@.take(i as int));
        }
    }
    proof {
        assert(data@.take(data@.len() as int) =~= data@);
    }
}

/// Whether two byte slices hold the same bytes.
pub fn slice_eq(a: &[u8], b: &[u8]) -> (r: bool)
    ensures
        r == (a@ == b@),
{
    if a.len() != b.len() {
        return false;
    }
    let mut i: usize = 0;
    while i < a.len()
        invariant
            i <= a@.len(),
            a@.len() == b@.len(),
            forall|j: int| 0 <= j < i ==> a@[j] == b@[j],
        decreases a@.len() - i,
    {
        if a[i] != b[i] {
            return false;
        }
        i = i + 1;
    }
    proof {
        assert(a@ =~= b@);
    }
    true
}

} // verus!
