//! The field codecs: one generic pair of encode/merge operations per field
//! kind, written once against a minimal capability interface and shared by
//! every concrete storage representation.

use vstd::prelude::*;

pub mod byte_field;
pub mod string;

verus! {

/// A growable byte container a bytes field can decode into: an owned vector,
/// or a shared region (where replacing the content copies out of the input
/// cursor, the documented fallback when the cursor is not itself backed by
/// the same shared-buffer family).
pub trait BytesAdapter: Sized {
    /// The bytes this container holds.
    spec fn contents(&self) -> Seq<u8>;

    /// Creates an empty container.
    fn new_empty() -> (r: Self)
        ensures
            r.contents() == Seq::<u8>::empty(),
    ;

    /// The current length, in bytes.
    fn len(&self) -> (r: usize)
        ensures
            r == self.contents().len(),
    ;

    /// Appends this container's bytes to `out`, in order.
    fn append_to(&self, out: &mut Vec<u8>)
        ensures
            final(out)@ == old(out)@ + self.contents(),
    ;

    /// Replaces the whole content with the given bytes.
    fn replace_with(&mut self, data: &[u8])
        ensures
            final(self).contents() == data@,
    ;
}

impl BytesAdapter for Vec<u8> {
    open spec fn contents(&self) -> Seq<u8> {
        self@
    }

    fn new_empty() -> (r: Self) {
        Vec::new()
    }

    fn len(&self) -> (r: usize) {
        Vec::len(self)
    }

    fn append_to(&self, out: &mut Vec<u8>) {
        crate::buffer::append_slice(out, self.as_slice());
    }

    fn replace_with(&mut self, data: &[u8]) {
        self.clear();
        crate::buffer::append_slice(self, data);
    }
}

} // verus!
