//! An immutable UTF-8 string backed by a shared byte region.
//!
//! The type's invariant — the backing bytes are well-formed UTF-8 — holds at
//! every observable point: every constructor establishes it and no operation
//! can break it. Cloning shares the region instead of copying it.

use vstd::prelude::*;

use bytes::Bytes;

use crate::shared::{
    bytes_as_slice, bytes_as_str, bytes_clone, bytes_contents, bytes_copy_from_slice,
    bytes_from_static_str, bytes_from_string, bytes_len, bytes_new, str_utf8_bytes,
};
use crate::utf8::{utf8_valid, validate_utf8};
use crate::wire::DecodeError;

verus! {

/// An immutable UTF-8 encoded string with a shared `Bytes` region as its
/// storage. Its view is the byte sequence it holds, always valid UTF-8.
///
/// Equality, ordering and hashing are over the content (two strings with
/// equal text but different backing regions compare equal and hash
/// identically), never over region identity.
#[derive(Eq, PartialOrd, Ord, Hash)]
pub struct ByteString {
    data: Bytes,
}

impl View for ByteString {
    type V = Seq<u8>;

    closed spec fn view(&self) -> Seq<u8> {
        bytes_contents(self.data)
    }
}

impl ByteString {
    #[verifier::type_invariant]
    spec fn inv(self) -> bool {
        utf8_valid(bytes_contents(self.data))
    }

    /// Creates a new empty `ByteString`.
    pub fn new() -> (r: ByteString)
        ensures
            r@ == Seq::<u8>::empty(),
    {
        let b = bytes_new();
        proof {
            assert(utf8_valid(Seq::<u8>::empty()));
        }
        ByteString { data: b }
    }

    /// Creates a `ByteString` sharing the bytes of a static text slice,
    /// without copying them.
    pub fn from_static(src: &'static str) -> (r: ByteString)
        ensures
            r@ == str_utf8_bytes(src@),
    {
        ByteString { data: bytes_from_static_str(src) }
    }

    /// Takes over an owned text buffer; infallible, since the text is
    /// already known to be valid.
    pub fn from_string(src: String) -> (r: ByteString)
        ensures
            r@ == str_utf8_bytes(src@),
    {
        ByteString { data: bytes_from_string(src) }
    }

    /// Copies the given bytes into a fresh `ByteString`, after checking
    /// that they are well-formed UTF-8; exactly the ill-formed slices are
    /// rejected.
    pub fn try_from_slice(data: &[u8]) -> (r: Result<ByteString, DecodeError>)
        ensures
            r is Ok <==> utf8_valid(data@),
            r matches Ok(bs) ==> bs@ == data@,
            r is Err ==> r == Err::<ByteString, DecodeError>(DecodeError::InvalidUtf8),
    {
        if validate_utf8(data) {
            Ok(ByteString::copy_from_utf8(data))
        } else {
            Err(DecodeError::InvalidUtf8)
        }
    }

    /// Creates a `ByteString` sharing `src`'s storage, after checking that
    /// its bytes are well-formed UTF-8; exactly the ill-formed regions are
    /// rejected.
    pub fn from_utf8(src: Bytes) -> (r: Result<ByteString, DecodeError>)
        ensures
            r is Ok <==> utf8_valid(bytes_contents(src)),
            r matches Ok(bs) ==> bs@ == bytes_contents(src),
            r is Err ==> r == Err::<ByteString, DecodeError>(DecodeError::InvalidUtf8),
    {
        if validate_utf8(bytes_as_slice(&src)) {
            Ok(ByteString { data: src })
        } else {
            Err(DecodeError::InvalidUtf8)
        }
    }

    /// Creates a `ByteString` sharing `src`'s storage without re-checking
    /// it; the caller proves the bytes are well-formed UTF-8.
    pub fn from_bytes_unchecked(src: Bytes) -> (r: ByteString)
        requires
            utf8_valid(bytes_contents(src)),
        ensures
            r@ == bytes_contents(src),
    {
        ByteString { data: src }
    }

    /// A reference to the underlying `Bytes` region; its bytes are
    /// well-formed UTF-8, as they are at every observable point.
    pub fn as_bytes(&self) -> (r: &Bytes)
        ensures
            bytes_contents(*r) == self@,
            utf8_valid(self@),
    {
        proof {
            use_type_invariant(self);
        }
        &self.data
    }

    /// Unwraps this `ByteString` into the underlying `Bytes` region, whose
    /// bytes are well-formed UTF-8.
    pub fn into_bytes(self) -> (r: Bytes)
        ensures
            bytes_contents(r) == self@,
            utf8_valid(self@),
    {
        proof {
            use_type_invariant(&self);
        }
        let ByteString { data } = self;
        data
    }

    /// The bytes this string holds: always well-formed UTF-8.
    pub fn as_byte_slice(&self) -> (r: &[u8])
        ensures
            r@ == self@,
            utf8_valid(self@),
    {
        proof {
            use_type_invariant(self);
        }
        bytes_as_slice(&self.data)
    }

    /// The string as text; its byte representation is exactly this
    /// string's bytes.
    pub fn as_str(&self) -> (r: &str)
        ensures
            str_utf8_bytes(r@) == self@,
    {
        proof {
            use_type_invariant(self);
        }
        bytes_as_str(&self.data)
    }

    /// The length of the string, in bytes.
    pub fn len(&self) -> (r: usize)
        ensures
            r == self@.len(),
    {
        bytes_len(&self.data)
    }

    /// Replaces the content with an empty shared region.
    pub fn clear(&mut self)
        ensures
            final(self)@ == Seq::<u8>::empty(),
    {
        let b = bytes_new();
        proof {
            assert(utf8_valid(Seq::<u8>::empty()));
        }
        *self = ByteString { data: b };
    }

    /// Copies the given bytes into a fresh `ByteString`; the caller proves
    /// they are well-formed UTF-8.
    pub fn copy_from_utf8(data: &[u8]) -> (r: ByteString)
        requires
            utf8_valid(data@),
        ensures
            r@ == data@,
    {
        ByteString { data: bytes_copy_from_slice(data) }
    }
}

impl Clone for ByteString {
    /// The clone shares the backing region and holds the same bytes.
    fn clone(&self) -> (r: Self)
        ensures
            r@ == self@,
    {
        proof {
            use_type_invariant(self);
        }
        ByteString { data: bytes_clone(&self.data) }
    }
}

impl PartialEq for ByteString {
    /// Equality is over the text's bytes, not over region identity.
    fn eq(&self, other: &ByteString) -> (r: bool) {
        crate::buffer::slice_eq(bytes_as_slice(&self.data), bytes_as_slice(&other.data))
    }
}

impl vstd::std_specs::cmp::PartialEqSpecImpl for ByteString {
    open spec fn obeys_eq_spec() -> bool {
        true
    }

    open spec fn eq_spec(&self, other: &ByteString) -> bool {
        self@ == other@
    }
}

} // verus!
