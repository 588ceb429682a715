//! The trusted boundary around `bytes::Bytes`, the reference-counted shared
//! byte region that backs zero-copy values.
//!
//! `Bytes` is opaque to the verifier; `bytes_contents` names the byte
//! sequence a handle holds, and each wrapper states — over that name — what
//! the crate's documented operation does. Sharing (a clone or a slice
//! reference the same region rather than copying it) is a cost property the
//! contracts do not model; they speak only of contents.

use vstd::prelude::*;

use crate::utf8::utf8_valid;

verus! {

#[verifier::external_type_specification]
#[verifier::external_body]
pub struct ExBytes(bytes::Bytes);

/// The bytes a shared region holds.
pub uninterp spec fn bytes_contents(b: bytes::Bytes) -> Seq<u8>;

/// The UTF-8 representation of a text slice, as `str::as_bytes` hands it
/// out: a function of the characters alone.
pub uninterp spec fn str_utf8_bytes(s: Seq<char>) -> Seq<u8>;

/// Relies on `bytes::Bytes::new`: the returned handle is empty.
#[verifier::external_body]
pub(crate) fn bytes_new() -> (r: bytes::Bytes)
    ensures
        bytes_contents(r) == Seq::<u8>::empty(),
{
    bytes::Bytes::new()
}

/// Relies on `bytes::Bytes::len`: the number of bytes the handle holds.
#[verifier::external_body]
pub(crate) fn bytes_len(b: &bytes::Bytes) -> (r: usize)
    ensures
        r == bytes_contents(*b).len(),
{
    b.len()
}

/// Relies on `<bytes::Bytes as AsRef<[u8]>>::as_ref`: a view of all bytes
/// the handle holds.
#[verifier::external_body]
pub(crate) fn bytes_as_slice(b: &bytes::Bytes) -> (r: &[u8])
    ensures
        r@ == bytes_contents(*b),
{
    b.as_ref()
}

/// Relies on `bytes::Bytes::copy_from_slice`: the new region holds a copy of
/// the slice.
#[verifier::external_body]
pub(crate) fn bytes_copy_from_slice(data: &[u8]) -> (r: bytes::Bytes)
    ensures
        bytes_contents(r) == data@,
{
    bytes::Bytes::copy_from_slice(data)
}

/// Relies on `<bytes::Bytes as Clone>::clone`: the clone is a second handle
/// to the same region, holding the same bytes.
#[verifier::external_body]
pub(crate) fn bytes_clone(b: &bytes::Bytes) -> (r: bytes::Bytes)
    ensures
        bytes_contents(r) == bytes_contents(*b),
{
    b.clone()
}

/// Relies on `bytes::Bytes::from_static` and `str::as_bytes`: the handle
/// points at the text's bytes without copying, and a `str`'s bytes are
/// well-formed UTF-8.
#[verifier::external_body]
pub(crate) fn bytes_from_static_str(src: &'static str) -> (r: bytes::Bytes)
    ensures
        bytes_contents(r) == str_utf8_bytes(src@),
        utf8_valid(bytes_contents(r)),
{
    bytes::Bytes::from_static(src.as_bytes())
}

impl crate::encoding::BytesAdapter for bytes::Bytes {
    open spec fn contents(&self) -> Seq<u8> {
        bytes_contents(*self)
    }

    fn new_empty() -> (r: Self) {
        bytes_new()
    }

    fn len(&self) -> (r: usize) {
        bytes_len(self)
    }

    fn append_to(&self, out: &mut Vec<u8>) {
        crate::buffer::append_slice(out, bytes_as_slice(self));
    }

    /// Replacing a shared region's content from a decoded chunk copies the
    /// chunk into a fresh region (the documented copy-on-decode fallback).
    fn replace_with(&mut self, data: &[u8]) {
        *self = bytes_copy_from_slice(data);
    }
}

/// Relies on `<bytes::Bytes as From<String>>::from` and `String::into_bytes`:
/// the region takes over the text buffer's bytes — the same UTF-8
/// representation of the characters that `str::as_bytes` hands out, and so
/// well-formed.
#[verifier::external_body]
pub(crate) fn bytes_from_string(src: String) -> (r: bytes::Bytes)
    ensures
        bytes_contents(r) == str_utf8_bytes(src@),
        utf8_valid(bytes_contents(r)),
{
    bytes::Bytes::from(src)
}

/// Relies on `core::str::from_utf8`: well-formed UTF-8 bytes reinterpret as
/// text whose byte representation is exactly those bytes.
#[verifier::external_body]
pub(crate) fn bytes_as_str(b: &bytes::Bytes) -> (r: &str)
    requires
        utf8_valid(bytes_contents(*b)),
    ensures
        str_utf8_bytes(r@) == bytes_contents(*b),
{
    match core::str::from_utf8(b.as_ref()) {
        Ok(s) => s,
        Err(_) => "",
    }
}

} // verus!
