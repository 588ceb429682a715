//! The string-field codec: the bytes-field codec plus UTF-8 validation,
//! with failure atomicity — a string destination never ends up holding
//! ill-formed or partially-replaced bytes; on any failure it ends empty.

use vstd::prelude::*;

use crate::buffer::{append_slice, Reader};
use crate::bytestring::ByteString;
use crate::utf8::{utf8_valid, validate_utf8};
use crate::wire::{
    encode_key, encode_varint, encoded_len_varint, field_bytes, key_len, lemma_repeated_step,
    lemma_repeated_take_len, lemma_varint_len_bounds, parse_len, parse_ok, parse_val,
    repeated_field_bytes, DecodeContext, DecodeError, WireType, MAX_TAG,
};

verus! {

/// A growable text container a string field can encode from and decode
/// into. Its byte representation is well-formed UTF-8 whenever it is
/// observable.
pub trait StringAdapter: Sized {
    /// The byte representation of the text this value holds.
    spec fn text(&self) -> Seq<u8>;

    /// Creates an empty text container.
    fn new_empty() -> (r: Self)
        ensures
            r.text() == Seq::<u8>::empty(),
    ;

    /// The current length, in bytes.
    fn len(&self) -> (r: usize)
        ensures
            r == self.text().len(),
    ;

    /// The text's bytes; they are well-formed UTF-8.
    fn as_bytes(&self) -> (r: &[u8])
        ensures
            r@ == self.text(),
            utf8_valid(self.text()),
    ;

    /// Empties the container.
    fn clear(&mut self)
        ensures
            final(self).text() == Seq::<u8>::empty(),
    ;

    /// Replaces the whole content with the given bytes, which the caller
    /// has proved well-formed UTF-8.
    fn set_from_utf8(&mut self, data: &[u8])
        requires
            utf8_valid(data@),
        ensures
            final(self).text() == data@,
    ;
}

impl StringAdapter for ByteString {
    open spec fn text(&self) -> Seq<u8> {
        self@
    }

    fn new_empty() -> (r: Self) {
        ByteString::new()
    }

    fn len(&self) -> (r: usize) {
        ByteString::len(self)
    }

    fn as_bytes(&self) -> (r: &[u8]) {
        ByteString::as_byte_slice(self)
    }

    fn clear(&mut self) {
        ByteString::clear(self);
    }

    fn set_from_utf8(&mut self, data: &[u8]) {
        *self = ByteString::copy_from_utf8(data);
    }
}

/// Writes one string field: identical wire shape to the bytes codec,
/// writing the text's byte representation as the payload.
pub fn encode<A: StringAdapter>(tag: u32, value: &A, buf: &mut Vec<u8>)
    requires
        1 <= tag <= MAX_TAG,
    ensures
        final(buf)@ == old(buf)@ + field_bytes(tag, value.text()),
{
    encode_key(tag, WireType::LengthDelimited, buf);
    encode_varint(value.len() as u64, buf);
    append_slice(buf, value.as_bytes());
    proof {
        assert(buf@ =~= old(buf)@ + field_bytes(tag, value.text()));
    }
}

/// The number of bytes `encode` writes for this tag and value.
pub fn encoded_len<A: StringAdapter>(tag: u32, value: &A) -> (r: usize)
    requires
        1 <= tag <= MAX_TAG,
        value.text().len() + 15 <= usize::MAX,
    ensures
        r == field_bytes(tag, value.text()).len(),
{
    let kl: usize = key_len(tag);
    let len: usize = value.len();
    let ll: usize = encoded_len_varint(len as u64);
    proof {
        lemma_varint_len_bounds(len as u64);
    }
    kl + ll + len
}

/// Reads one string field into `value`, replacing its whole content: the
/// bytes-field decode followed by UTF-8 validation of the payload.
///
/// Failure atomicity: on every failure — wrong wire type, malformed length,
/// underflow, or ill-formed UTF-8 — `value` ends empty, whatever it held
/// before, so a string destination is never observable holding ill-formed
/// bytes. The payload is decoded into a scratch buffer and committed only
/// after validation, and verified code has no unwinding exits, so no path
/// can leave the destination holding unvalidated bytes. On success it holds
/// exactly the payload, which is well-formed.
pub fn merge<A: StringAdapter>(
    wire_type: WireType,
    value: &mut A,
    input: &mut Reader,
    ctx: DecodeContext,
) -> (res: Result<(), DecodeError>)
    ensures
        final(input).all_bytes() == old(input).all_bytes(),
        utf8_valid(final(value).text()),
        ({
            let s = old(input).remaining_bytes();
            let payload = s.subrange(parse_len(s), parse_len(s) + parse_val(s) as int);
            match res {
                Ok(()) => {
                    &&& wire_type == WireType::LengthDelimited
                    &&& parse_ok(s)
                    &&& parse_val(s) <= s.len() - parse_len(s)
                    &&& utf8_valid(payload)
                    &&& final(value).text() == payload
                    &&& final(input).position() == old(input).position() + parse_len(s)
                        + parse_val(s)
                },
                Err(e) => {
                    &&& final(value).text() == Seq::<u8>::empty()
                    &&& match e {
                        DecodeError::WireTypeMismatch => wire_type != WireType::LengthDelimited
                            && final(input).position() == old(input).position(),
                        DecodeError::Malformed => wire_type == WireType::LengthDelimited
                            && !parse_ok(s) && final(input).position() == old(input).position(),
                        DecodeError::BufferUnderflow => wire_type == WireType::LengthDelimited
                            && parse_ok(s) && parse_val(s) > s.len() - parse_len(s)
                            && final(input).position() == old(input).position() + parse_len(s),
                        DecodeError::InvalidUtf8 => wire_type == WireType::LengthDelimited
                            && parse_ok(s) && parse_val(s) <= s.len() - parse_len(s)
                            && !utf8_valid(payload) && final(input).position() == old(
                            input,
                        ).position() + parse_len(s) + parse_val(s),
                    }
                },
            }
        }),
{
    let mut tmp: Vec<u8> = Vec::new();
    match super::byte_field::merge(wire_type, &mut tmp, input, ctx) {
        Err(e) => {
            value.clear();
            proof {
                assert(utf8_valid(Seq::<u8>::empty()));
            }
            Err(e)
        },
        Ok(()) => {
            if validate_utf8(tmp.as_slice()) {
                value.set_from_utf8(tmp.as_slice());
                Ok(())
            } else {
                value.clear();
                proof {
                    assert(utf8_valid(Seq::<u8>::empty()));
                }
                Err(DecodeError::InvalidUtf8)
            }
        },
    }
}

/// The byte representation of each element's text, in order.
pub open spec fn texts_of<A: StringAdapter>(values: Seq<A>) -> Seq<Seq<u8>> {
    values.map(|i: int, v: A| v.text())
}

/// Writes one string field per element, in order.
pub fn encode_repeated<A: StringAdapter>(tag: u32, values: &[A], buf: &mut Vec<u8>)
    requires
        1 <= tag <= MAX_TAG,
    ensures
        final(buf)@ == old(buf)@ + repeated_field_bytes(tag, texts_of(values@)),
{
    let ghost m = texts_of(values@);
    let mut idx: usize = 0;
    proof {
        assert(m.take(0) =~= Seq::<Seq<u8>>::empty());
    }
    while idx < values.len()
        invariant
            idx <= values@.len(),
            1 <= tag <= MAX_TAG,
            m == texts_of(values@),
            buf@ == old(buf)@ + repeated_field_bytes(tag, m.take(idx as int)),
        decreases values@.len() - idx,
    {
        let v = vstd::slice::slice_index_get(values, idx);
        encode(tag, v, buf);
        proof {
            assert(m[idx as int] == v.text());
            lemma_repeated_step(tag, m, idx as int);
        }
        idx = idx + 1;
    }
    proof {
        assert(m.take(values@.len() as int) =~= m);
    }
}

/// The number of bytes `encode_repeated` writes: one field per element.
pub fn encoded_len_repeated<A: StringAdapter>(tag: u32, values: &[A]) -> (r: usize)
    requires
        1 <= tag <= MAX_TAG,
        repeated_field_bytes(tag, texts_of(values@)).len() + 15 <= usize::MAX,
    ensures
        r == repeated_field_bytes(tag, texts_of(values@)).len(),
{
    let ghost m = texts_of(values@);
    let mut idx: usize = 0;
    let mut total: usize = 0;
    proof {
        assert(m.take(0) =~= Seq::<Seq<u8>>::empty());
    }
    while idx < values.len()
        invariant
            idx <= values@.len(),
            1 <= tag <= MAX_TAG,
            m == texts_of(values@),
            repeated_field_bytes(tag, m).len() + 15 <= usize::MAX,
            total == repeated_field_bytes(tag, m.take(idx as int)).len(),
        decreases values@.len() - idx,
    {
        let v = vstd::slice::slice_index_get(values, idx);
        proof {
            assert(m[idx as int] == v.text());
            lemma_repeated_step(tag, m, idx as int);
            lemma_repeated_take_len(tag, m, idx as int + 1);
        }
        let el: usize = encoded_len(tag, v);
        total = total + el;
        idx = idx + 1;
    }
    proof {
        assert(m.take(values@.len() as int) =~= m);
    }
    total
}

/// Reads one occurrence of a repeated string field and appends it to
/// `values`, in wire order; on failure `values` is unchanged (the failed
/// element is discarded, so no ill-formed text is ever observable).
pub fn merge_repeated<A: StringAdapter>(
    wire_type: WireType,
    values: &mut Vec<A>,
    input: &mut Reader,
    ctx: DecodeContext,
) -> (res: Result<(), DecodeError>)
    ensures
        final(input).all_bytes() == old(input).all_bytes(),
        ({
            let s = old(input).remaining_bytes();
            let payload = s.subrange(parse_len(s), parse_len(s) + parse_val(s) as int);
            match res {
                Ok(()) => {
                    &&& wire_type == WireType::LengthDelimited
                    &&& parse_ok(s)
                    &&& parse_val(s) <= s.len() - parse_len(s)
                    &&& utf8_valid(payload)
                    &&& final(values)@.len() == old(values)@.len() + 1
                    &&& final(values)@.subrange(0, old(values)@.len() as int) == old(values)@
                    &&& final(values)@.last().text() == payload
                    &&& final(input).position() == old(input).position() + parse_len(s)
                        + parse_val(s)
                },
                Err(e) => {
                    &&& final(values)@ == old(values)@
                    &&& match e {
                        DecodeError::WireTypeMismatch => wire_type != WireType::LengthDelimited
                            && final(input).position() == old(input).position(),
                        DecodeError::Malformed => wire_type == WireType::LengthDelimited
                            && !parse_ok(s) && final(input).position() == old(input).position(),
                        DecodeError::BufferUnderflow => wire_type == WireType::LengthDelimited
                            && parse_ok(s) && parse_val(s) > s.len() - parse_len(s)
                            && final(input).position() == old(input).position() + parse_len(s),
                        DecodeError::InvalidUtf8 => wire_type == WireType::LengthDelimited
                            && parse_ok(s) && parse_val(s) <= s.len() - parse_len(s)
                            && !utf8_valid(payload) && final(input).position() == old(
                            input,
                        ).position() + parse_len(s) + parse_val(s),
                    }
                },
            }
        }),
{
    let mut value = A::new_empty();
    match merge(wire_type, &mut value, input, ctx) {
        Ok(()) => {
            values.push(value);
            proof {
                assert(values@.subrange(0, old(values)@.len() as int) =~= old(values)@);
            }
            Ok(())
        },
        Err(e) => Err(e),
    }
}

} // verus!
