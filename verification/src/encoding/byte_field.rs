//! The bytes-field codec: encodes and decodes one opaque byte-sequence
//! field, generic over the destination's storage representation.

use vstd::prelude::*;

use crate::buffer::Reader;
use crate::encoding::BytesAdapter;
use crate::wire::{
    check_wire_type, decode_varint, encode_key, encode_varint, encoded_len_varint, field_bytes,
    key_len, lemma_repeated_step, lemma_repeated_take_len, lemma_varint_len_bounds, parse_len,
    parse_ok, parse_val, repeated_field_bytes, spec_parse_varint, DecodeContext, DecodeError,
    WireType, MAX_TAG,
};

verus! {

/// Writes one bytes field: the field key (tag, length-delimited), the
/// payload length as a varint, then the payload's bytes verbatim.
pub fn encode<A: BytesAdapter>(tag: u32, value: &A, buf: &mut Vec<u8>)
    requires
        1 <= tag <= MAX_TAG,
    ensures
        final(buf)@ == old(buf)@ + field_bytes(tag, value.contents()),
{
    encode_key(tag, WireType::LengthDelimited, buf);
    encode_varint(value.len() as u64, buf);
    value.append_to(buf);
    proof {
        assert(buf@ =~= old(buf)@ + field_bytes(tag, value.contents()));
    }
}

/// The number of bytes `encode` writes for this tag and value: key size,
/// length-varint size, payload size.
pub fn encoded_len<A: BytesAdapter>(tag: u32, value: &A) -> (r: usize)
    requires
        1 <= tag <= MAX_TAG,
        value.contents().len() + 15 <= usize::MAX,
    ensures
        r == field_bytes(tag, value.contents()).len(),
{
    let kl: usize = key_len(tag);
    let len: usize = value.len();
    let ll: usize = encoded_len_varint(len as u64);
    proof {
        lemma_varint_len_bounds(len as u64);
    }
    kl + ll + len
}

/// Reads one bytes field into `value`, replacing its whole content —
/// protobuf merge semantics: when a non-repeated field occurs more than
/// once, the last occurrence wins.
///
/// The input cursor sits just past the field key; `wire_type` is the key's
/// wire type. Exactly the stated error cases fail: a wire type other than
/// length-delimited, no well-formed varint where the length should be, or a
/// length exceeding the bytes remaining. On success the cursor has consumed
/// the length prefix and the payload; on failure `value` is untouched.
pub fn merge<A: BytesAdapter>(
    wire_type: WireType,
    value: &mut A,
    input: &mut Reader,
    _ctx: DecodeContext,
) -> (res: Result<(), DecodeError>)
    ensures
        final(input).all_bytes() == old(input).all_bytes(),
        ({
            let s = old(input).remaining_bytes();
            match res {
                Ok(()) => {
                    &&& wire_type == WireType::LengthDelimited
                    &&& parse_ok(s)
                    &&& parse_val(s) <= s.len() - parse_len(s)
                    &&& final(value).contents() == s.subrange(
                        parse_len(s),
                        parse_len(s) + parse_val(s) as int,
                    )
                    &&& final(input).position() == old(input).position() + parse_len(s)
                        + parse_val(s)
                },
                Err(e) => {
                    &&& final(value).contents() == old(value).contents()
                    &&& match e {
                        DecodeError::WireTypeMismatch => wire_type != WireType::LengthDelimited
                            && final(input).position() == old(input).position(),
                        DecodeError::Malformed => wire_type == WireType::LengthDelimited
                            && !parse_ok(s) && final(input).position() == old(input).position(),
                        DecodeError::BufferUnderflow => wire_type == WireType::LengthDelimited
                            && parse_ok(s) && parse_val(s) > s.len() - parse_len(s)
                            && final(input).position() == old(input).position() + parse_len(s),
                        DecodeError::InvalidUtf8 => false,
                    }
                },
            }
        }),
{
    let ghost s = input.remaining_bytes();
    let ghost a = input.all_bytes();
    let ghost p0 = input.position();
    // Queried only for its contract: it bounds the entry position.
    let _entry_rem: usize = input.remaining();
    match check_wire_type(WireType::LengthDelimited, wire_type) {
        Ok(()) => {},
        Err(e) => {
            return Err(e);
        },
    }
    let len_u64: u64 = match decode_varint(input) {
        Ok(l) => l,
        Err(e) => {
            return Err(e);
        },
    };
    let rem: usize = input.remaining();
    proof {
        crate::wire::lemma_parse_shape(s);
        assert(s =~= a.skip(p0));
        vstd::seq_lib::lemma_seq_skip_of_skip(a, p0, parse_len(s));
        assert(input.remaining_bytes() =~= s.skip(parse_len(s)));
    }
    if len_u64 > rem as u64 {
        return Err(DecodeError::BufferUnderflow);
    }
    let len: usize = len_u64 as usize;
    let chunk = input.take(len);
    value.replace_with(chunk.as_slice());
    proof {
        assert(s.skip(parse_len(s)).take(parse_val(s) as int) =~= s.subrange(
            parse_len(s),
            parse_len(s) + parse_val(s) as int,
        ));
    }
    Ok(())
}

/// The byte contents of each element, in order.
pub open spec fn contents_of<A: BytesAdapter>(values: Seq<A>) -> Seq<Seq<u8>> {
    values.map(|i: int, v: A| v.contents())
}

/// Writes one field per element, in order.
pub fn encode_repeated<A: BytesAdapter>(tag: u32, values: &[A], buf: &mut Vec<u8>)
    requires
        1 <= tag <= MAX_TAG,
    ensures
        final(buf)@ == old(buf)@ + repeated_field_bytes(tag, contents_of(values@)),
{
    let ghost m = contents_of(values@);
    let mut idx: usize = 0;
    proof {
        assert(m.take(0) =~= Seq::<Seq<u8>>::empty());
    }
    while idx < values.len()
        invariant
            idx <= values@.len(),
            1 <= tag <= MAX_TAG,
            m == contents_of(values@),
            buf@ == old(buf)@ + repeated_field_bytes(tag, m.take(idx as int)),
        decreases values@.len() - idx,
    {
        let v = vstd::slice::slice_index_get(values, idx);
        encode(tag, v, buf);
        proof {
            assert(m[idx as int] == v.contents());
            lemma_repeated_step(tag, m, idx as int);
        }
        idx = idx + 1;
    }
    proof {
        assert(m.take(values@.len() as int) =~= m);
    }
}

/// The number of bytes `encode_repeated` writes: one field per element.
pub fn encoded_len_repeated<A: BytesAdapter>(tag: u32, values: &[A]) -> (r: usize)
    requires
        1 <= tag <= MAX_TAG,
        repeated_field_bytes(tag, contents_of(values@)).len() + 15 <= usize::MAX,
    ensures
        r == repeated_field_bytes(tag, contents_of(values@)).len(),
{
    let ghost m = contents_of(values@);
    let mut idx: usize = 0;
    let mut total: usize = 0;
    proof {
        assert(m.take(0) =~= Seq::<Seq<u8>>::empty());
    }
    while idx < values.len()
        invariant
            idx <= values@.len(),
            1 <= tag <= MAX_TAG,
            m == contents_of(values@),
            repeated_field_bytes(tag, m).len() + 15 <= usize::MAX,
            total == repeated_field_bytes(tag, m.take(idx as int)).len(),
        decreases values@.len() - idx,
    {
        let v = vstd::slice::slice_index_get(values, idx);
        proof {
            assert(m[idx as int] == v.contents());
            lemma_repeated_step(tag, m, idx as int);
            lemma_repeated_take_len(tag, m, idx as int + 1);
        }
        let el: usize = encoded_len(tag, v);
        total = total + el;
        idx = idx + 1;
    }
    proof {
        assert(m.take(values@.len() as int) =~= m);
    }
    total
}

/// Reads one occurrence of a repeated bytes field and appends it to
/// `values` — on decode, repeated fields append in wire order, unlike the
/// replace semantics of `merge`.
pub fn merge_repeated<A: BytesAdapter>(
    wire_type: WireType,
    values: &mut Vec<A>,
    input: &mut Reader,
    ctx: DecodeContext,
) -> (res: Result<(), DecodeError>)
    ensures
        final(input).all_bytes() == old(input).all_bytes(),
        ({
            let s = old(input).remaining_bytes();
            match res {
                Ok(()) => {
                    &&& wire_type == WireType::LengthDelimited
                    &&& parse_ok(s)
                    &&& parse_val(s) <= s.len() - parse_len(s)
                    &&& final(values)@.len() == old(values)@.len() + 1
                    &&& final(values)@.subrange(0, old(values)@.len() as int) == old(values)@
                    &&& final(values)@.last().contents() == s.subrange(
                        parse_len(s),
                        parse_len(s) + parse_val(s) as int,
                    )
                    &&& final(input).position() == old(input).position() + parse_len(s)
                        + parse_val(s)
                },
                Err(e) => {
                    &&& final(values)@ == old(values)@
                    &&& match e {
                        DecodeError::WireTypeMismatch => wire_type != WireType::LengthDelimited
                            && final(input).position() == old(input).position(),
                        DecodeError::Malformed => wire_type == WireType::LengthDelimited
                            && !parse_ok(s) && final(input).position() == old(input).position(),
                        DecodeError::BufferUnderflow => wire_type == WireType::LengthDelimited
                            && parse_ok(s) && parse_val(s) > s.len() - parse_len(s)
                            && final(input).position() == old(input).position() + parse_len(s),
                        DecodeError::InvalidUtf8 => false,
                    }
                },
            }
        }),
{
    let mut value = A::new_empty();
    match merge(wire_type, &mut value, input, ctx) {
        Ok(()) => {
            values.push(value);
            proof {
                assert(values@.subrange(0, old(values)@.len() as int) =~= old(values)@);
            }
            Ok(())
        },
        Err(e) => Err(e),
    }
}

} // verus!
