//! Wire-format primitives: wire types, decode errors, and the varint
//! (base-128, continuation-bit) integer encoding that frames every
//! length-delimited field.

use vstd::prelude::*;

use crate::buffer::Reader;

verus! {

/// The wire type that accompanies each field key on the wire, telling the
/// decoder how the following payload is framed.
#[derive(Clone, Copy, PartialEq, Eq, Structural, Debug)]
pub enum WireType {
    Varint,
    SixtyFourBit,
    LengthDelimited,
    StartGroup,
    EndGroup,
    ThirtyTwoBit,
}

/// Why a field decode failed. Every error is terminal for the current field;
/// none is retried or swallowed.
#[derive(Clone, Copy, PartialEq, Eq, Structural, Debug)]
pub enum DecodeError {
    /// An inner varint (or nested structure) is malformed.
    Malformed,
    /// The wire type found on the wire disagrees with the declared field kind.
    WireTypeMismatch,
    /// A declared payload length exceeds the bytes remaining in the input.
    BufferUnderflow,
    /// A string field's payload is not valid UTF-8.
    InvalidUtf8,
}

/// Opaque context handed through unchanged to nested decoders; the outer
/// message decoder uses it for recursion-depth limiting.
#[derive(Clone, Copy)]
pub struct DecodeContext {
}

impl DecodeContext {
    pub fn new() -> DecodeContext {
        DecodeContext {}
    }
}

/// The three-bit number a wire type occupies in a field key.
pub open spec fn wire_type_num(wt: WireType) -> int {
    match wt {
        WireType::Varint => 0,
        WireType::SixtyFourBit => 1,
        WireType::LengthDelimited => 2,
        WireType::StartGroup => 3,
        WireType::EndGroup => 4,
        WireType::ThirtyTwoBit => 5,
    }
}

fn wire_type_value(wt: WireType) -> (r: u64)
    ensures
        r == wire_type_num(wt),
{
    match wt {
        WireType::Varint => 0,
        WireType::SixtyFourBit => 1,
        WireType::LengthDelimited => 2,
        WireType::StartGroup => 3,
        WireType::EndGroup => 4,
        WireType::ThirtyTwoBit => 5,
    }
}

/// Checks that the wire type found on the wire is the expected one.
pub fn check_wire_type(expected: WireType, actual: WireType) -> (r: Result<(), DecodeError>)
    ensures
        r == if expected == actual {
            Ok::<(), DecodeError>(())
        } else {
            Err::<(), DecodeError>(DecodeError::WireTypeMismatch)
        },
{
    if expected == actual {
        Ok(())
    } else {
        Err(DecodeError::WireTypeMismatch)
    }
}

/// The canonical varint encoding of `n`: seven payload bits per byte,
/// least-significant group first, continuation bit on every byte but the last.
pub open spec fn varint_bytes(n: u64) -> Seq<u8>
    decreases n,
{
    if n < 128 {
        seq![n as u8]
    } else {
        seq![(n % 128 + 128) as u8] + varint_bytes(n / 128)
    }
}

/// Number of bytes in the canonical varint encoding of `n`.
pub open spec fn varint_len(n: u64) -> int {
    varint_bytes(n).len() as int
}

/// 128 to the `k`-th power.
pub open spec fn pow128(k: nat) -> int
    decreases k,
{
    if k == 0 {
        1
    } else {
        128 * pow128((k - 1) as nat)
    }
}

proof fn lemma_varint_len_below(n: u64, k: nat)
    requires
        1 <= k,
        n < pow128(k),
    ensures
        varint_len(n) <= k,
    decreases k,
{
    if n < 128 {
    } else {
        assert(k >= 2) by {
            if k == 1 {
                assert(pow128(0) == 1);
                assert(pow128(1) == 128);
                assert(n < 128);
            }
        }
        assert(n < 128 * pow128((k - 1) as nat));
        assert(n / 128 < pow128((k - 1) as nat));
        lemma_varint_len_below(n / 128, (k - 1) as nat);
    }
}

/// The powers of 128 up to the tenth, as literals.
proof fn lemma_pow128_values()
    ensures
        pow128(1) == 128,
        pow128(5) == 0x800000000,
        pow128(9) == 0x8000000000000000,
        pow128(10) == 0x400000000000000000,
{
    assert(pow128(0) == 1);
    assert(pow128(1) == 128);
    assert(pow128(2) == 0x4000);
    assert(pow128(3) == 0x200000);
    assert(pow128(4) == 0x10000000);
    assert(pow128(5) == 0x800000000);
    assert(pow128(6) == 0x40000000000);
    assert(pow128(7) == 0x2000000000000);
    assert(pow128(8) == 0x100000000000000);
    assert(pow128(9) == 0x8000000000000000);
    assert(pow128(10) == 0x400000000000000000);
}

/// Every `u64` has a canonical varint encoding of one to ten bytes.
pub proof fn lemma_varint_len_bounds(n: u64)
    ensures
        1 <= varint_len(n) <= 10,
{
    lemma_pow128_values();
    lemma_varint_len_below(n, 10);
}

/// Appends the canonical varint encoding of `value` to `buf`.
pub fn encode_varint(value: u64, buf: &mut Vec<u8>)
    ensures
        final(buf)@ == old(buf)@ + varint_bytes(value),
{
    let mut n: u64 = value;
    while n >= 128
        invariant
            old(buf)@ + varint_bytes(value) == buf@ + varint_bytes(n),
        decreases n,
    {
        let ghost prev: u64 = n;
        buf.push((n % 128 + 128) as u8);
        n = n / 128;
        proof {
            assert(varint_bytes(prev) == seq![(prev % 128 + 128) as u8] + varint_bytes(n));
            assert(old(buf)@ + varint_bytes(value) =~= buf@ + varint_bytes(n));
        }
    }
    buf.push(n as u8);
    proof {
        assert(varint_bytes(n) == seq![n as u8]);
        assert(final(buf)@ =~= old(buf)@ + varint_bytes(value));
    }
}

/// What decoding a varint from the front of `s` yields: the value and the
/// number of bytes it occupied, or `None` if no well-formed varint starts
/// there. Non-minimal encodings are accepted; an encoding longer than ten
/// bytes, or one whose value does not fit in a `u64`, is malformed.
pub open spec fn spec_parse_varint(s: Seq<u8>) -> Option<(u64, int)>
    decreases s.len(),
{
    if s.len() == 0 {
        None
    } else if s[0] < 128 {
        Some((s[0] as u64, 1))
    } else {
        match spec_parse_varint(s.skip(1)) {
            None => None,
            Some((v, k)) => {
                if k < 10 && v < 0x200000000000000 {
                    Some(((v * 128 + (s[0] - 128)) as u64, k + 1))
                } else {
                    None
                }
            },
        }
    }
}

/// Whether a well-formed varint starts at the front of `s`.
pub open spec fn parse_ok(s: Seq<u8>) -> bool {
    spec_parse_varint(s) is Some
}

/// The value of the varint at the front of `s`.
pub open spec fn parse_val(s: Seq<u8>) -> u64 {
    match spec_parse_varint(s) {
        Some(p) => p.0,
        None => 0,
    }
}

/// How many bytes the varint at the front of `s` occupies.
pub open spec fn parse_len(s: Seq<u8>) -> int {
    match spec_parse_varint(s) {
        Some(p) => p.1,
        None => 0,
    }
}

/// Shape of a parsed varint: one to ten bytes, all but the last carrying the
/// continuation bit, the last without it.
pub proof fn lemma_parse_shape(s: Seq<u8>)
    requires
        parse_ok(s),
    ensures
        1 <= parse_len(s) <= 10,
        parse_len(s) <= s.len(),
        s[parse_len(s) - 1] < 128,
        forall|i: int| 0 <= i < parse_len(s) - 1 ==> s[i] >= 128,
    decreases s.len(),
{
    if s.len() == 0 {
    } else if s[0] < 128 {
    } else {
        lemma_parse_shape(s.skip(1));
        assert forall|i: int| 0 <= i < parse_len(s) - 1 implies s[i] >= 128 by {
            if i > 0 {
                assert(s.skip(1)[i - 1] >= 128);
            }
        }
        assert(s[parse_len(s) - 1] == s.skip(1)[parse_len(s) - 2]);
    }
}

/// If no varint starts right after `j` leading continuation bytes, none
/// starts at the front either.
proof fn lemma_none_up(s: Seq<u8>, j: int)
    requires
        0 <= j <= s.len(),
        spec_parse_varint(s.skip(j)) is None,
        forall|i: int| 0 <= i < j ==> s[i] >= 128,
    ensures
        spec_parse_varint(s) is None,
    decreases j,
{
    if j > 0 {
        assert(s.skip(j - 1).skip(1) =~= s.skip(j));
        assert(s.skip(j - 1)[0] == s[j - 1] >= 128);
        assert(spec_parse_varint(s.skip(j - 1)) is None);
        lemma_none_up(s, j - 1);
    } else {
        assert(s.skip(0) =~= s);
    }
}

/// The canonical encoding of `n` parses back to `n`, whatever follows it.
pub proof fn lemma_parse_canonical(n: u64, rest: Seq<u8>)
    ensures
        spec_parse_varint(varint_bytes(n) + rest) == Some((n, varint_len(n))),
    decreases n,
{
    lemma_varint_len_bounds(n);
    let s = varint_bytes(n) + rest;
    if n < 128 {
        assert(s[0] == n as u8);
    } else {
        lemma_parse_canonical(n / 128, rest);
        assert(varint_len(n / 128) <= 9) by {
            lemma_pow128_values();
            lemma_varint_len_below(n / 128, 9);
        }
        assert(s[0] == (n % 128 + 128) as u8);
        assert(s.skip(1) =~= varint_bytes(n / 128) + rest);
        assert(varint_len(n) == 1 + varint_len(n / 128));
        assert(n / 128 < 0x200000000000000) by {
            assert(n < 0x10000000000000000);
        }
        assert((n / 128) * 128 + ((n % 128 + 128) - 128) == n) by {
            vstd::arithmetic::div_mod::lemma_fundamental_div_mod(n as int, 128);
        }
    }
}

/// Reads a varint from the front of `input`. On success the cursor has
/// consumed exactly the varint's bytes; on failure (no well-formed varint at
/// the front) the cursor is unmoved and the error is `Malformed`.
pub fn decode_varint(input: &mut Reader) -> (res: Result<u64, DecodeError>)
    ensures
        final(input).all_bytes() == old(input).all_bytes(),
        match res {
            Ok(n) => spec_parse_varint(old(input).remaining_bytes()) == Some(
                (n, final(input).position() - old(input).position()),
            ),
            Err(e) => {
                &&& e == DecodeError::Malformed
                &&& spec_parse_varint(old(input).remaining_bytes()) is None
                &&& final(input).position() == old(input).position()
            },
        },
{
    let ghost s = input.remaining_bytes();
    let rem: usize = input.remaining();
    let cap: usize = if rem < 10 {
        rem
    } else {
        10
    };
    // Find the first byte without a continuation bit, among the first
    // `cap` available bytes.
    let mut k: usize = 0;
    loop
        invariant
            k <= cap,
            cap <= s.len(),
            cap <= 10,
            cap == 10 || cap == s.len(),
            forall|j: int| 0 <= j < k ==> s[j] >= 128,
            input.remaining_bytes() == s,
            input.all_bytes() == old(input).all_bytes(),
            input.position() == old(input).position(),
        ensures
            k < cap,
            cap <= s.len(),
            cap <= 10,
            s[k as int] < 128,
            forall|j: int| 0 <= j < k ==> s[j] >= 128,
            input.remaining_bytes() == s,
            input.all_bytes() == old(input).all_bytes(),
            input.position() == old(input).position(),
        decreases cap - k,
    {
        if k >= cap {
            // All available leading bytes carry the continuation bit: any
            // parse would need a terminator among the first ten bytes.
            proof {
                if parse_ok(s) {
                    lemma_parse_shape(s);
                }
            }
            return Err(DecodeError::Malformed);
        }
        if input.peek(k) < 128 {
            break;
        }
        k = k + 1;
    }
    // `k` indexes the terminator byte; accumulate the value from it
    // backwards, exactly as the parse is defined.
    let last: u8 = input.peek(k);
    let mut n: u64 = last as u64;
    let mut i: usize = k;
    proof {
        assert(s.skip(k as int)[0] == s[k as int]);
        assert(spec_parse_varint(s.skip(k as int)) == Some((n, 1int)));
    }
    while i > 0
        invariant
            i <= k,
            k <= 9,
            k < s.len(),
            forall|j: int| 0 <= j < k ==> s[j] >= 128,
            spec_parse_varint(s.skip(i as int)) == Some((n, k + 1 - i)),
            input.remaining_bytes() == s,
            input.all_bytes() == old(input).all_bytes(),
            input.position() == old(input).position(),
        decreases i,
    {
        let b: u8 = input.peek(i - 1);
        proof {
            assert(s.skip(i - 1)[0] == s[i - 1]);
            assert(s.skip(i - 1).skip(1) =~= s.skip(i as int));
        }
        if n >= 0x200000000000000 {
            // The value would no longer fit in 64 bits: the input is
            // malformed, here and from the very front.
            proof {
                assert(spec_parse_varint(s.skip(i - 1)) is None);
                lemma_none_up(s, i - 1);
            }
            return Err(DecodeError::Malformed);
        }
        n = n * 128 + ((b - 128) as u64);
        i = i - 1;
    }
    proof {
        assert(s.skip(0) =~= s);
    }
    input.advance(k + 1);
    Ok(n)
}

/// The bytes of a field key: the tag and the wire type, packed into one
/// varint (tag in the high bits, wire type in the low three).
pub open spec fn key_bytes(tag: u32, wt: WireType) -> Seq<u8> {
    varint_bytes((tag * 8 + wire_type_num(wt)) as u64)
}

/// The bytes of a length-delimited payload: a varint byte-length prefix
/// followed by exactly that many raw bytes.
pub open spec fn length_delimited_bytes(payload: Seq<u8>) -> Seq<u8> {
    varint_bytes(payload.len() as u64) + payload
}

/// The full wire image of one length-delimited field.
pub open spec fn field_bytes(tag: u32, payload: Seq<u8>) -> Seq<u8> {
    key_bytes(tag, WireType::LengthDelimited) + length_delimited_bytes(payload)
}

/// The largest valid field tag.
pub const MAX_TAG: u32 = 0x1FFFFFFF;

/// Appends the field key for `tag` and `wire_type` to `buf`.
pub fn encode_key(tag: u32, wire_type: WireType, buf: &mut Vec<u8>)
    requires
        1 <= tag <= MAX_TAG,
    ensures
        final(buf)@ == old(buf)@ + key_bytes(tag, wire_type),
{
    let wt: u64 = wire_type_value(wire_type);
    encode_varint((tag as u64) * 8 + wt, buf);
}

/// The number of bytes `encode_key` writes for `tag` (the same for every
/// wire type, since the low three bits never change the varint's length).
pub fn key_len(tag: u32) -> (r: usize)
    requires
        1 <= tag <= MAX_TAG,
    ensures
        r == key_bytes(tag, WireType::LengthDelimited).len(),
        1 <= r <= 5,
{
    let r: usize = encoded_len_varint((tag as u64) * 8 + 2);
    proof {
        assert(varint_len(((tag as u64) * 8 + 2) as u64) <= 5) by {
            lemma_pow128_values();
            lemma_varint_len_below(((tag as u64) * 8 + 2) as u64, 5);
        }
        lemma_varint_len_bounds(((tag as u64) * 8 + 2) as u64);
    }
    r
}

/// Law: decoding reads back exactly what encoding wrote. A length-delimited
/// frame built from `payload` — whatever bytes follow it — parses as a length
/// of `payload.len()`, and the bytes the length covers are `payload` itself.
/// Together with the codecs' contracts (`merge` returns the payload the parse
/// designates, `encode` appends exactly such a frame), every encoded value
/// merges back to itself.
pub proof fn lemma_round_trip(payload: Seq<u8>, rest: Seq<u8>)
    requires
        payload.len() < 0x10000000000000000,
    ensures
        ({
            let s = length_delimited_bytes(payload) + rest;
            &&& parse_ok(s)
            &&& parse_val(s) == payload.len()
            &&& parse_len(s) == varint_len(payload.len() as u64)
            &&& parse_val(s) <= s.len() - parse_len(s)
            &&& s.subrange(parse_len(s), parse_len(s) + parse_val(s) as int) == payload
        }),
{
    let n = payload.len() as u64;
    lemma_parse_canonical(n, payload + rest);
    lemma_varint_len_bounds(n);
    let s = length_delimited_bytes(payload) + rest;
    assert(s =~= varint_bytes(n) + (payload + rest));
    assert(s.subrange(parse_len(s), parse_len(s) + parse_val(s) as int) =~= payload);
}

/// Law: when the same non-repeated field occurs twice on the wire, the later
/// occurrence wins. Two frames in a row parse as first `v1`, leaving exactly
/// the second frame, which parses as `v2`; since `merge` replaces the
/// destination's whole content with the parsed payload regardless of what it
/// held before, the value after both merges is `v2`.
pub proof fn lemma_last_value_wins(v1: Seq<u8>, v2: Seq<u8>)
    requires
        v1.len() < 0x10000000000000000,
        v2.len() < 0x10000000000000000,
    ensures
        ({
            let s = length_delimited_bytes(v1) + length_delimited_bytes(v2);
            &&& parse_ok(s)
            &&& parse_val(s) == v1.len()
            &&& s.subrange(parse_len(s), parse_len(s) + parse_val(s) as int) == v1
            &&& s.skip(parse_len(s) + parse_val(s) as int) == length_delimited_bytes(v2)
        }),
        parse_ok(length_delimited_bytes(v2)),
        parse_val(length_delimited_bytes(v2)) == v2.len(),
        length_delimited_bytes(v2).subrange(
            parse_len(length_delimited_bytes(v2)),
            parse_len(length_delimited_bytes(v2)) + parse_val(length_delimited_bytes(v2)) as int,
        ) == v2,
{
    lemma_round_trip(v1, length_delimited_bytes(v2));
    lemma_round_trip(v2, Seq::<u8>::empty());
    let s = length_delimited_bytes(v1) + length_delimited_bytes(v2);
    assert(s.skip(parse_len(s) + parse_val(s) as int) =~= length_delimited_bytes(v2));
    assert(length_delimited_bytes(v2) + Seq::<u8>::empty() =~= length_delimited_bytes(v2));
}

/// The concatenated wire images of one field per payload, in wire order.
pub open spec fn repeated_field_bytes(tag: u32, payloads: Seq<Seq<u8>>) -> Seq<u8>
    decreases payloads.len(),
{
    if payloads.len() == 0 {
        Seq::<u8>::empty()
    } else {
        repeated_field_bytes(tag, payloads.drop_last()) + field_bytes(tag, payloads.last())
    }
}

/// Taking one more payload extends the repeated image by one field.
pub proof fn lemma_repeated_step(tag: u32, payloads: Seq<Seq<u8>>, i: int)
    requires
        0 <= i < payloads.len(),
    ensures
        repeated_field_bytes(tag, payloads.take(i + 1)) == repeated_field_bytes(
            tag,
            payloads.take(i),
        ) + field_bytes(tag, payloads[i]),
{
    let t = payloads.take(i + 1);
    assert(t.drop_last() =~= payloads.take(i));
    assert(t.last() == payloads[i]);
}

/// A prefix of the payloads contributes at most the whole image's length.
pub proof fn lemma_repeated_take_len(tag: u32, payloads: Seq<Seq<u8>>, i: int)
    requires
        0 <= i <= payloads.len(),
    ensures
        repeated_field_bytes(tag, payloads.take(i)).len() <= repeated_field_bytes(
            tag,
            payloads,
        ).len(),
    decreases payloads.len(),
{
    if i == payloads.len() {
        assert(payloads.take(i) =~= payloads);
    } else {
        assert(payloads.drop_last().take(i) =~= payloads.take(i));
        lemma_repeated_take_len(tag, payloads.drop_last(), i);
    }
}

/// The number of bytes `encode_varint` writes for `value`.
pub fn encoded_len_varint(value: u64) -> (r: usize)
    ensures
        r == varint_len(value),
{
    let mut n: u64 = value;
    let mut l: usize = 1;
    proof {
        lemma_varint_len_bounds(value);
    }
    while n >= 128
        invariant
            1 <= l,
            l + varint_len(n) == 1 + varint_len(value),
            varint_len(value) <= 10,
        decreases n,
    {
        n = n / 128;
        l = l + 1;
    }
    l
}

} // verus!
