use bytes::Bytes;

use wirecodec::buffer::Reader;
use wirecodec::bytestring::ByteString;
use wirecodec::encoding::byte_field;
use wirecodec::encoding::string as string_field;
use wirecodec::wire::{
    decode_varint, encode_varint, encoded_len_varint, DecodeContext, DecodeError, WireType,
};

fn ctx() -> DecodeContext {
    DecodeContext::new()
}

#[test]
fn varint_concrete_encodings() {
    for (value, expected) in [
        (0u64, vec![0x00u8]),
        (1, vec![0x01]),
        (127, vec![0x7F]),
        (128, vec![0x80, 0x01]),
        (300, vec![0xAC, 0x02]),
        (16384, vec![0x80, 0x80, 0x01]),
        (u64::MAX, vec![0xFF, 0xFF, 0xFF, 0xFF, 0xFF, 0xFF, 0xFF, 0xFF, 0xFF, 0x01]),
    ] {
        let mut buf: Vec<u8> = Vec::new();
        encode_varint(value, &mut buf);
        assert_eq!(buf, expected);
        assert_eq!(encoded_len_varint(value), expected.len());
        let mut input = Reader::new(buf);
        assert_eq!(decode_varint(&mut input), Ok(value));
        assert_eq!(input.remaining(), 0);
    }
}

#[test]
fn varint_non_canonical_accepted() {
    let mut input = Reader::new(vec![0x80, 0x00]);
    assert_eq!(decode_varint(&mut input), Ok(0));
    let mut input = Reader::new(vec![0xAC, 0x82, 0x80, 0x00]);
    assert_eq!(decode_varint(&mut input), Ok(300));
}

#[test]
fn varint_malformed_rejected() {
    // Truncated: continuation bit set on the last available byte.
    let mut input = Reader::new(vec![0x80]);
    assert_eq!(decode_varint(&mut input), Err(DecodeError::Malformed));
    // Longer than ten bytes.
    let mut input = Reader::new(vec![0x80; 11]);
    assert_eq!(decode_varint(&mut input), Err(DecodeError::Malformed));
    // Ten bytes whose value overflows 64 bits.
    let mut over = vec![0xFFu8; 9];
    over.push(0x02);
    let mut input = Reader::new(over);
    assert_eq!(decode_varint(&mut input), Err(DecodeError::Malformed));
    // Empty input.
    let mut input = Reader::new(Vec::new());
    assert_eq!(decode_varint(&mut input), Err(DecodeError::Malformed));
}

#[test]
fn encode_bytes_concrete() {
    // Tag 5, payload [0x01, 0x02, 0x03]: key byte 0x2A = 5 << 3 | 2.
    let value: Vec<u8> = vec![0x01, 0x02, 0x03];
    let mut buf: Vec<u8> = Vec::new();
    byte_field::encode(5, &value, &mut buf);
    assert_eq!(buf, vec![0x2A, 0x03, 0x01, 0x02, 0x03]);
    assert_eq!(byte_field::encoded_len(5, &value), buf.len());
}

#[test]
fn decode_bytes_concrete() {
    // Cursor sits just past the field key.
    let mut value: Vec<u8> = Vec::new();
    let mut input = Reader::new(vec![0x03, 0x01, 0x02, 0x03]);
    let res = byte_field::merge(WireType::LengthDelimited, &mut value, &mut input, ctx());
    assert_eq!(res, Ok(()));
    assert_eq!(value, vec![0x01, 0x02, 0x03]);
    assert_eq!(input.remaining(), 0);
}

#[test]
fn round_trip_bytes() {
    for payload in [
        Vec::new(),
        vec![0u8],
        vec![0xFFu8; 127],
        vec![0xABu8; 128],
        (0..=255u8).collect::<Vec<u8>>(),
    ] {
        // Tag 5 has a one-byte key; strip it to position the cursor where
        // merge expects it.
        let mut buf: Vec<u8> = Vec::new();
        byte_field::encode(5, &payload, &mut buf);
        assert_eq!(byte_field::encoded_len(5, &payload), buf.len());
        let mut value: Vec<u8> = vec![9, 9, 9];
        let mut input = Reader::new(buf[1..].to_vec());
        let res = byte_field::merge(WireType::LengthDelimited, &mut value, &mut input, ctx());
        assert_eq!(res, Ok(()));
        assert_eq!(value, payload);
        assert_eq!(input.remaining(), 0);
    }
}

#[test]
fn round_trip_bytes_shared_storage() {
    // The same generic codec drives the shared-buffer representation.
    let payload = Bytes::from_static(b"shared payload");
    let mut buf: Vec<u8> = Vec::new();
    byte_field::encode(3, &payload, &mut buf);
    let mut value = Bytes::new();
    let mut input = Reader::new(buf[1..].to_vec());
    let res = byte_field::merge(WireType::LengthDelimited, &mut value, &mut input, ctx());
    assert_eq!(res, Ok(()));
    assert_eq!(value, payload);
}

#[test]
fn merge_replaces_last_wins() {
    // Two occurrences of the same non-repeated field: the later one wins.
    let v1: Vec<u8> = vec![0x11, 0x22];
    let v2: Vec<u8> = vec![0x33];
    let mut buf: Vec<u8> = Vec::new();
    byte_field::encode(5, &v1, &mut buf);
    byte_field::encode(5, &v2, &mut buf);
    let mut value: Vec<u8> = Vec::new();
    let mut input = Reader::new(buf[1..].to_vec());
    assert_eq!(
        byte_field::merge(WireType::LengthDelimited, &mut value, &mut input, ctx()),
        Ok(())
    );
    assert_eq!(value, v1);
    // Skip the second key byte by re-framing the remainder.
    let mut rest = Reader::new(buf[(2 + v1.len() + 1)..].to_vec());
    assert_eq!(
        byte_field::merge(WireType::LengthDelimited, &mut value, &mut rest, ctx()),
        Ok(())
    );
    assert_eq!(value, v2);
}

#[test]
fn merge_wire_type_mismatch() {
    let mut value: Vec<u8> = vec![7];
    let mut input = Reader::new(vec![0x03, 0x01, 0x02, 0x03]);
    let res = byte_field::merge(WireType::Varint, &mut value, &mut input, ctx());
    assert_eq!(res, Err(DecodeError::WireTypeMismatch));
    assert_eq!(value, vec![7]);
}

#[test]
fn merge_underflow() {
    // Declared length 10, only 4 bytes remaining.
    let mut value: Vec<u8> = vec![7];
    let mut input = Reader::new(vec![0x0A, 0x01, 0x02, 0x03, 0x04]);
    let res = byte_field::merge(WireType::LengthDelimited, &mut value, &mut input, ctx());
    assert_eq!(res, Err(DecodeError::BufferUnderflow));
    assert_eq!(value, vec![7]);
    // One past the remaining length still fails; the exact length succeeds.
    let mut input = Reader::new(vec![0x05, 0x01, 0x02, 0x03, 0x04]);
    let res = byte_field::merge(WireType::LengthDelimited, &mut value, &mut input, ctx());
    assert_eq!(res, Err(DecodeError::BufferUnderflow));
    let mut input = Reader::new(vec![0x04, 0x01, 0x02, 0x03, 0x04]);
    let res = byte_field::merge(WireType::LengthDelimited, &mut value, &mut input, ctx());
    assert_eq!(res, Ok(()));
    assert_eq!(value, vec![0x01, 0x02, 0x03, 0x04]);
}

#[test]
fn merge_malformed_length() {
    let mut value: Vec<u8> = vec![7];
    let mut input = Reader::new(vec![0x80]);
    let res = byte_field::merge(WireType::LengthDelimited, &mut value, &mut input, ctx());
    assert_eq!(res, Err(DecodeError::Malformed));
    assert_eq!(value, vec![7]);
}

#[test]
fn encode_string_concrete() {
    // Tag 1, "hé": key byte 0x0A = 1 << 3 | 2, payload length 3.
    let value = ByteString::from_static("h\u{e9}");
    let mut buf: Vec<u8> = Vec::new();
    string_field::encode(1, &value, &mut buf);
    assert_eq!(buf, vec![0x0A, 0x03, 0x68, 0xC3, 0xA9]);
    assert_eq!(string_field::encoded_len(1, &value), buf.len());
}

#[test]
fn round_trip_string() {
    for text in ["", "a", "h\u{e9}", "\u{1F600} mixed ASCII and wide", "\u{10FFFF}"] {
        let value = ByteString::from_static(text);
        let mut buf: Vec<u8> = Vec::new();
        string_field::encode(1, &value, &mut buf);
        assert_eq!(string_field::encoded_len(1, &value), buf.len());
        let mut decoded = ByteString::from_static("prior content");
        let mut input = Reader::new(buf[1..].to_vec());
        let res =
            string_field::merge(WireType::LengthDelimited, &mut decoded, &mut input, ctx());
        assert_eq!(res, Ok(()));
        assert_eq!(decoded.as_str(), text);
        assert_eq!(input.remaining(), 0);
    }
}

#[test]
fn string_invalid_utf8_leaves_empty() {
    // A length-delimited payload of ill-formed UTF-8 fails and clears the
    // destination, whatever it held before.
    let mut value = ByteString::from_static("prior content");
    let mut input = Reader::new(vec![0x02, 0xFF, 0xFE]);
    let res = string_field::merge(WireType::LengthDelimited, &mut value, &mut input, ctx());
    assert_eq!(res, Err(DecodeError::InvalidUtf8));
    assert_eq!(value.len(), 0);
    assert_eq!(value.as_str(), "");
}

#[test]
fn string_failed_merge_leaves_empty() {
    // Every failure path ends with an empty destination.
    let mut value = ByteString::from_static("prior");
    let mut input = Reader::new(vec![0x03, 0x01]);
    let res = string_field::merge(WireType::LengthDelimited, &mut value, &mut input, ctx());
    assert_eq!(res, Err(DecodeError::BufferUnderflow));
    assert_eq!(value.len(), 0);

    let mut value = ByteString::from_static("prior");
    let mut input = Reader::new(vec![0x03, 0x01, 0x02, 0x03]);
    let res = string_field::merge(WireType::StartGroup, &mut value, &mut input, ctx());
    assert_eq!(res, Err(DecodeError::WireTypeMismatch));
    assert_eq!(value.len(), 0);

    let mut value = ByteString::from_static("prior");
    let mut input = Reader::new(vec![0x80]);
    let res = string_field::merge(WireType::LengthDelimited, &mut value, &mut input, ctx());
    assert_eq!(res, Err(DecodeError::Malformed));
    assert_eq!(value.len(), 0);
}

#[test]
fn string_surrogate_range_rejected() {
    // 0xED 0xA0 0x80 encodes a surrogate: ill-formed UTF-8.
    let mut value = ByteString::new();
    let mut input = Reader::new(vec![0x03, 0xED, 0xA0, 0x80]);
    let res = string_field::merge(WireType::LengthDelimited, &mut value, &mut input, ctx());
    assert_eq!(res, Err(DecodeError::InvalidUtf8));
}

#[test]
fn repeated_bytes() {
    let elems: Vec<Vec<u8>> = vec![vec![0x01], vec![], vec![0x02, 0x03]];
    let mut buf: Vec<u8> = Vec::new();
    byte_field::encode_repeated(5, &elems, &mut buf);
    assert_eq!(byte_field::encoded_len_repeated(5, &elems), buf.len());
    // One field per element, each with its own key.
    assert_eq!(
        buf,
        vec![0x2A, 0x01, 0x01, 0x2A, 0x00, 0x2A, 0x02, 0x02, 0x03]
    );
    // Decoding appends in wire order; each call consumes one frame (the
    // outer decoder strips each key).
    let mut values: Vec<Vec<u8>> = Vec::new();
    let frames: Vec<u8> = vec![0x01, 0x01, 0x00, 0x02, 0x02, 0x03];
    let mut input = Reader::new(frames);
    for _ in 0..3 {
        let res =
            byte_field::merge_repeated(WireType::LengthDelimited, &mut values, &mut input, ctx());
        assert_eq!(res, Ok(()));
    }
    assert_eq!(values, elems);
    assert_eq!(input.remaining(), 0);
}

#[test]
fn repeated_strings() {
    let elems = vec![
        ByteString::from_static("one"),
        ByteString::from_static(""),
        ByteString::from_static("tw\u{f8}"),
    ];
    let mut buf: Vec<u8> = Vec::new();
    string_field::encode_repeated(1, &elems, &mut buf);
    assert_eq!(string_field::encoded_len_repeated(1, &elems), buf.len());
    // Re-frame without the three key bytes (one per element, tag 1).
    let mut frames: Vec<u8> = Vec::new();
    frames.extend_from_slice(&[0x03, b'o', b'n', b'e']);
    frames.extend_from_slice(&[0x00]);
    frames.extend_from_slice(&[0x04, b't', b'w', 0xC3, 0xB8]);
    let mut values: Vec<ByteString> = Vec::new();
    let mut input = Reader::new(frames);
    for _ in 0..3 {
        let res = string_field::merge_repeated(
            WireType::LengthDelimited,
            &mut values,
            &mut input,
            ctx(),
        );
        assert_eq!(res, Ok(()));
    }
    assert_eq!(values.len(), 3);
    assert_eq!(values[0].as_str(), "one");
    assert_eq!(values[1].as_str(), "");
    assert_eq!(values[2].as_str(), "tw\u{f8}");
}

#[test]
fn encoded_len_matches_two_byte_key() {
    // Tag 16 is the first tag whose key takes two bytes.
    let value: Vec<u8> = vec![0xAA; 130];
    let mut buf: Vec<u8> = Vec::new();
    byte_field::encode(16, &value, &mut buf);
    assert_eq!(byte_field::encoded_len(16, &value), buf.len());
    assert_eq!(buf.len(), 2 + 2 + 130);
}
