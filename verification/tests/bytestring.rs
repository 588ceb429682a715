use std::collections::hash_map::DefaultHasher;
use std::hash::{Hash, Hasher};

use bytes::Bytes;

use wirecodec::bytestring::ByteString;
use wirecodec::utf8::validate_utf8;
use wirecodec::wire::DecodeError;

#[test]
fn new_is_empty() {
    let bs = ByteString::new();
    assert_eq!(bs.len(), 0);
    assert_eq!(bs.as_str(), "");
    assert_eq!(bs.as_byte_slice(), b"");
}

#[test]
fn from_static_keeps_text() {
    let bs = ByteString::from_static("hello world");
    assert_eq!(bs.len(), 11);
    assert_eq!(bs.as_str(), "hello world");
    assert_eq!(bs.as_byte_slice(), b"hello world");
}

#[test]
fn from_string_takes_over_text() {
    let owned = String::from("owned caf\u{e9}");
    let bs = ByteString::from_string(owned);
    assert_eq!(bs.as_str(), "owned caf\u{e9}");
}

#[test]
fn try_from_slice_checks() {
    let bs = ByteString::try_from_slice(b"plain").unwrap();
    assert_eq!(bs.as_str(), "plain");
    match ByteString::try_from_slice(&[0x80]) {
        Err(e) => assert_eq!(e, DecodeError::InvalidUtf8),
        Ok(_) => panic!("accepted a lone continuation byte"),
    }
}

#[test]
fn from_utf8_accepts_valid() {
    let bs = ByteString::from_utf8(Bytes::copy_from_slice("caf\u{e9}".as_bytes())).unwrap();
    assert_eq!(bs.as_str(), "caf\u{e9}");
    assert_eq!(bs.len(), 5);
}

#[test]
fn from_utf8_rejects_invalid() {
    for bad in [
        &[0xFFu8][..],
        &[0xC0, 0xAF],       // overlong
        &[0xED, 0xA0, 0x80], // surrogate
        &[0xF5, 0x80, 0x80, 0x80],
        &[0xE2, 0x28, 0xA1],
        &[0xC3], // truncated
    ] {
        let res = ByteString::from_utf8(Bytes::copy_from_slice(bad));
        match res {
            Err(e) => assert_eq!(e, DecodeError::InvalidUtf8),
            Ok(_) => panic!("accepted ill-formed UTF-8: {:?}", bad),
        }
        assert!(!validate_utf8(bad));
    }
}

#[test]
fn from_bytes_unchecked_shares() {
    let region = Bytes::from_static(b"trusted text");
    let bs = ByteString::from_bytes_unchecked(region.clone());
    assert_eq!(bs.as_str(), "trusted text");
    // The handle points at the same region: no copy was made.
    assert_eq!(bs.as_bytes().as_ref().as_ptr(), region.as_ref().as_ptr());
}

#[test]
fn clear_empties() {
    let mut bs = ByteString::from_static("something");
    bs.clear();
    assert_eq!(bs.len(), 0);
    assert_eq!(bs.as_str(), "");
}

#[test]
fn clone_shares_storage() {
    let bs = ByteString::from_static("shared text");
    let cloned = bs.clone();
    assert!(cloned == bs);
    assert_eq!(cloned.as_str(), "shared text");
    // Cloning copies the handle, not the bytes.
    assert_eq!(
        cloned.as_bytes().as_ref().as_ptr(),
        bs.as_bytes().as_ref().as_ptr()
    );
}

#[test]
fn slicing_shares_storage() {
    let bs = ByteString::from_static("hello world");
    let region = bs.as_bytes().clone();
    let sub = region.slice(0..5);
    // The sub-range points into the parent's region.
    assert_eq!(sub.as_ref().as_ptr(), region.as_ref().as_ptr());
    let sliced = ByteString::from_utf8(sub).unwrap();
    assert_eq!(sliced.as_str(), "hello");
}

#[test]
fn equality_is_over_content() {
    // Equal content, different backing allocations.
    let a = ByteString::from_static("same text");
    let b = ByteString::from_utf8(Bytes::copy_from_slice(b"same text")).unwrap();
    assert!(a == b);
    let c = ByteString::from_static("other text");
    assert!(!(a == c));
}

#[test]
fn into_bytes_returns_contents() {
    let bs = ByteString::from_static("payload");
    let region = bs.into_bytes();
    assert_eq!(region.as_ref(), b"payload");
}

#[test]
fn ordering_and_hashing_over_content() {
    assert!(ByteString::from_static("apple") < ByteString::from_static("banana"));
    assert!(ByteString::from_static("") < ByteString::from_static("a"));

    let a = ByteString::from_static("same text");
    let b = ByteString::from_utf8(Bytes::copy_from_slice(b"same text")).unwrap();
    let mut ha = DefaultHasher::new();
    a.hash(&mut ha);
    let mut hb = DefaultHasher::new();
    b.hash(&mut hb);
    assert_eq!(ha.finish(), hb.finish());
}

#[test]
fn validate_utf8_agrees_with_std() {
    let samples: Vec<Vec<u8>> = vec![
        b"".to_vec(),
        b"plain ascii".to_vec(),
        "caf\u{e9} \u{4e16}\u{754c} \u{1F600}".as_bytes().to_vec(),
        vec![0xE0, 0x9F, 0x80], // overlong three-byte form
        vec![0xF0, 0x8F, 0x80, 0x80], // overlong four-byte form
        vec![0xF4, 0x90, 0x80, 0x80], // above U+10FFFF
        vec![0x80],
        vec![0xC2],
        vec![0xC2, 0x41],
        vec![0x61, 0xC2, 0xA9, 0xE2, 0x82, 0xAC, 0xF0, 0x9F, 0x98, 0x80],
    ];
    for sample in samples {
        assert_eq!(
            validate_utf8(&sample),
            core::str::from_utf8(&sample).is_ok(),
            "disagreement on {:?}",
            sample
        );
    }
}
