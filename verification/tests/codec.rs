//! The canonical signed big-endian encoding: exact byte forms, round
//! trips, rejection of everything malformed, and agreement with the
//! signed-bytes encoding of an arbitrary-precision integer library.

use num_bigint::BigInt;
use zkp_auth::codec::{decode_be, encode_be};
use zkp_auth::errors::ZkpError;

#[test]
fn encode_exact_forms() {
    assert_eq!(encode_be(0), vec![0x00]);
    assert_eq!(encode_be(1), vec![0x01]);
    assert_eq!(encode_be(127), vec![0x7f]);
    assert_eq!(encode_be(128), vec![0x00, 0x80]);
    assert_eq!(encode_be(255), vec![0x00, 0xff]);
    assert_eq!(encode_be(256), vec![0x01, 0x00]);
    assert_eq!(encode_be(65535), vec![0x00, 0xff, 0xff]);
    assert_eq!(encode_be(65536), vec![0x01, 0x00, 0x00]);
    assert_eq!(
        encode_be(u64::MAX),
        vec![0x00, 0xff, 0xff, 0xff, 0xff, 0xff, 0xff, 0xff, 0xff],
    );
}

#[test]
fn round_trip() {
    for v in [0u64, 1, 127, 128, 255, 256, 65535, 65536, 1 << 32, 1 << 63, u64::MAX] {
        assert_eq!(decode_be(&encode_be(v)), Ok(v), "round trip of {v}");
    }
}

#[test]
fn encode_matches_bigint_signed_bytes() {
    for v in [0u64, 1, 127, 128, 255, 256, 65535, 2187, 12589, 1 << 63, u64::MAX] {
        let reference = BigInt::from(v).to_signed_bytes_be();
        assert_eq!(encode_be(v), reference, "encoding of {v}");
        assert_eq!(BigInt::from_signed_bytes_be(&encode_be(v)), BigInt::from(v));
    }
}

#[test]
fn decode_rejects_empty() {
    assert_eq!(decode_be(&vec![]), Err(ZkpError::MalformedInput));
}

#[test]
fn decode_rejects_negative() {
    assert_eq!(decode_be(&vec![0x80]), Err(ZkpError::MalformedInput));
    assert_eq!(decode_be(&vec![0xff, 0x01]), Err(ZkpError::MalformedInput));
}

#[test]
fn decode_rejects_redundant_leading_zero() {
    assert_eq!(decode_be(&vec![0x00, 0x01]), Err(ZkpError::MalformedInput));
    assert_eq!(decode_be(&vec![0x00, 0x00]), Err(ZkpError::MalformedInput));
    assert_eq!(decode_be(&vec![0x00, 0x7f, 0xff]), Err(ZkpError::MalformedInput));
}

#[test]
fn decode_rejects_oversized_values() {
    // nine bytes whose first is nonzero exceed a word
    assert_eq!(
        decode_be(&vec![0x01, 0, 0, 0, 0, 0, 0, 0, 0]),
        Err(ZkpError::MalformedInput),
    );
    // ten canonical bytes always exceed a word
    assert_eq!(
        decode_be(&vec![0x00, 0x80, 0, 0, 0, 0, 0, 0, 0, 0]),
        Err(ZkpError::MalformedInput),
    );
    assert_eq!(
        decode_be(&vec![0x01, 0, 0, 0, 0, 0, 0, 0, 0, 0]),
        Err(ZkpError::MalformedInput),
    );
}

#[test]
fn decode_accepts_nine_bytes_with_sign_guard() {
    assert_eq!(
        decode_be(&vec![0x00, 0x80, 0, 0, 0, 0, 0, 0, 0]),
        Ok(1u64 << 63),
    );
}
