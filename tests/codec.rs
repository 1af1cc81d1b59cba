use timelock_ciphertext::varint::{read_uvarint, write_uvarint};
use timelock_ciphertext::{decode_fields, encode_fields, DecodeError, SignatureSchemes};

fn sample_encoding() -> Vec<u8> {
    encode_fields(&[1, 2, 3, 4], &[7u8; 32], &[0xaa, 0xbb, 0xcc], SignatureSchemes::MessageAugmentation)
}

#[test]
fn encode_fields_exact_bytes() {
    let mut expected = vec![1u8, 2, 3, 4];
    expected.extend_from_slice(&[7u8; 32]);
    expected.extend_from_slice(&[3, 0xaa, 0xbb, 0xcc, 1]);
    assert_eq!(sample_encoding(), expected);
}

#[test]
fn encode_fields_long_payload_has_two_byte_prefix() {
    let w = vec![5u8; 300];
    let b = encode_fields(&[], &[0u8; 32], &w, SignatureSchemes::ProofOfPossession);
    assert_eq!(b.len(), 32 + 2 + 300 + 1);
    assert_eq!(&b[32..34], &[0xac, 0x02]);
    assert_eq!(b[b.len() - 1], 2);
}

#[test]
fn decode_fields_round_trip() {
    let f = decode_fields(&sample_encoding(), 4).unwrap();
    assert_eq!(f.u, vec![1, 2, 3, 4]);
    assert_eq!(f.v, [7u8; 32]);
    assert_eq!(f.w, vec![0xaa, 0xbb, 0xcc]);
    assert_eq!(f.scheme, SignatureSchemes::MessageAugmentation);
}

#[test]
fn decode_fields_round_trip_empty_payload_each_scheme() {
    for s in [
        SignatureSchemes::Basic,
        SignatureSchemes::MessageAugmentation,
        SignatureSchemes::ProofOfPossession,
    ] {
        let b = encode_fields(&[9, 9], &[1u8; 32], &[], s);
        assert_eq!(b.len(), 2 + 32 + 1 + 1);
        let f = decode_fields(&b, 2).unwrap();
        assert_eq!(f.u, vec![9, 9]);
        assert!(f.w.is_empty());
        assert_eq!(f.scheme, s);
    }
}

#[test]
fn encoding_is_deterministic() {
    assert_eq!(sample_encoding(), sample_encoding());
    let a = encode_fields(&[1], &[2u8; 32], &[], SignatureSchemes::Basic);
    let b = encode_fields(&[1], &[2u8; 32], &[], SignatureSchemes::Basic);
    assert_eq!(a, b);
}

#[test]
fn decode_fields_rejects_every_truncation() {
    let b = sample_encoding();
    assert_eq!(decode_fields(&b[..b.len() - 1], 4).unwrap_err(), DecodeError);
    for k in 0..b.len() {
        assert!(decode_fields(&b[..k], 4).is_err());
    }
}

#[test]
fn decode_fields_rejects_trailing_byte() {
    let mut b = sample_encoding();
    b.push(0);
    assert!(decode_fields(&b, 4).is_err());
}

#[test]
fn decode_fields_rejects_unknown_scheme_tag() {
    let mut b = sample_encoding();
    let last = b.len() - 1;
    b[last] = 3;
    assert!(decode_fields(&b, 4).is_err());
}

#[test]
fn decode_fields_rejects_overlong_length_prefix() {
    let mut b = vec![1u8, 2, 3, 4];
    b.extend_from_slice(&[7u8; 32]);
    b.extend_from_slice(&[0x83, 0x00, 0xaa, 0xbb, 0xcc, 1]);
    assert!(decode_fields(&b, 4).is_err());
}

#[test]
fn decode_fields_rejects_wrong_key_width() {
    assert!(decode_fields(&sample_encoding(), 5).is_err());
}

#[test]
fn write_uvarint_values() {
    let cases: [(u64, &[u8]); 5] = [
        (0, &[0]),
        (127, &[0x7f]),
        (128, &[0x80, 0x01]),
        (300, &[0xac, 0x02]),
        (u64::MAX, &[0xff, 0xff, 0xff, 0xff, 0xff, 0xff, 0xff, 0xff, 0xff, 0x01]),
    ];
    for (n, expected) in cases {
        let mut out = vec![0x55u8];
        write_uvarint(&mut out, n);
        assert_eq!(out[0], 0x55);
        assert_eq!(&out[1..], expected);
        assert_eq!(read_uvarint(&out, 1), Some((n, out.len())));
    }
}

#[test]
fn read_uvarint_rejects_malformed() {
    assert_eq!(read_uvarint(&[0x80, 0x80], 0), None);
    assert_eq!(read_uvarint(&[0x80, 0x00], 0), None);
    assert_eq!(read_uvarint(&[], 0), None);
    let too_big = [0xff, 0xff, 0xff, 0xff, 0xff, 0xff, 0xff, 0xff, 0xff, 0x02];
    assert_eq!(read_uvarint(&too_big, 0), None);
    assert_eq!(read_uvarint(&[0x00, 0x05, 0x09], 1), Some((5, 2)));
}
