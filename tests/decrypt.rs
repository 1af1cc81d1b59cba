use subtle::{Choice, CtOption};
use timelock_ciphertext::{
    encode_fields, select_signature, Signature, SignatureSchemes, TimeCryptCiphertext,
    TimeCryptPairing,
};

/// A stand-in group: a public key is four bytes, the all-0xff key is not
/// an element, and exactly one signature opens a ciphertext.
#[derive(Debug)]
struct ToyPairing;

const GOOD_SIG: u32 = 0x5eed_0001;
const KEY: [u8; 4] = [1, 2, 3, 4];

impl TimeCryptPairing for ToyPairing {
    type PublicKey = [u8; 4];
    type Signature = u32;

    fn public_key_len() -> usize {
        4
    }

    fn public_key_to_bytes(pk: &[u8; 4]) -> Vec<u8> {
        pk.to_vec()
    }

    fn public_key_from_bytes(bytes: &[u8]) -> Option<[u8; 4]> {
        let pk: [u8; 4] = bytes.try_into().ok()?;
        if pk == [0xff; 4] {
            None
        } else {
            Some(pk)
        }
    }

    fn signature_placeholder() -> u32 {
        0
    }

    fn unseal(u: &[u8; 4], v: &[u8; 32], w: &[u8], s: u32, valid: Choice) -> CtOption<Vec<u8>> {
        let opens = Choice::from((s == GOOD_SIG && *u == KEY) as u8);
        let plain: Vec<u8> = w.iter().enumerate().map(|(i, b)| b ^ v[i % 32]).collect();
        CtOption::new(plain, valid & opens)
    }
}

fn seal(plain: &[u8], scheme: SignatureSchemes) -> TimeCryptCiphertext<ToyPairing> {
    let v = [0x3cu8; 32];
    let w = plain.iter().enumerate().map(|(i, b)| b ^ v[i % 32]).collect();
    TimeCryptCiphertext { u: KEY, v, w, scheme }
}

fn opened(ct: CtOption<Vec<u8>>) -> Option<Vec<u8>> {
    Option::from(ct)
}

#[test]
fn decrypt_matching_scheme_recovers_plaintext() {
    let ct = seal(b"hello", SignatureSchemes::Basic);
    assert_eq!(opened(ct.decrypt(&Signature::Basic(GOOD_SIG))), Some(b"hello".to_vec()));
    let ct = seal(b"pop", SignatureSchemes::ProofOfPossession);
    assert_eq!(
        opened(ct.decrypt(&Signature::ProofOfPossession(GOOD_SIG))),
        Some(b"pop".to_vec())
    );
}

#[test]
fn decrypt_scheme_mismatch_is_absent() {
    let ct = seal(b"hello", SignatureSchemes::Basic);
    assert_eq!(opened(ct.decrypt(&Signature::ProofOfPossession(GOOD_SIG))), None);
    assert_eq!(opened(ct.decrypt(&Signature::MessageAugmentation(GOOD_SIG))), None);
}

#[test]
fn decrypt_wrong_signature_is_absent() {
    let ct = seal(b"hello", SignatureSchemes::Basic);
    assert_eq!(opened(ct.decrypt(&Signature::Basic(GOOD_SIG + 1))), None);
}

#[test]
fn decrypt_empty_payload() {
    let ct = seal(b"", SignatureSchemes::MessageAugmentation);
    assert_eq!(opened(ct.decrypt(&Signature::MessageAugmentation(GOOD_SIG))), Some(vec![]));
}

#[test]
fn select_signature_match_and_mismatch() {
    assert_eq!(select_signature(&Signature::Basic(7u32), SignatureSchemes::Basic, 0), (7, 1));
    assert_eq!(
        select_signature(&Signature::MessageAugmentation(7u32), SignatureSchemes::MessageAugmentation, 0),
        (7, 1)
    );
    assert_eq!(select_signature(&Signature::Basic(7u32), SignatureSchemes::ProofOfPossession, 9), (9, 0));
    assert_eq!(
        select_signature(&Signature::ProofOfPossession(7u32), SignatureSchemes::Basic, 9),
        (9, 0)
    );
}

#[test]
fn ciphertext_bytes_round_trip() {
    let ct = seal(b"round trip", SignatureSchemes::ProofOfPossession);
    let bytes = ct.to_bytes();
    assert_eq!(bytes, encode_fields(&KEY, &ct.v, &ct.w, ct.scheme));
    let back = TimeCryptCiphertext::<ToyPairing>::from_bytes(&bytes).unwrap();
    assert_eq!(back, ct);
    assert_eq!(back.to_bytes(), bytes);
}

#[test]
fn ciphertext_from_truncated_bytes_fails() {
    let bytes = seal(b"abc", SignatureSchemes::Basic).to_bytes();
    assert!(TimeCryptCiphertext::<ToyPairing>::from_bytes(&bytes[..bytes.len() - 1]).is_err());
}

#[test]
fn ciphertext_from_bytes_rejects_invalid_group_element() {
    let bytes = encode_fields(&[0xff; 4], &[0u8; 32], &[1, 2], SignatureSchemes::Basic);
    assert!(TimeCryptCiphertext::<ToyPairing>::from_bytes(&bytes).is_err());
}

#[test]
fn scheme_tags() {
    assert_eq!(SignatureSchemes::Basic.tag(), 0);
    assert_eq!(SignatureSchemes::MessageAugmentation.tag(), 1);
    assert_eq!(SignatureSchemes::ProofOfPossession.tag(), 2);
    assert_eq!(SignatureSchemes::from_tag(1), Some(SignatureSchemes::MessageAugmentation));
    assert_eq!(SignatureSchemes::from_tag(3), None);
    assert_eq!(Signature::ProofOfPossession(1u8).scheme(), SignatureSchemes::ProofOfPossession);
}

#[test]
fn std_conversions_match_methods() {
    let ct = seal(b"conv", SignatureSchemes::MessageAugmentation);
    let bytes = Vec::<u8>::from(&ct);
    assert_eq!(bytes, ct.to_bytes());
    let back = TimeCryptCiphertext::<ToyPairing>::try_from(&bytes[..]).ok().unwrap();
    assert_eq!(back.w, ct.w);
    assert_eq!(back.scheme, SignatureSchemes::MessageAugmentation);
    assert!(TimeCryptCiphertext::<ToyPairing>::try_from(&bytes[..3]).is_err());
}

#[test]
fn ciphertext_from_bytes_with_trailing_byte_fails() {
    let mut bytes = seal(b"abc", SignatureSchemes::Basic).to_bytes();
    bytes.push(0);
    assert!(TimeCryptCiphertext::<ToyPairing>::from_bytes(&bytes).is_err());
}

#[test]
fn owned_and_vec_conversions() {
    let ct = seal(b"owned", SignatureSchemes::Basic);
    let expected = ct.to_bytes();
    let bytes: Vec<u8> = Vec::from(ct.clone());
    assert_eq!(bytes, expected);
    assert_eq!(TimeCryptCiphertext::<ToyPairing>::try_from(&bytes).unwrap(), ct);
    assert_eq!(TimeCryptCiphertext::<ToyPairing>::try_from(bytes.clone()).unwrap(), ct);
    let mut longer = bytes;
    longer.push(1);
    assert!(TimeCryptCiphertext::<ToyPairing>::try_from(longer).is_err());
}

#[test]
fn clone_and_equality() {
    let ct = seal(b"same", SignatureSchemes::MessageAugmentation);
    let copy = ct.clone();
    assert_eq!(copy, ct);
    let mut other = ct.clone();
    other.w.push(0);
    assert_ne!(other, ct);
    let mut other_scheme = ct.clone();
    other_scheme.scheme = SignatureSchemes::Basic;
    assert_ne!(other_scheme, ct);
    let mut other_v = ct.clone();
    other_v.v[31] ^= 1;
    assert_ne!(other_v, ct);
    let mut other_u = ct.clone();
    other_u.u = [9, 9, 9, 9];
    assert_ne!(other_u, ct);
}

#[test]
fn default_ciphertext() {
    let d = TimeCryptCiphertext::<ToyPairing>::default();
    assert_eq!(d.u, [0u8; 4]);
    assert_eq!(d.v, [0u8; 32]);
    assert!(d.w.is_empty());
    assert_eq!(d.scheme, SignatureSchemes::ProofOfPossession);
    assert_eq!(SignatureSchemes::default(), SignatureSchemes::ProofOfPossession);
    let bytes = d.to_bytes();
    assert_eq!(bytes.len(), 4 + 32 + 1 + 1);
    assert_eq!(TimeCryptCiphertext::<ToyPairing>::from_bytes(&bytes).unwrap(), d);
}

#[test]
fn ciphertext_every_prefix_rejected() {
    let bytes = seal(b"prefixes", SignatureSchemes::ProofOfPossession).to_bytes();
    for k in 0..bytes.len() {
        assert!(TimeCryptCiphertext::<ToyPairing>::from_bytes(&bytes[..k]).is_err());
    }
}

#[test]
fn ciphertext_layout_and_length() {
    let a = seal(b"xy", SignatureSchemes::Basic).to_bytes();
    let b = seal(b"zw", SignatureSchemes::Basic).to_bytes();
    assert_eq!(a.len(), b.len());
    assert_eq!(a.len(), 4 + 32 + 1 + 2 + 1);
    assert_eq!(&a[..4], &KEY);
    assert_eq!(&a[4..36], &[0x3cu8; 32]);
    assert_eq!(a[36], 2);
    assert_eq!(a[a.len() - 1], 0);
    let longer = seal(b"xyz", SignatureSchemes::Basic).to_bytes();
    assert_ne!(&longer[..a.len()], &a[..]);
}
