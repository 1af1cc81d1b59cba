//! The time-lock ciphertext and its decryption.
use vstd::prelude::*;

use crate::codec::{
    decode_fields, encode_fields, is_wire_encoding, lemma_prefix_free, lemma_round_trip,
    lemma_trailing_rejected, lemma_truncated_rejected, lemma_wire_bytes_injective, lemma_wire_layout,
    wire_bytes, DecodeError,
};
use crate::varint::uvarint;
use crate::scheme::{Signature, SignatureSchemes};
use subtle::{Choice, CtOption};

verus! {

#[verifier::external_type_specification]
#[verifier::external_body]
pub struct ExChoice(subtle::Choice);

#[verifier::external_type_specification]
#[verifier::external_body]
#[verifier::reject_recursive_types(T)]
pub struct ExCtOption<T>(subtle::CtOption<T>);

/// The pairing group and the unseal primitive that a ciphertext is opened
/// with. An implementation supplies the group's public-key and signature
/// elements, the fixed-width encoding of a public key, the placeholder
/// signature used when schemes do not match, and the key-encapsulation and
/// symmetric decryption step, which alone decides whether a signature opens
/// the ciphertext.
///
/// The spec functions below state what each operation computes. An
/// implementation defines them for its group and proves its methods
/// against them; the bodies given here only stand where an implementation
/// leaves one out, and describe no group.
pub trait TimeCryptPairing {
    type PublicKey;

    type Signature: Copy;

    /// The width of an encoded public key.
    open spec fn spec_key_len() -> nat {
        0
    }

    /// The fixed-width encoding of a public key.
    open spec fn spec_key_bytes(pk: Self::PublicKey) -> Seq<u8> {
        Seq::empty()
    }

    /// The public key that `b` encodes; `None` where `b` encodes no
    /// element of the group.
    open spec fn spec_key_from_bytes(b: Seq<u8>) -> Option<Self::PublicKey> {
        None
    }

    /// The scheme-neutral signature element used in place of a signature
    /// of the wrong scheme.
    open spec fn spec_placeholder() -> Self::Signature {
        arbitrary()
    }

    /// What the unseal primitive returns on its arguments.
    open spec fn spec_unseal(
        u: Self::PublicKey,
        v: Seq<u8>,
        w: Seq<u8>,
        s: Self::Signature,
        valid: Choice,
    ) -> CtOption<Vec<u8>> {
        arbitrary()
    }

    /// The width of an encoded public key.
    fn public_key_len() -> (r: usize)
        ensures
            r == Self::spec_key_len(),
    ;

    /// The fixed-width encoding of a public key.
    fn public_key_to_bytes(pk: &Self::PublicKey) -> (r: Vec<u8>)
        ensures
            r@ == Self::spec_key_bytes(*pk),
    ;

    /// The public key encoded by `bytes`; `None` where they encode no
    /// element of the group.
    fn public_key_from_bytes(bytes: &[u8]) -> (r: Option<Self::PublicKey>)
        ensures
            r == Self::spec_key_from_bytes(bytes@),
    ;

    /// The scheme-neutral signature element handed to `unseal` in place of
    /// a signature of the wrong scheme.
    fn signature_placeholder() -> (r: Self::Signature)
        ensures
            r == Self::spec_placeholder(),
    ;

    /// Recovers the plaintext from `u`, `v` and `w` with signature `s`;
    /// absent where `valid` is false or `s` does not open the ciphertext.
    /// A pure function of its arguments.
    fn unseal(
        u: &Self::PublicKey,
        v: &[u8; 32],
        w: &[u8],
        s: Self::Signature,
        valid: Choice,
    ) -> (r: CtOption<Vec<u8>>)
        ensures
            r == Self::spec_unseal(*u, v@, w@, s, valid),
    ;
}

/// The `Choice` that holds `flag`.
pub uninterp spec fn choice_of(flag: u8) -> Choice;

/// Relies on subtle's `From<u8> for Choice`, which takes 0 or 1 (it asserts
/// so in debug builds) and wraps that bit, unchanged, behind an
/// optimisation barrier: the result depends on the flag alone.
#[verifier::external_body]
fn choice_from_flag(flag: u8) -> (r: Choice)
    requires
        flag == 0 || flag == 1,
    ensures
        r == choice_of(flag),
{
    Choice::from(flag)
}

/// The signature element and validity flag that decryption hands to the
/// unseal primitive: the signature's own element and 1 where its scheme is
/// the ciphertext's, else the placeholder and 0.
pub fn select_signature<S: Copy>(
    sig: &Signature<S>,
    scheme: SignatureSchemes,
    placeholder: S,
) -> (r: (S, u8))
    ensures
        sig.spec_scheme() == scheme ==> r == (sig.spec_element(), 1u8),
        sig.spec_scheme() != scheme ==> r == (placeholder, 0u8),
{
    match (sig, scheme) {
        (Signature::Basic(s), SignatureSchemes::Basic) => (*s, 1u8),
        (Signature::MessageAugmentation(s), SignatureSchemes::MessageAugmentation) => (*s, 1u8),
        (Signature::ProofOfPossession(s), SignatureSchemes::ProofOfPossession) => (*s, 1u8),
        (_, _) => (placeholder, 0u8),
    }
}

/// The ciphertext output from time-lock encryption.
#[derive(Debug)]
pub struct TimeCryptCiphertext<C: TimeCryptPairing> {
    /// The public-key element that encapsulates the key.
    pub u: C::PublicKey,
    /// The 32-byte commitment.
    pub v: [u8; 32],
    /// The encrypted payload.
    pub w: Vec<u8>,
    /// The signature scheme the ciphertext was sealed against.
    pub scheme: SignatureSchemes,
}

/// The wire encoding of `c`: its key as the group encodes it, then the
/// other fields.
pub open spec fn ciphertext_bytes<C: TimeCryptPairing>(c: &TimeCryptCiphertext<C>) -> Seq<u8> {
    wire_bytes(C::spec_key_bytes(c.u), c.v@, c.w@, c.scheme)
}

/// The first bytes of `b`, where the key stands in an encoding.
pub open spec fn key_field<C: TimeCryptPairing>(b: Seq<u8>) -> Seq<u8> {
    b.subrange(0, C::spec_key_len() as int)
}

/// `b` is the encoding of a ciphertext: it encodes fields whose key has
/// the group's width, and those key bytes encode an element of the group.
pub open spec fn is_ciphertext_encoding<C: TimeCryptPairing>(b: Seq<u8>) -> bool {
    &&& is_wire_encoding(b, C::spec_key_len())
    &&& C::spec_key_from_bytes(key_field::<C>(b)) is Some
}

/// What decoding `b` gives where it succeeds: the key the group decodes
/// from the key field, and the fields that follow it.
pub open spec fn decodes_to<C: TimeCryptPairing>(b: Seq<u8>, c: &TimeCryptCiphertext<C>) -> bool {
    &&& C::spec_key_from_bytes(key_field::<C>(b)) == Some(c.u)
    &&& b == wire_bytes(key_field::<C>(b), c.v@, c.w@, c.scheme)
}

/// The group encodes `u` at its own width and decodes that encoding back
/// to `u`.
pub open spec fn key_round_trips<C: TimeCryptPairing>(u: C::PublicKey) -> bool {
    &&& C::spec_key_bytes(u).len() == C::spec_key_len()
    &&& C::spec_key_from_bytes(C::spec_key_bytes(u)) == Some(u)
}

impl<C: TimeCryptPairing> TimeCryptCiphertext<C> {
    /// The wire encoding of this ciphertext: the public key as the pairing
    /// group encodes it, followed by the other fields.
    pub fn to_bytes(&self) -> (r: Vec<u8>)
        ensures
            r@ == ciphertext_bytes(self),
    {
        let ub = C::public_key_to_bytes(&self.u);
        encode_fields(ub.as_slice(), &self.v, self.w.as_slice(), self.scheme)
    }

    /// Decodes a ciphertext. Fails where `bytes` is not the encoding of
    /// fields with a public key of the group's width, or where those bytes
    /// encode no element of the group.
    pub fn from_bytes(bytes: &[u8]) -> (r: Result<Self, DecodeError>)
        ensures
            r is Ok <==> is_ciphertext_encoding::<C>(bytes@),
            r matches Ok(c) ==> decodes_to(bytes@, &c),
    {
        let f = match decode_fields(bytes, C::public_key_len()) {
            Ok(f) => f,
            Err(e) => {
                return Err(e);
            },
        };
        proof {
            lemma_wire_layout(f.u@, f.v@, f.w@, f.scheme);
            assert(key_field::<C>(bytes@) == f.u@);
            let wl: usize = f.w.len();
            assert(is_wire_encoding(bytes@, C::spec_key_len()));
        }
        match C::public_key_from_bytes(f.u.as_slice()) {
            Some(u) => Ok(TimeCryptCiphertext { u, v: f.v, w: f.w, scheme: f.scheme }),
            None => Err(DecodeError),
        }
    }

    /// Decrypts the ciphertext with a signature over its identifier. The
    /// unseal primitive is called once, with the same arguments in the same
    /// shape whether or not the signature's scheme is the ciphertext's: a
    /// mismatch hands it the placeholder element and a false flag, so that
    /// it answers "absent" as it does for a wrong signature.
    pub fn decrypt(&self, sig: &Signature<C::Signature>) -> (r: CtOption<Vec<u8>>)
        ensures
            sig.spec_scheme() == self.scheme ==> r == C::spec_unseal(
                self.u,
                self.v@,
                self.w@,
                sig.spec_element(),
                choice_of(1),
            ),
            sig.spec_scheme() != self.scheme ==> r == C::spec_unseal(
                self.u,
                self.v@,
                self.w@,
                C::spec_placeholder(),
                choice_of(0),
            ),
    {
        let (s, flag) = select_signature(sig, self.scheme, C::signature_placeholder());
        let valid = choice_from_flag(flag);
        C::unseal(&self.u, &self.v, self.w.as_slice(), s, valid)
    }
}

impl<'a, C: TimeCryptPairing> From<&'a TimeCryptCiphertext<C>> for Vec<u8> {
    /// The wire encoding of `c`, as `to_bytes` gives it.
    fn from(c: &'a TimeCryptCiphertext<C>) -> (r: Vec<u8>)
        ensures
            r@ == ciphertext_bytes(c),
    {
        c.to_bytes()
    }
}

impl<'a, C: TimeCryptPairing> vstd::std_specs::convert::FromSpecImpl<&'a TimeCryptCiphertext<C>> for Vec<u8> {
    /// The key's bytes come from the pairing group, which states nothing of
    /// them, so the result has no closed form: `from` states what holds of
    /// it whatever they are.
    open spec fn obeys_from_spec() -> bool {
        false
    }

    open spec fn from_spec(c: &'a TimeCryptCiphertext<C>) -> Vec<u8> {
        arbitrary()
    }
}

impl<C: TimeCryptPairing> From<TimeCryptCiphertext<C>> for Vec<u8> {
    /// The wire encoding of `c`, as `to_bytes` gives it.
    fn from(c: TimeCryptCiphertext<C>) -> (r: Vec<u8>)
        ensures
            r@ == ciphertext_bytes(&c),
    {
        c.to_bytes()
    }
}

impl<C: TimeCryptPairing> vstd::std_specs::convert::FromSpecImpl<TimeCryptCiphertext<C>> for Vec<u8> {
    /// No closed form, as for a borrowed ciphertext.
    open spec fn obeys_from_spec() -> bool {
        false
    }

    open spec fn from_spec(c: TimeCryptCiphertext<C>) -> Vec<u8> {
        arbitrary()
    }
}

impl<'a, C: TimeCryptPairing> TryFrom<&'a [u8]> for TimeCryptCiphertext<C> {
    type Error = DecodeError;

    /// Decodes a ciphertext, as `from_bytes` does.
    fn try_from(bytes: &'a [u8]) -> (r: Result<Self, DecodeError>)
        ensures
            r is Ok <==> is_ciphertext_encoding::<C>(bytes@),
            r matches Ok(c) ==> decodes_to(bytes@, &c),
    {
        Self::from_bytes(bytes)
    }
}

impl<'a, C: TimeCryptPairing> vstd::std_specs::convert::TryFromSpecImpl<&'a [u8]> for TimeCryptCiphertext<C> {
    /// Whether decoding succeeds rests in the end on the pairing group's
    /// check of the key, so the result has no closed form: `try_from`
    /// states what holds of it whatever that check answers.
    open spec fn obeys_try_from_spec() -> bool {
        false
    }

    open spec fn try_from_spec(bytes: &'a [u8]) -> Result<Self, DecodeError> {
        arbitrary()
    }
}

impl<C: TimeCryptPairing> TryFrom<Vec<u8>> for TimeCryptCiphertext<C> {
    type Error = DecodeError;

    /// Decodes a ciphertext, as `from_bytes` does.
    fn try_from(bytes: Vec<u8>) -> (r: Result<Self, DecodeError>)
        ensures
            r is Ok <==> is_ciphertext_encoding::<C>(bytes@),
            r matches Ok(c) ==> decodes_to(bytes@, &c),
    {
        Self::from_bytes(bytes.as_slice())
    }
}

impl<C: TimeCryptPairing> vstd::std_specs::convert::TryFromSpecImpl<Vec<u8>> for TimeCryptCiphertext<C> {
    /// No closed form, as for a byte slice.
    open spec fn obeys_try_from_spec() -> bool {
        false
    }

    open spec fn try_from_spec(bytes: Vec<u8>) -> Result<Self, DecodeError> {
        arbitrary()
    }
}

impl<'a, C: TimeCryptPairing> TryFrom<&'a Vec<u8>> for TimeCryptCiphertext<C> {
    type Error = DecodeError;

    /// Decodes a ciphertext, as `from_bytes` does.
    fn try_from(bytes: &'a Vec<u8>) -> (r: Result<Self, DecodeError>)
        ensures
            r is Ok <==> is_ciphertext_encoding::<C>(bytes@),
            r matches Ok(c) ==> decodes_to(bytes@, &c),
    {
        Self::from_bytes(bytes.as_slice())
    }
}

impl<'a, C: TimeCryptPairing> vstd::std_specs::convert::TryFromSpecImpl<&'a Vec<u8>> for TimeCryptCiphertext<C> {
    /// No closed form, as for a byte slice.
    open spec fn obeys_try_from_spec() -> bool {
        false
    }

    open spec fn try_from_spec(bytes: &'a Vec<u8>) -> Result<Self, DecodeError> {
        arbitrary()
    }
}

/// Whether `a` and `b` hold the same bytes.
fn bytes_equal(a: &[u8], b: &[u8]) -> (r: bool)
    ensures
        r == (a@ == b@),
{
    if a.len() != b.len() {
        return false;
    }
    let mut i: usize = 0;
    while i < a.len()
        invariant
            i <= a@.len(),
            a@.len() == b@.len(),
            forall|j: int| 0 <= j < i ==> a@[j] == b@[j],
        decreases a@.len() - i,
    {
        if a[i] != b[i] {
            return false;
        }
        i = i + 1;
    }
    assert(a@ =~= b@);
    true
}

impl<C: TimeCryptPairing> Clone for TimeCryptCiphertext<C> where C::PublicKey: Clone {
    fn clone(&self) -> (r: Self)
        ensures
            vstd::pervasive::cloned(self.u, r.u),
            r.v@ == self.v@,
            r.w@ == self.w@,
            r.scheme == self.scheme,
    {
        TimeCryptCiphertext {
            u: self.u.clone(),
            v: self.v,
            w: crate::codec::copy_bytes(self.w.as_slice()),
            scheme: self.scheme,
        }
    }
}

impl<C: TimeCryptPairing> PartialEq for TimeCryptCiphertext<C> where C::PublicKey: PartialEq {
    fn eq(&self, o: &Self) -> (r: bool) {
        let same_u = self.u == o.u;
        same_u && bytes_equal(self.v.as_slice(), o.v.as_slice()) && bytes_equal(
            self.w.as_slice(),
            o.w.as_slice(),
        ) && self.scheme == o.scheme
    }
}

impl<C: TimeCryptPairing> vstd::std_specs::cmp::PartialEqSpecImpl for TimeCryptCiphertext<C> where C::PublicKey: PartialEq {
    open spec fn obeys_eq_spec() -> bool {
        <C::PublicKey as vstd::std_specs::cmp::PartialEqSpec>::obeys_eq_spec()
    }

    open spec fn eq_spec(&self, o: &Self) -> bool {
        &&& <C::PublicKey as vstd::std_specs::cmp::PartialEqSpec>::eq_spec(&self.u, &o.u)
        &&& self.v@ == o.v@
        &&& self.w@ == o.w@
        &&& self.scheme == o.scheme
    }
}

impl<C: TimeCryptPairing> Eq for TimeCryptCiphertext<C> where C::PublicKey: Eq {

}

impl<C: TimeCryptPairing> Default for TimeCryptCiphertext<C> where C::PublicKey: Default {
    /// The default key, an all-zero commitment, an empty payload and the
    /// default scheme.
    fn default() -> (r: Self)
        ensures
            r.v@ == Seq::new(32, |i: int| 0u8),
            r.w@.len() == 0,
            r.scheme == SignatureSchemes::ProofOfPossession,
    {
        let r = TimeCryptCiphertext {
            u: C::PublicKey::default(),
            v: [0u8; 32],
            w: Vec::new(),
            scheme: SignatureSchemes::default(),
        };
        assert(r.v@ =~= Seq::new(32, |i: int| 0u8));
        r
    }
}

/// Round trip: where the group's encoding of the key round-trips, the
/// encoding of a ciphertext is accepted, and what decoding gives back is
/// that ciphertext, field for field.
pub proof fn lemma_ciphertext_round_trip<C: TimeCryptPairing>(c: TimeCryptCiphertext<C>)
    requires
        key_round_trips::<C>(c.u),
        c.w@.len() <= u64::MAX,
    ensures
        is_ciphertext_encoding::<C>(ciphertext_bytes(&c)),
        forall|d: TimeCryptCiphertext<C>|
            #[trigger] decodes_to(ciphertext_bytes(&c), &d) ==> d.u == c.u && d.v@ == c.v@ && d.w@
                == c.w@ && d.scheme == c.scheme,
{
    let kb = C::spec_key_bytes(c.u);
    let b = ciphertext_bytes(&c);
    lemma_wire_layout(kb, c.v@, c.w@, c.scheme);
    lemma_round_trip(kb, c.v@, c.w@, c.scheme);
    assert(key_field::<C>(b) == kb);
    assert forall|d: TimeCryptCiphertext<C>| #[trigger] decodes_to(b, &d) implies d.u == c.u
        && d.v@ == c.v@ && d.w@ == c.w@ && d.scheme == c.scheme by {
        lemma_wire_bytes_injective(kb, c.v@, c.w@, c.scheme, kb, d.v@, d.w@, d.scheme);
    }
}

/// Decoding then encoding gives the input back, where the group encodes
/// the key it decoded as the bytes it was decoded from.
pub proof fn lemma_decode_encode<C: TimeCryptPairing>(b: Seq<u8>, d: TimeCryptCiphertext<C>)
    requires
        decodes_to(b, &d),
        C::spec_key_bytes(d.u) == key_field::<C>(b),
    ensures
        ciphertext_bytes(&d) == b,
{
}

/// Every proper prefix of a ciphertext's encoding is refused.
pub proof fn lemma_ciphertext_truncated_rejected<C: TimeCryptPairing>(
    c: TimeCryptCiphertext<C>,
    k: int,
)
    requires
        C::spec_key_bytes(c.u).len() == C::spec_key_len(),
        0 <= k < ciphertext_bytes(&c).len(),
    ensures
        !is_ciphertext_encoding::<C>(ciphertext_bytes(&c).subrange(0, k)),
{
    lemma_truncated_rejected(C::spec_key_bytes(c.u), c.v@, c.w@, c.scheme, k);
}

/// A ciphertext's encoding followed by more bytes is refused.
pub proof fn lemma_ciphertext_trailing_rejected<C: TimeCryptPairing>(
    c: TimeCryptCiphertext<C>,
    extra: Seq<u8>,
)
    requires
        C::spec_key_bytes(c.u).len() == C::spec_key_len(),
        extra.len() >= 1,
    ensures
        !is_ciphertext_encoding::<C>(ciphertext_bytes(&c) + extra),
{
    lemma_trailing_rejected(C::spec_key_bytes(c.u), c.v@, c.w@, c.scheme, extra);
}

/// No ciphertext's encoding is a proper prefix of another's.
pub proof fn lemma_ciphertext_prefix_free<C: TimeCryptPairing>(
    c: TimeCryptCiphertext<C>,
    d: TimeCryptCiphertext<C>,
)
    requires
        C::spec_key_bytes(c.u).len() == C::spec_key_len(),
        C::spec_key_bytes(d.u).len() == C::spec_key_len(),
        ciphertext_bytes(&c).len() < ciphertext_bytes(&d).len(),
    ensures
        ciphertext_bytes(&d).subrange(0, ciphertext_bytes(&c).len() as int) != ciphertext_bytes(&c),
{
    if ciphertext_bytes(&d).subrange(0, ciphertext_bytes(&c).len() as int) == ciphertext_bytes(&c) {
        lemma_prefix_free(
            C::spec_key_bytes(d.u),
            d.v@,
            d.w@,
            d.scheme,
            C::spec_key_bytes(c.u),
            c.v@,
            c.w@,
            c.scheme,
        );
    }
}

/// Distinct ciphertexts, whose keys round-trip, have distinct encodings.
pub proof fn lemma_ciphertext_injective<C: TimeCryptPairing>(
    c: TimeCryptCiphertext<C>,
    d: TimeCryptCiphertext<C>,
)
    requires
        key_round_trips::<C>(c.u),
        key_round_trips::<C>(d.u),
        ciphertext_bytes(&c) == ciphertext_bytes(&d),
    ensures
        c.u == d.u,
        c.v@ == d.v@,
        c.w@ == d.w@,
        c.scheme == d.scheme,
{
    lemma_wire_bytes_injective(
        C::spec_key_bytes(c.u),
        c.v@,
        c.w@,
        c.scheme,
        C::spec_key_bytes(d.u),
        d.v@,
        d.w@,
        d.scheme,
    );
}

/// Encoding is deterministic: ciphertexts with equal fields, the empty
/// payload included, encode to identical bytes.
pub proof fn lemma_ciphertext_encoding_deterministic<C: TimeCryptPairing>(
    c: TimeCryptCiphertext<C>,
    d: TimeCryptCiphertext<C>,
)
    requires
        c.u == d.u,
        c.v@ == d.v@,
        c.w@ == d.w@,
        c.scheme == d.scheme,
    ensures
        ciphertext_bytes(&c) == ciphertext_bytes(&d),
{
}

/// Layout: the key's encoding, the 32-byte commitment, the payload's
/// length, the payload and the scheme tag, in that order and nothing else;
/// so the length depends on the payload's length alone.
pub proof fn lemma_ciphertext_layout<C: TimeCryptPairing>(c: TimeCryptCiphertext<C>)
    requires
        C::spec_key_bytes(c.u).len() == C::spec_key_len(),
    ensures
        ({
            let b = ciphertext_bytes(&c);
            let n = C::spec_key_len() as int;
            let l = uvarint(c.w@.len()).len() as int;
            &&& b.len() == n + 32 + l + c.w@.len() + 1
            &&& b.subrange(0, n) == C::spec_key_bytes(c.u)
            &&& b.subrange(n, n + 32) == c.v@
            &&& b.subrange(n + 32, n + 32 + l) == uvarint(c.w@.len())
            &&& b.subrange(n + 32 + l, b.len() - 1) == c.w@
            &&& b[b.len() - 1] == crate::scheme::scheme_tag(c.scheme)
        }),
{
    let b = ciphertext_bytes(&c);
    let n = C::spec_key_len() as int;
    let l = uvarint(c.w@.len()).len() as int;
    lemma_wire_layout(C::spec_key_bytes(c.u), c.v@, c.w@, c.scheme);
    assert(b.subrange(n + 32, n + 32 + l) =~= b.subrange(n + 32, b.len() as int).subrange(0, l));
}

} // verus!
