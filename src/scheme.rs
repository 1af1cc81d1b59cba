//! The three BLS signature schemes and signatures tagged with one of them.
use vstd::prelude::*;

verus! {

/// The BLS signing convention that a ciphertext is bound to.
#[derive(Clone, Copy, Debug, PartialEq, Eq, Structural)]
pub enum SignatureSchemes {
    Basic,
    MessageAugmentation,
    ProofOfPossession,
}

impl Default for SignatureSchemes {
    /// Proof of possession, the scheme that guards against rogue-key attacks.
    fn default() -> (r: SignatureSchemes)
        ensures
            r == SignatureSchemes::ProofOfPossession,
    {
        SignatureSchemes::ProofOfPossession
    }
}

/// The one-byte tag that stands for a scheme on the wire.
pub open spec fn scheme_tag(s: SignatureSchemes) -> u8 {
    match s {
        SignatureSchemes::Basic => 0,
        SignatureSchemes::MessageAugmentation => 1,
        SignatureSchemes::ProofOfPossession => 2,
    }
}

/// The scheme that a tag stands for, if any.
pub open spec fn scheme_of_tag(t: u8) -> Option<SignatureSchemes> {
    if t == 0 {
        Some(SignatureSchemes::Basic)
    } else if t == 1 {
        Some(SignatureSchemes::MessageAugmentation)
    } else if t == 2 {
        Some(SignatureSchemes::ProofOfPossession)
    } else {
        None
    }
}

impl SignatureSchemes {
    /// The wire tag of this scheme.
    pub fn tag(&self) -> (r: u8)
        ensures
            r == scheme_tag(*self),
    {
        match self {
            SignatureSchemes::Basic => 0,
            SignatureSchemes::MessageAugmentation => 1,
            SignatureSchemes::ProofOfPossession => 2,
        }
    }

    /// The scheme with the given wire tag; `None` for a tag outside `0..=2`.
    pub fn from_tag(t: u8) -> (r: Option<SignatureSchemes>)
        ensures
            r == scheme_of_tag(t),
            r is Some ==> scheme_tag(r->Some_0) == t,
    {
        if t == 0 {
            Some(SignatureSchemes::Basic)
        } else if t == 1 {
            Some(SignatureSchemes::MessageAugmentation)
        } else if t == 2 {
            Some(SignatureSchemes::ProofOfPossession)
        } else {
            None
        }
    }
}

/// Every scheme is recovered from its own tag.
pub proof fn lemma_scheme_tag_inverse(s: SignatureSchemes)
    ensures
        scheme_of_tag(scheme_tag(s)) == Some(s),
{
}

/// A signature element tagged with the scheme it was made under.
#[derive(Clone, Copy, Debug)]
pub enum Signature<S> {
    Basic(S),
    MessageAugmentation(S),
    ProofOfPossession(S),
}

impl<S> Signature<S> {
    /// The scheme this signature was made under.
    pub open spec fn spec_scheme(&self) -> SignatureSchemes {
        match self {
            Signature::Basic(_) => SignatureSchemes::Basic,
            Signature::MessageAugmentation(_) => SignatureSchemes::MessageAugmentation,
            Signature::ProofOfPossession(_) => SignatureSchemes::ProofOfPossession,
        }
    }

    /// The signature element, whatever its scheme.
    pub open spec fn spec_element(&self) -> S {
        match self {
            Signature::Basic(s) => *s,
            Signature::MessageAugmentation(s) => *s,
            Signature::ProofOfPossession(s) => *s,
        }
    }

    /// The scheme this signature was made under.
    pub fn scheme(&self) -> (r: SignatureSchemes)
        ensures
            r == self.spec_scheme(),
    {
        match self {
            Signature::Basic(_) => SignatureSchemes::Basic,
            Signature::MessageAugmentation(_) => SignatureSchemes::MessageAugmentation,
            Signature::ProofOfPossession(_) => SignatureSchemes::ProofOfPossession,
        }
    }
}

} // verus!
