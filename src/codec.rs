//! The wire format of a ciphertext: the encoded public key, the 32-byte
//! commitment, the length-prefixed payload and the one-byte scheme tag.
use vstd::prelude::*;

use crate::scheme::{scheme_of_tag, scheme_tag, SignatureSchemes};
use crate::varint::{
    lemma_uvarint_prefix_unique, read_uvarint, starts_with_uvarint, uvarint,
    write_uvarint,
};

verus! {

/// Byte input that is not the encoding of a ciphertext.
#[derive(Clone, Copy, Debug, PartialEq, Eq, Structural)]
pub struct DecodeError;

/// The fields of a ciphertext as they stand on the wire, the public key
/// still in its own fixed-width encoding.
#[derive(Clone, Debug)]
pub struct WireFields {
    pub u: Vec<u8>,
    pub v: [u8; 32],
    pub w: Vec<u8>,
    pub scheme: SignatureSchemes,
}

/// The encoding of a ciphertext from its fields: `u`, then `v`, then the
/// length of `w` and `w`, then the scheme tag.
pub open spec fn wire_bytes(u: Seq<u8>, v: Seq<u8>, w: Seq<u8>, scheme: SignatureSchemes) -> Seq<
    u8,
> {
    u + v + uvarint(w.len()) + w + seq![scheme_tag(scheme)]
}

/// `b` encodes some ciphertext whose public key takes `u_len` bytes.
pub open spec fn is_wire_encoding(b: Seq<u8>, u_len: nat) -> bool {
    exists|u: Seq<u8>, v: Seq<u8>, w: Seq<u8>, s: SignatureSchemes|
        u.len() == u_len && v.len() == 32 && w.len() <= u64::MAX && b == #[trigger] wire_bytes(
            u,
            v,
            w,
            s,
        )
}

/// Appends the bytes of `b` to `out`.
fn append_bytes(out: &mut Vec<u8>, b: &[u8])
    ensures
        final(out)@ == old(out)@ + b@,
{
    let mut i: usize = 0;
    while i < b.len()
        invariant
            i <= b@.len(),
            out@ == old(out)@ + b@.subrange(0, i as int),
        decreases b@.len() - i,
    {
        out.push(b[i]);
        i = i + 1;
        assert(out@ =~= old(out)@ + b@.subrange(0, i as int));
    }
    assert(b@.subrange(0, i as int) =~= b@);
}

/// The bytes of `b` from `start` to `end`.
fn copy_range(b: &[u8], start: usize, end: usize) -> (r: Vec<u8>)
    requires
        start <= end <= b@.len(),
    ensures
        r@ == b@.subrange(start as int, end as int),
{
    let mut r: Vec<u8> = Vec::new();
    let mut i: usize = start;
    while i < end
        invariant
            start <= i <= end <= b@.len(),
            r@ == b@.subrange(start as int, i as int),
        decreases end - i,
    {
        r.push(b[i]);
        i = i + 1;
        assert(r@ =~= b@.subrange(start as int, i as int));
    }
    r
}

/// A fresh vector with the bytes of `b`.
pub(crate) fn copy_bytes(b: &[u8]) -> (r: Vec<u8>)
    ensures
        r@ == b@,
{
    let r = copy_range(b, 0, b.len());
    assert(b@.subrange(0, b@.len() as int) =~= b@);
    r
}

/// The 32 bytes of `b` from `start` on.
fn copy_array32(b: &[u8], start: usize) -> (r: [u8; 32])
    requires
        start + 32 <= b@.len(),
    ensures
        r@ == b@.subrange(start as int, start + 32),
{
    let mut r: [u8; 32] = [0u8; 32];
    let n: usize = b.len();
    let mut i: usize = 0;
    while i < 32
        invariant
            i <= 32,
            n == b@.len(),
            start + 32 <= b@.len(),
            r@.len() == 32,
            forall|j: int| 0 <= j < i ==> r@[j] == b@[start + j],
        decreases 32 - i,
    {
        r[i] = b[start + i];
        i = i + 1;
    }
    assert(r@ =~= b@.subrange(start as int, start + 32));
    r
}

/// Encodes the fields of a ciphertext.
pub fn encode_fields(u: &[u8], v: &[u8; 32], w: &[u8], scheme: SignatureSchemes) -> (r: Vec<u8>)
    ensures
        r@ == wire_bytes(u@, v@, w@, scheme),
{
    let mut out: Vec<u8> = Vec::new();
    append_bytes(&mut out, u);
    append_bytes(&mut out, v.as_slice());
    write_uvarint(&mut out, w.len() as u64);
    append_bytes(&mut out, w);
    out.push(scheme.tag());
    assert(out@ =~= wire_bytes(u@, v@, w@, scheme));
    out
}

/// Where each field of a ciphertext stands in its encoding.
pub proof fn lemma_wire_layout(u: Seq<u8>, v: Seq<u8>, w: Seq<u8>, s: SignatureSchemes)
    requires
        v.len() == 32,
    ensures
        ({
            let b = wire_bytes(u, v, w, s);
            let p = u.len() + 32int;
            let l = uvarint(w.len()).len() as int;
            &&& b.len() == p + l + w.len() + 1
            &&& b.subrange(0, u.len() as int) == u
            &&& b.subrange(u.len() as int, p) == v
            &&& starts_with_uvarint(b.subrange(p, b.len() as int), w.len())
            &&& b.subrange(p + l, b.len() - 1) == w
            &&& b[b.len() - 1] == scheme_tag(s)
        }),
{
    let b = wire_bytes(u, v, w, s);
    let p = u.len() + 32int;
    let e = uvarint(w.len());
    let l = e.len() as int;
    assert(b.subrange(0, u.len() as int) =~= u);
    assert(b.subrange(u.len() as int, p) =~= v);
    assert(b.subrange(p, b.len() as int).subrange(0, l) =~= e);
    assert(b.subrange(p + l, b.len() - 1) =~= w);
}

/// What every encoding with a public key of width `u_len` shows: the
/// length of its payload, prefixed after the key and the commitment, fixes
/// its length, and its last byte is a scheme tag.
proof fn lemma_encoding_facts(b: Seq<u8>, u_len: nat) -> (w_len: nat)
    requires
        is_wire_encoding(b, u_len),
    ensures
        w_len <= u64::MAX,
        starts_with_uvarint(b.subrange(u_len + 32int, b.len() as int), w_len),
        b.len() == u_len + 32 + uvarint(w_len).len() + w_len + 1,
        scheme_of_tag(b[b.len() - 1]) is Some,
{
    let (u, v, w, s) = choose|u: Seq<u8>, v: Seq<u8>, w: Seq<u8>, s: SignatureSchemes|
        u.len() == u_len && v.len() == 32 && w.len() <= u64::MAX && b == #[trigger] wire_bytes(
            u,
            v,
            w,
            s,
        );
    lemma_wire_layout(u, v, w, s);
    crate::scheme::lemma_scheme_tag_inverse(s);
    w.len()
}

/// Decodes the fields of a ciphertext whose public key takes `u_len`
/// bytes. Succeeds exactly on the encodings of such ciphertexts: input
/// that is cut short, carries trailing bytes, holds a length prefix that
/// is not in shortest form, or ends in an unknown scheme tag is refused.
pub fn decode_fields(bytes: &[u8], u_len: usize) -> (r: Result<WireFields, DecodeError>)
    ensures
        match r {
            Ok(f) => f.u@.len() == u_len && bytes@ == wire_bytes(f.u@, f.v@, f.w@, f.scheme),
            Err(_) => !is_wire_encoding(bytes@, u_len as nat),
        },
{
    let n: usize = bytes.len();
    if n < u_len || n - u_len < 32 {
        proof {
            if is_wire_encoding(bytes@, u_len as nat) {
                lemma_encoding_facts(bytes@, u_len as nat);
            }
        }
        return Err(DecodeError);
    }
    let p: usize = u_len + 32;
    let (wlen, end) = match read_uvarint(bytes, p) {
        Some(x) => x,
        None => {
            proof {
                if is_wire_encoding(bytes@, u_len as nat) {
                    lemma_encoding_facts(bytes@, u_len as nat);
                }
            }
            return Err(DecodeError);
        },
    };
    assert(starts_with_uvarint(bytes@.subrange(p as int, n as int), wlen as nat)) by {
        assert(bytes@.subrange(p as int, n as int).subrange(0, end - p) =~= bytes@.subrange(
            p as int,
            end as int,
        ));
    }
    if end == n || (n - end - 1) as u64 != wlen {
        proof {
            if is_wire_encoding(bytes@, u_len as nat) {
                let w_len = lemma_encoding_facts(bytes@, u_len as nat);
                lemma_uvarint_prefix_unique(bytes@.subrange(p as int, n as int), wlen as nat, w_len);
            }
        }
        return Err(DecodeError);
    }
    let scheme = match SignatureSchemes::from_tag(bytes[n - 1]) {
        Some(s) => s,
        None => {
            proof {
                if is_wire_encoding(bytes@, u_len as nat) {
                    lemma_encoding_facts(bytes@, u_len as nat);
                }
            }
            return Err(DecodeError);
        },
    };
    let u = copy_range(bytes, 0, u_len);
    let v = copy_array32(bytes, u_len);
    let w = copy_range(bytes, end, n - 1);
    assert(bytes@ =~= wire_bytes(u@, v@, w@, scheme));
    Ok(WireFields { u, v, w, scheme })
}

/// Two encodings of fields whose public keys have one width agree only
/// where the fields agree.
pub proof fn lemma_wire_bytes_injective(
    u1: Seq<u8>,
    v1: Seq<u8>,
    w1: Seq<u8>,
    s1: SignatureSchemes,
    u2: Seq<u8>,
    v2: Seq<u8>,
    w2: Seq<u8>,
    s2: SignatureSchemes,
)
    requires
        u1.len() == u2.len(),
        v1.len() == 32,
        v2.len() == 32,
        wire_bytes(u1, v1, w1, s1) == wire_bytes(u2, v2, w2, s2),
    ensures
        u1 == u2,
        v1 == v2,
        w1 == w2,
        s1 == s2,
{
    let b = wire_bytes(u1, v1, w1, s1);
    let p = u1.len() + 32int;
    lemma_wire_layout(u1, v1, w1, s1);
    lemma_wire_layout(u2, v2, w2, s2);
    lemma_uvarint_prefix_unique(b.subrange(p, b.len() as int), w1.len(), w2.len());
    crate::scheme::lemma_scheme_tag_inverse(s1);
    crate::scheme::lemma_scheme_tag_inverse(s2);
}

/// Round trip: the encoding of any fields is accepted by the decoder, and
/// the fields it gives back, whose public key has the width of `u`, are
/// exactly the fields that were encoded.
pub proof fn lemma_round_trip(u: Seq<u8>, v: Seq<u8>, w: Seq<u8>, s: SignatureSchemes)
    requires
        v.len() == 32,
        w.len() <= u64::MAX,
    ensures
        is_wire_encoding(wire_bytes(u, v, w, s), u.len()),
        forall|u2: Seq<u8>, v2: Seq<u8>, w2: Seq<u8>, s2: SignatureSchemes|
            u2.len() == u.len() && v2.len() == 32 && #[trigger] wire_bytes(u2, v2, w2, s2)
                == wire_bytes(u, v, w, s) ==> u2 == u && v2 == v && w2 == w && s2 == s,
{
    assert forall|u2: Seq<u8>, v2: Seq<u8>, w2: Seq<u8>, s2: SignatureSchemes|
        u2.len() == u.len() && v2.len() == 32 && #[trigger] wire_bytes(u2, v2, w2, s2)
            == wire_bytes(u, v, w, s) implies u2 == u && v2 == v && w2 == w && s2 == s by {
        lemma_wire_bytes_injective(u, v, w, s, u2, v2, w2, s2);
    }
}

/// The format delimits itself: where one encoding begins another, with
/// public keys of one width, the two are the same length.
pub proof fn lemma_prefix_free(
    u: Seq<u8>,
    v: Seq<u8>,
    w: Seq<u8>,
    s: SignatureSchemes,
    u2: Seq<u8>,
    v2: Seq<u8>,
    w2: Seq<u8>,
    s2: SignatureSchemes,
)
    requires
        u2.len() == u.len(),
        v.len() == 32,
        v2.len() == 32,
        wire_bytes(u2, v2, w2, s2).len() <= wire_bytes(u, v, w, s).len(),
        wire_bytes(u, v, w, s).subrange(0, wire_bytes(u2, v2, w2, s2).len() as int) == wire_bytes(
            u2,
            v2,
            w2,
            s2,
        ),
    ensures
        wire_bytes(u2, v2, w2, s2).len() == wire_bytes(u, v, w, s).len(),
{
    let b = wire_bytes(u, v, w, s);
    let t = wire_bytes(u2, v2, w2, s2);
    let p = u.len() + 32int;
    lemma_wire_layout(u, v, w, s);
    lemma_wire_layout(u2, v2, w2, s2);
    let e2 = uvarint(w2.len());
    assert(starts_with_uvarint(b.subrange(p, b.len() as int), w2.len())) by {
        assert(t.subrange(p, t.len() as int).subrange(0, e2.len() as int) =~= b.subrange(
            p,
            b.len() as int,
        ).subrange(0, e2.len() as int));
    }
    lemma_uvarint_prefix_unique(b.subrange(p, b.len() as int), w.len(), w2.len());
}

/// No proper prefix of an encoding is itself an encoding: dropping bytes
/// from the end of valid input always gives input that the decoder refuses.
pub proof fn lemma_truncated_rejected(
    u: Seq<u8>,
    v: Seq<u8>,
    w: Seq<u8>,
    s: SignatureSchemes,
    k: int,
)
    requires
        v.len() == 32,
        0 <= k < wire_bytes(u, v, w, s).len(),
    ensures
        !is_wire_encoding(wire_bytes(u, v, w, s).subrange(0, k), u.len()),
{
    let t = wire_bytes(u, v, w, s).subrange(0, k);
    if is_wire_encoding(t, u.len()) {
        let (u2, v2, w2, s2) = choose|u2: Seq<u8>, v2: Seq<u8>, w2: Seq<u8>, s2: SignatureSchemes|
            u2.len() == u.len() && v2.len() == 32 && w2.len() <= u64::MAX && t
                == #[trigger] wire_bytes(u2, v2, w2, s2);
        lemma_prefix_free(u, v, w, s, u2, v2, w2, s2);
    }
}

/// An encoding followed by more bytes is no encoding: the decoder refuses
/// trailing input.
pub proof fn lemma_trailing_rejected(
    u: Seq<u8>,
    v: Seq<u8>,
    w: Seq<u8>,
    s: SignatureSchemes,
    extra: Seq<u8>,
)
    requires
        v.len() == 32,
        extra.len() >= 1,
    ensures
        !is_wire_encoding(wire_bytes(u, v, w, s) + extra, u.len()),
{
    let b = wire_bytes(u, v, w, s);
    let t = b + extra;
    if is_wire_encoding(t, u.len()) {
        let (u2, v2, w2, s2) = choose|u2: Seq<u8>, v2: Seq<u8>, w2: Seq<u8>, s2: SignatureSchemes|
            u2.len() == u.len() && v2.len() == 32 && w2.len() <= u64::MAX && t
                == #[trigger] wire_bytes(u2, v2, w2, s2);
        assert(t.subrange(0, b.len() as int) =~= b);
        lemma_prefix_free(u2, v2, w2, s2, u, v, w, s);
    }
}

/// Encoding is a function of the fields alone: equal fields give
/// byte-identical encodings, whatever their payload, the empty one included.
pub proof fn lemma_encoding_deterministic(
    u1: Seq<u8>,
    v1: Seq<u8>,
    w1: Seq<u8>,
    s1: SignatureSchemes,
    u2: Seq<u8>,
    v2: Seq<u8>,
    w2: Seq<u8>,
    s2: SignatureSchemes,
)
    requires
        u1 == u2,
        v1 == v2,
        w1 == w2,
        s1 == s2,
    ensures
        wire_bytes(u1, v1, w1, s1) == wire_bytes(u2, v2, w2, s2),
{
}

} // verus!
