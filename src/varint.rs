//! Unsigned LEB128 integers, the length prefix of variable-length fields.
use vstd::prelude::*;

verus! {

/// The canonical encoding of `n`: seven bits per byte, least significant
/// group first, the high bit set on every byte but the last.
pub open spec fn uvarint(n: nat) -> Seq<u8>
    decreases n,
{
    if n < 128 {
        seq![n as u8]
    } else {
        seq![(n % 128 + 128) as u8] + uvarint(n / 128)
    }
}

/// `n` with its lowest `7 * j` bits shifted out.
pub open spec fn shift7(n: nat, j: nat) -> nat
    decreases j,
{
    if j == 0 {
        n
    } else {
        shift7(n / 128, (j - 1) as nat)
    }
}

/// `s` begins with the encoding of `n`.
pub open spec fn starts_with_uvarint(s: Seq<u8>, n: nat) -> bool {
    uvarint(n).len() <= s.len() && s.subrange(0, uvarint(n).len() as int) == uvarint(n)
}

/// An encoding ends at its first byte below 128, and only a one-byte
/// encoding ends in a zero byte.
pub proof fn lemma_uvarint_shape(n: nat)
    ensures
        uvarint(n).len() >= 1,
        uvarint(n)[uvarint(n).len() - 1] < 128,
        forall|i: int| 0 <= i < uvarint(n).len() - 1 ==> uvarint(n)[i] >= 128,
        uvarint(n).len() > 1 ==> uvarint(n)[uvarint(n).len() - 1] != 0,
        uvarint(n).len() > 1 <==> n >= 128,
    decreases n,
{
    if n >= 128 {
        lemma_uvarint_shape(n / 128);
        let t = uvarint(n / 128);
        assert(uvarint(n) == seq![(n % 128 + 128) as u8] + t);
        assert forall|i: int| 0 <= i < uvarint(n).len() - 1 implies uvarint(n)[i] >= 128 by {
            if i > 0 {
                assert(uvarint(n)[i] == t[i - 1]);
            }
        }
    }
}

/// Distinct numbers have distinct encodings.
pub proof fn lemma_uvarint_injective(a: nat, b: nat)
    requires
        uvarint(a) == uvarint(b),
    ensures
        a == b,
    decreases a,
{
    lemma_uvarint_shape(a);
    lemma_uvarint_shape(b);
    if a >= 128 {
        assert(uvarint(a)[0] == uvarint(b)[0]);
        assert(uvarint(a).drop_first() == uvarint(a / 128));
        assert(uvarint(b).drop_first() == uvarint(b / 128));
        lemma_uvarint_injective(a / 128, b / 128);
        assert(a == 128 * (a / 128) + a % 128);
        assert(b == 128 * (b / 128) + b % 128);
    } else {
        assert(uvarint(a)[0] == a as u8);
        assert(uvarint(b)[0] == b as u8);
    }
}

/// At most one number's encoding begins a byte sequence.
pub proof fn lemma_uvarint_prefix_unique(s: Seq<u8>, a: nat, b: nat)
    requires
        starts_with_uvarint(s, a),
        starts_with_uvarint(s, b),
    ensures
        a == b,
{
    lemma_uvarint_shape(a);
    lemma_uvarint_shape(b);
    let ea = uvarint(a);
    let eb = uvarint(b);
    assert(ea.len() == eb.len()) by {
        if ea.len() < eb.len() {
            assert(ea[ea.len() - 1] == s[ea.len() - 1]);
            assert(eb[ea.len() - 1] == s[ea.len() - 1]);
        } else if ea.len() > eb.len() {
            assert(ea[eb.len() - 1] == s[eb.len() - 1]);
            assert(eb[eb.len() - 1] == s[eb.len() - 1]);
        }
    }
    lemma_uvarint_injective(a, b);
}

/// Shifting once more divides by 128.
pub proof fn lemma_shift7_step(n: nat, j: nat)
    ensures
        shift7(n, j + 1) == shift7(n, j) / 128,
        shift7(n, j) <= n,
    decreases j,
{
    assert(shift7(n, j + 1) == shift7(n / 128, j));
    if j > 0 {
        lemma_shift7_step(n / 128, (j - 1) as nat);
        assert(shift7(n, j) == shift7(n / 128, (j - 1) as nat));
    } else {
        assert(shift7(n / 128, 0) == n / 128);
    }
}

/// What follows the first `j` bytes of an encoding encodes `n` shifted by `j`.
pub proof fn lemma_uvarint_suffix(n: nat, j: nat)
    requires
        j < uvarint(n).len(),
    ensures
        uvarint(n).subrange(j as int, uvarint(n).len() as int) == uvarint(shift7(n, j)),
    decreases j,
{
    if j > 0 {
        lemma_uvarint_shape(n);
        assert(n >= 128);
        let t = uvarint(n / 128);
        assert(uvarint(n) == seq![(n % 128 + 128) as u8] + t);
        lemma_uvarint_suffix(n / 128, (j - 1) as nat);
        assert(uvarint(n).subrange(j as int, uvarint(n).len() as int) =~= t.subrange(
            j - 1,
            t.len() as int,
        ));
    } else {
        assert(uvarint(n).subrange(0, uvarint(n).len() as int) =~= uvarint(n));
    }
}

/// Appends the encoding of `n` to `out`.
pub fn write_uvarint(out: &mut Vec<u8>, n: u64)
    ensures
        final(out)@ == old(out)@ + uvarint(n as nat),
{
    let mut x: u64 = n;
    while x >= 128
        invariant
            out@ + uvarint(x as nat) == old(out)@ + uvarint(n as nat),
        decreases x,
    {
        let ghost before = out@;
        out.push((x % 128 + 128) as u8);
        assert(uvarint(x as nat) == seq![(x % 128 + 128) as u8] + uvarint((x / 128) as nat));
        assert(out@ + uvarint((x / 128) as nat) =~= before + uvarint(x as nat));
        x = x / 128;
    }
    let ghost before = out@;
    out.push(x as u8);
    assert(out@ =~= before + uvarint(x as nat));
}

/// Reads the encoding of a `u64` that starts at `pos`, giving the number
/// and the position just after it. `None` where no such encoding starts
/// there: no byte below 128 ends it, it is not the shortest form, or the
/// number exceeds `u64::MAX`.
pub fn read_uvarint(bytes: &[u8], pos: usize) -> (r: Option<(u64, usize)>)
    requires
        pos <= bytes@.len(),
    ensures
        match r {
            Some((n, end)) => pos < end <= bytes@.len() && bytes@.subrange(pos as int, end as int)
                == uvarint(n as nat),
            None => forall|n: nat|
                n <= u64::MAX ==> !starts_with_uvarint(
                    #[trigger] bytes@.subrange(pos as int, bytes@.len() as int),
                    n,
                ),
        },
{
    let ghost rest = bytes@.subrange(pos as int, bytes@.len() as int);
    // the first byte without the continuation bit ends the encoding
    let mut k: usize = pos;
    while k < bytes.len() && bytes[k] >= 128
        invariant
            pos <= k <= bytes@.len(),
            forall|i: int| pos <= i < k ==> bytes@[i] >= 128,
        decreases bytes@.len() - k,
    {
        k = k + 1;
    }
    if k == bytes.len() {
        assert forall|n: nat| n <= u64::MAX implies !starts_with_uvarint(rest, n) by {
            lemma_uvarint_shape(n);
            if starts_with_uvarint(rest, n) {
                let l = uvarint(n).len() as int;
                assert(bytes@[pos + l - 1] == uvarint(n)[l - 1]);
            }
        }
        return None;
    }
    // the last byte of a longer encoding is never zero
    if k > pos && bytes[k] == 0 {
        assert forall|n: nat| n <= u64::MAX implies !starts_with_uvarint(rest, n) by {
            lemma_uvarint_shape(n);
            if starts_with_uvarint(rest, n) {
                let l = uvarint(n).len() as int;
                assert(bytes@[pos + l - 1] == uvarint(n)[l - 1]);
                if pos + l - 1 < k {
                } else if pos + l - 1 > k {
                    assert(uvarint(n)[k - pos] == bytes@[k as int]);
                }
            }
        }
        return None;
    }
    let mut x: u64 = bytes[k] as u64;
    let mut i: usize = k;
    assert(bytes@.subrange(k as int, k + 1) =~= uvarint(x as nat));
    while i > pos
        invariant
            pos <= i <= k < bytes@.len(),
            forall|j: int| pos <= j < k ==> bytes@[j] >= 128,
            bytes@[k as int] < 128,
            rest == bytes@.subrange(pos as int, bytes@.len() as int),
            k > pos ==> bytes@[k as int] != 0,
            x >= 1 || i == k,
            bytes@.subrange(i as int, k + 1) == uvarint(x as nat),
        decreases i,
    {
        let d: u64 = (bytes[i - 1] - 128) as u64;
        if x > (u64::MAX - d) / 128 {
            proof {
                assert forall|n: nat| n <= u64::MAX implies !starts_with_uvarint(rest, n) by {
                    if starts_with_uvarint(rest, n) {
                        lemma_read_uvarint_overflow(bytes@, pos as int, k as int, i as int, n, x as nat);
                    }
                }
            }
            return None;
        }
        let ghost old_x = x;
        x = x * 128 + d;
        i = i - 1;
        proof {
            assert(old_x >= 1) by {
                if i + 1 == k {
                    lemma_uvarint_shape(old_x as nat);
                    assert(uvarint(old_x as nat)[0] == bytes@[k as int]);
                    assert(uvarint(old_x as nat)[0] == old_x as u8);
                }
            }
            assert(x >= 128);
            assert(x % 128 == d && x / 128 == old_x);
            assert(uvarint(x as nat) == seq![(x % 128 + 128) as u8] + uvarint(old_x as nat));
            assert(bytes@.subrange(i as int, k + 1) =~= seq![bytes@[i as int]]
                + bytes@.subrange(i + 1, k + 1));
        }
    }
    Some((x, k + 1))
}

/// Where an encoding of `n` starts at `pos` and ends at `k`, the number
/// read back from `i` on, `x`, takes one more byte without leaving `u64`.
proof fn lemma_read_uvarint_overflow(s: Seq<u8>, pos: int, k: int, i: int, n: nat, x: nat)
    requires
        0 <= pos < i <= k < s.len(),
        forall|j: int| pos <= j < k ==> s[j] >= 128,
        s[k] < 128,
        starts_with_uvarint(s.subrange(pos, s.len() as int), n),
        s.subrange(i, k + 1) == uvarint(x),
        n <= u64::MAX,
    ensures
        x * 128 + (s[i - 1] - 128) <= u64::MAX,
{
    lemma_uvarint_shape(n);
    let e = uvarint(n);
    let l = e.len() as int;
    assert(s.subrange(pos, s.len() as int).subrange(0, l) == e);
    assert(pos + l - 1 == k) by {
        assert(e[l - 1] == s[pos + l - 1]);
        if pos + l - 1 < k {
        } else if pos + l - 1 > k {
            assert(e[k - pos] == s[k]);
        }
    }
    assert(e =~= s.subrange(pos, k + 1));
    lemma_uvarint_suffix(n, (i - pos) as nat);
    lemma_uvarint_suffix(n, (i - 1 - pos) as nat);
    assert(e.subrange(i - pos, l) =~= s.subrange(i, k + 1));
    assert(e.subrange(i - 1 - pos, l) =~= s.subrange(i - 1, k + 1));
    let m = shift7(n, (i - 1 - pos) as nat);
    lemma_uvarint_injective(x, shift7(n, (i - pos) as nat));
    lemma_shift7_step(n, (i - 1 - pos) as nat);
    lemma_uvarint_shape(m);
    assert(uvarint(m).len() > 1);
    assert(m >= 128);
    assert(uvarint(m)[0] == s[i - 1]);
    assert(uvarint(m) == seq![(m % 128 + 128) as u8] + uvarint(m / 128));
    assert(s[i - 1] - 128 == m % 128);
    assert(x == m / 128);
    assert(x * 128 + m % 128 == m);
}

} // verus!
