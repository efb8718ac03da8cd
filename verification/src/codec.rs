//! The wire encoding of group elements: signed big-endian byte sequences,
//! as the transport carries them. The encoding is canonical — every value
//! has exactly one accepted byte form — and the decoder rejects anything
//! else as malformed instead of silently truncating.

use vstd::prelude::*;

verus! {

use vstd::arithmetic::power::{pow, lemma_pow_increases};
use crate::errors::ZkpError;

/// The unsigned big-endian value of a byte sequence.
pub open spec fn be_value(s: Seq<u8>) -> nat
    decreases s.len(),
{
    if s.len() == 0 {
        0
    } else {
        (be_value(s.drop_last()) * 256 + s.last()) as nat
    }
}

/// The canonical signed big-endian form of a non-negative value: at least
/// one byte, the sign bit of the first byte clear, and no redundant
/// leading zero byte.
pub open spec fn canonical(s: Seq<u8>) -> bool {
    &&& s.len() >= 1
    &&& s[0] < 0x80
    &&& (s.len() == 1 || !(s[0] == 0 && s[1] < 0x80))
}

/// A byte sequence is a well-formed group element encoding for modulus
/// `q` when it is canonical and its value lies in `[0, q)`.
pub open spec fn encodes_element(s: Seq<u8>, q: nat) -> bool {
    canonical(s) && be_value(s) < q
}

/// Appending a byte multiplies the value by 256 and adds the byte.
proof fn lemma_be_value_push(s: Seq<u8>, x: u8)
    ensures
        be_value(s.push(x)) == be_value(s) * 256 + x,
{
    assert(s.push(x).drop_last() =~= s);
    assert(s.push(x).last() == x);
}

/// A prefix step: the value of one more byte of `s`.
proof fn lemma_be_value_take(s: Seq<u8>, i: int)
    requires
        0 <= i < s.len(),
    ensures
        be_value(s.take(i + 1)) == be_value(s.take(i)) * 256 + s[i],
{
    assert(s.take(i + 1).drop_last() =~= s.take(i));
    assert(s.take(i + 1).last() == s[i]);
}

/// The leading byte gives a lower bound on the value.
proof fn lemma_be_value_lower(s: Seq<u8>)
    requires
        s.len() >= 1,
    ensures
        be_value(s) >= s[0] * pow(256, (s.len() - 1) as nat),
    decreases s.len(),
{
    reveal(pow);
    if s.len() == 1 {
        assert(be_value(s) == be_value(s.drop_last()) * 256 + s.last());
    } else {
        lemma_be_value_lower(s.drop_last());
        assert(s.drop_last()[0] == s[0]);
        assert(be_value(s.drop_last()) * 256 >= (s[0] * pow(256, (s.len() - 2) as nat)) * 256)
            by (nonlinear_arith)
            requires
                be_value(s.drop_last()) >= s[0] * pow(256, (s.len() - 2) as nat),
        ;
        assert((s[0] * pow(256, (s.len() - 2) as nat)) * 256 == s[0] * pow(256, (s.len() - 1) as nat))
            by (nonlinear_arith)
            requires
                pow(256, (s.len() - 1) as nat) == 256 * pow(256, (s.len() - 2) as nat),
        ;
    }
}

/// A leading zero byte does not change the value.
proof fn lemma_be_value_skip_zero(s: Seq<u8>)
    requires
        s.len() >= 1,
        s[0] == 0,
    ensures
        be_value(s) == be_value(s.subrange(1, s.len() as int)),
    decreases s.len(),
{
    if s.len() == 1 {
        assert(be_value(s) == be_value(s.drop_last()) * 256 + s.last());
        assert(s.subrange(1, 1) =~= Seq::<u8>::empty());
    } else {
        lemma_be_value_skip_zero(s.drop_last());
        assert(s.drop_last().subrange(1, s.len() - 1) =~= s.subrange(1, s.len() as int).drop_last());
        assert(s.subrange(1, s.len() as int).last() == s.last());
    }
}

/// `256^8` written out, so that bounds on eight-byte values are literal.
proof fn lemma_pow256_8()
    ensures
        pow(256, 8) == 0x10000000000000000,
{
    reveal_with_fuel(pow, 9);
}

/// Minimal unsigned big-endian bytes of `v`: empty for zero, otherwise
/// with a nonzero leading byte.
fn encode_raw(v: u64) -> (b: Vec<u8>)
    ensures
        be_value(b@) == v as nat,
        (v as nat) < pow(256, b@.len()),
        v > 0 ==> b@.len() >= 1 && b@[0] != 0,
        v == 0 ==> b@.len() == 0,
    decreases v,
{
    if v == 0 {
        proof {
            reveal(pow);
        }
        Vec::new()
    } else {
        let mut b = encode_raw(v / 256);
        proof {
            lemma_be_value_push(b@, (v % 256) as u8);
            reveal(pow);
            assert((v / 256) as nat * 256 + (v % 256) < pow(256, b@.len()) * 256)
                by (nonlinear_arith)
                requires
                    ((v / 256) as nat) < pow(256, b@.len()),
                    0 <= v % 256 < 256,
            ;
        }
        b.push((v % 256) as u8);
        b
    }
}

/// Encode `v` in the canonical signed big-endian form.
pub fn encode_be(v: u64) -> (b: Vec<u8>)
    ensures
        canonical(b@),
        be_value(b@) == v as nat,
{
    let raw = encode_raw(v);
    if raw.len() == 0 {
        let mut b: Vec<u8> = Vec::new();
        b.push(0u8);
        proof {
            lemma_be_value_push(Seq::<u8>::empty(), 0u8);
        }
        b
    } else if raw[0] < 0x80 {
        raw
    } else {
        let mut b: Vec<u8> = Vec::new();
        b.push(0u8);
        let mut i: usize = 0;
        while i < raw.len()
            invariant
                i <= raw.len(),
                b@.len() == i + 1,
                b@[0] == 0,
                b@ =~= seq![0u8].add(raw@.take(i as int)),
            decreases raw.len() - i,
        {
            b.push(raw[i]);
            proof {
                assert(seq![0u8].add(raw@.take(i as int)).push(raw@[i as int]) =~= seq![0u8].add(
                    raw@.take(i + 1),
                ));
            }
            i += 1;
        }
        proof {
            assert(raw@.take(raw.len() as int) =~= raw@);
            assert(b@.subrange(1, b@.len() as int) =~= raw@);
            lemma_be_value_skip_zero(b@);
            assert(b@[1] == raw@[0]);
        }
        b
    }
}

/// Decode a canonical signed big-endian byte sequence into a value that
/// fits a machine word. Returns `MalformedInput` — and decodes nothing —
/// exactly when the bytes are empty, carry a set sign bit, carry a
/// redundant leading zero, or hold a value too large for a word.
pub fn decode_be(bytes: &Vec<u8>) -> (r: Result<u64, ZkpError>)
    ensures
        match r {
            Ok(v) => canonical(bytes@) && v as nat == be_value(bytes@),
            Err(e) => {
                &&& e == ZkpError::MalformedInput
                &&& !(canonical(bytes@) && be_value(bytes@) <= u64::MAX)
            },
        },
{
    let n = bytes.len();
    if n == 0 {
        return Err(ZkpError::MalformedInput);
    }
    if bytes[0] >= 0x80 {
        return Err(ZkpError::MalformedInput);
    }
    if n >= 2 && bytes[0] == 0 && bytes[1] < 0x80 {
        return Err(ZkpError::MalformedInput);
    }
    // canonical from here on; reject values that cannot fit eight bytes
    if n > 9 || (n == 9 && bytes[0] != 0) {
        proof {
            lemma_pow256_8();
            reveal(pow);
            if bytes@[0] == 0 {
                // then n > 9 and the second byte carries the sign guard
                lemma_be_value_skip_zero(bytes@);
                let t = bytes@.subrange(1, n as int);
                lemma_be_value_lower(t);
                assert(t[0] >= 0x80);
                lemma_pow_increases(256, 8, (n - 2) as nat);
                assert(t[0] * pow(256, (n - 2) as nat) >= 0x80 * pow(256, 8))
                    by (nonlinear_arith)
                    requires
                        t[0] >= 0x80,
                        pow(256, (n - 2) as nat) >= pow(256, 8) > 0,
                ;
            } else {
                lemma_be_value_lower(bytes@);
                lemma_pow_increases(256, 8, (n - 1) as nat);
                assert(bytes@[0] * pow(256, (n - 1) as nat) >= 1 * pow(256, 8))
                    by (nonlinear_arith)
                    requires
                        bytes@[0] >= 1,
                        pow(256, (n - 1) as nat) >= pow(256, 8) > 0,
                ;
            }
        }
        return Err(ZkpError::MalformedInput);
    }
    let start: usize = if n == 9 { 1 } else { 0 };
    let mut v: u64 = 0;
    let mut i: usize = start;
    proof {
        if start == 1 {
            assert(bytes@.take(1) =~= seq![bytes@[0]]);
            assert(be_value(seq![bytes@[0]].drop_last()) == 0);
            assert(be_value(bytes@.take(1)) == 0);
        }
        assert(be_value(bytes@.take(0)) == 0);
        reveal(pow);
    }
    while i < n
        invariant
            start <= i <= n,
            n == bytes@.len(),
            n <= 9,
            start == (if n == 9 { 1int } else { 0int }),
            v as nat == be_value(bytes@.take(i as int)),
            (v as nat) < pow(256, (i - start) as nat),
        decreases n - i,
    {
        proof {
            lemma_be_value_take(bytes@, i as int);
            lemma_pow_increases(256, (i - start) as nat, 7);
            lemma_pow256_8();
            reveal(pow);
            assert(pow(256, 7) * 256 == pow(256, 8));
            assert(v as nat * 256 + bytes@[i as int] < pow(256, ((i - start) + 1) as nat))
                by (nonlinear_arith)
                requires
                    (v as nat) < pow(256, (i - start) as nat),
                    bytes@[i as int] < 256,
                    pow(256, ((i - start) + 1) as nat) == pow(256, (i - start) as nat) * 256,
            ;
        }
        v = v * 256 + (bytes[i] as u64);
        i += 1;
    }
    proof {
        assert(bytes@.take(n as int) =~= bytes@);
    }
    Ok(v)
}


/// Dropping the last byte of a canonical sequence of two or more bytes
/// leaves a canonical sequence.
proof fn lemma_canonical_drop_last(s: Seq<u8>)
    requires
        canonical(s),
        s.len() >= 2,
    ensures
        canonical(s.drop_last()),
{
}

/// A canonical sequence of two or more bytes carries a value of at
/// least 128: a smaller value has the single-byte form.
proof fn lemma_canonical_long_value(b: Seq<u8>)
    requires
        canonical(b),
        b.len() >= 2,
    ensures
        be_value(b) >= 128,
{
    if b[0] == 0 {
        // the byte after a leading zero carries a set sign bit
        lemma_be_value_skip_zero(b);
        let t = b.subrange(1, b.len() as int);
        lemma_be_value_lower(t);
        vstd::arithmetic::power::lemma_pow_positive(256, (t.len() - 1) as nat);
        assert(t[0] * pow(256, (t.len() - 1) as nat) >= 128) by (nonlinear_arith)
            requires
                t[0] >= 128,
                pow(256, (t.len() - 1) as nat) >= 1,
        ;
    } else {
        lemma_be_value_lower(b);
        vstd::arithmetic::power::lemma_pow_increases(256, 1, (b.len() - 1) as nat);
        assert(pow(256, 1) == 256) by {
            reveal_with_fuel(pow, 2);
        }
        assert(b[0] * pow(256, (b.len() - 1) as nat) >= 256) by (nonlinear_arith)
            requires
                b[0] >= 1,
                pow(256, (b.len() - 1) as nat) >= 256,
        ;
    }
}

/// The encoding is canonical in the strict sense: two canonical byte
/// sequences carrying the same value are the same bytes, so every value
/// has exactly one accepted wire form.
pub proof fn lemma_canonical_unique(a: Seq<u8>, b: Seq<u8>)
    requires
        canonical(a),
        canonical(b),
        be_value(a) == be_value(b),
    ensures
        a == b,
    decreases a.len() + b.len(),
{
    if a.len() == 1 && b.len() == 1 {
        assert(be_value(a) == be_value(a.drop_last()) * 256 + a.last());
        assert(be_value(b) == be_value(b.drop_last()) * 256 + b.last());
        assert(a =~= b);
    } else if a.len() == 1 {
        // a single byte holds less than 128, a longer form at least 128
        assert(be_value(a) == be_value(a.drop_last()) * 256 + a.last());
        lemma_canonical_long_value(b);
    } else if b.len() == 1 {
        assert(be_value(b) == be_value(b.drop_last()) * 256 + b.last());
        lemma_canonical_long_value(a);
    } else {
        assert(be_value(a) == be_value(a.drop_last()) * 256 + a.last());
        assert(be_value(b) == be_value(b.drop_last()) * 256 + b.last());
        assert(a.last() == b.last() && be_value(a.drop_last()) == be_value(b.drop_last()))
            by (nonlinear_arith)
            requires
                be_value(a.drop_last()) * 256 + a.last() == be_value(b.drop_last()) * 256
                    + b.last(),
                0 <= a.last() < 256,
                0 <= b.last() < 256,
        ;
        lemma_canonical_drop_last(a);
        lemma_canonical_drop_last(b);
        lemma_canonical_unique(a.drop_last(), b.drop_last());
        assert(a.len() == b.len());
        assert forall|i: int| 0 <= i < a.len() implies a[i] == b[i] by {
            if i < a.len() - 1 {
                assert(a[i] == a.drop_last()[i]);
                assert(b[i] == b.drop_last()[i]);
            } else {
                assert(a[i] == a.last());
                assert(b[i] == b.last());
            }
        }
        assert(a =~= b);
    }
}

} // verus!
