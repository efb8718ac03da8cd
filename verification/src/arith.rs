//! Modular arithmetic for the protocol's group operations.
//!
//! Every group operation in the protocol routes through [`mod_pow`] and
//! [`mul_mod`], so every intermediate value is reduced into `[0, m)` and
//! nothing grows without bound.

use vstd::prelude::*;

verus! {

use vstd::arithmetic::power::{
    pow,
    lemma_pow0,
    lemma_pow_multiplies,
    lemma_pow_mod_noop,
};
use vstd::arithmetic::div_mod::{
    lemma_small_mod,
    lemma_sub_mod_noop,
    lemma_mod_add_multiples_vanish,
};

/// `b` to the power `e`, reduced into `[0, m)`.
///
/// This is the mathematical meaning of every exponentiation in the
/// protocol; `m` is always the group modulus `q`.
pub open spec fn pow_mod(b: nat, e: nat, m: nat) -> nat
    recommends
        m > 0,
{
    (pow(b as int, e) % (m as int)) as nat
}

/// `(a * b) % m`, computed without overflow through 128-bit intermediates.
pub fn mul_mod(a: u64, b: u64, m: u64) -> (r: u64)
    requires
        m > 0,
    ensures
        r == (a as int * b as int) % (m as int),
        r < m,
{
    proof {
        assert((a as int) * (b as int) < 0x100000000000000000000000000000000) by (nonlinear_arith)
            requires
                a <= 0xffffffffffffffff,
                b <= 0xffffffffffffffff,
        ;
    }
    (((a as u128) * (b as u128)) % (m as u128)) as u64
}

/// `base` to the power `e` modulo `m`, by square-and-multiply.
///
/// This is the single path for all group exponentiation: commitments,
/// login commitments, and the verification equation all call it.
pub fn mod_pow(base: u64, e: u64, m: u64) -> (r: u64)
    requires
        m > 0,
    ensures
        r == pow_mod(base as nat, e as nat, m as nat),
        r < m,
    decreases e,
{
    if e == 0 {
        proof {
            lemma_pow0(base as int);
        }
        1 % m
    } else if e % 2 == 0 {
        let sq = mul_mod(base, base, m);
        let r = mod_pow(sq, e / 2, m);
        proof {
            lemma_pow_mod_noop((base as int) * (base as int), (e / 2) as nat, m as int);
            lemma_pow_multiplies(base as int, 2, (e / 2) as nat);
            assert(pow(base as int, 2) == (base as int) * (base as int)) by {
                vstd::arithmetic::power::lemma_square_is_pow2(base as int);
            }
            assert(2 * ((e / 2) as nat) == e as nat);
        }
        r
    } else {
        let rest = mod_pow(base, e - 1, m);
        let r = mul_mod(base % m, rest, m);
        proof {
            let b = base as int;
            let mi = m as int;
            vstd::arithmetic::div_mod::lemma_mul_mod_noop(b, pow(b, (e - 1) as nat), mi);
            assert(pow(b, e as nat) == b * pow(b, (e - 1) as nat)) by {
                reveal(pow);
            }
        }
        r
    }
}

/// The prover's response `s = (k - c * x) mod q`, normalized into `[0, q)`.
pub fn response(k: u64, c: u64, x: u64, q: u64) -> (s: u64)
    requires
        q > 0,
        k < q,
    ensures
        s == (k as int - c as int * x as int) % (q as int),
        s < q,
{
    let cx = mul_mod(c, x, q);
    proof {
        lemma_sub_mod_noop(k as int, c as int * x as int, q as int);
        lemma_small_mod(k as nat, q as nat);
    }
    if k >= cx {
        proof {
            lemma_small_mod((k - cx) as nat, q as nat);
        }
        k - cx
    } else {
        proof {
            lemma_mod_add_multiples_vanish(k as int - cx as int, q as int);
            lemma_small_mod((k + q - cx) as nat, q as nat);
        }
        k + (q - cx)
    }
}

} // verus!
