//! The Chaum-Pedersen protocol itself: group parameters, the prover's
//! commitments and response, the verifier's equation, and the proofs that
//! tie them together (an honest prover is always accepted; under injective
//! exponentiation only the honest response is accepted).

use vstd::prelude::*;

verus! {

use vstd::arithmetic::power::{
    pow,
    lemma1_pow,
    lemma_pow_adds,
    lemma_pow_multiplies,
    lemma_pow_mod_noop,
};
use vstd::arithmetic::div_mod::{
    lemma_small_mod,
    lemma_fundamental_div_mod,
    lemma_add_mod_noop_right,
    lemma_mod_division_less_than_divisor,
    lemma_mul_mod_noop,
    lemma_mul_mod_noop_left,
};
use crate::arith::{pow_mod, mod_pow, mul_mod, response};

/// The shared public description of the group: two generators and the
/// modulus. Fixed for the lifetime of a deployment.
#[derive(Clone, Copy, PartialEq, Eq, Structural, Debug)]
pub struct GroupParams {
    pub g: u64,
    pub h: u64,
    pub q: u64,
}

/// Structural validity: the modulus admits a nontrivial group and neither
/// generator is the group identity (a generator equal to 0 or 1 collapses
/// exponentiation to a constant and destroys soundness).
pub open spec fn params_valid(p: GroupParams) -> bool {
    &&& p.q > 1
    &&& 1 < p.g < p.q
    &&& 1 < p.h < p.q
}

/// The order of `gen` divides `q`: `gen^q ≡ 1 (mod q)`. Exponent
/// arithmetic modulo `q` is then sound for powers of `gen`.
pub open spec fn order_divides(gen: nat, q: nat) -> bool {
    pow_mod(gen, q, q) == 1
}

/// Full validity of a deployment's parameters: structurally valid, and
/// both generators generate a subgroup whose order divides `q`. This is
/// what completeness of the protocol rests on.
pub open spec fn generators_valid(p: GroupParams) -> bool {
    &&& params_valid(p)
    &&& order_divides(p.g as nat, p.q as nat)
    &&& order_divides(p.h as nat, p.q as nat)
}

/// The verifier's equation: `r1 == g^s * y1^c (mod q)` and
/// `r2 == h^s * y2^c (mod q)`.
pub open spec fn accepts(p: GroupParams, y1: nat, y2: nat, r1: nat, r2: nat, c: nat, s: nat) -> bool {
    &&& (pow_mod(p.g as nat, s, p.q as nat) * pow_mod(y1, c, p.q as nat)) % (p.q as nat) == r1
    &&& (pow_mod(p.h as nat, s, p.q as nat) * pow_mod(y2, c, p.q as nat)) % (p.q as nat) == r2
}

/// The honest prover's response to challenge `c`: `(k - c·x) mod q`,
/// normalized into `[0, q)`.
pub open spec fn honest_response(k: nat, c: nat, x: nat, q: nat) -> nat
    recommends
        q > 0,
{
    ((k as int - c as int * x as int) % (q as int)) as nat
}

/// The prover's pair of commitments `(g^e mod q, h^e mod q)`; with the
/// secret `x` as exponent this is the registration commitment
/// `(y1, y2)`, with the per-attempt nonce `k` it is the login
/// commitment `(r1, r2)`.
pub fn commit(p: &GroupParams, exponent: u64) -> (r: (u64, u64))
    requires
        p.q > 0,
    ensures
        r.0 == pow_mod(p.g as nat, exponent as nat, p.q as nat),
        r.1 == pow_mod(p.h as nat, exponent as nat, p.q as nat),
        r.0 < p.q,
        r.1 < p.q,
{
    (mod_pow(p.g, exponent, p.q), mod_pow(p.h, exponent, p.q))
}

/// The prover's response `s = (k - c·x) mod q` for secret `x`,
/// nonce `k` and challenge `c`.
pub fn compute_response(p: &GroupParams, k: u64, c: u64, x: u64) -> (s: u64)
    requires
        p.q > 0,
        k < p.q,
    ensures
        s == honest_response(k as nat, c as nat, x as nat, p.q as nat),
        s < p.q,
{
    response(k, c, x, p.q)
}

/// The verifier's check: recompute both sides of the equation and
/// compare against the login commitment.
pub fn check_proof(p: &GroupParams, y1: u64, y2: u64, r1: u64, r2: u64, c: u64, s: u64) -> (b: bool)
    requires
        p.q > 0,
    ensures
        b == accepts(*p, y1 as nat, y2 as nat, r1 as nat, r2 as nat, c as nat, s as nat),
{
    let lhs1 = mul_mod(mod_pow(p.g, s, p.q), mod_pow(y1, c, p.q), p.q);
    let lhs2 = mul_mod(mod_pow(p.h, s, p.q), mod_pow(y2, c, p.q), p.q);
    lhs1 == r1 && lhs2 == r2
}

/// A reduced power lies below the modulus.
pub proof fn lemma_pow_mod_bound(b: nat, e: nat, q: nat)
    requires
        q > 0,
    ensures
        pow_mod(b, e, q) < q,
{
    lemma_mod_division_less_than_divisor(pow(b as int, e), q as int);
}

/// When the order of `gen` divides `q`, exponents of `gen` can be
/// reduced modulo `q` without changing the power.
pub proof fn lemma_exp_reduce(gen: nat, a: nat, q: nat)
    requires
        q > 0,
        order_divides(gen, q),
    ensures
        pow_mod(gen, a, q) == pow_mod(gen, (a % q) as nat, q),
{
    let gi = gen as int;
    let qi = q as int;
    let d = (a as int) / qi;
    let r = (a as int) % qi;
    lemma_fundamental_div_mod(a as int, qi);
    lemma_mod_division_less_than_divisor(a as int, qi);
    assert(a as int == qi * d + r);
    assert(d >= 0) by (nonlinear_arith)
        requires
            a as int == qi * d + r,
            a >= 0,
            qi > 0,
            0 <= r < qi,
    ;
    let e1 = (q * d) as nat;
    let e2 = r as nat;
    assert(e1 == q * d);
    assert(a == e1 + e2);
    lemma_pow_adds(gi, e1, e2);
    assert(pow(gi, a) == pow(gi, e1) * pow(gi, e2));
    lemma_pow_multiplies(gi, q, d as nat);
    assert(q * (d as nat) == e1) by (nonlinear_arith)
        requires
            e1 == q * d,
            d >= 0,
    ;
    assert(pow(gi, e1) == pow(pow(gi, q), d as nat));
    // reduce the (gen^q)^d factor to 1 modulo q
    lemma_pow_mod_noop(pow(gi, q), d as nat, qi);
    assert(pow(gi, q) % qi == 1) by {
        assert(pow_mod(gen, q, q) == 1);
    }
    lemma1_pow(d as nat);
    assert(pow(1int, d as nat) == 1);
    assert(pow(pow(gi, q), d as nat) % qi == 1int % qi);
    // put the pieces together
    lemma_mul_mod_noop_left(pow(gi, e1), pow(gi, e2), qi);
    assert(pow(gi, a) % qi == (pow(gi, e1) % qi) * pow(gi, e2) % qi);
    lemma_mul_mod_noop_left(1, pow(gi, e2), qi);
    assert((1int % qi) * pow(gi, e2) % qi == (1int * pow(gi, e2)) % qi);
    assert(pow(gi, a) % qi == pow(gi, e2) % qi);
}

/// `g^s * (g^x)^c ≡ g^(s + x·c) (mod q)`: combining a power of the
/// generator with a power of a commitment is one power of the generator.
pub proof fn lemma_commit_combine(gen: nat, x: nat, s: nat, c: nat, q: nat)
    requires
        q > 0,
    ensures
        (pow_mod(gen, s, q) * pow_mod(pow_mod(gen, x, q), c, q)) % q == pow_mod(gen, (s + x * c) as nat, q),
{
    let gi = gen as int;
    let qi = q as int;
    lemma_pow_mod_noop(pow(gi, x), c, qi);
    assert(pow(pow(gi, x) % qi, c) % qi == pow(pow(gi, x), c) % qi);
    lemma_pow_multiplies(gi, x, c);
    assert(pow(pow(gi, x), c) == pow(gi, (x * c) as nat));
    lemma_mul_mod_noop(pow(gi, s), pow(gi, (x * c) as nat), qi);
    lemma_pow_adds(gi, s, (x * c) as nat);
}

/// Completeness: an honest prover who registered `(g^x, h^x)`, committed
/// `(g^k, h^k)` and answers challenge `c` with `s = (k - c·x) mod q` is
/// always accepted, for any valid parameters and any `x, k, c` in `[0, q)`.
pub proof fn lemma_completeness(p: GroupParams, x: nat, k: nat, c: nat)
    requires
        generators_valid(p),
        x < p.q,
        k < p.q,
        c < p.q,
    ensures
        accepts(
            p,
            pow_mod(p.g as nat, x, p.q as nat),
            pow_mod(p.h as nat, x, p.q as nat),
            pow_mod(p.g as nat, k, p.q as nat),
            pow_mod(p.h as nat, k, p.q as nat),
            c,
            honest_response(k, c, x, p.q as nat),
        ),
{
    let q = p.q as nat;
    let qi = p.q as int;
    let s = honest_response(k, c, x, q);
    lemma_mod_division_less_than_divisor(k as int - c as int * x as int, qi);
    assert(s < q);
    // s + x·c ≡ k (mod q)
    lemma_add_mod_noop_right(
        (x * c) as int,
        k as int - c as int * x as int,
        qi,
    );
    assert((x * c + s) as int % qi == (x as int * c as int + (k as int - c as int * x as int)) % qi);
    assert(x as int * c as int + (k as int - c as int * x as int) == k as int) by (nonlinear_arith);
    lemma_small_mod(k, q);
    assert(((s + x * c) as nat) % q == k);
    lemma_completeness_half(p.g as nat, x, k, c, s, q);
    lemma_completeness_half(p.h as nat, x, k, c, s, q);
}

/// One half of the completeness argument, for a single generator.
proof fn lemma_completeness_half(gen: nat, x: nat, k: nat, c: nat, s: nat, q: nat)
    requires
        q > 0,
        order_divides(gen, q),
        ((s + x * c) as nat) % q == k,
    ensures
        (pow_mod(gen, s, q) * pow_mod(pow_mod(gen, x, q), c, q)) % q == pow_mod(gen, k, q),
{
    lemma_commit_combine(gen, x, s, c, q);
    lemma_exp_reduce(gen, (s + x * c) as nat, q);
}

/// Exponentiation of `gen` is injective on `[0, q)`: distinct exponents
/// give distinct powers. Holds when `gen` generates a subgroup of order
/// at least `q`.
pub open spec fn exp_injective(gen: nat, q: nat) -> bool {
    forall|a: nat, b: nat|
        a < q && b < q && #[trigger] pow_mod(gen, a, q) == #[trigger] pow_mod(gen, b, q) ==> a == b
}

/// Multiplication by `y` modulo `q` is injective on `[0, q)`. Holds
/// whenever `y` is invertible modulo `q`.
pub open spec fn mul_cancellable(y: nat, q: nat) -> bool {
    forall|u: nat, v: nat|
        #![trigger (u * y) % q, (v * y) % q]
        u < q && v < q && (u * y) % q == (v * y) % q ==> u == v
}

/// At most one response below `q` satisfies one half of the verifier's
/// equation, when exponentiation of the generator is injective and the
/// commitment factor is cancellable.
pub proof fn lemma_response_unique(gen: nat, y1: nat, c: nat, r1: nat, s1: nat, s2: nat, q: nat)
    requires
        q > 0,
        exp_injective(gen, q),
        mul_cancellable(pow_mod(y1, c, q), q),
        s1 < q,
        s2 < q,
        (pow_mod(gen, s1, q) * pow_mod(y1, c, q)) % q == r1,
        (pow_mod(gen, s2, q) * pow_mod(y1, c, q)) % q == r1,
    ensures
        s1 == s2,
{
    lemma_pow_mod_bound(gen, s1, q);
    lemma_pow_mod_bound(gen, s2, q);
    let u = pow_mod(gen, s1, q);
    let v = pow_mod(gen, s2, q);
    let y = pow_mod(y1, c, q);
    assert((u * y) % q == (v * y) % q);
    assert(u == v);
}

/// A tampered response — any value in `[0, q)` other than the honest
/// `(k - c·x) mod q` — is rejected, when exponentiation of `g` is
/// injective and the registration factor is cancellable.
pub proof fn lemma_tampered_rejected(p: GroupParams, x: nat, k: nat, c: nat, s: nat)
    requires
        generators_valid(p),
        exp_injective(p.g as nat, p.q as nat),
        mul_cancellable(pow_mod(pow_mod(p.g as nat, x, p.q as nat), c, p.q as nat), p.q as nat),
        x < p.q,
        k < p.q,
        c < p.q,
        s < p.q,
        s != honest_response(k, c, x, p.q as nat),
    ensures
        !accepts(
            p,
            pow_mod(p.g as nat, x, p.q as nat),
            pow_mod(p.h as nat, x, p.q as nat),
            pow_mod(p.g as nat, k, p.q as nat),
            pow_mod(p.h as nat, k, p.q as nat),
            c,
            s,
        ),
{
    let q = p.q as nat;
    let qi = p.q as int;
    let y1 = pow_mod(p.g as nat, x, q);
    let y2 = pow_mod(p.h as nat, x, q);
    let r1 = pow_mod(p.g as nat, k, q);
    let r2 = pow_mod(p.h as nat, k, q);
    let s0 = honest_response(k, c, x, q);
    lemma_mod_division_less_than_divisor(k as int - c as int * x as int, qi);
    lemma_completeness(p, x, k, c);
    if accepts(p, y1, y2, r1, r2, c, s) {
        lemma_response_unique(p.g as nat, y1, c, r1, s, s0, q);
    }
}


/// Whether `p` is structurally valid: executable counterpart of
/// [`params_valid`], for code outside the proofs to check a deployment's
/// configuration before constructing a server.
pub fn check_params(p: &GroupParams) -> (b: bool)
    ensures
        b == params_valid(*p),
{
    p.q > 1 && 1 < p.g && p.g < p.q && 1 < p.h && p.h < p.q
}

/// Begin one login attempt on the client: draw a fresh random nonce
/// `k` from `[0, q)` and form the login commitment `(g^k, h^k)`.
pub fn begin_login_commitment(p: &GroupParams) -> (r: (u64, u64, u64))
    requires
        p.q > 0,
    ensures
        r.0 < p.q,
        r.1 == pow_mod(p.g as nat, r.0 as nat, p.q as nat),
        r.2 == pow_mod(p.h as nat, r.0 as nat, p.q as nat),
{
    let k = crate::rng::random_below(p.q);
    let (c1, c2) = commit(p, k);
    (k, c1, c2)
}

} // verus!
