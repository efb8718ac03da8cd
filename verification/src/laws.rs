//! The protocol's guarantees, stated across whole operations and proved
//! from the transition relations: completeness of an honest login,
//! rejection of tampered responses, single-use handles, registration
//! uniqueness and challenge exclusivity.

use vstd::prelude::*;

verus! {

broadcast use vstd::map::group_map_axioms;

use crate::arith::pow_mod;
use crate::errors::ZkpError;
use crate::protocol::{
    GroupParams,
    generators_valid,
    exp_injective,
    mul_cancellable,
    honest_response,
    lemma_completeness,
    lemma_tampered_rejected,
};
use crate::server::{
    ZkpServer,
    Registration,
    LoginChallenge,
    register_transition,
    issue_transition,
    verify_transition,
    verify_outcome,
    chal_in_range,
};

/// An honest login run always ends in a session bound to the user's own
/// identity: for any valid generators, any secret `x` and nonce `k` in
/// `[0, q)` and any challenge `c` in `[0, q)`, registering the
/// commitments of `x`, obtaining a challenge over the commitments of
/// `k`, and answering with `s = (k - c·x) mod q` is accepted, and the
/// minted session names the registering user.
pub proof fn lemma_honest_login_completes(
    s0: ZkpServer,
    s1: ZkpServer,
    s2: ZkpServer,
    s3: ZkpServer,
    user: Seq<char>,
    auth_id: Seq<char>,
    session_id: Seq<char>,
    g: u64,
    h: u64,
    x: nat,
    k: nat,
    c: u64,
    r: Result<(), ZkpError>,
)
    requires
        generators_valid((GroupParams { g, h, q: s0.params().q })),
        x < s0.params().q,
        k < s0.params().q,
        c < s0.params().q,
        register_transition(
            s0,
            user,
            (Registration {
                y1: pow_mod(g as nat, x, s0.params().q as nat) as u64,
                y2: pow_mod(h as nat, x, s0.params().q as nat) as u64,
                g,
                h,
            }),
            s1,
            Ok(()),
        ),
        issue_transition(
            s1,
            user,
            (LoginChallenge {
                r1: pow_mod(g as nat, k, s0.params().q as nat) as u64,
                r2: pow_mod(h as nat, k, s0.params().q as nat) as u64,
                c,
            }),
            auth_id,
            s2,
            Ok(()),
        ),
        verify_transition(
            s2,
            auth_id,
            honest_response(k, c as nat, x, s0.params().q as nat),
            session_id,
            s3,
            r,
        ),
    ensures
        r == Ok::<(), ZkpError>(()),
        s3.sessions().contains_key(session_id),
        s3.sessions()[session_id] == user,
{
    let q = s0.params().q as nat;
    let p = GroupParams { g, h, q: s0.params().q };
    crate::protocol::lemma_pow_mod_bound(g as nat, x, q);
    crate::protocol::lemma_pow_mod_bound(h as nat, x, q);
    crate::protocol::lemma_pow_mod_bound(g as nat, k, q);
    crate::protocol::lemma_pow_mod_bound(h as nat, k, q);
    assert(s2.handles()[auth_id] == user);
    assert(s2.registrations()[user] == s1.registrations()[user]);
    lemma_completeness(p, x, k, c as nat);
    vstd::arithmetic::div_mod::lemma_mod_division_less_than_divisor(
        k as int - c as int * x as int,
        q as int,
    );
    assert(verify_outcome(
        s2,
        auth_id,
        honest_response(k, c as nat, x, q),
    ) == Ok::<(), ZkpError>(()));
}

/// A verification attempt with a tampered response — any value in
/// `[0, q)` other than the honest one — is rejected as `InvalidProof`,
/// when exponentiation of the stored generator is injective and the
/// registration factor is cancellable.
pub proof fn lemma_tampered_response_rejected(
    pre: ZkpServer,
    auth_id: Seq<char>,
    x: nat,
    k: nat,
    s: nat,
)
    requires
        pre.wf(),
        pre.handles().contains_key(auth_id),
        pre.challenges().contains_key(pre.handles()[auth_id]),
        pre.registrations().contains_key(pre.handles()[auth_id]),
        ({
            let reg = pre.registrations()[pre.handles()[auth_id]];
            let chal = pre.challenges()[pre.handles()[auth_id]];
            let q = pre.params().q as nat;
            &&& generators_valid((GroupParams { g: reg.g, h: reg.h, q: pre.params().q }))
            &&& exp_injective(reg.g as nat, q)
            &&& mul_cancellable(pow_mod(pow_mod(reg.g as nat, x, q), chal.c as nat, q), q)
            &&& reg.y1 == pow_mod(reg.g as nat, x, q)
            &&& reg.y2 == pow_mod(reg.h as nat, x, q)
            &&& chal.r1 == pow_mod(reg.g as nat, k, q)
            &&& chal.r2 == pow_mod(reg.h as nat, k, q)
            &&& s != honest_response(k, chal.c as nat, x, q)
        }),
        x < pre.params().q,
        k < pre.params().q,
        s < pre.params().q,
    ensures
        verify_outcome(pre, auth_id, s) == Err::<(), ZkpError>(ZkpError::InvalidProof),
{
    let user = pre.handles()[auth_id];
    let reg = pre.registrations()[user];
    let chal = pre.challenges()[user];
    let q = pre.params().q as nat;
    let p = GroupParams { g: reg.g, h: reg.h, q: pre.params().q };
    assert(chal_in_range(chal, q));
    lemma_tampered_rejected(p, x, k, chal.c as nat, s);
}

/// A rejected verification attempt — whatever its reason — never
/// mutates the session store.
pub proof fn lemma_rejection_preserves_sessions(
    pre: ZkpServer,
    auth_id: Seq<char>,
    s: nat,
    session_id: Seq<char>,
    post: ZkpServer,
    r: Result<(), ZkpError>,
)
    requires
        verify_transition(pre, auth_id, s, session_id, post, r),
        r != Ok::<(), ZkpError>(()),
    ensures
        post.sessions() == pre.sessions(),
{
}

/// Handles are single-use: after one verification call on a given
/// handle — accepted or rejected — a second call with the same handle
/// answers `NotFound`.
pub proof fn lemma_handle_single_use(
    s0: ZkpServer,
    s1: ZkpServer,
    s2: ZkpServer,
    auth_id: Seq<char>,
    sa: nat,
    sb: nat,
    sid_a: Seq<char>,
    sid_b: Seq<char>,
    ra: Result<(), ZkpError>,
    rb: Result<(), ZkpError>,
)
    requires
        verify_transition(s0, auth_id, sa, sid_a, s1, ra),
        verify_transition(s1, auth_id, sb, sid_b, s2, rb),
    ensures
        rb == Err::<(), ZkpError>(ZkpError::NotFound),
{
    assert(!s1.handles().contains_key(auth_id));
}

/// Registration is unique: after a user's first successful register
/// call, every later one fails `AlreadyRegistered`, and the stored
/// record stays the first call's values.
pub proof fn lemma_registration_unique(
    s0: ZkpServer,
    s1: ZkpServer,
    s2: ZkpServer,
    user: Seq<char>,
    reg_a: Registration,
    reg_b: Registration,
    rb: Result<(), ZkpError>,
)
    requires
        register_transition(s0, user, reg_a, s1, Ok(())),
        register_transition(s1, user, reg_b, s2, rb),
    ensures
        rb == Err::<(), ZkpError>(ZkpError::AlreadyRegistered),
        s2.registrations() == s1.registrations(),
        s1.registrations()[user] == reg_a,
        s2.registrations()[user] == reg_a,
{
}

/// At most one of two challenge requests for the same user succeeds:
/// after a successful issuance, a second request for the same user
/// fails `ChallengeInProgress` and changes nothing.
pub proof fn lemma_challenge_exclusive(
    s0: ZkpServer,
    s1: ZkpServer,
    s2: ZkpServer,
    user: Seq<char>,
    chal_a: LoginChallenge,
    chal_b: LoginChallenge,
    aid_a: Seq<char>,
    aid_b: Seq<char>,
    rb: Result<(), ZkpError>,
)
    requires
        issue_transition(s0, user, chal_a, aid_a, s1, Ok(())),
        issue_transition(s1, user, chal_b, aid_b, s2, rb),
    ensures
        rb == Err::<(), ZkpError>(ZkpError::ChallengeInProgress),
        s2.challenges() == s1.challenges(),
        s2.handles() == s1.handles(),
{
    assert(s1.challenges().contains_key(user));
}

} // verus!
