//! The server side of the protocol: the registration store, the challenge
//! issuer, the verifier and the session store, all behind one state type
//! whose operations are atomic check-then-act steps. Every operation is
//! described by a transition relation over the four stores, and the
//! single-use, uniqueness and exclusivity guarantees are proved from those
//! relations.

use vstd::prelude::*;

verus! {

broadcast use vstd::map::group_map_axioms;

use vstd::hash_map::StringHashMap;
use crate::errors::ZkpError;
use crate::rng::{random_below, fresh_id};
use crate::codec::{be_value, canonical, encodes_element, encode_be, decode_be};
use crate::protocol::{GroupParams, params_valid, accepts, check_proof};

/// A user's registration: the commitment pair `(y1, y2) = (g^x, h^x)`
/// and the generators it was formed over. Created once, never changed.
#[derive(Clone, Copy, PartialEq, Eq, Structural, Debug)]
pub struct Registration {
    pub y1: u64,
    pub y2: u64,
    pub g: u64,
    pub h: u64,
}

/// A live login challenge: the client's login commitment `(r1, r2)`
/// and the server's random challenge `c`. Exists until consumed by
/// exactly one verification attempt.
#[derive(Clone, Copy, PartialEq, Eq, Structural, Debug)]
pub struct LoginChallenge {
    pub r1: u64,
    pub r2: u64,
    pub c: u64,
}

/// The server's whole state: the deployment's group parameters and the
/// four stores, keyed by user identity or by opaque identifier.
pub struct ZkpServer {
    params: GroupParams,
    registrations: StringHashMap<Registration>,
    challenges: StringHashMap<LoginChallenge>,
    handles: StringHashMap<String>,
    sessions: StringHashMap<String>,
}

/// A registration's values all lie in `[0, q)` and neither of its
/// generators is zero or the group identity.
pub open spec fn reg_in_range(r: Registration, q: nat) -> bool {
    r.y1 < q && r.y2 < q && 2 <= r.g < q && 2 <= r.h < q
}

/// A challenge's values all lie in `[0, q)`.
pub open spec fn chal_in_range(l: LoginChallenge, q: nat) -> bool {
    l.r1 < q && l.r2 < q && l.c < q
}

/// Every stored registration is reduced into `[0, q)`.
pub open spec fn regs_in_range(m: Map<Seq<char>, Registration>, q: nat) -> bool {
    forall|u: Seq<char>| #[trigger] m.contains_key(u) ==> reg_in_range(m[u], q)
}

/// Every stored challenge is reduced into `[0, q)`.
pub open spec fn chals_in_range(m: Map<Seq<char>, LoginChallenge>, q: nat) -> bool {
    forall|u: Seq<char>| #[trigger] m.contains_key(u) ==> chal_in_range(m[u], q)
}

/// Inserting an in-range registration keeps the store in range.
proof fn lemma_regs_in_range_insert(
    m: Map<Seq<char>, Registration>,
    k: Seq<char>,
    v: Registration,
    q: nat,
)
    requires
        regs_in_range(m, q),
        reg_in_range(v, q),
    ensures
        regs_in_range(m.insert(k, v), q),
{
    assert forall|u: Seq<char>| #[trigger] m.insert(k, v).contains_key(u) implies reg_in_range(
        m.insert(k, v)[u],
        q,
    ) by {
        if u != k {
            assert(m.contains_key(u));
        }
    }
}

/// Inserting an in-range challenge keeps the store in range.
proof fn lemma_chals_in_range_insert(
    m: Map<Seq<char>, LoginChallenge>,
    k: Seq<char>,
    v: LoginChallenge,
    q: nat,
)
    requires
        chals_in_range(m, q),
        chal_in_range(v, q),
    ensures
        chals_in_range(m.insert(k, v), q),
{
    assert forall|u: Seq<char>| #[trigger] m.insert(k, v).contains_key(u) implies chal_in_range(
        m.insert(k, v)[u],
        q,
    ) by {
        if u != k {
            assert(m.contains_key(u));
        }
    }
}

/// Removing a challenge keeps the store in range.
proof fn lemma_chals_in_range_remove(m: Map<Seq<char>, LoginChallenge>, k: Seq<char>, q: nat)
    requires
        chals_in_range(m, q),
    ensures
        chals_in_range(m.remove(k), q),
{
    assert forall|u: Seq<char>| #[trigger] m.remove(k).contains_key(u) implies chal_in_range(
        m.remove(k)[u],
        q,
    ) by {
        assert(m.contains_key(u));
    }
}

impl ZkpServer {
    /// The deployment's group parameters.
    pub closed spec fn params(&self) -> GroupParams {
        self.params
    }

    /// The registration store: one commitment record per user identity.
    pub closed spec fn registrations(&self) -> Map<Seq<char>, Registration> {
        self.registrations@
    }

    /// The challenge store: at most one live challenge per user identity.
    pub closed spec fn challenges(&self) -> Map<Seq<char>, LoginChallenge> {
        self.challenges@
    }

    /// The handle store: each live `auth_id` names the user identity
    /// that owns the pending challenge.
    pub closed spec fn handles(&self) -> Map<Seq<char>, Seq<char>> {
        self.handles@.map_values(|v: String| v@)
    }

    /// The session store: each session identifier names the user it
    /// was minted for.
    pub closed spec fn sessions(&self) -> Map<Seq<char>, Seq<char>> {
        self.sessions@.map_values(|v: String| v@)
    }

    /// The store invariant: the modulus admits a group, every stored
    /// value is reduced into `[0, q)`, and no stored generator is
    /// degenerate.
    pub open spec fn wf(&self) -> bool {
        &&& self.params().q > 1
        &&& regs_in_range(self.registrations(), self.params().q as nat)
        &&& chals_in_range(self.challenges(), self.params().q as nat)
    }

    /// A fresh server over the given parameters, with all stores empty.
    pub fn new(params: GroupParams) -> (s: Self)
        requires
            params_valid(params),
        ensures
            s.wf(),
            s.params() == params,
            s.registrations() =~= Map::<Seq<char>, Registration>::empty(),
            s.challenges() =~= Map::<Seq<char>, LoginChallenge>::empty(),
            s.handles() =~= Map::<Seq<char>, Seq<char>>::empty(),
            s.sessions() =~= Map::<Seq<char>, Seq<char>>::empty(),
    {
        ZkpServer {
            params,
            registrations: StringHashMap::new(),
            challenges: StringHashMap::new(),
            handles: StringHashMap::new(),
            sessions: StringHashMap::new(),
        }
    }
}

/// The registration step: the first call for a user stores the record,
/// every later one fails `AlreadyRegistered` and changes nothing. A
/// record whose generators include zero or the group identity — which
/// would make one half of the proof trivially satisfiable — is refused
/// as malformed.
pub open spec fn register_transition(
    pre: ZkpServer,
    user: Seq<char>,
    reg: Registration,
    post: ZkpServer,
    r: Result<(), ZkpError>,
) -> bool {
    &&& post.params() == pre.params()
    &&& post.challenges() == pre.challenges()
    &&& post.handles() == pre.handles()
    &&& post.sessions() == pre.sessions()
    &&& if pre.registrations().contains_key(user) {
        r == Err::<(), ZkpError>(ZkpError::AlreadyRegistered) && post.registrations()
            == pre.registrations()
    } else if reg.g < 2 || reg.h < 2 {
        r == Err::<(), ZkpError>(ZkpError::MalformedInput) && post.registrations()
            == pre.registrations()
    } else {
        r == Ok::<(), ZkpError>(()) && post.registrations() == pre.registrations().insert(user, reg)
    }
}

/// The challenge-issuance step: with no live challenge for the user and
/// a fresh handle, both stores gain one entry; otherwise it fails
/// `ChallengeInProgress` and changes nothing.
pub open spec fn issue_transition(
    pre: ZkpServer,
    user: Seq<char>,
    chal: LoginChallenge,
    auth_id: Seq<char>,
    post: ZkpServer,
    r: Result<(), ZkpError>,
) -> bool {
    &&& post.params() == pre.params()
    &&& post.registrations() == pre.registrations()
    &&& post.sessions() == pre.sessions()
    &&& if pre.challenges().contains_key(user) || pre.handles().contains_key(auth_id) {
        &&& r == Err::<(), ZkpError>(ZkpError::ChallengeInProgress)
        &&& post.challenges() == pre.challenges()
        &&& post.handles() == pre.handles()
    } else {
        &&& r == Ok::<(), ZkpError>(())
        &&& post.challenges() == pre.challenges().insert(user, chal)
        &&& post.handles() == pre.handles().insert(auth_id, user)
    }
}

/// What one verification attempt answers, as a function of the state it
/// starts from: an unknown or replayed handle is `NotFound`, as is a
/// handle whose user lacks a challenge or a registration; otherwise the
/// verification equation over the stored records decides between a
/// session and `InvalidProof`.
pub open spec fn verify_outcome(pre: ZkpServer, auth_id: Seq<char>, s: nat) -> Result<(), ZkpError> {
    if !pre.handles().contains_key(auth_id) {
        Err(ZkpError::NotFound)
    } else {
        let user = pre.handles()[auth_id];
        if !pre.challenges().contains_key(user) || !pre.registrations().contains_key(user) {
            Err(ZkpError::NotFound)
        } else {
            let reg = pre.registrations()[user];
            let chal = pre.challenges()[user];
            if accepts(
                (GroupParams { g: reg.g, h: reg.h, q: pre.params().q }),
                reg.y1 as nat,
                reg.y2 as nat,
                chal.r1 as nat,
                chal.r2 as nat,
                chal.c as nat,
                s,
            ) {
                Ok(())
            } else {
                Err(ZkpError::InvalidProof)
            }
        }
    }
}

/// The verification step: the handle is consumed whatever the outcome;
/// the owning user's challenge is consumed as soon as the handle is
/// found; the registration store never changes; a session appears
/// exactly on acceptance. The session insert is a map insert: if the
/// minted identifier already names a session, the newer record
/// replaces the older one.
pub open spec fn verify_transition(
    pre: ZkpServer,
    auth_id: Seq<char>,
    s: nat,
    session_id: Seq<char>,
    post: ZkpServer,
    r: Result<(), ZkpError>,
) -> bool {
    &&& r == verify_outcome(pre, auth_id, s)
    &&& post.params() == pre.params()
    &&& post.registrations() == pre.registrations()
    &&& post.handles() == pre.handles().remove(auth_id)
    &&& post.challenges() == if pre.handles().contains_key(auth_id) {
        pre.challenges().remove(pre.handles()[auth_id])
    } else {
        pre.challenges()
    }
    &&& post.sessions() == if r == Ok::<(), ZkpError>(()) {
        pre.sessions().insert(session_id, pre.handles()[auth_id])
    } else {
        pre.sessions()
    }
}

/// Mapping the values of a map commutes with inserting one entry.
proof fn lemma_view_insert(m: Map<Seq<char>, String>, k: Seq<char>, v: String)
    ensures
        m.insert(k, v).map_values(|x: String| x@) == m.map_values(|x: String| x@).insert(k, v@),
{
    assert(m.insert(k, v).map_values(|x: String| x@) =~= m.map_values(|x: String| x@).insert(
        k,
        v@,
    ));
}

/// Mapping the values of a map commutes with removing one key.
proof fn lemma_view_remove(m: Map<Seq<char>, String>, k: Seq<char>)
    ensures
        m.remove(k).map_values(|x: String| x@) == m.map_values(|x: String| x@).remove(k),
{
    assert(m.remove(k).map_values(|x: String| x@) =~= m.map_values(|x: String| x@).remove(k));
}

impl ZkpServer {
    /// Store a user's registration. Atomically checks absence and
    /// inserts; a user already registered is refused with no change of
    /// state, and registrations are never overwritten. A degenerate
    /// generator (zero or the group identity) is refused as malformed.
    pub fn register(&mut self, user: String, y1: u64, y2: u64, g: u64, h: u64) -> (r: Result<
        (),
        ZkpError,
    >)
        requires
            old(self).wf(),
            y1 < old(self).params().q,
            y2 < old(self).params().q,
            g < old(self).params().q,
            h < old(self).params().q,
        ensures
            final(self).wf(),
            register_transition(
                *old(self),
                user@,
                (Registration { y1, y2, g, h }),
                *final(self),
                r,
            ),
    {
        if self.registrations.contains_key(user.as_str()) {
            return Err(ZkpError::AlreadyRegistered);
        }
        if g < 2 || h < 2 {
            return Err(ZkpError::MalformedInput);
        }
        proof {
            lemma_regs_in_range_insert(
                self.registrations(),
                user@,
                Registration { y1, y2, g, h },
                self.params().q as nat,
            );
        }
        self.registrations.insert(user, Registration { y1, y2, g, h });
        Ok(())
    }

    /// Issue a challenge for a login attempt, from an explicitly chosen
    /// challenge value and handle. Atomically refuses a user with a
    /// live challenge — and a handle that is already in use — with no
    /// change of state.
    pub fn issue_challenge(&mut self, user: String, r1: u64, r2: u64, c: u64, auth_id: String) -> (r:
        Result<(), ZkpError>)
        requires
            old(self).wf(),
            r1 < old(self).params().q,
            r2 < old(self).params().q,
            c < old(self).params().q,
        ensures
            final(self).wf(),
            issue_transition(
                *old(self),
                user@,
                (LoginChallenge { r1, r2, c }),
                auth_id@,
                *final(self),
                r,
            ),
    {
        if self.challenges.contains_key(user.as_str()) {
            return Err(ZkpError::ChallengeInProgress);
        }
        if self.handles.contains_key(auth_id.as_str()) {
            return Err(ZkpError::ChallengeInProgress);
        }
        proof {
            lemma_view_insert(self.handles@, auth_id@, user);
            lemma_chals_in_range_insert(
                self.challenges(),
                user@,
                LoginChallenge { r1, r2, c },
                self.params().q as nat,
            );
        }
        self.challenges.insert(user.clone(), LoginChallenge { r1, r2, c });
        self.handles.insert(auth_id, user);
        Ok(())
    }

    /// Issue a challenge for a login attempt: draw the random challenge
    /// `c` from `[0, q)` and a fresh opaque handle, then store both. A
    /// user with a live challenge is refused with no change of state;
    /// on success the returned challenge and handle are exactly what
    /// was stored. Failure is owed only to a live challenge for the
    /// user or to the drawn handle colliding with a live one: with no
    /// live challenge and an empty handle store, the call succeeds.
    pub fn create_authentication_challenge(&mut self, user: String, r1: u64, r2: u64) -> (r: Result<
        (u64, String),
        ZkpError,
    >)
        requires
            old(self).wf(),
            r1 < old(self).params().q,
            r2 < old(self).params().q,
        ensures
            final(self).wf(),
            match r {
                Ok(ca) => {
                    &&& ca.0 < old(self).params().q
                    &&& !old(self).challenges().contains_key(user@)
                    &&& issue_transition(
                        *old(self),
                        user@,
                        (LoginChallenge { r1, r2, c: ca.0 }),
                        ca.1@,
                        *final(self),
                        Ok(()),
                    )
                },
                Err(e) => {
                    &&& e == ZkpError::ChallengeInProgress
                    &&& *final(self) == *old(self)
                },
            },
            old(self).challenges().contains_key(user@) ==> r is Err,
            r is Err ==> old(self).challenges().contains_key(user@) || (exists|a: Seq<char>|
                #[trigger] old(self).handles().contains_key(a)),
    {
        let c = random_below(self.params.q);
        let auth_id = fresh_id();
        if self.challenges.contains_key(user.as_str()) {
            return Err(ZkpError::ChallengeInProgress);
        }
        if self.handles.contains_key(auth_id.as_str()) {
            // the freshly drawn handle collides with a live one
            proof {
                assert(old(self).handles().contains_key(auth_id@));
            }
            return Err(ZkpError::ChallengeInProgress);
        }
        let r = self.issue_challenge(user, r1, r2, c, auth_id.clone());
        match r {
            Ok(()) => Ok((c, auth_id)),
            Err(e) => Err(e),
        }
    }

    /// Consume the handle and decide one verification attempt, minting
    /// the given session identifier on acceptance. The handle is
    /// removed whatever the outcome, so a second call with the same
    /// handle answers `NotFound`.
    pub fn verify(&mut self, auth_id: &String, s: u64, session_id: String) -> (r: Result<
        (),
        ZkpError,
    >)
        requires
            old(self).wf(),
            s < old(self).params().q,
        ensures
            final(self).wf(),
            verify_transition(*old(self), auth_id@, s as nat, session_id@, *final(self), r),
    {
        let user = match self.handles.get(auth_id.as_str()) {
            None => {
                proof {
                    lemma_view_remove(self.handles@, auth_id@);
                    assert(self.handles().remove(auth_id@) =~= self.handles());
                }
                return Err(ZkpError::NotFound);
            },
            Some(u) => u.clone(),
        };
        proof {
            lemma_view_remove(self.handles@, auth_id@);
        }
        self.handles.remove(auth_id.as_str());
        let chal_found = match self.challenges.get(user.as_str()) {
            None => None,
            Some(l) => Some(*l),
        };
        proof {
            lemma_chals_in_range_remove(self.challenges(), user@, self.params().q as nat);
        }
        self.challenges.remove(user.as_str());
        let chal = match chal_found {
            None => {
                return Err(ZkpError::NotFound);
            },
            Some(l) => l,
        };
        let reg = match self.registrations.get(user.as_str()) {
            None => {
                return Err(ZkpError::NotFound);
            },
            Some(g) => *g,
        };
        let ok = check_proof(
            &(GroupParams { g: reg.g, h: reg.h, q: self.params.q }),
            reg.y1,
            reg.y2,
            chal.r1,
            chal.r2,
            chal.c,
            s,
        );
        if ok {
            proof {
                lemma_view_insert(self.sessions@, session_id@, user);
            }
            self.sessions.insert(session_id, user);
            Ok(())
        } else {
            Err(ZkpError::InvalidProof)
        }
    }

    /// Decide one verification attempt and mint a fresh opaque session
    /// identifier on acceptance.
    pub fn verify_authentication(&mut self, auth_id: &String, s: u64) -> (r: Result<
        String,
        ZkpError,
    >)
        requires
            old(self).wf(),
            s < old(self).params().q,
        ensures
            final(self).wf(),
            match r {
                Ok(sid) => verify_transition(
                    *old(self),
                    auth_id@,
                    s as nat,
                    sid@,
                    *final(self),
                    Ok(()),
                ),
                Err(e) => verify_transition(
                    *old(self),
                    auth_id@,
                    s as nat,
                    Seq::<char>::empty(),
                    *final(self),
                    Err(e),
                ),
            },
    {
        let session_id = fresh_id();
        let r = self.verify(auth_id, s, session_id.clone());
        match r {
            Ok(()) => Ok(session_id),
            Err(e) => Err(e),
        }
    }

    /// Look up the user a session was minted for.
    pub fn session_user(&self, session_id: &String) -> (r: Option<String>)
        ensures
            match r {
                Some(u) => self.sessions().contains_key(session_id@) && u@ == self.sessions()[session_id@],
                None => !self.sessions().contains_key(session_id@),
            },
    {
        match self.sessions.get(session_id.as_str()) {
            None => None,
            Some(u) => Some(u.clone()),
        }
    }
}


impl ZkpServer {
    /// The register operation as the transport carries it: decode the
    /// four signed big-endian values, refuse anything malformed or out
    /// of range with no change of state, then register.
    pub fn register_bytes(
        &mut self,
        user: String,
        y1: &Vec<u8>,
        y2: &Vec<u8>,
        g: &Vec<u8>,
        h: &Vec<u8>,
    ) -> (r: Result<(), ZkpError>)
        requires
            old(self).wf(),
        ensures
            final(self).wf(),
            ({
                let q = old(self).params().q as nat;
                if encodes_element(y1@, q) && encodes_element(y2@, q) && encodes_element(g@, q)
                    && encodes_element(h@, q) {
                    register_transition(
                        *old(self),
                        user@,
                        (Registration {
                            y1: be_value(y1@) as u64,
                            y2: be_value(y2@) as u64,
                            g: be_value(g@) as u64,
                            h: be_value(h@) as u64,
                        }),
                        *final(self),
                        r,
                    )
                } else {
                    r == Err::<(), ZkpError>(ZkpError::MalformedInput) && *final(self) == *old(self)
                }
            }),
    {
        let q = self.params.q;
        let y1v = match decode_be(y1) {
            Ok(v) => v,
            Err(_) => {
                return Err(ZkpError::MalformedInput);
            },
        };
        if y1v >= q {
            return Err(ZkpError::MalformedInput);
        }
        let y2v = match decode_be(y2) {
            Ok(v) => v,
            Err(_) => {
                return Err(ZkpError::MalformedInput);
            },
        };
        if y2v >= q {
            return Err(ZkpError::MalformedInput);
        }
        let gv = match decode_be(g) {
            Ok(v) => v,
            Err(_) => {
                return Err(ZkpError::MalformedInput);
            },
        };
        if gv >= q {
            return Err(ZkpError::MalformedInput);
        }
        let hv = match decode_be(h) {
            Ok(v) => v,
            Err(_) => {
                return Err(ZkpError::MalformedInput);
            },
        };
        if hv >= q {
            return Err(ZkpError::MalformedInput);
        }
        self.register(user, y1v, y2v, gv, hv)
    }

    /// The challenge operation as the transport carries it: decode the
    /// login commitment, refuse anything malformed or out of range with
    /// no change of state, then issue a challenge and hand back its
    /// encoded value and the fresh handle.
    pub fn create_authentication_challenge_bytes(
        &mut self,
        user: String,
        r1: &Vec<u8>,
        r2: &Vec<u8>,
    ) -> (r: Result<(Vec<u8>, String), ZkpError>)
        requires
            old(self).wf(),
        ensures
            final(self).wf(),
            ({
                let q = old(self).params().q as nat;
                if encodes_element(r1@, q) && encodes_element(r2@, q) {
                    match r {
                        Ok(ca) => {
                            &&& canonical(ca.0@)
                            &&& be_value(ca.0@) < q
                            &&& !old(self).challenges().contains_key(user@)
                            &&& issue_transition(
                                *old(self),
                                user@,
                                (LoginChallenge {
                                    r1: be_value(r1@) as u64,
                                    r2: be_value(r2@) as u64,
                                    c: be_value(ca.0@) as u64,
                                }),
                                ca.1@,
                                *final(self),
                                Ok(()),
                            )
                        },
                        Err(e) => {
                            &&& e == ZkpError::ChallengeInProgress
                            &&& *final(self) == *old(self)
                            &&& (old(self).challenges().contains_key(user@) || (exists|a: Seq<char>|
                                #[trigger] old(self).handles().contains_key(a)))
                        },
                    }
                } else {
                    r == Err::<(Vec<u8>, String), ZkpError>(ZkpError::MalformedInput) && *final(self) == *old(self)
                }
            }),
    {
        let q = self.params.q;
        let r1v = match decode_be(r1) {
            Ok(v) => v,
            Err(_) => {
                return Err(ZkpError::MalformedInput);
            },
        };
        if r1v >= q {
            return Err(ZkpError::MalformedInput);
        }
        let r2v = match decode_be(r2) {
            Ok(v) => v,
            Err(_) => {
                return Err(ZkpError::MalformedInput);
            },
        };
        if r2v >= q {
            return Err(ZkpError::MalformedInput);
        }
        match self.create_authentication_challenge(user, r1v, r2v) {
            Ok((c, auth_id)) => Ok((encode_be(c), auth_id)),
            Err(e) => Err(e),
        }
    }

    /// The verify operation as the transport carries it: decode the
    /// response, refuse a malformed or out-of-range value with no
    /// change of state, then decide the attempt.
    pub fn verify_authentication_bytes(&mut self, auth_id: &String, s: &Vec<u8>) -> (r: Result<
        String,
        ZkpError,
    >)
        requires
            old(self).wf(),
        ensures
            final(self).wf(),
            ({
                let q = old(self).params().q as nat;
                if encodes_element(s@, q) {
                    match r {
                        Ok(sid) => verify_transition(
                            *old(self),
                            auth_id@,
                            be_value(s@),
                            sid@,
                            *final(self),
                            Ok(()),
                        ),
                        Err(e) => verify_transition(
                            *old(self),
                            auth_id@,
                            be_value(s@),
                            Seq::<char>::empty(),
                            *final(self),
                            Err(e),
                        ),
                    }
                } else {
                    r == Err::<String, ZkpError>(ZkpError::MalformedInput) && *final(self) == *old(self)
                }
            }),
    {
        let q = self.params.q;
        let sv = match decode_be(s) {
            Ok(v) => v,
            Err(_) => {
                return Err(ZkpError::MalformedInput);
            },
        };
        if sv >= q {
            return Err(ZkpError::MalformedInput);
        }
        self.verify_authentication(auth_id, sv)
    }
}

} // verus!

