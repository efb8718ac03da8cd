//! The whole handshake against the server: an honest login always ends
//! in a session, handles are single-use, registration is unique,
//! challenges are exclusive, and a tampered response mints nothing.

use zkp_auth::errors::ZkpError;
use zkp_auth::protocol::{commit, compute_response, GroupParams};
use zkp_auth::server::ZkpServer;

// A toy deployment: modulo 2^16 every odd generator has order dividing
// the modulus, so exponent arithmetic mod q is sound end to end.
fn toy_params() -> GroupParams {
    GroupParams { g: 3, h: 5, q: 65536 }
}

#[test]
fn honest_login_mints_session() {
    let p = toy_params();
    let mut server = ZkpServer::new(p);
    let x: u64 = 4;
    let (y1, y2) = commit(&p, x);
    assert_eq!((y1, y2), (81, 625));
    server
        .register("alice".to_string(), y1, y2, p.g, p.h)
        .unwrap();

    let k: u64 = 7;
    let (r1, r2) = commit(&p, k);
    assert_eq!((r1, r2), (2187, 12589));
    let c: u64 = 3;
    server
        .issue_challenge("alice".to_string(), r1, r2, c, "abc".to_string())
        .unwrap();

    let s = compute_response(&p, k, c, x);
    assert_eq!(s, 65531);
    let auth_id = "abc".to_string();
    server
        .verify(&auth_id, s, "session-1".to_string())
        .unwrap();
    let sid = "session-1".to_string();
    assert_eq!(server.session_user(&sid), Some("alice".to_string()));
}

#[test]
fn honest_login_with_random_challenge() {
    let p = toy_params();
    let mut server = ZkpServer::new(p);
    let x: u64 = 12345;
    let (y1, y2) = commit(&p, x);
    server
        .register("alice".to_string(), y1, y2, p.g, p.h)
        .unwrap();
    let k: u64 = 54321 % p.q;
    let (r1, r2) = commit(&p, k);
    let (c, auth_id) = server
        .create_authentication_challenge("alice".to_string(), r1, r2)
        .unwrap();
    // the drawn challenge must lie in [0, q) and the handle is opaque
    assert!(c < p.q);
    assert_eq!(auth_id.len(), 36);
    let s = compute_response(&p, k, c, x);
    let session_id = server.verify_authentication(&auth_id, s).unwrap();
    assert_eq!(session_id.len(), 36);
    assert_eq!(server.session_user(&session_id), Some("alice".to_string()));
}

#[test]
fn handle_is_single_use_after_success() {
    let p = toy_params();
    let mut server = ZkpServer::new(p);
    let x: u64 = 4;
    let (y1, y2) = commit(&p, x);
    server
        .register("alice".to_string(), y1, y2, p.g, p.h)
        .unwrap();
    let (r1, r2) = commit(&p, 7);
    server
        .issue_challenge("alice".to_string(), r1, r2, 3, "abc".to_string())
        .unwrap();
    let s = compute_response(&p, 7, 3, x);
    let auth_id = "abc".to_string();
    assert!(server.verify(&auth_id, s, "session-1".to_string()).is_ok());
    // replaying the handle answers NotFound, not InvalidProof
    assert_eq!(
        server.verify(&auth_id, s, "session-2".to_string()),
        Err(ZkpError::NotFound),
    );
}

#[test]
fn handle_is_single_use_after_failure() {
    let p = toy_params();
    let mut server = ZkpServer::new(p);
    let x: u64 = 4;
    let (y1, y2) = commit(&p, x);
    server
        .register("alice".to_string(), y1, y2, p.g, p.h)
        .unwrap();
    let (r1, r2) = commit(&p, 7);
    server
        .issue_challenge("alice".to_string(), r1, r2, 3, "abc".to_string())
        .unwrap();
    let s = compute_response(&p, 7, 3, x);
    let tampered = (s + 1) % p.q;
    let auth_id = "abc".to_string();
    assert_eq!(
        server.verify(&auth_id, tampered, "session-1".to_string()),
        Err(ZkpError::InvalidProof),
    );
    // the failed attempt consumed the handle all the same
    assert_eq!(
        server.verify(&auth_id, s, "session-2".to_string()),
        Err(ZkpError::NotFound),
    );
}

#[test]
fn tampered_response_mints_no_session() {
    let p = toy_params();
    let mut server = ZkpServer::new(p);
    let x: u64 = 900;
    let (y1, y2) = commit(&p, x);
    server
        .register("alice".to_string(), y1, y2, p.g, p.h)
        .unwrap();
    let (r1, r2) = commit(&p, 321);
    server
        .issue_challenge("alice".to_string(), r1, r2, 17, "abc".to_string())
        .unwrap();
    let s = compute_response(&p, 321, 17, x);
    let tampered = (s + 1) % p.q;
    let auth_id = "abc".to_string();
    assert_eq!(
        server.verify(&auth_id, tampered, "session-1".to_string()),
        Err(ZkpError::InvalidProof),
    );
    let sid = "session-1".to_string();
    assert_eq!(server.session_user(&sid), None);
}

#[test]
fn wrong_secret_is_rejected() {
    let p = toy_params();
    let mut server = ZkpServer::new(p);
    let x: u64 = 4;
    let (y1, y2) = commit(&p, x);
    server
        .register("alice".to_string(), y1, y2, p.g, p.h)
        .unwrap();
    let (r1, r2) = commit(&p, 7);
    server
        .issue_challenge("alice".to_string(), r1, r2, 3, "abc".to_string())
        .unwrap();
    // a prover who only guessed the secret
    let s = compute_response(&p, 7, 3, x + 1);
    let auth_id = "abc".to_string();
    assert_eq!(
        server.verify(&auth_id, s, "session-1".to_string()),
        Err(ZkpError::InvalidProof),
    );
}

#[test]
fn second_registration_fails() {
    let p = toy_params();
    let mut server = ZkpServer::new(p);
    let (y1, y2) = commit(&p, 4);
    server
        .register("alice".to_string(), y1, y2, p.g, p.h)
        .unwrap();
    let (z1, z2) = commit(&p, 9);
    assert_eq!(
        server.register("alice".to_string(), z1, z2, p.g, p.h),
        Err(ZkpError::AlreadyRegistered),
    );
    // the stored registration is still the first one: logging in with
    // the first secret succeeds
    let (r1, r2) = commit(&p, 7);
    server
        .issue_challenge("alice".to_string(), r1, r2, 3, "abc".to_string())
        .unwrap();
    let s = compute_response(&p, 7, 3, 4);
    let auth_id = "abc".to_string();
    assert!(server.verify(&auth_id, s, "session-1".to_string()).is_ok());
}

#[test]
fn concurrent_challenges_are_exclusive() {
    let p = toy_params();
    let mut server = ZkpServer::new(p);
    let (y1, y2) = commit(&p, 4);
    server
        .register("alice".to_string(), y1, y2, p.g, p.h)
        .unwrap();
    let (r1, r2) = commit(&p, 7);
    server
        .issue_challenge("alice".to_string(), r1, r2, 3, "first".to_string())
        .unwrap();
    let (r3, r4) = commit(&p, 8);
    assert_eq!(
        server.issue_challenge("alice".to_string(), r3, r4, 5, "second".to_string()),
        Err(ZkpError::ChallengeInProgress),
    );
    assert_eq!(
        server.create_authentication_challenge("alice".to_string(), r3, r4),
        Err(ZkpError::ChallengeInProgress),
    );
}

#[test]
fn unknown_handle_is_not_found() {
    let p = toy_params();
    let mut server = ZkpServer::new(p);
    let auth_id = "never-issued".to_string();
    assert_eq!(
        server.verify(&auth_id, 0, "session-1".to_string()),
        Err(ZkpError::NotFound),
    );
}

#[test]
fn challenge_without_registration_is_not_found() {
    let p = toy_params();
    let mut server = ZkpServer::new(p);
    let (r1, r2) = commit(&p, 7);
    server
        .issue_challenge("ghost".to_string(), r1, r2, 3, "abc".to_string())
        .unwrap();
    let auth_id = "abc".to_string();
    assert_eq!(
        server.verify(&auth_id, 1, "session-1".to_string()),
        Err(ZkpError::NotFound),
    );
}

#[test]
fn completeness_over_many_secrets() {
    let p = toy_params();
    for x in [0u64, 1, 2, 4, 100, 4097, 30000, 65535] {
        for k in [0u64, 1, 7, 512, 65535] {
            for c in [0u64, 1, 3, 255, 65535] {
                let (y1, y2) = commit(&p, x);
                let (r1, r2) = commit(&p, k);
                let s = compute_response(&p, k, c, x);
                let mut server = ZkpServer::new(p);
                server
                    .register("u".to_string(), y1, y2, p.g, p.h)
                    .unwrap();
                server
                    .issue_challenge("u".to_string(), r1, r2, c, "a".to_string())
                    .unwrap();
                let auth_id = "a".to_string();
                assert!(
                    server.verify(&auth_id, s, "sid".to_string()).is_ok(),
                    "honest login rejected for x={x} k={k} c={c}",
                );
            }
        }
    }
}

#[test]
fn challenge_is_owed_when_none_in_progress() {
    // with no live challenge for the user and an empty handle store,
    // the issuance contract obliges success
    let p = toy_params();
    let mut server = ZkpServer::new(p);
    let (r1, r2) = commit(&p, 7);
    assert!(
        server
            .create_authentication_challenge("alice".to_string(), r1, r2)
            .is_ok()
    );
}

#[test]
fn degenerate_generators_are_refused() {
    let p = toy_params();
    let mut server = ZkpServer::new(p);
    let (y1, y2) = commit(&p, 4);
    // the group identity as a generator makes one half of the proof
    // trivially satisfiable; registration refuses it
    assert_eq!(
        server.register("alice".to_string(), y1, y2, 1, p.h),
        Err(ZkpError::MalformedInput),
    );
    assert_eq!(
        server.register("alice".to_string(), y1, y2, p.g, 0),
        Err(ZkpError::MalformedInput),
    );
    // nothing was stored: an honest registration still succeeds
    assert_eq!(server.register("alice".to_string(), y1, y2, p.g, p.h), Ok(()));
}

#[test]
fn already_registered_takes_precedence_over_malformed() {
    let p = toy_params();
    let mut server = ZkpServer::new(p);
    let (y1, y2) = commit(&p, 4);
    server
        .register("alice".to_string(), y1, y2, p.g, p.h)
        .unwrap();
    // the duplicate identity is reported before the degenerate record
    assert_eq!(
        server.register("alice".to_string(), y1, y2, 1, 1),
        Err(ZkpError::AlreadyRegistered),
    );
}
