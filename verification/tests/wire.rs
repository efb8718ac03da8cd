//! The three operations as the transport carries them: byte-encoded
//! group elements in, byte-encoded challenge out, and malformed bytes
//! refused before any state changes.

use zkp_auth::codec::{decode_be, encode_be};
use zkp_auth::errors::ZkpError;
use zkp_auth::protocol::{check_params, commit, compute_response, GroupParams};
use zkp_auth::server::ZkpServer;

fn toy_params() -> GroupParams {
    GroupParams { g: 3, h: 5, q: 65536 }
}

#[test]
fn toy_params_are_valid() {
    assert!(check_params(&toy_params()));
    assert!(!check_params(&GroupParams { g: 1, h: 5, q: 65536 }));
    assert!(!check_params(&GroupParams { g: 3, h: 5, q: 1 }));
    assert!(!check_params(&GroupParams { g: 3, h: 65536, q: 65536 }));
}

#[test]
fn full_handshake_over_bytes() {
    let p = toy_params();
    let mut server = ZkpServer::new(p);
    let x: u64 = 4;
    let (y1, y2) = commit(&p, x);
    server
        .register_bytes(
            "alice".to_string(),
            &encode_be(y1),
            &encode_be(y2),
            &encode_be(p.g),
            &encode_be(p.h),
        )
        .unwrap();
    let k: u64 = 7;
    let (r1, r2) = commit(&p, k);
    let (c_bytes, auth_id) = server
        .create_authentication_challenge_bytes(
            "alice".to_string(),
            &encode_be(r1),
            &encode_be(r2),
        )
        .unwrap();
    let c = decode_be(&c_bytes).unwrap();
    assert!(c < p.q);
    let s = compute_response(&p, k, c, x);
    let session_id = server
        .verify_authentication_bytes(&auth_id, &encode_be(s))
        .unwrap();
    assert_eq!(server.session_user(&session_id), Some("alice".to_string()));
}

#[test]
fn register_rejects_malformed_bytes() {
    let p = toy_params();
    let mut server = ZkpServer::new(p);
    let (y1, y2) = commit(&p, 4);
    // an empty encoding is not a value
    assert_eq!(
        server.register_bytes(
            "alice".to_string(),
            &vec![],
            &encode_be(y2),
            &encode_be(p.g),
            &encode_be(p.h),
        ),
        Err(ZkpError::MalformedInput),
    );
    // a set sign bit would be a negative value
    assert_eq!(
        server.register_bytes(
            "alice".to_string(),
            &encode_be(y1),
            &vec![0x85],
            &encode_be(p.g),
            &encode_be(p.h),
        ),
        Err(ZkpError::MalformedInput),
    );
    // a redundant leading zero is not canonical
    assert_eq!(
        server.register_bytes(
            "alice".to_string(),
            &vec![0x00, 0x51],
            &encode_be(y2),
            &encode_be(p.g),
            &encode_be(p.h),
        ),
        Err(ZkpError::MalformedInput),
    );
    // a value at or beyond the modulus is out of range
    assert_eq!(
        server.register_bytes(
            "alice".to_string(),
            &encode_be(p.q),
            &encode_be(y2),
            &encode_be(p.g),
            &encode_be(p.h),
        ),
        Err(ZkpError::MalformedInput),
    );
    // nothing was stored by the refused attempts
    assert_eq!(
        server.register_bytes(
            "alice".to_string(),
            &encode_be(y1),
            &encode_be(y2),
            &encode_be(p.g),
            &encode_be(p.h),
        ),
        Ok(()),
    );
}

#[test]
fn challenge_rejects_malformed_bytes() {
    let p = toy_params();
    let mut server = ZkpServer::new(p);
    assert_eq!(
        server.create_authentication_challenge_bytes(
            "alice".to_string(),
            &vec![0xff],
            &encode_be(1),
        ),
        Err(ZkpError::MalformedInput),
    );
    // the refused request left no live challenge behind
    let (r1, r2) = commit(&p, 7);
    assert!(
        server
            .create_authentication_challenge_bytes(
                "alice".to_string(),
                &encode_be(r1),
                &encode_be(r2),
            )
            .is_ok()
    );
}

#[test]
fn verify_rejects_malformed_response() {
    let p = toy_params();
    let mut server = ZkpServer::new(p);
    let (y1, y2) = commit(&p, 4);
    server
        .register_bytes(
            "alice".to_string(),
            &encode_be(y1),
            &encode_be(y2),
            &encode_be(p.g),
            &encode_be(p.h),
        )
        .unwrap();
    let (r1, r2) = commit(&p, 7);
    let (_c, auth_id) = server
        .create_authentication_challenge_bytes(
            "alice".to_string(),
            &encode_be(r1),
            &encode_be(r2),
        )
        .unwrap();
    // out-of-range response: refused without consuming the handle
    assert_eq!(
        server.verify_authentication_bytes(&auth_id, &encode_be(p.q + 5)),
        Err(ZkpError::MalformedInput),
    );
    // non-canonical response bytes: refused as well
    assert_eq!(
        server.verify_authentication_bytes(&auth_id, &vec![0x00, 0x07]),
        Err(ZkpError::MalformedInput),
    );
}

#[test]
fn register_rejects_degenerate_generator_bytes() {
    let p = toy_params();
    let mut server = ZkpServer::new(p);
    let (y1, y2) = commit(&p, 4);
    // a well-encoded identity generator is still refused
    assert_eq!(
        server.register_bytes(
            "alice".to_string(),
            &encode_be(y1),
            &encode_be(y2),
            &encode_be(1),
            &encode_be(p.h),
        ),
        Err(ZkpError::MalformedInput),
    );
}
