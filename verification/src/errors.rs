//! The protocol's error taxonomy. Every error is terminal for the attempt
//! that raised it; the core never retries internally.

use vstd::prelude::*;

verus! {

/// Typed outcome of a failed protocol operation.
#[derive(Clone, Copy, PartialEq, Eq, Structural, Debug)]
pub enum ZkpError {
    /// A register call for a user identity that already holds a registration.
    AlreadyRegistered,
    /// A challenge request for a user who already has a live challenge,
    /// or whose fresh handle collides with a live one.
    ChallengeInProgress,
    /// An unknown, expired or replayed authentication handle, or a handle
    /// whose user lacks a challenge or a registration.
    NotFound,
    /// The verification equation does not hold for the submitted response.
    InvalidProof,
    /// A byte sequence that is not the canonical encoding of a group
    /// element in range, or a registration whose generator is zero or
    /// the group identity.
    MalformedInput,
}

} // verus!
