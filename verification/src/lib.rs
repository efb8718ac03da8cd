//! A Chaum-Pedersen zero-knowledge proof used as a password-less
//! authentication protocol: a client proves knowledge of a secret exponent
//! `x` behind a pair of commitments `(g^x, h^x) mod q` without revealing it,
//! across a register / challenge / verify handshake.

pub mod arith;
pub mod codec;
pub mod errors;
pub mod laws;
pub mod protocol;
mod rng;
pub mod server;

pub use arith::{mod_pow, mul_mod};
pub use errors::ZkpError;
pub use protocol::GroupParams;
pub use server::ZkpServer;
