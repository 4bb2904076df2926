//! Non-interactive Schnorr proofs of knowledge of a discrete logarithm on
//! secp256k1, together with the decisions of the two services that carry
//! such proofs between two parties: the rendezvous under which they meet
//! and the one-shot socket exchange over which they talk.
//!
//! Group and scalar arithmetic is delegated to `k256`, hashing to `sha2`,
//! randomness to `rand`. Everything around those calls (byte layouts, the
//! Fiat-Shamir transcript, the proving and verifying equations, the wire
//! format) is verified.

pub mod encoding;
pub mod error;
pub mod scalar;
pub mod point;
pub mod transcript;
pub mod dlog;
pub mod rendezvous;
pub mod bridge;

pub use dlog::DLogProof;
pub use error::InvalidInputError;
pub use point::Point;
pub use rendezvous::Rendezvous;
pub use scalar::{generate_random_scalar, Scalar};
