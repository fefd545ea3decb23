//! Verifiable encryption of discrete-log secrets under threshold BLS oracle
//! attestations: a cut-and-choose protocol between a dealer and a receiver.
//!
//! The dealer holds a secret scalar for each outcome of an event. In three
//! messages it gives the receiver encryptions from which the receiver gets
//! the secret of the outcome that a threshold of oracles attests to.
//!
//! - [`chain`], [`bls`], [`hash`], [`encoding`]: the groups, fields and hash
//!   that the protocol computes in, as outside crates provide them.
//! - [`common`], [`layout`], [`messages`]: the parameters, where the
//!   commitments go, and the messages.
//! - [`poly`], [`pads`], [`shamir`], [`lagrange`]: polynomials, the tree of
//!   pads, and putting a secret together from shares.
//! - [`dleq`]: proofs that a ciphertext and a commitment share their
//!   randomness.
//! - [`alice`], [`bob`], [`checks`], [`bucket`], [`oracle`]: the dealer, the
//!   receiver and the oracles.
//! - [`honest`], [`session`]: what holds when all are honest.

pub mod alice;
pub mod bls;
pub mod bob;
pub mod bucket;
pub mod chain;
pub mod checks;
pub mod common;
pub mod dleq;
pub mod encoding;
pub mod hash;
pub mod lagrange;
pub mod honest;
pub mod layout;
pub mod messages;
pub mod oracle;
pub mod pads;
pub mod poly;
pub mod session;
pub mod shamir;
