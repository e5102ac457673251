//! Anonymous ring-membership proofs: key derivation, ring commitments, proof
//! creation and proof validation with alias recovery.
//!
//! A party that holds the secret of one member of a ring proves that it holds
//! the secret of some member, without saying which, and shows an alias that
//! is the same whenever the same secret speaks for the same context and
//! message.
//!
//! The curve arithmetic and the proof system are not part of this crate. They
//! come in as capabilities, functions that the caller hands over: the
//! derivation of a point from a seed, the lookup of a basis element, the fold
//! of a member into an aggregate, the prover, the reader of proofs and the
//! verifier. Every operation
//! states its result in terms of what the capabilities returned, and the laws
//! of the protocol are proved of every set of capabilities that are functions
//! of their arguments. The module `trivial` holds one such set, without any
//! cryptography.

pub mod bytes;
pub mod commitment;
pub mod engine;
pub mod error;
pub mod keys;
pub mod protocol;
pub mod ring;
pub mod scale;
pub mod trivial;
pub mod verifier_key;
