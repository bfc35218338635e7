//! Presentations of anonymous credentials.
//!
//! A holder of credentials answers a [`statement::PresentationSchema`] with a
//! [`presentation::Presentation`]: proofs of the statements of the schema, bound together by one
//! Fiat-Shamir challenge, and the claims that are disclosed. A verifier checks it against the
//! schema and the nonce.
//!
//! The encoding of claims and the cryptography of single statements come from a
//! [`suite::ProofSuite`]; nothing is supposed of what it answers. The contracts say what it is
//! asked, in which order, what is bound into the challenge, and what comes of every answer:
//! [`creation`] for making a presentation, [`verification`] for verifying one, [`message_types`]
//! and [`linking`] for how each claim takes part in the proofs, [`challenge`] for what is bound.
//! [`laws`] states what follows for presentations as a whole.

pub mod assign;
pub mod challenge;
pub mod claim;
pub mod create;
pub mod creation;
pub mod credential;
pub mod error;
pub mod laws;
pub mod linking;
pub mod message;
pub mod message_types;
pub mod ordered_map;
pub mod presentable;
pub mod presentation;
pub mod proofs;
pub mod scalar;
pub mod statement;
pub mod suite;
pub mod transcript;
pub mod verification;
pub mod verifiers;
pub mod verify;
