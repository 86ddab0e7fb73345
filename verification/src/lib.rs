//! Chaum-Pedersen zero-knowledge password authentication.
//!
//! A prover demonstrates knowledge of a password-derived secret `x` with
//! `(y1, y2) = (g^x, h^x)` in a shared group, without revealing `x`.  The
//! library offers two interchangeable group flavors (a multiplicative
//! subgroup of integers modulo a safe prime, and the Ristretto255 group),
//! the prover and verifier roles for each, and the verifier-side service
//! state machine with its user, challenge and session tables.

pub mod arith;
pub mod config;
pub mod digits;
pub mod discrete_logarithm;
pub mod elliptic_curve;
pub mod json;
pub mod service;
pub mod store;
pub mod wire;
