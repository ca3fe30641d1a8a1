//! The verified core of a two-provider secure multi-party computation
//! service.
//!
//! Two subsystems carry the weight.  The secret-sharing side — `field`,
//! `codec`, `masks` and `engine` — turns a cleartext value into additive
//! shares held by two computation providers, together with the correlated
//! randomness a secure-multiplication engine needs, and proves the central
//! protocol fact: the providers' halves always sum back to the committed
//! value modulo the prime.  The coordination side — `models`, `store`,
//! `config`, `participation`, `collaboration` and `orchestrator` — tracks
//! who has contributed input, detects quorum, and triggers the computation
//! engine exactly once per collaboration through a uniqueness-constrained
//! marker insert.
//!
//! Everything that must leave the process — the engine invocation itself,
//! HTTP deliveries, files — is driven from outside over plain values; the
//! only trusted boundaries inside the library are the base64 codec, the
//! random number source, and UTF-8 string construction.

pub mod b64;
pub mod client;
pub mod codec;
pub mod collaboration;
pub mod config;
pub mod engine;
pub mod error;
pub mod field;
pub mod masks;
pub mod models;
pub mod notify;
pub mod orchestrator;
pub mod participation;
pub mod store;
pub mod table;
