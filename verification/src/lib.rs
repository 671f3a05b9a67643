//! Core of a fitness-coaching backend: a record store with
//! last-write-wins synchronization, nearest-neighbor retrieval over
//! fixed-point embedding vectors, a retrieval-augmented prompt builder,
//! a credential store, and the chat orchestration state machine.
//!
//! Everything that talks to the outside world — the HTTP surface, the
//! database, the embedding model, and the completion endpoint — lives
//! outside this crate and hands plain values in and out.

pub mod auth;
pub mod chat;
pub mod embedding;
pub mod numfmt;
pub mod prompt;
pub mod record;
pub mod store;
