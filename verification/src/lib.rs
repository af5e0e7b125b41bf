//! Request deduplication and response replay for a newsletter backend.
//!
//! The heart of the crate is the idempotent publish guard: a caller-supplied
//! token identifies one logical submission, a durable store keyed by
//! `(user, token)` coordinates duplicate submissions, and a completed
//! submission's HTTP response is captured byte-exactly so every retry is
//! answered with the same response without re-running the side effect.

pub mod key;
pub mod response;
pub mod codec;
pub mod auth;
pub mod store;
pub mod publish;
pub mod subscriptions;
pub mod confirm;
pub mod newsletters;
pub mod login;
pub mod laws;
