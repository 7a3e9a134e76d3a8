//! Backend core of an interactive SQL client.
//!
//! The crate turns a textual request into executed database statements and
//! shapes raw wire-level results into a renderable response stream. It holds
//! an event bus that decouples UI-originated actions from backend execution,
//! a session registry that owns one logical connection slot per tab identity,
//! and a result batcher that converts a flat sequence of query messages into
//! self-consistent tables and command-completion markers.

pub mod debug_logger;
pub mod error;
pub mod event;
pub mod pg_response;
pub mod pg_session;
