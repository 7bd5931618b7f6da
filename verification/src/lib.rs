//! A chat-room bridge for a quantified-tracking service: numeric messages in a
//! room become data points on a remote goal, and the bot replies with the
//! goal's updated safety-buffer statistics.
//!
//! This crate holds the verified core: the value parser, the idempotency-key
//! derivation, the request building and response classification for the
//! tracking service, and the per-message update protocol expressed as a state
//! machine. Session plumbing and the actual network calls live outside.

pub mod beeminder;
pub mod bot;
pub mod dates;
pub mod numfmt;
pub mod parse;
pub mod settings;

pub use settings::Settings;
