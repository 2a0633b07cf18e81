//! Retrieval pipeline for encrypted HTTP Live Streaming packages: playlist
//! parsing and rewriting, segment naming, key/IV resolution, AES-128-CBC
//! segment decryption, a bounded-concurrency fetch schedule, and delivery
//! session negotiation with keepalive.

pub mod bytes;
pub mod metadata;
mod crypto;
mod error;
pub mod playlist;
pub mod queue;
pub mod session;
pub mod totp;
pub mod web;

pub use crypto::{cbc_decrypt, decrypt, encrypt};
pub use error::Error;
pub use metadata::{Series, Video};
pub use playlist::url_to_filename;
pub use totp::compute_totp;
