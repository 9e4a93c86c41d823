//! A verified cache-aside layer for a caching reverse proxy.
//!
//! The crate fingerprints requests, persists response records in an
//! embedded key-value store, judges freshness by a time-to-live at read
//! time, and decides when a forwarded response may be stored. The one
//! operation it leaves to the embedding program is the forward to the
//! upstream service.

pub mod bytesutil;
pub mod codec;
pub mod entry;
pub mod fingerprint;
pub mod proxy;
pub mod store;
