//! Reconciliation engine for syncing local image directories against a
//! remote post-hosting service.
//!
//! The library holds the verified core: the post snapshot model, the
//! content hasher boundary, the diff engine, the sync-executor planning,
//! and the cache codec with its round-trip guarantee. I/O (file system, network, CLI) lives
//! outside the library and hands it plain values.

pub mod cache;
pub mod config;
pub mod diff;
pub mod hasher;
pub mod post;
pub mod snapshot;
pub mod sync;
