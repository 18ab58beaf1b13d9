//! Content-addressed distribution of versioned file collections: a publisher
//! snapshots a folder into a manifest of fingerprinted entities, and a client
//! plans, from such a manifest, the index rows to write and the blobs to fetch.

pub mod crypto;
pub mod repository;
pub mod sql;
pub mod text;
