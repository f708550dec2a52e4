//! Persistence and indexing core for a small discussion board.
//!
//! Threads and replies are stored as JSON records in a single ordered
//! key-value store. This crate provides the verified key codec, the record
//! codec, count-based id allocation, the repositories over the store, and
//! the pagination engine. The HTTP front end around it is unverified
//! plumbing and lives outside this crate.

pub mod byteseq;
pub mod codec;
pub mod decimal;
pub mod ids;
pub mod json;
pub mod keys;
pub mod laws;
pub mod model;
pub mod pagination;
pub mod repo;
pub mod store;
