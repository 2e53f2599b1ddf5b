//! A self-hosted audio catalog and streaming library.
//!
//! The crate holds the verified core of the service: the in-memory catalog
//! with its duration-based category indices, the indexing walker's decision
//! logic, the metadata warmer's state updates, the deduplicating work queue,
//! the playback-token cache with time-based eviction, and the byte-range
//! parsing and planning used for streaming. I/O (filesystem walking, tag
//! probing, the HTTP server, the persistent store) lives outside the library
//! and hands plain values in.

pub mod backup;
pub mod catalog;
pub mod config;
pub mod plays;
pub mod queue;
pub mod range;
pub mod selection;
pub mod strutil;
pub mod track;
pub mod walker;
pub mod warmer;
