//! The core of a media library on disk: albums are directories, and beside
//! the media of each album lie its sidecar artifacts: thumbnails, packed
//! metadata, perceptual hashes, favorite marks.
//!
//! This crate holds the decisions: how metadata is packed, what the sidecar
//! records, which work the scheduler queues and drops, and which files are
//! duplicates of each other. It reads no file and starts no thread; its
//! callers do, and hand it plain values.

pub mod album;
pub mod decimal;
pub mod duplicates;
pub mod error;
pub mod graph;
pub mod grouping;
pub mod hash_queue;
pub mod hash_work;
pub mod hashbits;
pub mod index;
pub mod metadata;
pub mod order;
pub mod paths;
pub mod preload;
pub mod probe;
pub mod queue;
pub mod runner;
pub mod settings;
pub mod text;
pub mod thumb;
pub mod union_find;
pub mod util;
