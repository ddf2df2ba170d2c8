//! The configuration that the library's decisions depend on.

use vstd::prelude::*;

verus! {

/// How perceptual hashes are made and compared.
#[derive(Debug, PartialEq, Eq)]
pub struct HashConfig {
    /// The number of bits of a hash.
    pub bits: u32,
    /// The version under which hashes are cached; a change discards them.
    pub hash_version: String,
    /// The largest Hamming distance at which two images count as
    /// duplicates.
    pub effective_threshold: u32,
    /// Whether the thumbnail is hashed in preference to the original.
    pub use_thumbnails_first: bool,
}

/// How thumbnails are made.
#[derive(Debug, PartialEq, Eq)]
pub struct ThumbnailSettings {
    /// The largest width and height of a thumbnail, in pixels.
    pub max_dim: u32,
    pub image_webp_quality: u32,
    pub image_webp_compression_level: u32,
    /// Where in a video the still is taken, in milliseconds.
    pub video_seek_millis: u64,
    /// How long to wait before looking at a held lock again.
    pub lock_poll_ms: u64,
    /// How long a writer waits for a lock that another holds before it
    /// takes the holder to be gone.
    pub lock_wait_ms: u64,
    /// The version under which thumbnails are kept; a change discards them.
    pub thumb_version: String,
}

/// How background work is scheduled.
#[derive(Clone, Copy, Debug, PartialEq, Eq)]
pub struct PreloadSettings {
    pub thumb_workers: u32,
    pub meta_workers: u32,
    pub hash_workers: u32,
    /// The shortest time between two progress events of one stage.
    pub progress_emit_ms: u64,
    pub thumb_hash_queue_delay_ms: u64,
    pub thumb_hash_retry_on_thumb_change: bool,
    /// How long hashing may go without finishing a file before the files
    /// in progress are looked at.
    pub hash_stall_ms: u64,
    /// How long a file may be in progress before it counts as stuck.
    pub hash_stuck_ms: u64,
}

} // verus!
