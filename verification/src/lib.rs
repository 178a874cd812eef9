//! Partition planning and timeline remapping for splitting a media file into
//! size-bounded outputs while omitting excluded time ranges.
//!
//! All timestamps are integer milliseconds, matching the `HH:MM:SS.mmm`
//! resolution used when talking to the external encoder.

pub mod calculator;
pub mod files;
pub mod metadata;
pub mod models;
pub mod naming;
pub mod splitter;
pub mod text;
pub mod thumbnails;
pub mod timefmt;
pub mod timeline;

pub use models::{
    DirectoryEntry, PartitionPoint, SplitRequest, TimeInterval, VideoMetadata, all_wf, covers,
    disjoint_sorted, total_len,
};
