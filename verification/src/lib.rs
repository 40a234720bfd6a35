//! A line-oriented file-splitting engine.
//!
//! Given the lines of a text file and a list of inclusive line-number
//! ranges, each paired with a destination path, the engine partitions the
//! lines into one group per range in a single forward pass, then reconciles
//! the requested ranges against the file's actual length.  Planning
//! (turning user input into validated ranges with derived destination
//! filenames) and the post-pass coverage check are part of the library;
//! reading and writing the files themselves is left to the caller.
//!
//! A companion set of modules covers the pure side of subtitle handling:
//! framing the player object out of a watch page, choosing a caption
//! track, and rendering timed transcript events as SRT text.

pub mod config;
pub mod digits;
pub mod engine;
pub mod errors;
pub mod paths;
pub mod plan;
pub mod player;
pub mod subtitles;
