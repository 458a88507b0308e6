//! Scene-parallel video encoding driver: the verified core.
//!
//! The library holds the logic of a content-adaptive encoding pipeline:
//! the bisection state for per-scene quality searches, the scene catalog
//! and its partition invariant, the search decision rules, the per-clip
//! metric records, the cache identifiers, and the exact command-line and
//! file-name strings handed to the external decoder, encoders and muxer.
//! Process management, file I/O and progress display live outside, in a
//! thin unverified shell that calls into these functions.

pub mod colors;
pub mod config;
pub mod digest;
pub mod merge;
pub mod metrics;
pub mod paths;
pub mod quality;
pub mod scenes;
pub mod search;
pub mod sidecar;
pub mod text;
