//! Batch image-scaling pipeline model.
//!
//! The library models a build-time asset pipeline that turns a directory of
//! raster images into scaled archival derivatives: it filters candidate
//! files by extension, parses the resolution record reported by the image
//! probe, applies exact truncating percentage arithmetic, and folds the
//! per-image results into a title-keyed size map.  All decisions are made
//! here and verified; the surrounding binary only performs the file-system
//! and subprocess work and hands plain values back.

pub mod probe;
pub mod process;
pub mod size_map;
pub mod utils;
