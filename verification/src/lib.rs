//! Verified core of the photo digitizer: the integer and text logic behind
//! sheet segmentation, white-border trimming, tiled upscaling, photo naming,
//! the per-photo job table and the sidecar protocol.

pub mod jobs;
pub mod margins;
pub mod masks;
pub mod naming;
pub mod npy;
pub mod orientation;
pub mod overlay;
pub mod phantom;
pub mod raster;
pub mod service;
pub mod sizing;
pub mod text;
pub mod tiling;
