//! Verified core of a tiled GPU screenshot pipeline.
//!
//! The renderer draws a very large image as a grid of tiles that each fit the
//! GPU's texture limit, reads every tile back from a row-padded staging
//! buffer, and stitches the tiles into one RGBA8 canvas that is handed to the
//! `image` crate.  This crate holds the integer logic of that pipeline: the
//! tile plan, the staging-buffer row layout, the stitching state machine and
//! the viewer's capture gate.
pub mod arith;
pub mod readback;
pub mod tiling;
pub mod stitch;
pub mod image_out;
pub mod matrix;
pub mod viewer;
