//! Core of a desktop screenshot-and-annotate tool.
//!
//! The crate stitches per-monitor captures into one virtual-desktop raster,
//! extracts a user-selected region, manages free-hand and straight-line
//! strokes with undo/redo history, and bakes the strokes into the output
//! pixels. Strokes are stored in a normalized, resolution-independent canvas
//! space held as fixed-point integers, so every coordinate transform is exact
//! integer arithmetic with proved bounds.

pub mod crop;
pub mod errors;
pub mod history;
pub mod hotkeys;
pub mod monitor;
pub mod painting;
pub mod raster;
pub mod render;
pub mod savefile;
pub mod selection;
pub mod session;
pub mod stitch;
pub mod strokes;
pub mod transform;
