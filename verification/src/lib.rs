//! Streaming conversion core for hierarchical volumetric microscopy data.
//!
//! One 3D dataset per (resolution level, channel) pair is read in
//! bounded-depth chunks along its outer axis and turned into an ordered
//! sequence of 2D grayscale frames: the page sequence of one big-TIFF
//! container per pair. The store keeps 8-bit volumes in `(x, y, z)` order
//! and 16-bit volumes in `(z, y, x)` order; both are chunked along the
//! outer axis and emitted as pages of width `d2` and height `d1`, so a
//! 16-bit page shows the sample for `(z, y, x)` at column `x` of row `y` —
//! the axis correction that `volume::lemma_frame_pixel` states — while an
//! 8-bit stack reassembles the stored bytes unchanged
//! (`pipeline::lemma_round_trip`). Everything in this crate is pure
//! computation over plain values; the binary around it performs the store
//! and file I/O.

pub mod config;
pub mod naming;
pub mod pipeline;
pub mod slicer;
pub mod volume;
