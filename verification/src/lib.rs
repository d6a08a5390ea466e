//! Post-processing pipeline for a segmentation-capable object detector.
//!
//! The library decodes raw per-anchor prediction tensors into scored candidate
//! boxes, suppresses redundant overlapping detections, rescales boxes back to
//! original image coordinates, and reconstructs per-instance segmentation
//! masks from mask coefficients and a shared prototype tensor.
//!
//! All quantities are exact integers: scores, thresholds and mask intensities
//! are fixed-point values scaled by [`units::UNIT`] (so `UNIT` stands for
//! `1.0`), and box coordinates are integer image pixels.

use vstd::prelude::*;

pub mod arith;
pub mod decode;
pub mod errors;
pub mod geometry;
pub mod masks;
pub mod model;
pub mod suppress;
pub mod units;

verus! {

} // verus!
