//! Verified core of a real-time head-pose tracking pipeline.
//!
//! The library holds the logic of the pipeline: ROI derivation, the
//! fixed-point reconstruction of 3D landmarks from a learned linear model,
//! the adaptive low-pass filter, the wire encoding of a 6-DOF pose, and the
//! session state machine that coordinates them at a bounded rate.  All
//! numeric work is done in signed 16.16 fixed point, so that every formula
//! is stated and proved exactly.  Device capture, neural-network inference
//! and socket I/O live outside the library and hand it plain values.

pub mod emitter;
pub mod errors;
pub mod filter;
pub mod fixed;
pub mod engine;
pub mod geometry;
pub mod image;
pub mod orchestrator;
pub mod pose;

use vstd::prelude::*;

verus! {

/// Number of degrees of freedom in an emitted pose: x, y, z, yaw, pitch, roll.
pub const POSE_DOF: usize = 6;

} // verus!
