#![allow(non_snake_case)]
use vstd::prelude::*;

pub mod binner;
pub mod config_info;
pub mod data;
pub mod graph;
pub mod loader;
pub mod rat;
pub mod strokes;
pub mod turning;

verus! {

/// The recoverable failures of the telemetry pipeline.
///
/// Every stage returns one of these to its immediate caller instead of
/// panicking; a failed stage leaves previously published results intact.
#[derive(Debug, Clone, PartialEq, Eq)]
pub enum TelemetryError {
    /// A channel names a calibration reference that the config mapping lacks.
    CalibrationNotFound(String),
    /// The calibration bounds calculator was given `observed_min == observed_max`.
    InvalidCalibrationBounds,
    /// The binner was given a zero or negative `max_val`.
    InvalidBinningRange,
    /// A buffer is shorter than a stage needs (detector window, or empty input).
    InsufficientSamples,
    /// A result slot was written twice within one rebuild.
    DuplicateField,
    /// A result slot was read before any rebuild filled it.
    FieldNotFound,
}

} // verus!
