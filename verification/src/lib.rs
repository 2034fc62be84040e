//! A gap-filling engine for sparse numeric series sampled at a unit-step
//! cadence. Given samples sorted by strictly increasing integer position,
//! `engine::fill` synthesizes one sample for every missing unit-step position
//! strictly between the minimum and maximum observed positions, valuing each
//! according to a caller-selected strategy. Sample values are IEEE-754
//! numbers carried opaquely in `imbue::DataPoint`; all position logic and the
//! shape of the output are verified, while the two floating-point value
//! operations (the zero value and the mean of two values) are delegated to
//! trusted wrappers.

pub mod data;
pub mod engine;
pub mod laws;
pub mod service;
