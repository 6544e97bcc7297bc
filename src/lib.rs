//! Conversion of Value Change Dump text into WaveJSON timing diagrams.
//!
//! The pipeline runs in three verified stages: [`grammar`] turns text into
//! the command sequence of [`ast`], [`model`] folds those commands into a
//! scope tree with one waveform per signal, and [`wavejson`] encodes each
//! waveform as a run-length wave string.
pub mod ast;
pub mod grammar;
pub mod model;
pub mod signal;
pub mod text;
pub mod types;
pub mod wavejson;
