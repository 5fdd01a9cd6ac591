//! Core of a non-linear video editing engine: a multi-track timeline,
//! a per-file decoder state machine, an LRU frame cache, a renderer that
//! composes timeline time into frames, subtitle alpha blending with
//! YUV conversions, and an export job state machine.
//!
//! All media I/O (containers, codecs, encoders, threads) lives outside this
//! crate; the logic here is pure and carries contracts throughout.

pub mod clip;
pub mod frame;
pub mod track;
pub mod timeline;
pub mod cache;
pub mod effects;
pub mod overlay;
pub mod convert;
pub mod decoder;
pub mod renderer;
pub mod export;
pub mod scale;
