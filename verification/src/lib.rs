//! Core of a live microphone transcription pipeline: sample-format
//! normalization, streaming sample-rate conversion, adaptive batching, the
//! framed wire protocol of the out-of-process capture worker, and the state
//! machines that drive a capture session and its outbound streaming session.
//!
//! Everything here is pure logic over plain values; the audio backend, the
//! worker process and the network socket are driven by a thin unverified
//! shell that calls into this crate.

pub mod batcher;
pub mod devices;
pub mod format;
pub mod level;
pub mod protocol;
pub mod resampler;
pub mod session;
pub mod text;
pub mod transcript;
