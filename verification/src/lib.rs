//! Core of a terminal audio visualizer: a bounded single-producer /
//! single-consumer ring buffer that carries raw capture samples from the
//! audio callback to the analysis loop, the capture-side byte decoding and
//! channel down-mix, the logarithmic band boundary table, and the band
//! mapping / normalizing / smoothing stages that turn a per-bin level
//! spectrum into a fixed-length vector of meter values in 0..=100.
//!
//! Samples travel through the ring buffer as opaque 32-bit words (the
//! capture format delivers one 4-byte little-endian word per sample); the
//! numeric front end that turns a frame of words into per-bin levels is
//! left to the caller, which hands the result back as integer milli-decibel
//! values.

pub mod app;
pub mod bands;
pub mod capture;
pub mod ring;
