//! Discrete-time digital signal processing: a circular sample history, polyphase
//! filter banks, a streaming FIR filter and an arbitrary-rate resampler.
pub mod collections;
pub mod error;
pub mod filters;
pub mod math;
pub mod windows;
pub mod zero;
