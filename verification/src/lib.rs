//! Core of a decoder for APT, the analogue picture transmission of weather
//! satellites: the bookkeeping of the signal chain, the line synchroniser and
//! the assembly of the picture, verified with Verus.
//!
//! A recording passes through an envelope demodulator, a low-pass filter, a
//! resampler by 13/150, the synchroniser and the line assembler. Every stage
//! is part arithmetic on real-valued samples and part bookkeeping: which
//! samples a window holds, which of them meets which coefficient, when a
//! block is complete, where a line starts, which pixel a sample lands on.
//! This crate is the bookkeeping. It stores and routes samples without
//! computing with them, and is therefore generic in the sample type; the
//! arithmetic on samples stays with the caller, who feeds its results in as
//! plain values: a bit per window position, a gray level per pixel.
//!
//! Each stateful type has a mathematical model (its view) with the steps of
//! the stage as specification functions, which the executable methods are
//! proved to follow. What holds of every run is stated over those models as
//! proof functions next to them.
//!
//! - [`firfilter`]: the delay line of the low-pass filter.
//! - [`resamplers`]: zero insertion and block averaging.
//! - [`aptsyncer`]: the sliding window and its match against the two sync
//!   patterns.
//! - [`decoder`]: checks on the recording, picture geometry, line assembly
//!   and the pacing of progress reports.
//! - [`canvas`]: the picture itself.
//! - [`utils`]: scaling of stored samples.
//! - [`errors`]: what makes a recording undecodable.

pub mod aptsyncer;
pub mod canvas;
pub mod decoder;
pub mod errors;
pub mod firfilter;
pub mod resamplers;
pub mod utils;
