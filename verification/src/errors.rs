//! Why a recording cannot be decoded.

use vstd::prelude::*;

verus! {

/// What is wrong with the layout of the input samples.
#[derive(Clone, Copy, Debug, PartialEq, Eq, Structural)]
pub enum FormatFault {
    /// The recording has this many channels; exactly one is needed.
    ChannelCount(u16),
    /// Integer samples of this many bits are not handled.
    SampleWidth(u16),
}

/// A fatal decoding error. Nothing is retried; the caller gets the error and
/// no picture.
#[derive(Clone, Copy, Debug, PartialEq, Eq, Structural)]
pub enum DecoderError {
    /// The input is not single-channel audio of a known sample width.
    InputFormatError(FormatFault),
    /// The input is sampled at this rate instead of 48000 Hz.
    UnexpectedSamplingRate(u32),
    /// The stream ended before the synchroniser's window was full.
    InsufficientPrimingData,
}

} // verus!
