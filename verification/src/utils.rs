//! How the samples of a recording are brought to the range from -1 to 1.

use vstd::prelude::*;

use crate::errors::{DecoderError, FormatFault};

verus! {

/// How a recording stores its samples.
#[derive(Clone, Copy, Debug, PartialEq, Eq, Structural)]
pub enum SampleFormat {
    /// Floating point, already between -1 and 1.
    Float,
    /// Signed integers.
    Int,
}

/// What is done to each stored sample.
#[derive(Clone, Copy, Debug, PartialEq, Eq, Structural)]
pub enum Scaling {
    /// The sample is taken as it is.
    AsIs,
    /// The sample is divided by this number, the largest that its width
    /// can hold.
    DivideBy(i32),
}

/// The scaling for samples of the given format and width: floating-point
/// samples are taken as they are, signed integers of 8, 16 or 32 bits are
/// divided by the largest value of their width. Integers of another width
/// are refused.
pub open spec fn scaling_of(format: SampleFormat, bits_per_sample: u16) -> Result<
    Scaling,
    DecoderError,
> {
    match format {
        SampleFormat::Float => Ok(Scaling::AsIs),
        SampleFormat::Int => if bits_per_sample == 8 {
            Ok(Scaling::DivideBy(0x7f))
        } else if bits_per_sample == 16 {
            Ok(Scaling::DivideBy(0x7fff))
        } else if bits_per_sample == 32 {
            Ok(Scaling::DivideBy(0x7fff_ffff))
        } else {
            Err(DecoderError::InputFormatError(FormatFault::SampleWidth(bits_per_sample)))
        },
    }
}

/// Chooses the scaling for a recording.
pub fn sample_scaling(format: SampleFormat, bits_per_sample: u16) -> (res: Result<
    Scaling,
    DecoderError,
>)
    ensures
        res == scaling_of(format, bits_per_sample),
{
    match format {
        SampleFormat::Float => Ok(Scaling::AsIs),
        SampleFormat::Int => match bits_per_sample {
            8 => Ok(Scaling::DivideBy(i8::MAX as i32)),
            16 => Ok(Scaling::DivideBy(i16::MAX as i32)),
            32 => Ok(Scaling::DivideBy(i32::MAX)),
            _ => Err(DecoderError::InputFormatError(FormatFault::SampleWidth(bits_per_sample))),
        },
    }
}

} // verus!
