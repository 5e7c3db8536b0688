use apt_decoder::errors::{DecoderError, FormatFault};
use apt_decoder::utils::{sample_scaling, SampleFormat, Scaling};

#[test]
fn float_samples_are_taken_as_they_are() {
    assert_eq!(sample_scaling(SampleFormat::Float, 32), Ok(Scaling::AsIs));
    assert_eq!(sample_scaling(SampleFormat::Float, 64), Ok(Scaling::AsIs));
}

#[test]
fn integer_samples_are_divided_by_their_full_scale() {
    assert_eq!(sample_scaling(SampleFormat::Int, 8), Ok(Scaling::DivideBy(127)));
    assert_eq!(sample_scaling(SampleFormat::Int, 16), Ok(Scaling::DivideBy(32767)));
    assert_eq!(sample_scaling(SampleFormat::Int, 32), Ok(Scaling::DivideBy(2147483647)));
}

#[test]
fn other_widths_are_refused() {
    for bits in [0u16, 1, 12, 24, 64] {
        assert_eq!(
            sample_scaling(SampleFormat::Int, bits),
            Err(DecoderError::InputFormatError(FormatFault::SampleWidth(bits)))
        );
    }
}
