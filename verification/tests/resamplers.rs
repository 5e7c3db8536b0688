use apt_decoder::resamplers::{Block, Downsampler, Slot, Upsampler};

/// Zero insertion: the upsampler says where the input samples go.
fn upsample(upsampler: &mut Upsampler, input: &[f32]) -> Vec<f32> {
    let mut input = input.iter().copied();
    let mut out = Vec::new();
    loop {
        let sample = match upsampler.next() {
            Slot::Input => input.next(),
            Slot::Zero => Some(0.0),
        };
        match sample {
            Some(x) => out.push(x),
            None => return out,
        }
    }
}

/// Block averaging: the downsampler says when a block is complete.
fn downsample(downsampler: &mut Downsampler, input: &[f32]) -> Vec<f32> {
    let mut out = Vec::new();
    let mut sum = 0.0;
    let mut input = input.iter().copied();
    loop {
        let read = input.next();
        if let Some(x) = read {
            sum += x;
        }
        match downsampler.next(read.is_some()) {
            Block::More => {}
            Block::Full => {
                out.push(sum / f32::from(downsampler.factor()));
                sum = 0.0;
            }
            Block::End => return out,
        }
    }
}

#[test]
fn upsampler_emits_one_input_per_period() {
    let mut upsampler = Upsampler::from(4);
    assert_eq!(upsampler.factor(), 4);
    let slots: Vec<Slot> = (0..9).map(|_| upsampler.next()).collect();
    assert_eq!(
        slots,
        vec![
            Slot::Input,
            Slot::Zero,
            Slot::Zero,
            Slot::Zero,
            Slot::Input,
            Slot::Zero,
            Slot::Zero,
            Slot::Zero,
            Slot::Input,
        ]
    );
}

#[test]
fn upsampler_of_one_passes_everything() {
    let mut upsampler = Upsampler::from(1);
    for _ in 0..5 {
        assert_eq!(upsampler.next(), Slot::Input);
    }
}

#[test]
fn upsampler_of_the_largest_factor_does_not_overflow() {
    let mut upsampler = Upsampler::from(u16::MAX);
    assert_eq!(upsampler.next(), Slot::Input);
    for _ in 1..u16::MAX {
        assert_eq!(upsampler.next(), Slot::Zero);
    }
    assert_eq!(upsampler.next(), Slot::Input);
}

#[test]
fn upsampled_stream_has_zeros_between_samples() {
    let mut upsampler = Upsampler::from(3);
    assert_eq!(
        upsample(&mut upsampler, &[1.0, 2.0]),
        vec![1.0, 0.0, 0.0, 2.0, 0.0, 0.0]
    );
}

#[test]
fn downsampler_completes_a_block_every_factor_samples() {
    let mut downsampler = Downsampler::from(3);
    assert_eq!(downsampler.factor(), 3);
    let verdicts: Vec<Block> = (0..7).map(|_| downsampler.next(true)).collect();
    assert_eq!(
        verdicts,
        vec![
            Block::More,
            Block::More,
            Block::Full,
            Block::More,
            Block::More,
            Block::Full,
            Block::More,
        ]
    );
}

#[test]
fn downsampler_drops_a_partial_block() {
    let mut downsampler = Downsampler::from(3);
    assert_eq!(downsampler.next(true), Block::More);
    assert_eq!(downsampler.next(false), Block::End);
    // the next block starts afresh
    assert_eq!(downsampler.next(true), Block::More);
    assert_eq!(downsampler.next(true), Block::More);
    assert_eq!(downsampler.next(true), Block::Full);
}

#[test]
fn downsampler_of_one_completes_at_once() {
    let mut downsampler = Downsampler::from(1);
    assert_eq!(downsampler.next(true), Block::Full);
    assert_eq!(downsampler.next(true), Block::Full);
    assert_eq!(downsampler.next(false), Block::End);
}

#[test]
fn downsampled_stream_holds_the_means() {
    let mut downsampler = Downsampler::from(2);
    assert_eq!(
        downsample(&mut downsampler, &[1.0, 3.0, 5.0, 6.0, 9.0]),
        vec![2.0, 5.5]
    );
}

#[test]
fn round_trip_of_a_constant_gives_a_third() {
    let c = 0.75f32;
    let input = vec![c; 12];
    let mut upsampler = Upsampler::from(3);
    let raised = upsample(&mut upsampler, &input);
    assert_eq!(raised.len(), 36);
    let mut downsampler = Downsampler::from(3);
    let lowered = downsample(&mut downsampler, &raised);
    assert_eq!(lowered, vec![c / 3.0; 12]);
}

#[test]
fn thirteen_over_one_hundred_and_fifty() {
    let input = vec![1.0f32; 1500];
    let mut upsampler = Upsampler::from(13);
    let raised = upsample(&mut upsampler, &input);
    assert_eq!(raised.len(), 13 * 1500);
    let mut downsampler = Downsampler::from(150);
    let lowered = downsample(&mut downsampler, &raised);
    assert_eq!(lowered.len(), 130);
}
