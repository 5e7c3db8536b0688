//! The decoder around the signal chain: what it expects of a recording, how
//! large the picture is, where each classified sample lands in it, and when
//! the caller is told about progress.

use vstd::prelude::*;

use crate::aptsyncer::Marker;
use crate::canvas::{is_grid, painted, Canvas};
use crate::errors::{DecoderError, FormatFault};
use crate::resamplers::{lemma_downsampler_blocks, DownsamplerState};

verus! {

/// Sample rate that a recording must have, in Hz.
pub const SAMPLE_RATE: u32 = 48000;

/// Picture lines transmitted per second.
pub const LINES_PER_SECOND: u32 = 2;

/// Pixels in one picture line.
pub const PIXELS_PER_LINE: u32 = 2080;

/// Column at which the second channel starts: the middle of a line.
pub const MIDLINE: u32 = 1040;

/// Factor of the zero-insertion stage.
pub const UPSAMPLE_FACTOR: u16 = 13;

/// Factor of the averaging stage.
pub const DOWNSAMPLE_FACTOR: u16 = 150;

/// Lines between two progress reports until the caller asks otherwise.
pub const DEFAULT_UPDATE_STEP: u64 = 10;

/// Fewest lines between two progress reports.
pub const MIN_UPDATE_STEP: u64 = 4;

/// Accepts single-channel input at 48000 Hz. The channel count is looked at
/// first.
pub fn check_format(channels: u16, sample_rate: u32) -> (res: Result<(), DecoderError>)
    ensures
        res == (if channels != 1 {
            Err::<(), DecoderError>(DecoderError::InputFormatError(FormatFault::ChannelCount(channels)))
        } else if sample_rate != SAMPLE_RATE {
            Err(DecoderError::UnexpectedSamplingRate(sample_rate))
        } else {
            Ok(())
        }),
{
    if channels != 1 {
        Err(DecoderError::InputFormatError(FormatFault::ChannelCount(channels)))
    } else if sample_rate != SAMPLE_RATE {
        Err(DecoderError::UnexpectedSamplingRate(sample_rate))
    } else {
        Ok(())
    }
}

/// Duration of `sample_count` samples at 48000 Hz, in seconds, rounded up.
pub open spec fn whole_seconds(sample_count: nat) -> nat {
    ((sample_count + 47999) / 48000) as nat
}

/// [`whole_seconds`] is the ceiling of the duration: the least number of
/// seconds that holds all the samples.
pub proof fn lemma_whole_seconds_is_ceiling(sample_count: nat)
    ensures
        sample_count <= whole_seconds(sample_count) * 48000,
        whole_seconds(sample_count) * 48000 < sample_count + 48000,
{
}

/// Number of picture lines set aside for a recording of `sample_count`
/// samples: two for every second or part of one.
pub fn line_count(sample_count: u32) -> (lines: u32)
    ensures
        lines == 2 * whole_seconds(sample_count as nat),
        lines <= 178958,
{
    let seconds: u32 = sample_count / SAMPLE_RATE + (if sample_count % SAMPLE_RATE == 0 { 0 } else { 1 });
    seconds * LINES_PER_SECOND
}

/// Number of samples that reach the synchroniser from `sample_count` input
/// samples: thirteen for every hundred and fifty, parts dropped.
pub fn pixel_count(sample_count: u32) -> (pixels: u64)
    ensures
        pixels == sample_count * 13 / 150,
{
    let wide: u64 = sample_count as u64;
    wide * 13 / 150
}

/// `rows` with the columns `from..to` of row `y` set to `gray`; unchanged when
/// the row lies outside `rows`.
pub open spec fn filled(rows: Seq<Seq<u8>>, y: int, from: int, to: int, gray: u8) -> Seq<Seq<u8>> {
    if 0 <= y < rows.len() {
        rows.update(
            y,
            Seq::new(rows[y].len(), |c: int| if from <= c < to { gray } else { rows[y][c] }),
        )
    } else {
        rows
    }
}

/// The state of an [`Assembler`] as a mathematical value.
pub struct AssemblerState {
    /// Column that the next sample goes to.
    pub x: nat,
    /// Row that the next sample goes to. It counts on below the picture,
    /// where nothing is written, so it also says how many lines of samples
    /// have arrived.
    pub y: nat,
    /// Whether a sync marker has been seen yet.
    pub has_sync: bool,
    /// The picture so far, top row first.
    pub rows: Seq<Seq<u8>>,
}

impl AssemblerState {
    /// What every reachable state satisfies: the picture is a grid of
    /// 2080-pixel lines and the cursor is inside a line.
    pub open spec fn wf(self) -> bool {
        &&& self.x < PIXELS_PER_LINE
        &&& is_grid(self.rows, PIXELS_PER_LINE as nat, self.rows.len())
    }

    /// The state before the first sample: a black picture of `lines` lines,
    /// the cursor at its top left corner.
    pub open spec fn start(lines: nat) -> AssemblerState {
        AssemblerState {
            x: 0,
            y: 0,
            has_sync: false,
            rows: Seq::new(lines, |y: int| Seq::new(PIXELS_PER_LINE as nat, |x: int| 0u8)),
        }
    }

    /// Whether `marker` is the first sync marker of the session, on which the
    /// caller's running maximum level starts again from zero.
    pub open spec fn resets_level(self, marker: Marker) -> bool {
        marker != Marker::Data && !self.has_sync
    }

    /// The state after `marker` has been taken note of.
    pub open spec fn observed(self, marker: Marker) -> AssemblerState {
        AssemblerState { has_sync: self.has_sync || marker != Marker::Data, ..self }
    }

    /// Column that a sample classified as `marker` is written to.
    pub open spec fn landing_column(self, marker: Marker) -> nat {
        match marker {
            Marker::Data => self.x,
            Marker::SyncA => 0,
            Marker::SyncB => MIDLINE as nat,
        }
    }

    /// The picture after the gap that `marker` leaves has been filled: on
    /// `SyncB` left of the middle, the columns from the cursor to the middle
    /// take the level `fill`.
    pub open spec fn gap_filled(self, marker: Marker, fill: u8) -> Seq<Seq<u8>> {
        if marker == Marker::SyncB && self.x < MIDLINE {
            filled(self.rows, self.y as int, self.x as int, MIDLINE as int, fill)
        } else {
            self.rows
        }
    }

    /// The state after a sample classified as `marker` has been placed with
    /// gray level `gray`, any gap before it filled with `fill`. The cursor
    /// moves one column on and, past the last column, to the start of the
    /// next row, whether or not that row is in the picture; the row stops
    /// counting at `u32::MAX`.
    pub open spec fn placed(self, marker: Marker, fill: u8, gray: u8) -> AssemblerState {
        let column = self.landing_column(marker);
        let wraps = column + 1 == PIXELS_PER_LINE;
        AssemblerState {
            x: if wraps { 0 } else { column + 1 },
            y: if wraps && self.y < u32::MAX { self.y + 1 } else { self.y },
            has_sync: self.has_sync,
            rows: painted(self.gap_filled(marker, fill), column as int, self.y as int, gray),
        }
    }
}

/// Places classified samples in the picture, line by line.
///
/// The assembler does not compute gray levels: the caller keeps the running
/// maximum level and hands in the level of each sample. Per sample the caller
/// first computes the level `fill` of the previous sample, then calls
/// [`Assembler::observe`] and restarts its maximum if told so, then computes
/// the level `gray` of the sample and calls [`Assembler::place`].
pub struct Assembler {
    canvas: Canvas,
    x: u32,
    y: u32,
    has_sync: bool,
}

impl View for Assembler {
    type V = AssemblerState;

    closed spec fn view(&self) -> AssemblerState {
        AssemblerState {
            x: self.x as nat,
            y: self.y as nat,
            has_sync: self.has_sync,
            rows: self.canvas@,
        }
    }
}

impl Assembler {
    #[verifier::type_invariant]
    spec fn inv(self) -> bool {
        &&& self.x < PIXELS_PER_LINE
        &&& self.canvas.cols() == PIXELS_PER_LINE
        &&& is_grid(self.canvas@, self.canvas.cols(), self.canvas.lines())
    }

    /// An assembler with a black picture large enough for a recording of
    /// `sample_count` samples.
    pub fn new(sample_count: u32) -> (assembler: Assembler)
        ensures
            assembler@ == AssemblerState::start(2 * whole_seconds(sample_count as nat)),
            assembler@.wf(),
    {
        let lines = line_count(sample_count);
        assert(PIXELS_PER_LINE * lines <= isize::MAX) by (nonlinear_arith)
            requires
                lines <= 178958,
                PIXELS_PER_LINE == 2080,
                isize::MAX >= 0x7fff_ffff,
        ;
        Assembler { canvas: Canvas::new(PIXELS_PER_LINE, lines), x: 0, y: 0, has_sync: false }
    }

    /// Column that the next sample goes to.
    pub fn x(&self) -> (x: u32)
        ensures
            x == self@.x,
            self@.wf(),
    {
        proof {
            use_type_invariant(self);
        }
        self.x
    }

    /// Row that the next sample goes to.
    pub fn y(&self) -> (y: u32)
        ensures
            y == self@.y,
            self@.wf(),
    {
        proof {
            use_type_invariant(self);
        }
        self.y
    }

    /// Number of lines in the picture.
    pub fn lines(&self) -> (lines: u32)
        ensures
            lines == self@.rows.len(),
            self@.wf(),
    {
        proof {
            use_type_invariant(self);
        }
        self.canvas.height()
    }

    /// Whether a sync marker has been seen yet.
    pub fn has_sync(&self) -> (seen: bool)
        ensures
            seen == self@.has_sync,
    {
        self.has_sync
    }

    /// The picture so far.
    pub fn canvas(&self) -> (canvas: &Canvas)
        ensures
            canvas@ == self@.rows,
            canvas.cols() == PIXELS_PER_LINE,
            canvas.lines() == self@.rows.len(),
    {
        proof {
            use_type_invariant(self);
        }
        &self.canvas
    }

    /// Takes note of the classification of the next sample and says whether
    /// the caller's running maximum level is to start again from zero, which
    /// is so on the first sync marker of the session and never after.
    pub fn observe(&mut self, marker: Marker) -> (reset: bool)
        ensures
            reset == old(self)@.resets_level(marker),
            final(self)@ == old(self)@.observed(marker),
    {
        proof {
            use_type_invariant(&*self);
        }
        match marker {
            Marker::Data => false,
            _ => {
                let first = !self.has_sync;
                self.has_sync = true;
                first
            },
        }
    }

    /// Writes the next sample into the picture and moves the cursor on.
    ///
    /// `SyncA` sends the cursor back to the left margin first. `SyncB` sends
    /// it to the middle of the line; if it was left of the middle, the columns
    /// it skips take the level `fill`. Then the pixel under the cursor takes
    /// the level `gray` and the cursor moves one column on, to the next line
    /// after the last column.
    ///
    /// Below the picture nothing is written, but the cursor moves as it does
    /// inside: the row goes on counting at every wrap and stops only at
    /// `u32::MAX`.
    pub fn place(&mut self, marker: Marker, fill: u8, gray: u8)
        ensures
            final(self)@ == old(self)@.placed(marker, fill, gray),
            final(self)@.wf(),
    {
        proof {
            use_type_invariant(&*self);
        }
        match marker {
            Marker::Data => {},
            Marker::SyncA => {
                self.x = 0;
            },
            Marker::SyncB => {
                let ghost before = self.canvas@;
                let from = self.x;
                while self.x < MIDLINE
                    invariant
                        self.x < PIXELS_PER_LINE,
                        from <= self.x,
                        from < MIDLINE ==> self.x <= MIDLINE,
                        from >= MIDLINE ==> self.x == from,
                        self.y == old(self).y,
                        self.has_sync == old(self).has_sync,
                        self.canvas.cols() == PIXELS_PER_LINE,
                        self.canvas.lines() == old(self).canvas.lines(),
                        is_grid(before, PIXELS_PER_LINE as nat, self.canvas.lines()),
                        self.canvas@ =~~= filled(before, self.y as int, from as int, self.x as int, fill),
                    decreases MIDLINE - self.x,
                {
                    self.canvas.set_pixel(self.x, self.y, fill);
                    self.x = self.x + 1;
                }
                assert(self.canvas@ =~~= old(self)@.gap_filled(marker, fill));
                self.x = MIDLINE;
            },
        }
        self.canvas.set_pixel(self.x, self.y, gray);
        assert(self.canvas@ =~~= old(self)@.placed(marker, fill, gray).rows);
        if self.x + 1 >= PIXELS_PER_LINE {
            self.x = 0;
            if self.y < u32::MAX {
                self.y = self.y + 1;
            }
        } else {
            self.x = self.x + 1;
        }
    }
}

/// The picture keeps its size and the cursor stays inside it: every step
/// takes a well-formed state to a well-formed state with as many lines.
pub proof fn lemma_steps_keep_shape(state: AssemblerState, marker: Marker, fill: u8, gray: u8)
    requires
        state.wf(),
    ensures
        state.observed(marker).wf(),
        state.placed(marker, fill, gray).wf(),
        state.placed(marker, fill, gray).rows.len() == state.rows.len(),
{
}

/// The caller's maximum level starts again at the first sync marker of a
/// session and at no other sample: once a marker has been observed, no later
/// sample asks for it, and placing samples does not forget it.
pub proof fn lemma_level_resets_once(
    state: AssemblerState,
    first: Marker,
    fill: u8,
    gray: u8,
    later: Marker,
)
    requires
        first != Marker::Data || state.has_sync,
    ensures
        !state.observed(first).resets_level(later),
        !state.observed(first).placed(first, fill, gray).resets_level(later),
        !state.resets_level(Marker::Data),
{
}

/// A sample of ordinary data changes the pixel under the cursor and no
/// other.
pub proof fn lemma_data_paints_one_pixel(state: AssemblerState, fill: u8, gray: u8)
    requires
        state.wf(),
        state.y < state.rows.len(),
    ensures
        state.placed(Marker::Data, fill, gray).rows[state.y as int][state.x as int] == gray,
        forall|y: int, x: int|
            0 <= y < state.rows.len() && 0 <= x < PIXELS_PER_LINE && !(y == state.y && x == state.x)
                ==> #[trigger] state.placed(Marker::Data, fill, gray).rows[y][x]
                == state.rows[y][x],
{
}

/// Gap filling. When sync B arrives with the cursor left of the middle of
/// the line, every column from the cursor up to the middle takes the level
/// `fill`, the middle column takes the level of the sample itself, the cursor
/// goes on behind it, and no other pixel changes.
pub proof fn lemma_gap_fill(state: AssemblerState, fill: u8, gray: u8)
    requires
        state.wf(),
        state.x < MIDLINE,
        state.y < state.rows.len(),
    ensures
        state.placed(Marker::SyncB, fill, gray).x == MIDLINE + 1,
        state.placed(Marker::SyncB, fill, gray).y == state.y,
        state.placed(Marker::SyncB, fill, gray).rows[state.y as int][MIDLINE as int] == gray,
        forall|x: int|
            state.x <= x < MIDLINE ==> #[trigger] state.placed(
                Marker::SyncB,
                fill,
                gray,
            ).rows[state.y as int][x] == fill,
        forall|y: int, x: int|
            0 <= y < state.rows.len() && 0 <= x < PIXELS_PER_LINE && !(y == state.y && state.x <= x
                <= MIDLINE) ==> #[trigger] state.placed(Marker::SyncB, fill, gray).rows[y][x]
                == state.rows[y][x],
{
}

/// Lines beyond the picture are dropped. Once the cursor has left the last
/// line, no sample changes the picture, whatever its classification, and the
/// cursor does not come back into it.
pub proof fn lemma_full_picture_is_final(state: AssemblerState, marker: Marker, fill: u8, gray: u8)
    requires
        state.wf(),
        state.y >= state.rows.len(),
    ensures
        state.placed(marker, fill, gray).rows == state.rows,
        state.placed(marker, fill, gray).y >= state.rows.len(),
{
    assert(state.placed(marker, fill, gray).rows =~~= state.rows);
}

/// The state of a [`Progress`] as a mathematical value.
pub struct ProgressState {
    /// Samples placed so far.
    pub done: nat,
    /// Samples expected in all.
    pub total: nat,
    /// Lines between two reports.
    pub update_step: nat,
}

impl ProgressState {
    /// The state before the first sample of a recording of `sample_count`
    /// samples.
    pub open spec fn start(sample_count: nat) -> ProgressState {
        ProgressState {
            done: 0,
            total: (sample_count * 13 / 150) as nat,
            update_step: DEFAULT_UPDATE_STEP as nat,
        }
    }

    /// The state after one more sample. The count stops at `u64::MAX`.
    pub open spec fn ticked(self) -> ProgressState {
        ProgressState { done: if self.done < u64::MAX { self.done + 1 } else { self.done }, ..self }
    }

    /// Number of samples between two reports: `update_step` lines of 2080
    /// pixels each.
    pub open spec fn interval(self) -> int {
        2080 * (self.update_step as int)
    }

    /// Whether a report is due: the count is a whole number of intervals.
    pub open spec fn due(self) -> bool {
        (self.done as int) % self.interval() == 0
    }

    /// The state after the caller asked for about `update_steps` reports over
    /// the whole picture: the interval is the expected number of lines
    /// divided by `update_steps`, and four lines if that is no more than four.
    pub open spec fn adjusted(self, update_steps: nat) -> ProgressState {
        let line_count = self.total / (PIXELS_PER_LINE as nat);
        ProgressState {
            update_step: if line_count / update_steps > MIN_UPDATE_STEP {
                line_count / update_steps
            } else {
                MIN_UPDATE_STEP as nat
            },
            ..self
        }
    }
}

/// Counts placed samples and says when the caller is to be told how far the
/// decoding has come.
pub struct Progress {
    done: u64,
    total: u64,
    update_step: u64,
}

impl View for Progress {
    type V = ProgressState;

    closed spec fn view(&self) -> ProgressState {
        ProgressState {
            done: self.done as nat,
            total: self.total as nat,
            update_step: self.update_step as nat,
        }
    }
}

impl Progress {
    #[verifier::type_invariant]
    spec fn inv(self) -> bool {
        &&& MIN_UPDATE_STEP <= self.update_step <= u32::MAX
        &&& self.total <= u32::MAX
    }

    /// A counter at zero for a recording of `sample_count` samples, with a
    /// report every ten lines.
    pub fn new(sample_count: u32) -> (progress: Progress)
        ensures
            progress@ == ProgressState::start(sample_count as nat),
    {
        Progress { done: 0, total: pixel_count(sample_count), update_step: DEFAULT_UPDATE_STEP }
    }

    /// Samples placed so far.
    pub fn done(&self) -> (done: u64)
        ensures
            done == self@.done,
    {
        self.done
    }

    /// Samples expected in all.
    pub fn total(&self) -> (total: u64)
        ensures
            total == self@.total,
    {
        self.total
    }

    /// Lines between two reports.
    pub fn update_step(&self) -> (step: u64)
        ensures
            step == self@.update_step,
            step >= MIN_UPDATE_STEP,
    {
        proof {
            use_type_invariant(self);
        }
        self.update_step
    }

    /// Counts one more sample and says whether a report is due now.
    pub fn tick(&mut self) -> (due: bool)
        ensures
            final(self)@ == old(self)@.ticked(),
            due == final(self)@.due(),
    {
        proof {
            use_type_invariant(&*self);
        }
        if self.done < u64::MAX {
            self.done = self.done + 1;
        }
        assert(PIXELS_PER_LINE * self.update_step <= u64::MAX) by (nonlinear_arith)
            requires
                PIXELS_PER_LINE == 2080,
                self.update_step <= u32::MAX,
        ;
        let interval: u64 = PIXELS_PER_LINE as u64 * self.update_step;
        self.done % interval == 0
    }

    /// Sets the report interval from the number of reports that the caller
    /// would like over the whole picture.
    pub fn adjust(&mut self, update_steps: u32)
        requires
            update_steps > 0,
        ensures
            final(self)@ == old(self)@.adjusted(update_steps as nat),
    {
        proof {
            use_type_invariant(&*self);
        }
        let line_count: u64 = self.total / (PIXELS_PER_LINE as u64);
        let step: u64 = line_count / (update_steps as u64);
        self.update_step = if step > MIN_UPDATE_STEP { step } else { MIN_UPDATE_STEP };
    }
}

/// The number of samples that a [`Progress`] expects is the number that the
/// resampling stages deliver: zero insertion by 13 turns `sample_count`
/// samples into thirteen times as many, of which averaging by 150 makes
/// one output per whole block.
pub proof fn lemma_total_is_resampled_count(sample_count: nat)
    ensures
        ProgressState::start(sample_count).total == DownsamplerState::start(
            DOWNSAMPLE_FACTOR as nat,
        ).blocks(UPSAMPLE_FACTOR as nat * sample_count),
{
    lemma_downsampler_blocks(DOWNSAMPLE_FACTOR as nat, UPSAMPLE_FACTOR as nat * sample_count);
}

} // verus!
