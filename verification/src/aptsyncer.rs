//! Line synchroniser: a forty-sample window that slides over the stream and
//! is scored against the two sync patterns at every position.
//!
//! The synchroniser stores and routes samples but never computes with them,
//! so it is generic in the sample type. Whether a sample is "high" or "low"
//! against the running signal level is decided by the caller, who hands the
//! forty resulting bits to [`APTSyncer::next`], oldest sample first.

use vstd::prelude::*;

use crate::errors::DecoderError;

verus! {

/// Length of a sync pattern and of the synchroniser's window, in samples.
pub const SYNC_LENGTH: usize = 40;

/// A window matches a pattern when more positions than this agree.
pub const MATCH_THRESHOLD: usize = 35;

/// Sync pattern that opens a line: seven pulses of two samples high and two
/// low, after four low samples and before eight.
pub const PATTERN_A: [bool; 40] = [
    false, false, false, false, true, true, false, false,
    true, true, false, false,
    true, true, false, false,
    true, true, false, false,
    true, true, false, false,
    true, true, false, false,
    true, true, false, false,
    false, false, false, false, false, false, false, false,
];

/// Sync pattern in the middle of a line: seven pulses of three samples high
/// and two low, after four low samples and before one.
pub const PATTERN_B: [bool; 40] = [
    false, false, false, false,
    true, true, true, false, false,
    true, true, true, false, false,
    true, true, true, false, false,
    true, true, true, false, false,
    true, true, true, false, false,
    true, true, true, false, false,
    true, true, true, false, false,
    false,
];

/// How the synchroniser classified a sample.
#[derive(Clone, Copy, Debug, PartialEq, Eq, Structural)]
pub enum Marker {
    /// Ordinary picture data.
    Data,
    /// First sample of the sync pattern that opens a line.
    SyncA,
    /// First sample of the sync pattern in the middle of a line.
    SyncB,
}

/// Number of positions below `n` at which `bits` and `pattern` agree.
pub open spec fn agreements(bits: Seq<bool>, pattern: Seq<bool>, n: nat) -> nat
    decreases n,
{
    if n == 0 {
        0
    } else {
        agreements(bits, pattern, (n - 1) as nat) + (if bits[n - 1] == pattern[n - 1] {
            1nat
        } else {
            0nat
        })
    }
}

/// Number of positions below `n` at which `bits` and `pattern` differ.
pub open spec fn differences(bits: Seq<bool>, pattern: Seq<bool>, n: nat) -> nat
    decreases n,
{
    if n == 0 {
        0
    } else {
        differences(bits, pattern, (n - 1) as nat) + (if bits[n - 1] != pattern[n - 1] {
            1nat
        } else {
            0nat
        })
    }
}

/// Whether a window of forty bits matches `pattern`: more than 35 of the
/// forty positions agree.
pub open spec fn accepts(bits: Seq<bool>, pattern: Seq<bool>) -> bool {
    agreements(bits, pattern, SYNC_LENGTH as nat) > MATCH_THRESHOLD
}

/// The classification of a window of forty bits. Pattern A is looked at
/// first.
pub open spec fn classify(bits: Seq<bool>) -> Marker {
    if accepts(bits, PATTERN_A@) {
        Marker::SyncA
    } else if accepts(bits, PATTERN_B@) {
        Marker::SyncB
    } else {
        Marker::Data
    }
}

/// A sample together with its classification.
#[derive(Debug)]
pub enum SyncedSample<S> {
    /// Ordinary picture data.
    Sample(S),
    /// The sample at which sync pattern A starts.
    SyncA(S),
    /// The sample at which sync pattern B starts.
    SyncB(S),
}

impl<S: Copy> SyncedSample<S> {
    /// The classification.
    pub open spec fn spec_marker(&self) -> Marker {
        match self {
            SyncedSample::Sample(_) => Marker::Data,
            SyncedSample::SyncA(_) => Marker::SyncA,
            SyncedSample::SyncB(_) => Marker::SyncB,
        }
    }

    /// The sample.
    pub open spec fn spec_value(&self) -> S {
        match *self {
            SyncedSample::Sample(s) => s,
            SyncedSample::SyncA(s) => s,
            SyncedSample::SyncB(s) => s,
        }
    }

    /// `value` classified as `marker`.
    pub open spec fn tagged(marker: Marker, value: S) -> SyncedSample<S> {
        match marker {
            Marker::Data => SyncedSample::Sample(value),
            Marker::SyncA => SyncedSample::SyncA(value),
            Marker::SyncB => SyncedSample::SyncB(value),
        }
    }

    /// The classification.
    #[verifier::when_used_as_spec(spec_marker)]
    pub fn marker(&self) -> (marker: Marker)
        ensures
            marker == self.spec_marker(),
    {
        match self {
            SyncedSample::Sample(_) => Marker::Data,
            SyncedSample::SyncA(_) => Marker::SyncA,
            SyncedSample::SyncB(_) => Marker::SyncB,
        }
    }

    /// The sample.
    #[verifier::when_used_as_spec(spec_value)]
    pub fn value(&self) -> (value: S)
        ensures
            value == self.spec_value(),
    {
        match self {
            SyncedSample::Sample(s) => *s,
            SyncedSample::SyncA(s) => *s,
            SyncedSample::SyncB(s) => *s,
        }
    }
}

/// The state of an [`APTSyncer`] as a mathematical value.
pub struct SyncerState<S> {
    /// The forty most recent samples, oldest first.
    pub window: Seq<S>,
    /// Number of reads in a row that found the input at its end.
    pub missing: nat,
}

impl<S> SyncerState<S> {
    /// What every reachable state satisfies.
    pub open spec fn wf(self) -> bool {
        &&& self.window.len() == SYNC_LENGTH
        &&& self.missing <= SYNC_LENGTH
    }

    /// The state after priming on the first forty samples of `primer`.
    pub open spec fn primed(primer: Seq<S>) -> SyncerState<S> {
        SyncerState { window: primer.subrange(0, SYNC_LENGTH as int), missing: 0 }
    }

    /// Whether the output stream has ended: forty reads in a row found no
    /// sample, so the window holds nothing that was not emitted.
    pub open spec fn ended(self) -> bool {
        self.missing >= SYNC_LENGTH
    }

    /// The window one step on: the oldest sample leaves, and `incoming`
    /// enters at the young end, or the slot keeps its old sample when there
    /// is none.
    pub open spec fn shifted(self, incoming: Option<S>) -> Seq<S> {
        self.window.drop_first().push(
            match incoming {
                Some(sample) => sample,
                None => self.window[0],
            },
        )
    }

    /// The state after one step that read `incoming` from the input. Nothing
    /// changes once the stream has ended.
    pub open spec fn advanced(self, incoming: Option<S>) -> SyncerState<S> {
        if self.ended() {
            self
        } else {
            SyncerState {
                window: self.shifted(incoming),
                missing: if incoming is Some { 0 } else { self.missing + 1 },
            }
        }
    }

    /// The state after one step for each element of `inputs`, in order.
    pub open spec fn run(self, inputs: Seq<Option<S>>) -> SyncerState<S>
        decreases inputs.len(),
    {
        if inputs.len() == 0 {
            self
        } else {
            self.run(inputs.drop_last()).advanced(inputs.last())
        }
    }

    /// The samples that those steps emit, in order.
    pub open spec fn emissions(self, inputs: Seq<Option<S>>) -> Seq<S>
        decreases inputs.len(),
    {
        if inputs.len() == 0 {
            Seq::empty()
        } else {
            let before = self.run(inputs.drop_last());
            let so_far = self.emissions(inputs.drop_last());
            if before.ended() {
                so_far
            } else {
                so_far.push(before.window[0])
            }
        }
    }
}

/// A stretch of input that delivers `samples`, one per read.
pub open spec fn delivered<S>(samples: Seq<S>) -> Seq<Option<S>> {
    Seq::new(samples.len(), |i: int| Some(samples[i]))
}

/// A stretch of `count` reads that all find the input at its end.
pub open spec fn exhausted<S>(count: nat) -> Seq<Option<S>> {
    Seq::new(count, |i: int| None::<S>)
}

impl<S: Copy> SyncerState<S> {
    /// What one step emits when the window, thresholded, reads `bits`: the
    /// oldest sample with the classification of the window, or nothing once
    /// the stream has ended.
    pub open spec fn emitted(self, bits: Seq<bool>) -> Option<SyncedSample<S>> {
        if self.ended() {
            None
        } else {
            Some(SyncedSample::tagged(classify(bits), self.window[0]))
        }
    }
}

/// Scores a thresholded window against both patterns and says for each
/// whether more than 35 of the forty positions agree.
pub fn is_marker(bits: &[bool; 40]) -> (found: (bool, bool))
    ensures
        found.0 == accepts(bits@, PATTERN_A@),
        found.1 == accepts(bits@, PATTERN_B@),
{
    let mut count_a: usize = 0;
    let mut count_b: usize = 0;
    for i in 0..SYNC_LENGTH
        invariant
            count_a == agreements(bits@, PATTERN_A@, i as nat),
            count_b == agreements(bits@, PATTERN_B@, i as nat),
            count_a <= i,
            count_b <= i,
    {
        if bits[i] == PATTERN_A[i] {
            count_a += 1;
        }
        if bits[i] == PATTERN_B[i] {
            count_b += 1;
        }
    }
    (count_a > MATCH_THRESHOLD, count_b > MATCH_THRESHOLD)
}

/// The synchroniser: a ring of forty samples and a count of failed reads.
pub struct APTSyncer<S> {
    state: Vec<S>,
    pos: usize,
    nones_read: usize,
}

impl<S> View for APTSyncer<S> {
    type V = SyncerState<S>;

    closed spec fn view(&self) -> SyncerState<S> {
        SyncerState {
            window: Seq::new(
                SYNC_LENGTH as nat,
                |i: int| self.state@[(self.pos + i) % (SYNC_LENGTH as int)],
            ),
            missing: self.nones_read as nat,
        }
    }
}

impl<S> APTSyncer<S> {
    #[verifier::type_invariant]
    spec fn inv(self) -> bool {
        &&& self.state@.len() == SYNC_LENGTH
        &&& self.pos < SYNC_LENGTH
        &&& self.nones_read <= SYNC_LENGTH
    }
}

impl<S: Copy> APTSyncer<S> {
    /// Primes the window with the first forty samples of `primer`. Fewer
    /// than forty are not enough to synchronise on.
    pub fn from(primer: Vec<S>) -> (res: Result<APTSyncer<S>, DecoderError>)
        ensures
            match res {
                Ok(syncer) => {
                    &&& primer@.len() >= SYNC_LENGTH
                    &&& syncer@ == SyncerState::primed(primer@)
                    &&& syncer@.wf()
                },
                Err(e) => primer@.len() < SYNC_LENGTH && e == DecoderError::InsufficientPrimingData,
            },
    {
        let mut state = primer;
        if state.len() < SYNC_LENGTH {
            return Err(DecoderError::InsufficientPrimingData);
        }
        state.truncate(SYNC_LENGTH);
        let syncer = APTSyncer { state, pos: 0, nones_read: 0 };
        assert(syncer@.window =~= primer@.subrange(0, SYNC_LENGTH as int));
        Ok(syncer)
    }

    /// The window, oldest sample first: the samples that the caller
    /// thresholds for the next step.
    pub fn window(&self) -> (samples: Vec<S>)
        ensures
            samples@ == self@.window,
            self@.wf(),
    {
        proof {
            use_type_invariant(self);
        }
        let mut samples: Vec<S> = Vec::new();
        for i in 0..SYNC_LENGTH
            invariant
                self.state@.len() == SYNC_LENGTH,
                self.pos < SYNC_LENGTH,
                samples@.len() == i,
                forall|k: int| 0 <= k < i ==> samples@[k] == self@.window[k],
        {
            samples.push(self.state[(self.pos + i) % SYNC_LENGTH]);
        }
        assert(samples@ =~= self@.window);
        samples
    }

    /// Whether the output stream has ended.
    pub fn ended(&self) -> (ended: bool)
        ensures
            ended == self@.ended(),
            self@.wf(),
    {
        proof {
            use_type_invariant(self);
        }
        self.nones_read >= SYNC_LENGTH
    }

    /// One step. `bits` is the window thresholded by the caller, oldest
    /// sample first; `incoming` is what the caller read from the input for
    /// this step.
    ///
    /// Emits the oldest sample of the window, classified by `bits`, and takes
    /// `incoming` into the window in its place. When there is no incoming
    /// sample the read counts as missing; after forty missing reads in a row
    /// the stream has ended and every further step emits nothing.
    pub fn next(&mut self, bits: &[bool; 40], incoming: Option<S>) -> (out: Option<SyncedSample<S>>)
        ensures
            out == old(self)@.emitted(bits@),
            final(self)@ == old(self)@.advanced(incoming),
            final(self)@.wf(),
    {
        proof {
            use_type_invariant(&*self);
        }
        if self.nones_read >= SYNC_LENGTH {
            return None;
        }
        let (is_a, is_b) = is_marker(bits);
        let sample = self.state[self.pos];
        match incoming {
            Some(x) => {
                self.state[self.pos] = x;
                self.nones_read = 0;
            },
            None => {
                self.nones_read = self.nones_read + 1;
            },
        }
        self.pos = (self.pos + 1) % SYNC_LENGTH;
        assert(self@.window =~= old(self)@.shifted(incoming));
        if is_a {
            Some(SyncedSample::SyncA(sample))
        } else if is_b {
            Some(SyncedSample::SyncB(sample))
        } else {
            Some(SyncedSample::Sample(sample))
        }
    }
}

/// At every position two bit strings either agree or differ.
pub proof fn lemma_agreements_and_differences(bits: Seq<bool>, pattern: Seq<bool>, n: nat)
    ensures
        agreements(bits, pattern, n) + differences(bits, pattern, n) == n,
    decreases n,
{
    if n > 0 {
        lemma_agreements_and_differences(bits, pattern, (n - 1) as nat);
    }
}

/// Tolerance of the correlator: a window matches a pattern exactly when it
/// differs from it in at most four of the forty positions. Four flipped bits
/// are absorbed, five or more are not.
pub proof fn lemma_tolerance(bits: Seq<bool>, pattern: Seq<bool>)
    ensures
        accepts(bits, pattern) <==> differences(bits, pattern, SYNC_LENGTH as nat) <= 4,
{
    lemma_agreements_and_differences(bits, pattern, SYNC_LENGTH as nat);
}

/// The number of differences does not depend on which string is called the
/// pattern.
pub proof fn lemma_differences_symmetric(a: Seq<bool>, b: Seq<bool>, n: nat)
    ensures
        differences(a, b, n) == differences(b, a, n),
    decreases n,
{
    if n > 0 {
        lemma_differences_symmetric(a, b, (n - 1) as nat);
    }
}

/// Triangle inequality: where `a` differs from `c`, `b` differs from one of
/// the two.
pub proof fn lemma_differences_triangle(a: Seq<bool>, b: Seq<bool>, c: Seq<bool>, n: nat)
    ensures
        differences(a, c, n) <= differences(a, b, n) + differences(b, c, n),
    decreases n,
{
    if n > 0 {
        lemma_differences_triangle(a, b, c, (n - 1) as nat);
    }
}

/// The two sync patterns differ in seventeen positions.
pub proof fn lemma_patterns_far_apart()
    ensures
        differences(PATTERN_A@, PATTERN_B@, SYNC_LENGTH as nat) == 17,
{
    let a = PATTERN_A@;
    let b = PATTERN_B@;
    reveal_with_fuel(differences, 11);
    assert(differences(a, b, 10) == 2);
    assert(differences(a, b, 20) == 10);
    assert(differences(a, b, 30) == 12);
    assert(differences(a, b, 40) == 17);
}

/// No window matches both patterns, so the order in which they are looked
/// at never decides a classification.
pub proof fn lemma_at_most_one_pattern(bits: Seq<bool>)
    ensures
        !(accepts(bits, PATTERN_A@) && accepts(bits, PATTERN_B@)),
{
    let n = SYNC_LENGTH as nat;
    lemma_tolerance(bits, PATTERN_A@);
    lemma_tolerance(bits, PATTERN_B@);
    lemma_differences_symmetric(bits, PATTERN_A@, n);
    lemma_differences_triangle(PATTERN_A@, bits, PATTERN_B@, n);
    lemma_patterns_far_apart();
}

/// A window is classified as the pattern that it differs from in at most
/// four positions, and as data when there is no such pattern. In particular
/// each pattern itself is classified as its own marker.
pub proof fn lemma_classify(bits: Seq<bool>)
    ensures
        classify(bits) == Marker::SyncA <==> differences(bits, PATTERN_A@, SYNC_LENGTH as nat) <= 4,
        classify(bits) == Marker::SyncB <==> differences(bits, PATTERN_B@, SYNC_LENGTH as nat) <= 4,
        classify(PATTERN_A@) == Marker::SyncA,
        classify(PATTERN_B@) == Marker::SyncB,
{
    lemma_tolerance(bits, PATTERN_A@);
    lemma_tolerance(bits, PATTERN_B@);
    lemma_at_most_one_pattern(bits);
    lemma_no_differences(PATTERN_A@, SYNC_LENGTH as nat);
    lemma_no_differences(PATTERN_B@, SYNC_LENGTH as nat);
    lemma_tolerance(PATTERN_A@, PATTERN_A@);
    lemma_tolerance(PATTERN_B@, PATTERN_B@);
    lemma_at_most_one_pattern(PATTERN_B@);
}

/// A bit string does not differ from itself.
pub proof fn lemma_no_differences(bits: Seq<bool>, n: nat)
    ensures
        differences(bits, bits, n) == 0,
    decreases n,
{
    if n > 0 {
        lemma_no_differences(bits, (n - 1) as nat);
    }
}

/// Steps compose: running over `first + second` is running over `first` and
/// then over `second`, and emits what the two runs emit.
pub proof fn lemma_run_in_two<S>(start: SyncerState<S>, first: Seq<Option<S>>, second: Seq<Option<S>>)
    ensures
        start.run(first + second) == start.run(first).run(second),
        start.emissions(first + second) == start.emissions(first) + start.run(first).emissions(
            second,
        ),
    decreases second.len(),
{
    if second.len() == 0 {
        assert(first + second =~= first);
        assert(start.emissions(first) + Seq::<S>::empty() =~= start.emissions(first));
    } else {
        let whole = first + second;
        assert(whole.drop_last() =~= first + second.drop_last());
        assert(whole.last() == second.last());
        lemma_run_in_two(start, first, second.drop_last());
        let middle = start.run(first);
        let before = middle.run(second.drop_last());
        if !before.ended() {
            assert(start.emissions(whole) =~= start.emissions(first) + middle.emissions(second));
        }
    }
}

/// The window is a delay line. While samples arrive, each step emits the
/// oldest sample and takes the new one in: after `samples.len()` steps the
/// emitted samples are the first so many of the old window followed by
/// `samples`, and the window holds the last forty.
pub proof fn lemma_delay_line<S>(start: SyncerState<S>, samples: Seq<S>)
    requires
        start.wf(),
        !start.ended(),
    ensures
        start.run(delivered(samples)).wf(),
        !start.run(delivered(samples)).ended(),
        samples.len() > 0 ==> start.run(delivered(samples)).missing == 0,
        start.run(delivered(samples)).window == (start.window + samples).subrange(
            samples.len() as int,
            samples.len() + SYNC_LENGTH,
        ),
        start.emissions(delivered(samples)) == (start.window + samples).subrange(
            0,
            samples.len() as int,
        ),
    decreases samples.len(),
{
    let inputs = delivered(samples);
    let all = start.window + samples;
    if samples.len() == 0 {
        assert(start.run(inputs).window =~= all.subrange(0, SYNC_LENGTH as int));
        assert(start.emissions(inputs) =~= all.subrange(0, 0));
    } else {
        let earlier = samples.drop_last();
        assert(inputs.drop_last() =~= delivered(earlier));
        lemma_delay_line(start, earlier);
        let before = start.run(delivered(earlier));
        let n = samples.len() as int;
        assert(before.window == (start.window + earlier).subrange(n - 1, n - 1 + SYNC_LENGTH));
        assert(inputs.last() == Some(samples.last()));
        assert(start.run(inputs).window =~= all.subrange(n, n + SYNC_LENGTH));
        assert(start.emissions(inputs) =~= all.subrange(0, n));
    }
}

/// Draining. When the input has ended, each step still emits the oldest
/// sample of the window: `count` steps emit its first `count` samples in
/// order, and the slots keep their samples as the ring turns.
pub proof fn lemma_drain<S>(start: SyncerState<S>, count: nat)
    requires
        start.wf(),
        start.missing + count <= SYNC_LENGTH,
    ensures
        start.run(exhausted(count)).missing == start.missing + count,
        start.run(exhausted(count)).window == start.window.subrange(
            count as int,
            SYNC_LENGTH as int,
        ) + start.window.subrange(0, count as int),
        start.emissions(exhausted(count)) == start.window.subrange(0, count as int),
    decreases count,
{
    let inputs = exhausted::<S>(count);
    if count == 0 {
        assert(start.run(inputs).window =~= start.window.subrange(0, SYNC_LENGTH as int)
            + start.window.subrange(0, 0));
        assert(start.emissions(inputs) =~= start.window.subrange(0, 0));
    } else {
        assert(inputs.drop_last() =~= exhausted::<S>((count - 1) as nat));
        lemma_drain(start, (count - 1) as nat);
        let before = start.run(exhausted::<S>((count - 1) as nat));
        assert(inputs.last() == None::<S>);
        assert(before.window[0] == start.window[count - 1]);
        assert(start.run(inputs).window =~= start.window.subrange(count as int, SYNC_LENGTH as int)
            + start.window.subrange(0, count as int));
        assert(start.emissions(inputs) =~= start.window.subrange(0, count as int));
    }
}

/// Once the stream has ended, further steps change nothing and emit nothing.
pub proof fn lemma_ended_is_final<S>(start: SyncerState<S>, inputs: Seq<Option<S>>)
    requires
        start.ended(),
    ensures
        start.run(inputs) == start,
        start.emissions(inputs) == Seq::<S>::empty(),
    decreases inputs.len(),
{
    if inputs.len() > 0 {
        lemma_ended_is_final(start, inputs.drop_last());
    }
}

/// Every sample is emitted exactly once. A synchroniser primed on the first
/// forty samples of `primer` that then reads `samples` and after them finds
/// the input at its end emits those forty samples followed by `samples`, and
/// nothing more however often it is stepped; after the fortieth failed read
/// the stream has ended. With no further samples at all it emits exactly the
/// forty that it was primed on.
pub proof fn lemma_every_sample_once<S>(primer: Seq<S>, samples: Seq<S>, extra: nat)
    requires
        primer.len() >= SYNC_LENGTH,
    ensures
        SyncerState::primed(primer).run(
            delivered(samples) + exhausted(SYNC_LENGTH as nat) + exhausted(extra),
        ).ended(),
        SyncerState::primed(primer).emissions(
            delivered(samples) + exhausted(SYNC_LENGTH as nat) + exhausted(extra),
        ) == primer.subrange(0, SYNC_LENGTH as int) + samples,
{
    let start = SyncerState::primed(primer);
    let live = delivered(samples);
    let dry = exhausted::<S>(SYNC_LENGTH as nat);
    let after = exhausted::<S>(extra);
    let n = samples.len() as int;
    let all = start.window + samples;
    lemma_delay_line(start, samples);
    let fed = start.run(live);
    assert(fed.missing == 0);
    lemma_drain(fed, SYNC_LENGTH as nat);
    let drained = fed.run(dry);
    lemma_ended_is_final(drained, after);
    lemma_run_in_two(start, live, dry);
    lemma_run_in_two(start, live + dry, after);
    assert(all.subrange(0, n) + fed.window.subrange(0, SYNC_LENGTH as int) =~= all);
    assert(start.emissions(live + dry) + Seq::<S>::empty() =~= all);
}

} // verus!
