//! Rational resampling: zero insertion followed by block averaging.
//!
//! Both stages only count. The upsampler says for each of its outputs
//! whether it is the next input sample or an inserted zero; the downsampler
//! says after each read whether its block is complete. Summing and dividing
//! the samples of a block is left to the caller.

use vstd::prelude::*;
use vstd::arithmetic::div_mod::{lemma_fundamental_div_mod, lemma_fundamental_div_mod_converse};

verus! {

/// What an [`Upsampler`] emits on one call.
#[derive(Clone, Copy, Debug, PartialEq, Eq, Structural)]
pub enum Slot {
    /// The next sample of the input stream, or its end if there is none.
    Input,
    /// An inserted zero.
    Zero,
}

/// The state of an [`Upsampler`] as a mathematical value.
pub struct UpsamplerState {
    /// The interpolation factor.
    pub factor: nat,
    /// Outputs emitted since an input sample was last due.
    pub phase: nat,
}

impl UpsamplerState {
    /// What every reachable state satisfies.
    pub open spec fn wf(self) -> bool {
        self.phase < self.factor
    }

    /// The state after construction.
    pub open spec fn start(factor: nat) -> UpsamplerState {
        UpsamplerState { factor, phase: 0 }
    }

    /// What the next call emits.
    pub open spec fn slot(self) -> Slot {
        if self.phase == 0 {
            Slot::Input
        } else {
            Slot::Zero
        }
    }

    /// The state after one call: the counter moves on by one and starts
    /// again at zero when it reaches the factor.
    pub open spec fn stepped(self) -> UpsamplerState {
        UpsamplerState { phase: if self.phase + 1 < self.factor { self.phase + 1 } else { 0 }, ..self }
    }

    /// The state after `calls` calls.
    pub open spec fn after(self, calls: nat) -> UpsamplerState
        decreases calls,
    {
        if calls == 0 {
            self
        } else {
            self.after((calls - 1) as nat).stepped()
        }
    }
}

/// Zero-insertion interpolator: of every `factor` outputs the first is an
/// input sample and the others are zeros.
pub struct Upsampler {
    factor: u16,
    state: u16,
}

impl View for Upsampler {
    type V = UpsamplerState;

    closed spec fn view(&self) -> UpsamplerState {
        UpsamplerState { factor: self.factor as nat, phase: self.state as nat }
    }
}

impl Upsampler {
    #[verifier::type_invariant]
    spec fn inv(self) -> bool {
        self.state < self.factor
    }

    /// An upsampler whose first output is an input sample.
    pub fn from(factor: u16) -> (upsampler: Upsampler)
        requires
            factor > 0,
        ensures
            upsampler@ == UpsamplerState::start(factor as nat),
    {
        Upsampler { factor, state: 0 }
    }

    /// The interpolation factor.
    pub fn factor(&self) -> (factor: u16)
        ensures
            factor == self@.factor,
            factor > 0,
            self@.wf(),
    {
        proof {
            use_type_invariant(self);
        }
        self.factor
    }

    /// Says what this output is, and moves on to the next. The counter turns
    /// on every call, also when the input has ended.
    pub fn next(&mut self) -> (slot: Slot)
        ensures
            slot == old(self)@.slot(),
            final(self)@ == old(self)@.stepped(),
            final(self)@.wf(),
    {
        proof {
            use_type_invariant(&*self);
        }
        let slot = if self.state == 0 {
            Slot::Input
        } else {
            Slot::Zero
        };
        self.state = if self.state + 1 < self.factor { self.state + 1 } else { 0 };
        slot
    }
}

/// What a [`Downsampler`] does after one read of its input.
#[derive(Clone, Copy, Debug, PartialEq, Eq, Structural)]
pub enum Block {
    /// The block is not complete: read on.
    More,
    /// The block is complete: emit the mean of its samples and start the
    /// next block.
    Full,
    /// The input ended inside the block: emit the end of the stream. The
    /// samples read for the block are dropped.
    End,
}

/// The state of a [`Downsampler`] as a mathematical value.
pub struct DownsamplerState {
    /// The decimation factor: samples per block.
    pub factor: nat,
    /// Samples read for the block in progress.
    pub taken: nat,
}

impl DownsamplerState {
    /// What every reachable state satisfies.
    pub open spec fn wf(self) -> bool {
        self.taken < self.factor
    }

    /// The state after construction.
    pub open spec fn start(factor: nat) -> DownsamplerState {
        DownsamplerState { factor, taken: 0 }
    }

    /// What follows a read that found a sample (`arrived`) or the end of the
    /// input.
    pub open spec fn verdict(self, arrived: bool) -> Block {
        if !arrived {
            Block::End
        } else if self.taken + 1 == self.factor {
            Block::Full
        } else {
            Block::More
        }
    }

    /// The state after that read.
    pub open spec fn accepted(self, arrived: bool) -> DownsamplerState {
        DownsamplerState {
            taken: if arrived && self.taken + 1 < self.factor {
                self.taken + 1
            } else {
                0
            },
            ..self
        }
    }

    /// The state after `reads` reads that all found a sample.
    pub open spec fn after(self, reads: nat) -> DownsamplerState
        decreases reads,
    {
        if reads == 0 {
            self
        } else {
            self.after((reads - 1) as nat).accepted(true)
        }
    }

    /// Number of blocks completed by `reads` reads that all found a sample.
    pub open spec fn blocks(self, reads: nat) -> nat
        decreases reads,
    {
        if reads == 0 {
            0
        } else {
            self.blocks((reads - 1) as nat) + (if self.after((reads - 1) as nat).verdict(true)
                == Block::Full {
                1nat
            } else {
                0nat
            })
        }
    }
}

/// Block averager: one output for every `factor` input samples, none for a
/// block that the input ends in.
pub struct Downsampler {
    factor: u16,
    taken: u16,
}

impl View for Downsampler {
    type V = DownsamplerState;

    closed spec fn view(&self) -> DownsamplerState {
        DownsamplerState { factor: self.factor as nat, taken: self.taken as nat }
    }
}

impl Downsampler {
    #[verifier::type_invariant]
    spec fn inv(self) -> bool {
        self.taken < self.factor
    }

    /// A downsampler at the start of a block.
    pub fn from(factor: u16) -> (downsampler: Downsampler)
        requires
            factor > 0,
        ensures
            downsampler@ == DownsamplerState::start(factor as nat),
    {
        Downsampler { factor, taken: 0 }
    }

    /// The decimation factor, by which the caller divides the sum of a block.
    pub fn factor(&self) -> (factor: u16)
        ensures
            factor == self@.factor,
            factor > 0,
            self@.wf(),
    {
        proof {
            use_type_invariant(self);
        }
        self.factor
    }

    /// Takes note of one read of the input and says what follows from it.
    pub fn next(&mut self, arrived: bool) -> (block: Block)
        ensures
            block == old(self)@.verdict(arrived),
            final(self)@ == old(self)@.accepted(arrived),
            final(self)@.wf(),
    {
        proof {
            use_type_invariant(&*self);
        }
        if !arrived {
            self.taken = 0;
            Block::End
        } else if self.taken + 1 == self.factor {
            self.taken = 0;
            Block::Full
        } else {
            self.taken = self.taken + 1;
            Block::More
        }
    }
}

/// Quotient and remainder of the successor: the remainder moves on by one
/// and the quotient grows when the remainder wraps.
proof fn lemma_successor(n: int, d: int)
    requires
        n >= 0,
        d > 0,
    ensures
        0 <= n % d < d,
        (n + 1) % d == (if n % d + 1 == d { 0 } else { n % d + 1 }),
        (n + 1) % d == (n % d + 1) % d,
        (n + 1) / d == (if n % d + 1 == d { n / d + 1 } else { n / d }),
{
    let q = n / d;
    let r = n % d;
    lemma_fundamental_div_mod(n, d);
    if r + 1 == d {
        assert(n + 1 == (q + 1) * d + 0) by (nonlinear_arith)
            requires
                n == d * q + r,
                r + 1 == d,
        ;
        lemma_fundamental_div_mod_converse(n + 1, d, q + 1, 0);
        lemma_fundamental_div_mod_converse(r + 1, d, 1, 0);
    } else {
        assert(n + 1 == q * d + (r + 1)) by (nonlinear_arith)
            requires
                n == d * q + r,
        ;
        lemma_fundamental_div_mod_converse(n + 1, d, q, r + 1);
        lemma_fundamental_div_mod_converse(r + 1, d, 0, r + 1);
    }
}

/// Schedule of the upsampler: counted from construction, output number
/// `calls` is an input sample exactly when `calls` is a multiple of the
/// factor. So of every `factor` outputs one is an input sample and the rest
/// are zeros.
pub proof fn lemma_upsampler_schedule(factor: nat, calls: nat)
    requires
        factor > 0,
    ensures
        UpsamplerState::start(factor).after(calls).factor == factor,
        UpsamplerState::start(factor).after(calls).phase == calls % factor,
        UpsamplerState::start(factor).after(calls).slot() == Slot::Input <==> calls % factor == 0,
    decreases calls,
{
    if calls > 0 {
        lemma_upsampler_schedule(factor, (calls - 1) as nat);
        lemma_successor(calls - 1, factor as int);
    }
}

/// Blocks of the downsampler: after `reads` samples the block in progress
/// holds `reads % factor` of them and `reads / factor` blocks are complete.
pub proof fn lemma_downsampler_blocks(factor: nat, reads: nat)
    requires
        factor > 0,
    ensures
        DownsamplerState::start(factor).after(reads).factor == factor,
        DownsamplerState::start(factor).after(reads).taken == reads % factor,
        DownsamplerState::start(factor).blocks(reads) == reads / factor,
    decreases reads,
{
    if reads > 0 {
        lemma_downsampler_blocks(factor, (reads - 1) as nat);
        lemma_successor(reads - 1, factor as int);
    }
}

/// An upsampler followed by a downsampler of the same factor: every block of
/// the downsampler starts with an input sample and holds zeros otherwise. The
/// mean of a block is therefore the input sample divided by the factor.
pub proof fn lemma_round_trip_blocks(factor: nat, calls: nat)
    requires
        factor > 0,
    ensures
        UpsamplerState::start(factor).after(calls).slot() == Slot::Input
            <==> DownsamplerState::start(factor).after(calls).taken == 0,
        DownsamplerState::start(factor).after(calls).verdict(true) == Block::Full
            <==> UpsamplerState::start(factor).after((calls + 1) as nat).slot() == Slot::Input,
{
    lemma_upsampler_schedule(factor, calls);
    lemma_upsampler_schedule(factor, (calls + 1) as nat);
    lemma_downsampler_blocks(factor, calls);
    lemma_successor(calls as int, factor as int);
}

} // verus!
