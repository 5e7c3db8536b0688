//! The delay line of a finite-impulse-response filter.
//!
//! A filter of K taps forms each output from the K most recent input
//! samples: `sum of tap(i) * coeffs[i]` over all `i`, where tap 0 is the
//! newest sample. This module keeps those samples in a ring and hands them
//! out by age; multiplying and adding them is left to the caller. It stores
//! samples without computing with them, so it is generic in their type.

use vstd::prelude::*;

verus! {

/// The taps of a new filter: `taps` of them, all holding `zero`.
pub open spec fn cleared<S>(taps: nat, zero: S) -> Seq<S> {
    Seq::new(taps, |i: int| zero)
}

/// The taps one step on: `sample` enters as the newest and the oldest
/// leaves. A filter without taps stays empty.
pub open spec fn pushed<S>(taps: Seq<S>, sample: S) -> Seq<S> {
    if taps.len() == 0 {
        taps
    } else {
        seq![sample] + taps.drop_last()
    }
}

/// The taps after the samples of `input` have entered, first to last.
pub open spec fn fed<S>(taps: Seq<S>, input: Seq<S>) -> Seq<S>
    decreases input.len(),
{
    if input.len() == 0 {
        taps
    } else {
        pushed(fed(taps, input.drop_last()), input.last())
    }
}

/// A ring of the most recent samples, as many as the filter has taps.
pub struct FIRFilter<S> {
    state: Vec<S>,
    pos: usize,
}

impl<S> View for FIRFilter<S> {
    type V = Seq<S>;

    /// The taps, newest sample first.
    closed spec fn view(&self) -> Seq<S> {
        Seq::new(
            self.state@.len(),
            |age: int|
                if age <= self.pos {
                    self.state@[self.pos - age]
                } else {
                    self.state@[self.pos + self.state@.len() - age]
                },
        )
    }
}

impl<S> FIRFilter<S> {
    #[verifier::type_invariant]
    spec fn inv(self) -> bool {
        self.pos < self.state@.len() || (self.pos == 0 && self.state@.len() == 0)
    }
}

impl<S: Copy> FIRFilter<S> {
    /// A filter of `taps` taps that all hold `zero`.
    pub fn from(taps: usize, zero: S) -> (filter: FIRFilter<S>)
        ensures
            filter@ == cleared(taps as nat, zero),
    {
        let mut state: Vec<S> = Vec::new();
        for i in 0..taps
            invariant
                state@.len() == i,
                forall|k: int| 0 <= k < i ==> state@[k] == zero,
        {
            state.push(zero);
        }
        let filter = FIRFilter { state, pos: 0 };
        assert(filter@ =~= cleared(taps as nat, zero));
        filter
    }

    /// Number of taps.
    pub fn len(&self) -> (taps: usize)
        ensures
            taps == self@.len(),
    {
        self.state.len()
    }

    /// Takes `sample` in as the newest; the oldest sample leaves.
    pub fn push(&mut self, sample: S)
        ensures
            final(self)@ == pushed(old(self)@, sample),
    {
        proof {
            use_type_invariant(&*self);
        }
        let taps = self.state.len();
        if taps > 0 {
            let pos = if self.pos + 1 == taps { 0 } else { self.pos + 1 };
            self.state[pos] = sample;
            self.pos = pos;
            assert(self@ =~= pushed(old(self)@, sample));
        }
    }

    /// One step of the filter: takes `sample` in and hands out the taps,
    /// newest first. The output of the step is the sum of `taps[i] *
    /// coeffs[i]` over all taps, which the caller forms.
    pub fn next(&mut self, sample: S) -> (taps: Vec<S>)
        ensures
            final(self)@ == pushed(old(self)@, sample),
            taps@ == pushed(old(self)@, sample),
    {
        self.push(sample);
        let len = self.len();
        let mut taps: Vec<S> = Vec::new();
        for age in 0..len
            invariant
                self@ == pushed(old(self)@, sample),
                len == self@.len(),
                taps@.len() == age,
                forall|k: int| 0 <= k < age ==> taps@[k] == self@[k],
        {
            if let Some(held) = self.tap(age) {
                taps.push(held);
            }
        }
        assert(taps@ =~= self@);
        taps
    }

    /// The sample that entered `age` steps before the newest, or `None` when
    /// the filter has no such tap.
    pub fn tap(&self, age: usize) -> (sample: Option<S>)
        ensures
            sample == (if age < self@.len() { Some(self@[age as int]) } else { None }),
    {
        proof {
            use_type_invariant(self);
        }
        let taps = self.state.len();
        if age < taps {
            let index = if age <= self.pos { self.pos - age } else { self.pos + (taps - age) };
            Some(self.state[index])
        } else {
            None
        }
    }
}

/// The delay line holds exactly the latest samples. After `input` has
/// entered, tap `age` holds the sample that entered `age` steps before the
/// last one, and where the input is shorter than that, what the tap held
/// `input.len()` places earlier at the start.
pub proof fn lemma_holds_latest<S>(taps: Seq<S>, input: Seq<S>)
    ensures
        fed(taps, input).len() == taps.len(),
        forall|age: int|
            0 <= age < taps.len() ==> #[trigger] fed(taps, input)[age] == (if age < input.len() {
                input[input.len() - 1 - age]
            } else {
                taps[age - input.len()]
            }),
    decreases input.len(),
{
    if input.len() > 0 {
        lemma_holds_latest(taps, input.drop_last());
    }
}

/// Combining two inputs sample by sample combines the taps tap by tap.
/// Where every sample of `mixed` is `mix` of the samples of `a` and `b` at
/// the same place, and `mix` of two cleared taps is a cleared tap, every tap
/// of a filter fed `mixed` is `mix` of the same taps of filters fed `a` and
/// `b`. This holds whatever the samples are and whatever `mix` computes.
pub proof fn lemma_taps_of_combination<S>(
    zero: S,
    taps: nat,
    a: Seq<S>,
    b: Seq<S>,
    mixed: Seq<S>,
    mix: spec_fn(S, S) -> S,
)
    requires
        a.len() == b.len() == mixed.len(),
        forall|j: int| 0 <= j < mixed.len() ==> #[trigger] mixed[j] == mix(a[j], b[j]),
        mix(zero, zero) == zero,
    ensures
        forall|age: int|
            0 <= age < taps ==> #[trigger] fed(cleared(taps, zero), mixed)[age] == mix(
                fed(cleared(taps, zero), a)[age],
                fed(cleared(taps, zero), b)[age],
            ),
{
    lemma_holds_latest(cleared(taps, zero), mixed);
    lemma_holds_latest(cleared(taps, zero), a);
    lemma_holds_latest(cleared(taps, zero), b);
}

/// The sum of `taps[i] * coeffs[i]` over the first `n` taps, for samples and
/// coefficients that are whole numbers.
pub open spec fn weighted_sum(taps: Seq<int>, coeffs: Seq<int>, n: nat) -> int
    decreases n,
{
    if n == 0 {
        0
    } else {
        weighted_sum(taps, coeffs, (n - 1) as nat) + taps[n - 1] * coeffs[n - 1]
    }
}

/// What a filter with the coefficients `coeffs` emits after `input` has
/// entered its cleared delay line, in exact arithmetic on whole numbers.
pub open spec fn response(coeffs: Seq<int>, input: Seq<int>) -> int {
    weighted_sum(fed(cleared(coeffs.len(), 0int), input), coeffs, coeffs.len())
}

/// The signal `a + k * b`, sample by sample.
pub open spec fn combined(a: Seq<int>, k: int, b: Seq<int>) -> Seq<int> {
    Seq::new(a.len(), |i: int| a[i] + k * b[i])
}

/// A weighted sum is linear in the taps.
proof fn lemma_weighted_sum_linear(
    taps: Seq<int>,
    taps_a: Seq<int>,
    k: int,
    taps_b: Seq<int>,
    coeffs: Seq<int>,
    n: nat,
)
    requires
        forall|i: int| 0 <= i < n ==> #[trigger] taps[i] == taps_a[i] + k * taps_b[i],
    ensures
        weighted_sum(taps, coeffs, n) == weighted_sum(taps_a, coeffs, n) + k * weighted_sum(
            taps_b,
            coeffs,
            n,
        ),
    decreases n,
{
    if n > 0 {
        lemma_weighted_sum_linear(taps, taps_a, k, taps_b, coeffs, (n - 1) as nat);
        let i = n - 1;
        let rest_a = weighted_sum(taps_a, coeffs, i as nat);
        let rest_b = weighted_sum(taps_b, coeffs, i as nat);
        assert(taps[i] == taps_a[i] + k * taps_b[i]);
        assert(rest_a + k * rest_b + (taps_a[i] + k * taps_b[i]) * coeffs[i] == (rest_a + taps_a[i]
            * coeffs[i]) + k * (rest_b + taps_b[i] * coeffs[i])) by (nonlinear_arith);
    }
}

/// Linearity of the filter in exact arithmetic: filtering `a + k * b` gives
/// the output for `a` plus `k` times the output for `b`. With `a` and `b`
/// cut off after the same number of samples this holds of every output
/// along the stream. The taps meant are those that [`FIRFilter::next`]
/// hands out; the sum over them is the caller's.
pub proof fn lemma_filter_linear(coeffs: Seq<int>, a: Seq<int>, k: int, b: Seq<int>)
    requires
        a.len() == b.len(),
    ensures
        response(coeffs, combined(a, k, b)) == response(coeffs, a) + k * response(coeffs, b),
{
    let zeros = cleared(coeffs.len(), 0int);
    let mix = combined(a, k, b);
    assert(0 + k * 0 == 0) by (nonlinear_arith);
    lemma_taps_of_combination(0int, coeffs.len(), a, b, mix, |x: int, y: int| x + k * y);
    lemma_weighted_sum_linear(fed(zeros, mix), fed(zeros, a), k, fed(zeros, b), coeffs, coeffs.len());
}

} // verus!
