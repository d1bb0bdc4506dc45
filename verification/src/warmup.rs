//! Warmup tracking: no signals or orders until every indicator has enough history.

use vstd::prelude::*;

verus! {

/// Largest value of a sequence of lookbacks, 0 for none.
pub open spec fn max_lookback_of(s: Seq<usize>) -> nat
    decreases s.len(),
{
    if s.len() == 0 {
        0
    } else {
        let rest = max_lookback_of(s.drop_last());
        if s.last() as nat > rest {
            s.last() as nat
        } else {
            rest
        }
    }
}

proof fn lemma_max_lookback_bounds(s: Seq<usize>)
    ensures
        max_lookback_of(s) <= usize::MAX,
        forall|i: int| 0 <= i < s.len() ==> s[i] <= max_lookback_of(s),
        s.len() == 0 ==> max_lookback_of(s) == 0,
        s.len() > 0 ==> exists|i: int| 0 <= i < s.len() && s[i] == max_lookback_of(s),
    decreases s.len(),
{
    if s.len() > 0 {
        lemma_max_lookback_bounds(s.drop_last());
        let rest = s.drop_last();
        assert forall|i: int| 0 <= i < s.len() implies s[i] <= max_lookback_of(s) by {
            if i < s.len() - 1 {
                assert(s[i] == rest[i]);
            }
        }
        if s.len() > 1 && max_lookback_of(rest) >= s.last() {
            let j = choose|j: int| 0 <= j < rest.len() && rest[j] == max_lookback_of(rest);
            assert(s[j] == rest[j]);
        } else {
            assert(s[s.len() - 1] == s.last());
        }
    }
}

/// Warmup: the maximum lookback across all indicators, 0 when there are none.
pub fn compute_warmup(lookbacks: &[usize]) -> (w: usize)
    ensures
        w == max_lookback_of(lookbacks@),
{
    let mut best: usize = 0;
    let mut i: usize = 0;
    while i < lookbacks.len()
        invariant
            i <= lookbacks@.len(),
            best == max_lookback_of(lookbacks@.subrange(0, i as int)),
        decreases lookbacks@.len() - i,
    {
        proof {
            let next = lookbacks@.subrange(0, i + 1);
            assert(next.drop_last() =~= lookbacks@.subrange(0, i as int));
        }
        if lookbacks[i] > best {
            best = lookbacks[i];
        }
        i = i + 1;
    }
    proof {
        assert(lookbacks@.subrange(0, lookbacks@.len() as int) =~= lookbacks@);
    }
    best
}

/// The warmup a backtest run uses: the configured number of bars, or the
/// longest indicator lookback when that is longer.
pub fn run_warmup(configured: usize, lookbacks: &[usize]) -> (w: usize)
    ensures
        w == if configured >= max_lookback_of(lookbacks@) { configured as nat } else { max_lookback_of(lookbacks@) },
{
    let indicator_warmup = compute_warmup(lookbacks);
    if configured >= indicator_warmup {
        configured
    } else {
        indicator_warmup
    }
}

/// Warmup state tracker.
#[derive(Debug, Clone)]
pub struct WarmupState {
    warmup_bars: usize,
    bars_processed: usize,
}

impl View for WarmupState {
    /// (bars required, bars processed so far)
    type V = (usize, usize);

    closed spec fn view(&self) -> (usize, usize) {
        (self.warmup_bars, self.bars_processed)
    }
}

/// Trait for indicators to expose their lookback requirements.
pub trait Indicator {
    /// The lookback this indicator reports.
    spec fn spec_max_lookback(&self) -> usize;

    fn max_lookback(&self) -> (r: usize)
        ensures
            r == self.spec_max_lookback(),
    ;
}

/// The lookbacks a slice of features reports, in order.
pub open spec fn feature_lookbacks<I: Indicator>(features: Seq<I>) -> Seq<usize> {
    features.map_values(|f: I| f.spec_max_lookback())
}

impl WarmupState {
    pub fn new(warmup_bars: usize) -> (w: Self)
        ensures
            w@ == (warmup_bars, 0usize),
    {
        WarmupState { warmup_bars, bars_processed: 0 }
    }

    /// Warmup from the lookbacks the indicators report: their maximum.
    pub fn from_lookbacks(lookbacks: &[usize]) -> (w: Self)
        ensures
            w@.0 == max_lookback_of(lookbacks@),
            w@.1 == 0,
    {
        Self::new(compute_warmup(lookbacks))
    }

    /// Warmup from feature requirements (max lookback across all indicators).
    /// Each feature is asked for its lookback once, in order; the warmup is the
    /// maximum of the answers.
    pub fn from_features<I: Indicator>(features: &[I]) -> (w: Self)
        ensures
            w@.0 == max_lookback_of(feature_lookbacks(features@)),
            w@.1 == 0,
    {
        let mut answers: Vec<usize> = Vec::new();
        let mut i: usize = 0;
        while i < features.len()
            invariant
                i <= features@.len(),
                answers@ == feature_lookbacks(features@.subrange(0, i as int)),
            decreases features@.len() - i,
        {
            let l = features[i].max_lookback();
            answers.push(l);
            proof {
                assert(feature_lookbacks(features@.subrange(0, i + 1)) =~= feature_lookbacks(
                    features@.subrange(0, i as int),
                ).push(l));
            }
            i = i + 1;
        }
        proof {
            assert(features@.subrange(0, features@.len() as int) =~= features@);
        }
        Self::from_lookbacks(answers.as_slice())
    }

    pub fn process_bar(&mut self)
        requires
            old(self)@.1 < usize::MAX,
        ensures
            final(self)@ == (old(self)@.0, (old(self)@.1 + 1) as usize),
    {
        self.bars_processed = self.bars_processed + 1;
    }

    pub fn is_warm(&self) -> (b: bool)
        ensures
            b == (self@.1 >= self@.0),
    {
        self.bars_processed >= self.warmup_bars
    }

    pub fn bars_until_warm(&self) -> (n: usize)
        ensures
            n == if self@.1 >= self@.0 { 0 } else { self@.0 - self@.1 },
    {
        if self.is_warm() {
            0
        } else {
            self.warmup_bars - self.bars_processed
        }
    }
}

/// Processing bars one at a time counts the remaining warmup down by one per
/// bar until it reaches zero, after which the tracker stays warm.
pub proof fn warmup_counts_down(before: (usize, usize), after: (usize, usize))
    requires
        after == (before.0, (before.1 + 1) as usize),
        before.1 < usize::MAX,
    ensures
        before.1 >= before.0 ==> after.1 >= after.0,
        before.1 < before.0 ==> (before.0 - before.1) - 1 == (if after.1 >= after.0 { 0int } else { after.0 - after.1 }),
{
}

} // verus!
