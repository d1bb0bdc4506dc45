//! Indicator descriptors: identity (name), parameters and lookback.
//!
//! A descriptor's lookback is the number of leading bars on which its series
//! has no value yet; the engine's warmup is the largest lookback in use.

use vstd::prelude::*;

use crate::domain::Price;
use crate::text::{decimal_text, prefixed_decimal};

verus! {

/// Simple moving average of closes.
#[derive(Debug)]
pub struct Sma {
    period: usize,
    name: String,
}

impl Clone for Sma {
    fn clone(&self) -> (c: Self)
        ensures
            c.spec_period() == self.spec_period(),
            c.spec_name() == self.spec_name(),
    {
        proof {
            use_type_invariant(self);
        }
        Sma { period: self.period, name: self.name.clone() }
    }
}

impl Sma {
    #[verifier::type_invariant]
    spec fn well_formed(self) -> bool {
        self.period >= 1
    }

    pub closed spec fn spec_period(&self) -> usize {
        self.period
    }

    pub closed spec fn spec_name(&self) -> Seq<char> {
        self.name@
    }

    pub open spec fn spec_lookback(&self) -> int {
        let p = self.spec_period() as int;
        p - 1
    }

    pub fn new(period: usize) -> (ind: Self)
        requires
            period >= 1,
        ensures
            ind.spec_period() == period,
            ind.spec_name() == "sma_"@ + decimal_text(period as nat),
    {
        Sma { period, name: prefixed_decimal("sma_", period) }
    }

    /// The window length.
    pub fn period(&self) -> (p: usize)
        ensures
            p == self.spec_period(),
    {
        self.period
    }

    pub fn name(&self) -> (n: &str)
        ensures
            n@ == self.spec_name(),
    {
        self.name.as_str()
    }

    pub fn lookback(&self) -> (l: usize)
        ensures
            l == self.spec_lookback(),
    {
        proof {
            use_type_invariant(self);
        }
        self.period - 1
    }
}

/// Exponential moving average of closes.
#[derive(Debug)]
pub struct Ema {
    period: usize,
    name: String,
}

impl Clone for Ema {
    fn clone(&self) -> (c: Self)
        ensures
            c.spec_period() == self.spec_period(),
            c.spec_name() == self.spec_name(),
    {
        proof {
            use_type_invariant(self);
        }
        Ema { period: self.period, name: self.name.clone() }
    }
}

impl Ema {
    #[verifier::type_invariant]
    spec fn well_formed(self) -> bool {
        self.period >= 1
    }

    pub closed spec fn spec_period(&self) -> usize {
        self.period
    }

    pub closed spec fn spec_name(&self) -> Seq<char> {
        self.name@
    }

    pub open spec fn spec_lookback(&self) -> int {
        let p = self.spec_period() as int;
        p - 1
    }

    pub fn new(period: usize) -> (ind: Self)
        requires
            period >= 1,
        ensures
            ind.spec_period() == period,
            ind.spec_name() == "ema_"@ + decimal_text(period as nat),
    {
        Ema { period, name: prefixed_decimal("ema_", period) }
    }

    /// The window length.
    pub fn period(&self) -> (p: usize)
        ensures
            p == self.spec_period(),
    {
        self.period
    }

    pub fn name(&self) -> (n: &str)
        ensures
            n@ == self.spec_name(),
    {
        self.name.as_str()
    }

    pub fn lookback(&self) -> (l: usize)
        ensures
            l == self.spec_lookback(),
    {
        proof {
            use_type_invariant(self);
        }
        self.period - 1
    }
}

/// Average true range (Wilder smoothing).
#[derive(Debug)]
pub struct Atr {
    period: usize,
    name: String,
}

impl Clone for Atr {
    fn clone(&self) -> (c: Self)
        ensures
            c.spec_period() == self.spec_period(),
            c.spec_name() == self.spec_name(),
    {
        proof {
            use_type_invariant(self);
        }
        Atr { period: self.period, name: self.name.clone() }
    }
}

impl Atr {
    #[verifier::type_invariant]
    spec fn well_formed(self) -> bool {
        self.period >= 1
    }

    pub closed spec fn spec_period(&self) -> usize {
        self.period
    }

    pub closed spec fn spec_name(&self) -> Seq<char> {
        self.name@
    }

    pub open spec fn spec_lookback(&self) -> int {
        let p = self.spec_period() as int;
        p
    }

    pub fn new(period: usize) -> (ind: Self)
        requires
            period >= 1,
        ensures
            ind.spec_period() == period,
            ind.spec_name() == "atr_"@ + decimal_text(period as nat),
    {
        Atr { period, name: prefixed_decimal("atr_", period) }
    }

    /// The window length.
    pub fn period(&self) -> (p: usize)
        ensures
            p == self.spec_period(),
    {
        self.period
    }

    pub fn name(&self) -> (n: &str)
        ensures
            n@ == self.spec_name(),
    {
        self.name.as_str()
    }

    pub fn lookback(&self) -> (l: usize)
        ensures
            l == self.spec_lookback(),
    {
        proof {
            use_type_invariant(self);
        }
        self.period
    }
}

/// Average directional index.
#[derive(Debug)]
pub struct Adx {
    period: usize,
    name: String,
}

impl Clone for Adx {
    fn clone(&self) -> (c: Self)
        ensures
            c.spec_period() == self.spec_period(),
            c.spec_name() == self.spec_name(),
    {
        proof {
            use_type_invariant(self);
        }
        Adx { period: self.period, name: self.name.clone() }
    }
}

impl Adx {
    #[verifier::type_invariant]
    spec fn well_formed(self) -> bool {
        self.period >= 1 && self.period <= usize::MAX / 2
    }

    pub closed spec fn spec_period(&self) -> usize {
        self.period
    }

    pub closed spec fn spec_name(&self) -> Seq<char> {
        self.name@
    }

    pub open spec fn spec_lookback(&self) -> int {
        let p = self.spec_period() as int;
        2 * p
    }

    pub fn new(period: usize) -> (ind: Self)
        requires
            period >= 1,
            period <= usize::MAX / 2,
        ensures
            ind.spec_period() == period,
            ind.spec_name() == "adx_"@ + decimal_text(period as nat),
    {
        Adx { period, name: prefixed_decimal("adx_", period) }
    }

    /// The window length.
    pub fn period(&self) -> (p: usize)
        ensures
            p == self.spec_period(),
    {
        self.period
    }

    pub fn name(&self) -> (n: &str)
        ensures
            n@ == self.spec_name(),
    {
        self.name.as_str()
    }

    pub fn lookback(&self) -> (l: usize)
        ensures
            l == self.spec_lookback(),
    {
        proof {
            use_type_invariant(self);
        }
        2 * self.period
    }
}

/// Relative strength index.
#[derive(Debug)]
pub struct Rsi {
    period: usize,
    name: String,
}

impl Clone for Rsi {
    fn clone(&self) -> (c: Self)
        ensures
            c.spec_period() == self.spec_period(),
            c.spec_name() == self.spec_name(),
    {
        proof {
            use_type_invariant(self);
        }
        Rsi { period: self.period, name: self.name.clone() }
    }
}

impl Rsi {
    #[verifier::type_invariant]
    spec fn well_formed(self) -> bool {
        self.period >= 1
    }

    pub closed spec fn spec_period(&self) -> usize {
        self.period
    }

    pub closed spec fn spec_name(&self) -> Seq<char> {
        self.name@
    }

    pub open spec fn spec_lookback(&self) -> int {
        let p = self.spec_period() as int;
        p
    }

    pub fn new(period: usize) -> (ind: Self)
        requires
            period >= 1,
        ensures
            ind.spec_period() == period,
            ind.spec_name() == "rsi_"@ + decimal_text(period as nat),
    {
        Rsi { period, name: prefixed_decimal("rsi_", period) }
    }

    /// The window length.
    pub fn period(&self) -> (p: usize)
        ensures
            p == self.spec_period(),
    {
        self.period
    }

    pub fn name(&self) -> (n: &str)
        ensures
            n@ == self.spec_name(),
    {
        self.name.as_str()
    }

    pub fn lookback(&self) -> (l: usize)
        ensures
            l == self.spec_lookback(),
    {
        proof {
            use_type_invariant(self);
        }
        self.period
    }
}

/// Rate of change over `period` bars.
#[derive(Debug)]
pub struct Roc {
    period: usize,
    name: String,
}

impl Clone for Roc {
    fn clone(&self) -> (c: Self)
        ensures
            c.spec_period() == self.spec_period(),
            c.spec_name() == self.spec_name(),
    {
        proof {
            use_type_invariant(self);
        }
        Roc { period: self.period, name: self.name.clone() }
    }
}

impl Roc {
    #[verifier::type_invariant]
    spec fn well_formed(self) -> bool {
        self.period >= 1
    }

    pub closed spec fn spec_period(&self) -> usize {
        self.period
    }

    pub closed spec fn spec_name(&self) -> Seq<char> {
        self.name@
    }

    pub open spec fn spec_lookback(&self) -> int {
        let p = self.spec_period() as int;
        p
    }

    pub fn new(period: usize) -> (ind: Self)
        requires
            period >= 1,
        ensures
            ind.spec_period() == period,
            ind.spec_name() == "roc_"@ + decimal_text(period as nat),
    {
        Roc { period, name: prefixed_decimal("roc_", period) }
    }

    /// The window length.
    pub fn period(&self) -> (p: usize)
        ensures
            p == self.spec_period(),
    {
        self.period
    }

    pub fn name(&self) -> (n: &str)
        ensures
            n@ == self.spec_name(),
    {
        self.name.as_str()
    }

    pub fn lookback(&self) -> (l: usize)
        ensures
            l == self.spec_lookback(),
    {
        proof {
            use_type_invariant(self);
        }
        self.period
    }
}

/// Close-to-close difference over `period` bars.
#[derive(Debug)]
pub struct Momentum {
    period: usize,
    name: String,
}

impl Clone for Momentum {
    fn clone(&self) -> (c: Self)
        ensures
            c.spec_period() == self.spec_period(),
            c.spec_name() == self.spec_name(),
    {
        proof {
            use_type_invariant(self);
        }
        Momentum { period: self.period, name: self.name.clone() }
    }
}

impl Momentum {
    #[verifier::type_invariant]
    spec fn well_formed(self) -> bool {
        self.period >= 1
    }

    pub closed spec fn spec_period(&self) -> usize {
        self.period
    }

    pub closed spec fn spec_name(&self) -> Seq<char> {
        self.name@
    }

    pub open spec fn spec_lookback(&self) -> int {
        let p = self.spec_period() as int;
        p
    }

    pub fn new(period: usize) -> (ind: Self)
        requires
            period >= 1,
        ensures
            ind.spec_period() == period,
            ind.spec_name() == "momentum_"@ + decimal_text(period as nat),
    {
        Momentum { period, name: prefixed_decimal("momentum_", period) }
    }

    /// The window length.
    pub fn period(&self) -> (p: usize)
        ensures
            p == self.spec_period(),
    {
        self.period
    }

    pub fn name(&self) -> (n: &str)
        ensures
            n@ == self.spec_name(),
    {
        self.name.as_str()
    }

    pub fn lookback(&self) -> (l: usize)
        ensures
            l == self.spec_lookback(),
    {
        proof {
            use_type_invariant(self);
        }
        self.period
    }
}

/// The level at position `j` of a series (0 where it is missing).
pub open spec fn level_at(levels: Seq<Option<Price>>, j: int) -> i64 {
    match levels[j] {
        Some(p) => p.0,
        None => 0,
    }
}

/// The `len` entries ending at `i` all exist and none is missing.
pub open spec fn window_full(levels: Seq<Option<Price>>, i: int, len: int) -> bool {
    &&& 0 <= i < levels.len()
    &&& i + 1 >= len
    &&& forall|j: int| i + 1 - len <= j <= i ==> (#[trigger] levels[j]) is Some
}

/// `v` is the highest (or lowest) level on positions `lo..=hi`.
pub open spec fn is_window_extreme(levels: Seq<Option<Price>>, lo: int, hi: int, v: i64, highest: bool) -> bool {
    &&& exists|j: int| lo <= j <= hi && levels[j] == Some(Price(v))
    &&& forall|j: int|
        lo <= j <= hi ==> if highest {
            level_at(levels, j) <= v
        } else {
            level_at(levels, j) >= v
        }
}

/// Position `lo + off` holds the latest extreme of positions `lo..=hi`: no
/// level in the window beats it and none after it equals it.
pub open spec fn is_latest_extreme(levels: Seq<Option<Price>>, lo: int, hi: int, off: int, highest: bool) -> bool {
    let v = level_at(levels, lo + off);
    &&& 0 <= off <= hi - lo
    &&& forall|k: int| lo <= k <= hi ==> if highest { level_at(levels, k) <= v } else { level_at(levels, k) >= v }
    &&& forall|k: int| lo + off < k <= hi ==> if highest { level_at(levels, k) < v } else { level_at(levels, k) > v }
}

/// Which Donchian band a descriptor computes.
#[derive(Debug, Clone, Copy, PartialEq, Eq, Structural)]
pub enum DonchianBand {
    Upper,
    Lower,
}

/// Which Aroon line a descriptor computes.
#[derive(Debug, Clone, Copy, PartialEq, Eq, Structural)]
pub enum AroonBand {
    Up,
    Down,
}

/// Which Bollinger band a descriptor computes.
#[derive(Debug, Clone, Copy, PartialEq, Eq, Structural)]
pub enum BollingerBand {
    Upper,
    Middle,
    Lower,
}

/// Which Keltner band a descriptor computes.
#[derive(Debug, Clone, Copy, PartialEq, Eq, Structural)]
pub enum KeltnerBand {
    Upper,
    Middle,
    Lower,
}

/// Donchian channel: highest high or lowest low over the window.
#[derive(Debug)]
pub struct Donchian {
    period: usize,
    band: DonchianBand,
    name: String,
}

impl Clone for Donchian {
    fn clone(&self) -> (c: Self)
        ensures
            c.spec_period() == self.spec_period(),
            c.spec_band() == self.spec_band(),
            c.spec_name() == self.spec_name(),
    {
        proof {
            use_type_invariant(self);
        }
        Donchian { period: self.period, band: self.band, name: self.name.clone() }
    }
}

impl Donchian {
    #[verifier::type_invariant]
    spec fn well_formed(self) -> bool {
        self.period >= 1
    }

    pub closed spec fn spec_period(&self) -> usize {
        self.period
    }

    pub closed spec fn spec_band(&self) -> DonchianBand {
        self.band
    }

    pub closed spec fn spec_name(&self) -> Seq<char> {
        self.name@
    }

    pub open spec fn spec_lookback(&self) -> int {
        let p = self.spec_period() as int;
        p - 1
    }

    pub fn upper(period: usize) -> (ind: Self)
        requires
            period >= 1,
        ensures
            ind.spec_period() == period,
            ind.spec_band() == DonchianBand::Upper,
            ind.spec_name() == "donchian_upper_"@ + decimal_text(period as nat),
    {
        Donchian { period, band: DonchianBand::Upper, name: prefixed_decimal("donchian_upper_", period) }
    }

    pub fn lower(period: usize) -> (ind: Self)
        requires
            period >= 1,
        ensures
            ind.spec_period() == period,
            ind.spec_band() == DonchianBand::Lower,
            ind.spec_name() == "donchian_lower_"@ + decimal_text(period as nat),
    {
        Donchian { period, band: DonchianBand::Lower, name: prefixed_decimal("donchian_lower_", period) }
    }

    pub fn band(&self) -> (b: DonchianBand)
        ensures
            b == self.spec_band(),
    {
        self.band
    }

    /// The window length.
    pub fn period(&self) -> (p: usize)
        ensures
            p == self.spec_period(),
    {
        self.period
    }

    /// The channel over the highs (upper band) or the lows (lower band): at
    /// each bar, the extreme level of the `period` bars ending there; none
    /// before a full window or when a level in the window is missing.
    pub fn channel(&self, highs: &[Option<Price>], lows: &[Option<Price>]) -> (r: Vec<Option<Price>>)
        requires
            highs@.len() == lows@.len(),
        ensures
            r@.len() == highs@.len(),
            forall|i: int| 0 <= i < r@.len() ==> {
                let src = if self.spec_band() == DonchianBand::Upper { highs@ } else { lows@ };
                &&& ((#[trigger] r@[i]) is Some <==> window_full(src, i, self.spec_period() as int))
                &&& r@[i] matches Some(p) ==> is_window_extreme(
                    src,
                    i + 1 - self.spec_period(),
                    i,
                    p.0,
                    self.spec_band() == DonchianBand::Upper,
                )
            },
    {
        proof {
            use_type_invariant(self);
        }
        let highest = match self.band {
            DonchianBand::Upper => true,
            DonchianBand::Lower => false,
        };
        let src: &[Option<Price>] = if highest { highs } else { lows };
        let period = self.period;
        let n = src.len();
        let mut out: Vec<Option<Price>> = Vec::new();
        let mut i: usize = 0;
        while i < n
            invariant
                n == src@.len(),
                period >= 1,
                i <= n,
                out@.len() == i,
                forall|x: int| 0 <= x < i ==> {
                    &&& ((#[trigger] out@[x]) is Some <==> window_full(src@, x, period as int))
                    &&& out@[x] matches Some(p) ==> is_window_extreme(src@, x + 1 - period, x, p.0, highest)
                },
            decreases n - i,
        {
            if i + 1 < period {
                out.push(None);
            } else {
                let lo = i + 1 - period;
                let mut best: i64 = 0;
                let mut found: bool = false;
                let mut gap: bool = false;
                let mut j: usize = lo;
                while j <= i
                    invariant
                        lo <= j <= i + 1,
                        i < n,
                        n == src@.len(),
                        !gap ==> forall|k: int| lo <= k < j ==> (#[trigger] src@[k]) is Some,
                        gap ==> exists|k: int| lo <= k <= i && (#[trigger] src@[k]) is None,
                        !gap ==> (found <==> j > lo),
                        !gap && found ==> is_window_extreme(src@, lo as int, j - 1, best, highest),
                    ensures
                        gap || j == i + 1,
                        !gap ==> forall|k: int| lo <= k < j ==> (#[trigger] src@[k]) is Some,
                        gap ==> exists|k: int| lo <= k <= i && (#[trigger] src@[k]) is None,
                        !gap ==> (found <==> j > lo),
                        !gap && found ==> is_window_extreme(src@, lo as int, j - 1, best, highest),
                    decreases i + 1 - j,
                {
                    match src[j] {
                        None => {
                            gap = true;
                            break;
                        },
                        Some(p) => {
                            if !found || (highest && p.0 > best) || (!highest && p.0 < best) {
                                best = p.0;
                            }
                            found = true;
                        },
                    }
                    j = j + 1;
                }
                let ghost before = out@;
                if gap {
                    out.push(None);
                } else {
                    out.push(Some(Price(best)));
                }
                proof {
                    assert forall|x: int| 0 <= x < i implies out@[x] == before[x] by {}
                    if !gap {
                        assert(window_full(src@, i as int, period as int));
                    }
                }
            }
            i = i + 1;
        }
        out
    }

    pub fn name(&self) -> (n: &str)
        ensures
            n@ == self.spec_name(),
    {
        self.name.as_str()
    }

    pub fn lookback(&self) -> (l: usize)
        ensures
            l == self.spec_lookback(),
    {
        proof {
            use_type_invariant(self);
        }
        self.period - 1
    }
}

/// Aroon up/down: how recently the window's extreme occurred.
#[derive(Debug)]
pub struct Aroon {
    period: usize,
    band: AroonBand,
    name: String,
}

impl Clone for Aroon {
    fn clone(&self) -> (c: Self)
        ensures
            c.spec_period() == self.spec_period(),
            c.spec_band() == self.spec_band(),
            c.spec_name() == self.spec_name(),
    {
        proof {
            use_type_invariant(self);
        }
        Aroon { period: self.period, band: self.band, name: self.name.clone() }
    }
}

impl Aroon {
    #[verifier::type_invariant]
    spec fn well_formed(self) -> bool {
        self.period >= 1
    }

    pub closed spec fn spec_period(&self) -> usize {
        self.period
    }

    pub closed spec fn spec_band(&self) -> AroonBand {
        self.band
    }

    pub closed spec fn spec_name(&self) -> Seq<char> {
        self.name@
    }

    pub open spec fn spec_lookback(&self) -> int {
        let p = self.spec_period() as int;
        p
    }

    pub fn up(period: usize) -> (ind: Self)
        requires
            period >= 1,
        ensures
            ind.spec_period() == period,
            ind.spec_band() == AroonBand::Up,
            ind.spec_name() == "aroon_up_"@ + decimal_text(period as nat),
    {
        Aroon { period, band: AroonBand::Up, name: prefixed_decimal("aroon_up_", period) }
    }

    pub fn down(period: usize) -> (ind: Self)
        requires
            period >= 1,
        ensures
            ind.spec_period() == period,
            ind.spec_band() == AroonBand::Down,
            ind.spec_name() == "aroon_down_"@ + decimal_text(period as nat),
    {
        Aroon { period, band: AroonBand::Down, name: prefixed_decimal("aroon_down_", period) }
    }

    pub fn band(&self) -> (b: AroonBand)
        ensures
            b == self.spec_band(),
    {
        self.band
    }

    /// The window length.
    pub fn period(&self) -> (p: usize)
        ensures
            p == self.spec_period(),
    {
        self.period
    }

    /// For each bar with a full window of `period + 1` levels ending there
    /// (highs for the up line, lows for the down line), the offset within
    /// the window of its latest extreme: the most recent highest high or
    /// lowest low. None before a full window or when a level is missing.
    pub fn extreme_offsets(&self, highs: &[Option<Price>], lows: &[Option<Price>]) -> (r: Vec<Option<usize>>)
        requires
            highs@.len() == lows@.len(),
        ensures
            r@.len() == highs@.len(),
            forall|i: int| 0 <= i < r@.len() ==> {
                let src = if self.spec_band() == AroonBand::Up { highs@ } else { lows@ };
                &&& ((#[trigger] r@[i]) is Some <==> window_full(src, i, self.spec_period() + 1))
                &&& r@[i] matches Some(off) ==> is_latest_extreme(
                    src,
                    i - self.spec_period(),
                    i,
                    off as int,
                    self.spec_band() == AroonBand::Up,
                )
            },
    {
        proof {
            use_type_invariant(self);
        }
        let highest = match self.band {
            AroonBand::Up => true,
            AroonBand::Down => false,
        };
        let src: &[Option<Price>] = if highest { highs } else { lows };
        let period = self.period;
        let n = src.len();
        let mut out: Vec<Option<usize>> = Vec::new();
        let mut i: usize = 0;
        while i < n
            invariant
                n == src@.len(),
                period >= 1,
                i <= n,
                out@.len() == i,
                forall|x: int| 0 <= x < i ==> {
                    &&& ((#[trigger] out@[x]) is Some <==> window_full(src@, x, period + 1))
                    &&& out@[x] matches Some(off) ==> is_latest_extreme(src@, x - period, x, off as int, highest)
                },
            decreases n - i,
        {
            let ghost before = out@;
            if i < period {
                out.push(None);
            } else {
                let lo = i - period;
                let mut best: i64 = 0;
                let mut best_off: usize = 0;
                let mut found: bool = false;
                let mut gap: bool = false;
                let mut j: usize = lo;
                while j <= i
                    invariant
                        lo <= j <= i + 1,
                        lo == i - period,
                        i < n,
                        n == src@.len(),
                        !gap ==> forall|k: int| lo <= k < j ==> (#[trigger] src@[k]) is Some,
                        gap ==> exists|k: int| lo <= k <= i && (#[trigger] src@[k]) is None,
                        !gap ==> (found <==> j > lo),
                        !gap && found ==> best == level_at(src@, lo + best_off),
                        !gap && found ==> is_latest_extreme(src@, lo as int, j - 1, best_off as int, highest),
                    ensures
                        gap || j == i + 1,
                        !gap ==> forall|k: int| lo <= k < j ==> (#[trigger] src@[k]) is Some,
                        gap ==> exists|k: int| lo <= k <= i && (#[trigger] src@[k]) is None,
                        !gap ==> (found <==> j > lo),
                        !gap && found ==> is_latest_extreme(src@, lo as int, j - 1, best_off as int, highest),
                    decreases i + 1 - j,
                {
                    match src[j] {
                        None => {
                            gap = true;
                            break;
                        },
                        Some(p) => {
                            if !found || (highest && p.0 >= best) || (!highest && p.0 <= best) {
                                best = p.0;
                                best_off = j - lo;
                            }
                            found = true;
                        },
                    }
                    j = j + 1;
                }
                if gap {
                    out.push(None);
                } else {
                    out.push(Some(best_off));
                }
                proof {
                    if !gap {
                        assert(window_full(src@, i as int, period + 1));
                    }
                }
            }
            proof {
                assert forall|x: int| 0 <= x < i implies out@[x] == before[x] by {}
            }
            i = i + 1;
        }
        out
    }

    pub fn name(&self) -> (n: &str)
        ensures
            n@ == self.spec_name(),
    {
        self.name.as_str()
    }

    pub fn lookback(&self) -> (l: usize)
        ensures
            l == self.spec_lookback(),
    {
        proof {
            use_type_invariant(self);
        }
        self.period
    }
}

} // verus!
