//! Derived-metric engine: dominance ratios, return-over-time, and the
//! trailing windowed average.
//!
//! All functions here are pure: they compute over already-fetched values.
//! Quotients are formed at micro-unit precision, rounded to the nearest
//! micro-unit (halves away from zero), and saturate at the `i64` range; a
//! zero denominator yields zero for the dominance and ratio functions and is
//! rejected explicitly by [`return_over_time`].

use vstd::prelude::*;

use crate::fixed::{round_div, round_div_i128, sat64, sat64_i128, Fixed, FIXED_SCALE};
use crate::fixed::lemma_round_div_bound;

verus! {

/// The micro-unit count of the quotient `p / w`, where `p` and `w` are
/// themselves micro-unit counts: zero when `w == 0`, otherwise `p / w`
/// scaled to micro-units and rounded to the nearest one.
pub open spec fn ratio_micros(p: int, w: int) -> int {
    if w == 0 {
        0
    } else if w > 0 {
        round_div(p * FIXED_SCALE, w)
    } else {
        round_div(-(p * FIXED_SCALE), -w)
    }
}

/// `a / b` as a fixed-point ratio; `0` when `b` is zero.
pub fn ratio(a: Fixed, b: Fixed) -> (r: Fixed)
    ensures
        r.micros == sat64(ratio_micros(a.micros as int, b.micros as int)),
{
    if b.micros == 0 {
        Fixed { micros: 0 }
    } else {
        assert(-0x1_0000_0000_0000_0000_0000_0000 <= (a.micros as int) * (FIXED_SCALE as int)
            <= 0x1_0000_0000_0000_0000_0000_0000) by (nonlinear_arith)
            requires
                i64::MIN <= a.micros <= i64::MAX,
        ;
        let n: i128 = (a.micros as i128) * (FIXED_SCALE as i128);
        let q: i128 = if b.micros > 0 {
            round_div_i128(n, b.micros as i128)
        } else {
            round_div_i128(-n, -(b.micros as i128))
        };
        Fixed { micros: sat64_i128(q) }
    }
}

/// A part's share of an aggregate total, as a ratio in micro-units;
/// `0` when the total is zero.
pub fn dominance(part: Fixed, whole: Fixed) -> (r: Fixed)
    ensures
        r.micros == sat64(ratio_micros(part.micros as int, whole.micros as int)),
        whole.micros == 0 ==> r.micros == 0,
{
    ratio(part, whole)
}

/// The relative change from `past` to `recent` at micro-unit precision;
/// `None` when `past` is zero.
pub open spec fn spec_return(recent: Fixed, past: Fixed) -> Option<Fixed> {
    if past.micros == 0 {
        None
    } else {
        Some(
            Fixed { micros: sat64(ratio_micros(recent.micros - past.micros, past.micros as int)) as i64 },
        )
    }
}

/// Relative change from `past` to `recent`: `(recent - past) / past`.
///
/// The underlying data leaves the zero-denominator case open; this crate
/// rejects it explicitly and returns `None` exactly when `past` is zero.
pub fn return_over_time(recent: Fixed, past: Fixed) -> (r: Option<Fixed>)
    ensures
        r is None <==> past.micros == 0,
        r == spec_return(recent, past),
{
    if past.micros == 0 {
        None
    } else {
        let d: i128 = (recent.micros as i128) - (past.micros as i128);
        assert(-0x1_0000_0000_0000_0000_0000_0000 <= d * (FIXED_SCALE as int)
            <= 0x1_0000_0000_0000_0000_0000_0000) by (nonlinear_arith)
            requires
                -0x2_0000_0000_0000_0000 <= d <= 0x2_0000_0000_0000_0000,
        ;
        let n: i128 = d * (FIXED_SCALE as i128);
        let q: i128 = if past.micros > 0 {
            round_div_i128(n, past.micros as i128)
        } else {
            round_div_i128(-n, -(past.micros as i128))
        };
        Some(Fixed { micros: sat64_i128(q) })
    }
}

/// Global aggregate market figures for one cycle, in micro-USD.
#[derive(Debug, Clone, Copy, PartialEq, Eq, Structural)]
pub struct GlobalCryptoMarketData {
    pub total_market_cap_usd: Fixed,
    pub total_stable_cap_usd: Fixed,
    pub total_btc_cap_usd: Fixed,
    pub total_eth_cap_usd: Fixed,
    pub total_volume_24h_usd: Fixed,
}

/// BTC share of the total market cap.
pub fn btc_dominance(global: &GlobalCryptoMarketData) -> (r: Fixed)
    ensures
        r.micros == sat64(
            ratio_micros(global.total_btc_cap_usd.micros as int, global.total_market_cap_usd.micros as int),
        ),
{
    dominance(global.total_btc_cap_usd, global.total_market_cap_usd)
}

/// ETH share of the total market cap.
pub fn eth_dominance(global: &GlobalCryptoMarketData) -> (r: Fixed)
    ensures
        r.micros == sat64(
            ratio_micros(global.total_eth_cap_usd.micros as int, global.total_market_cap_usd.micros as int),
        ),
{
    dominance(global.total_eth_cap_usd, global.total_market_cap_usd)
}

/// Stablecoin share of the total market cap.
pub fn stablecoin_dominance(global: &GlobalCryptoMarketData) -> (r: Fixed)
    ensures
        r.micros == sat64(
            ratio_micros(global.total_stable_cap_usd.micros as int, global.total_market_cap_usd.micros as int),
        ),
{
    dominance(global.total_stable_cap_usd, global.total_market_cap_usd)
}

/// BTC to stablecoin market-cap ratio; `0` when the stablecoin cap is zero.
pub fn btc_stable_ratio(global: &GlobalCryptoMarketData) -> (r: Fixed)
    ensures
        r.micros == sat64(
            ratio_micros(global.total_btc_cap_usd.micros as int, global.total_stable_cap_usd.micros as int),
        ),
{
    ratio(global.total_btc_cap_usd, global.total_stable_cap_usd)
}

/// Number of non-null observations in a sequence.
pub open spec fn count_some(s: Seq<Option<Fixed>>) -> int
    decreases s.len(),
{
    if s.len() == 0 {
        0
    } else {
        count_some(s.drop_last()) + if s.last() is Some {
            1int
        } else {
            0int
        }
    }
}

/// Sum, in micro-units, of the non-null observations in a sequence.
pub open spec fn sum_some(s: Seq<Option<Fixed>>) -> int
    decreases s.len(),
{
    if s.len() == 0 {
        0
    } else {
        sum_some(s.drop_last()) + match s.last() {
            Some(v) => v.micros as int,
            None => 0,
        }
    }
}

/// First position of the trailing window of size `w` ending at `i`.
pub open spec fn window_lo(i: int, w: int) -> int {
    if i + 1 >= w {
        i + 1 - w
    } else {
        0
    }
}

/// The trailing windowed average at position `i`: the mean, rounded to the
/// nearest micro-unit, of the non-null observations among positions
/// `[window_lo(i, w), i]`; `0` when that sub-range has none.
pub open spec fn trailing_mean(s: Seq<Option<Fixed>>, w: int, i: int) -> int {
    let sub = s.subrange(window_lo(i, w), i + 1);
    if count_some(sub) == 0 {
        0
    } else {
        round_div(sum_some(sub), count_some(sub))
    }
}

pub proof fn lemma_count_some_le_len(s: Seq<Option<Fixed>>)
    ensures
        0 <= count_some(s) <= s.len(),
    decreases s.len(),
{
    if s.len() > 0 {
        lemma_count_some_le_len(s.drop_last());
    }
}

/// The summed observations are bounded by the count of observations times
/// the largest magnitude an observation can carry.
pub proof fn lemma_sum_some_bound(s: Seq<Option<Fixed>>)
    ensures
        count_some(s) * (i64::MIN as int) <= sum_some(s) <= count_some(s) * (i64::MAX as int),
    decreases s.len(),
{
    if s.len() == 0 {
    } else {
        lemma_sum_some_bound(s.drop_last());
        lemma_count_some_le_len(s.drop_last());
        let c = count_some(s.drop_last());
        let mn = i64::MIN as int;
        let mx = i64::MAX as int;
        match s.last() {
            Some(v) => {
                assert((c + 1) * mx == c * mx + mx) by (nonlinear_arith);
                assert((c + 1) * mn == c * mn + mn) by (nonlinear_arith);
                assert(mn <= v.micros as int <= mx);
            },
            None => {},
        }
    }
}

/// Trailing windowed average over a date-sorted sequence of optional
/// observations.  The window never looks forward from `i`, and a partial
/// window at the start of the sequence uses whatever is available.
pub fn trailing_average(values: &Vec<Option<Fixed>>, window: usize, i: usize) -> (r: Fixed)
    requires
        i < values@.len(),
        1 <= window <= 0x1_0000_0000,
    ensures
        r.micros == trailing_mean(values@, window as int, i as int),
{
    let n: usize = values.len();
    let lo: usize = if i + 1 >= window {
        i + 1 - window
    } else {
        0
    };
    let ghost glo = window_lo(i as int, window as int);
    assert(lo == glo);
    let mut sum: i128 = 0;
    let mut count: u64 = 0;
    let mut j: usize = lo;
    proof {
        assert(values@.subrange(glo, glo) =~= Seq::<Option<Fixed>>::empty());
    }
    while j <= i
        invariant
            glo == window_lo(i as int, window as int),
            lo as int == glo,
            0 <= glo <= j <= i + 1,
            i < n,
            n == values@.len(),
            i + 1 - glo <= window <= 0x1_0000_0000,
            sum == sum_some(values@.subrange(glo, j as int)),
            count == count_some(values@.subrange(glo, j as int)),
        decreases i + 1 - j,
    {
        proof {
            assert(values@.subrange(glo, j + 1).drop_last() =~= values@.subrange(glo, j as int));
            assert(values@.subrange(glo, j + 1).last() == values@[j as int]);
            lemma_count_some_le_len(values@.subrange(glo, j as int));
            lemma_sum_some_bound(values@.subrange(glo, j + 1));
            lemma_count_some_le_len(values@.subrange(glo, j + 1));
            let c1 = count_some(values@.subrange(glo, j + 1));
            assert(c1 * (i64::MAX as int) <= 0x1_0000_0000 * (i64::MAX as int) && 0x1_0000_0000 * (
            i64::MIN as int) <= c1 * (i64::MIN as int)) by (nonlinear_arith)
                requires
                    0 <= c1 <= 0x1_0000_0000,
            ;
        }
        match values[j] {
            Some(v) => {
                sum = sum + v.micros as i128;
                count = count + 1;
            },
            None => {},
        }
        j = j + 1;
    }
    proof {
        assert(values@.subrange(glo, i + 1) == values@.subrange(glo, j as int));
    }
    if count == 0 {
        Fixed { micros: 0 }
    } else {
        let ghost sub = values@.subrange(glo, i + 1);
        proof {
            lemma_sum_some_bound(sub);
            lemma_count_some_le_len(sub);
            lemma_round_div_bound(sum_some(sub), count_some(sub), i64::MIN as int, i64::MAX as int);
            let c1 = count_some(sub);
            assert(c1 * (i64::MAX as int) <= 0x1_0000_0000 * (i64::MAX as int) && 0x1_0000_0000 * (
            i64::MIN as int) <= c1 * (i64::MIN as int)) by (nonlinear_arith)
                requires
                    0 <= c1 <= 0x1_0000_0000,
            ;
        }
        let q = round_div_i128(sum, count as i128);
        Fixed { micros: q as i64 }
    }
}

} // verus!
