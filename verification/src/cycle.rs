//! One ingestion cycle: the fetched values, the derived metrics computed
//! from them, and the records the persistence stage writes.
//!
//! The surrounding process performs the network calls; everything that
//! decides or computes — which quote is closest to a target instant, which
//! global point is the last full day, which records a cycle produces —
//! lives here and takes the fetched values as arguments.

use vstd::prelude::*;

use crate::date::{date_str_shape, date_str_value, parse_date, Date};
use crate::fanout::FetchOutcome;
use crate::fixed::{sat64, sat64_i128, Fixed};
use crate::metrics::{ratio_micros, spec_return, GlobalCryptoMarketData};
use crate::parse::{decimal_micros, is_decimal, parse_fixed_or_zero};
use crate::store::{MarketDataPoint, MarketMetricPoint, MetricFields, PriceFields, Record, RecordStore, SourceTag};
use crate::symbol::{M2Country, MarketSymbol};

verus! {

/// The sentiment index as fetched: value, classification and timestamp,
/// all as the provider's text.
#[derive(Debug, Clone)]
pub struct FearGreedIndexData {
    pub value: String,
    pub classification: String,
    pub timestamp: String,
}

/// One observation of a named macro series.
#[derive(Debug, Clone)]
pub struct FredIndexData {
    pub series_id: String,
    pub value: Fixed,
    pub date: String,
}

/// One asset's recent prices: the latest close and the closes nearest to
/// 7, 30 and 90 days ago.
#[derive(Debug, Clone, Copy, PartialEq, Eq, Structural)]
pub struct MarketPrice {
    pub symbol: MarketSymbol,
    pub price_usd: Fixed,
    pub price_usd_7d_ago: Fixed,
    pub price_usd_30d_ago: Fixed,
    pub price_usd_90d_ago: Fixed,
    pub volume_24h_usd: u64,
}

/// One country's M2 money stock observation.
#[derive(Debug, Clone)]
pub struct M2DataPoint {
    pub country: String,
    pub iso_code: String,
    pub currency: String,
    pub date: String,
    pub m2: Fixed,
}

/// The derived metrics of one daily cycle.  The returns are `None` when
/// the past price they divide by is zero.
#[derive(Debug, Clone, Copy, PartialEq, Eq, Structural)]
pub struct AdvancedMetrics {
    pub timestamp_secs: i64,
    pub btc_dominance: Fixed,
    pub eth_dominance: Fixed,
    pub stablecoin_dominance: Fixed,
    pub btc_stable_ratio: Fixed,
    pub btc_return_7d: Option<Fixed>,
    pub btc_return_30d: Option<Fixed>,
    pub btc_return_90d: Option<Fixed>,
}

/// Everything one daily cycle fetched and derived.  Constructed by the
/// fetch stage, consumed once by persistence, never retained.
#[derive(Debug)]
pub struct DailyIngestionResult {
    pub timestamp_secs: i64,
    pub date: Date,
    pub fear_greed: Option<FearGreedIndexData>,
    pub fred_indicators: Vec<FetchOutcome<MarketSymbol, FredIndexData>>,
    pub crypto_prices: Vec<FetchOutcome<MarketSymbol, MarketPrice>>,
    pub global_crypto_data: Option<GlobalCryptoMarketData>,
    pub advanced_metrics: Option<AdvancedMetrics>,
}

/// Everything one monthly cycle fetched.
#[derive(Debug)]
pub struct MonthlyIngestionResult {
    pub timestamp_secs: i64,
    pub global_m2_data: Vec<FetchOutcome<M2Country, M2DataPoint>>,
}

/// Distance between a quote's timestamp and a target instant.
pub open spec fn tdist(ts: int, target: int) -> int {
    if ts >= target {
        ts - target
    } else {
        target - ts
    }
}

/// The close whose timestamp is nearest the target instant; ties go to the
/// earliest listed quote, and an empty quote list yields zero.
pub fn find_closest(timestamps: &Vec<i64>, closes: &Vec<Fixed>, target: i64) -> (r: Fixed)
    requires
        timestamps@.len() == closes@.len(),
    ensures
        timestamps@.len() == 0 ==> r.micros == 0,
        timestamps@.len() > 0 ==> exists|j: int|
            {
                &&& 0 <= j < timestamps@.len()
                &&& r == closes@[j]
                &&& forall|i: int|
                    0 <= i < timestamps@.len() ==> tdist(timestamps@[j] as int, target as int)
                        <= tdist(#[trigger] timestamps@[i] as int, target as int)
                &&& forall|i: int|
                    0 <= i < j ==> tdist(timestamps@[j] as int, target as int) < tdist(
                        #[trigger] timestamps@[i] as int,
                        target as int,
                    )
            },
{
    let n = timestamps.len();
    if n == 0 {
        return Fixed { micros: 0 };
    }
    let mut best: usize = 0;
    let mut best_dist: i128 = {
        let d: i128 = (timestamps[0] as i128) - (target as i128);
        if d >= 0 {
            d
        } else {
            -d
        }
    };
    let mut i: usize = 1;
    while i < n
        invariant
            1 <= i <= n,
            n == timestamps@.len() == closes@.len(),
            0 <= best < i,
            best_dist == tdist(timestamps@[best as int] as int, target as int),
            forall|k: int|
                0 <= k < i ==> best_dist <= tdist(#[trigger] timestamps@[k] as int, target as int),
            forall|k: int|
                0 <= k < best ==> best_dist < tdist(#[trigger] timestamps@[k] as int, target as int),
        decreases n - i,
    {
        let d: i128 = (timestamps[i] as i128) - (target as i128);
        let dist: i128 = if d >= 0 {
            d
        } else {
            -d
        };
        if dist < best_dist {
            best = i;
            best_dist = dist;
        }
        i = i + 1;
    }
    let ghost j = best as int;
    assert(closes@[j] == closes@[j]);
    closes[best]
}

/// `a` is ranked before `b` when sorting points by timestamp descending,
/// arrival order preserved among equals.
pub open spec fn ranks_before(a_ts: int, a_i: int, b_ts: int, b_i: int) -> bool {
    a_ts > b_ts || (a_ts == b_ts && a_i < b_i)
}

/// Pick the global point of the last full day: sorting the points by
/// timestamp descending (stable), the second one.  `None` when fewer than
/// two points came back.
pub fn select_global_point(points: &Vec<(u64, GlobalCryptoMarketData)>) -> (r: Option<
    GlobalCryptoMarketData,
>)
    ensures
        r is Some <==> points@.len() >= 2,
        r matches Some(g) ==> exists|j1: int, j2: int|
            #![trigger points@[j1], points@[j2]]
            {
                &&& 0 <= j1 < points@.len()
                &&& 0 <= j2 < points@.len()
                &&& j1 != j2
                &&& forall|i: int|
                    0 <= i < points@.len() && i != j1 ==> ranks_before(
                        points@[j1].0 as int,
                        j1,
                        (#[trigger] points@[i]).0 as int,
                        i,
                    )
                &&& forall|i: int|
                    0 <= i < points@.len() && i != j1 && i != j2 ==> ranks_before(
                        points@[j2].0 as int,
                        j2,
                        (#[trigger] points@[i]).0 as int,
                        i,
                    )
                &&& g == points@[j2].1
            },
{
    let n = points.len();
    if n < 2 {
        return None;
    }
    let mut top: usize = 0;
    let mut i: usize = 1;
    while i < n
        invariant
            1 <= i <= n,
            n == points@.len(),
            0 <= top < i,
            forall|k: int|
                0 <= k < i && k != top ==> ranks_before(
                    points@[top as int].0 as int,
                    top as int,
                    (#[trigger] points@[k]).0 as int,
                    k,
                ),
        decreases n - i,
    {
        if points[i].0 > points[top].0 {
            top = i;
        }
        i = i + 1;
    }
    let mut second: usize = if top == 0 {
        1
    } else {
        0
    };
    let mut k: usize = 0;
    while k < n
        invariant
            0 <= k <= n,
            2 <= n == points@.len(),
            0 <= top < n,
            0 <= second < n,
            second != top,
            second < k || (k <= second && (second == 0 || (second == 1 && top == 0))),
            forall|t: int|
                0 <= t < k && t != top && t != second ==> ranks_before(
                    points@[second as int].0 as int,
                    second as int,
                    (#[trigger] points@[t]).0 as int,
                    t,
                ),
        decreases n - k,
    {
        if k != top && k != second {
            let better = points[k].0 > points[second].0 || (points[k].0 == points[second].0 && k
                < second);
            if better {
                second = k;
            }
        }
        k = k + 1;
    }
    let ghost j1 = top as int;
    let ghost j2 = second as int;
    assert(points@[j2].1 == points@[j2].1);
    Some(points[second].1)
}

/// The first BTC outcome that carries a price.
pub open spec fn first_btc_ok(s: Seq<FetchOutcome<MarketSymbol, MarketPrice>>) -> Option<
    MarketPrice,
>
    decreases s.len(),
{
    if s.len() == 0 {
        None
    } else if s[0].key is BtcUsd && s[0].result is Ok {
        Some(s[0].result->Ok_0)
    } else {
        first_btc_ok(s.skip(1))
    }
}

/// The derived metrics a cycle's fetched prices and global aggregate
/// determine.
pub open spec fn advanced_of(
    prices: Seq<FetchOutcome<MarketSymbol, MarketPrice>>,
    g: GlobalCryptoMarketData,
    now_secs: i64,
) -> AdvancedMetrics
    recommends
        first_btc_ok(prices) is Some,
{
    let p = first_btc_ok(prices)->0;
    AdvancedMetrics {
        timestamp_secs: now_secs,
        btc_dominance: Fixed {
            micros: sat64(
                ratio_micros(g.total_btc_cap_usd.micros as int, g.total_market_cap_usd.micros as int),
            ) as i64,
        },
        eth_dominance: Fixed {
            micros: sat64(
                ratio_micros(g.total_eth_cap_usd.micros as int, g.total_market_cap_usd.micros as int),
            ) as i64,
        },
        stablecoin_dominance: Fixed {
            micros: sat64(
                ratio_micros(
                    g.total_stable_cap_usd.micros as int,
                    g.total_market_cap_usd.micros as int,
                ),
            ) as i64,
        },
        btc_stable_ratio: Fixed {
            micros: sat64(
                ratio_micros(g.total_btc_cap_usd.micros as int, g.total_stable_cap_usd.micros as int),
            ) as i64,
        },
        btc_return_7d: spec_return(p.price_usd, p.price_usd_7d_ago),
        btc_return_30d: spec_return(p.price_usd, p.price_usd_30d_ago),
        btc_return_90d: spec_return(p.price_usd, p.price_usd_90d_ago),
    }
}

impl AdvancedMetrics {
    /// Derive one cycle's metrics from the fetched prices and the global
    /// aggregate: the dominance ratios of the aggregate, and BTC's
    /// returns over 7, 30 and 90 days from the first fetched BTC price.
    pub fn compute(
        crypto_prices: &Vec<FetchOutcome<MarketSymbol, MarketPrice>>,
        global_data: &GlobalCryptoMarketData,
        now_secs: i64,
    ) -> (r: AdvancedMetrics)
        requires
            first_btc_ok(crypto_prices@) is Some,
        ensures
            r == advanced_of(crypto_prices@, *global_data, now_secs),
    {
        let n = crypto_prices.len();
        let mut i: usize = 0;
        let mut found: Option<MarketPrice> = None;
        proof {
            assert(crypto_prices@.skip(0) =~= crypto_prices@);
        }
        while i < n && found.is_none()
            invariant
                0 <= i <= n,
                n == crypto_prices@.len(),
                match found {
                    Some(p) => first_btc_ok(crypto_prices@) == Some(p),
                    None => first_btc_ok(crypto_prices@) == first_btc_ok(
                        crypto_prices@.skip(i as int),
                    ),
                },
                first_btc_ok(crypto_prices@) is Some,
            decreases n - i,
        {
            proof {
                assert(crypto_prices@.skip(i as int)[0] == crypto_prices@[i as int]);
                assert(crypto_prices@.skip(i as int).skip(1) =~= crypto_prices@.skip(i + 1));
            }
            let is_btc = crypto_prices[i].key.is_btc();
            if is_btc {
                match &crypto_prices[i].result {
                    Ok(p) => {
                        found = Some(*p);
                    },
                    Err(_) => {},
                }
            }
            i = i + 1;
        }
        let p = match found {
            Some(p) => p,
            None => {
                proof {
                    assert(first_btc_ok(crypto_prices@.skip(n as int)) is None);
                    assert(false);
                }
                vstd::pervasive::unreached()
            },
        };
        AdvancedMetrics {
            timestamp_secs: now_secs,
            btc_dominance: crate::metrics::btc_dominance(global_data),
            eth_dominance: crate::metrics::eth_dominance(global_data),
            stablecoin_dominance: crate::metrics::stablecoin_dominance(global_data),
            btc_stable_ratio: crate::metrics::btc_stable_ratio(global_data),
            btc_return_7d: crate::metrics::return_over_time(p.price_usd, p.price_usd_7d_ago),
            btc_return_30d: crate::metrics::return_over_time(p.price_usd, p.price_usd_30d_ago),
            btc_return_90d: crate::metrics::return_over_time(p.price_usd, p.price_usd_90d_ago),
        }
    }
}

/// Whether the prices hold a BTC outcome with a price.
pub fn has_btc_ok(prices: &Vec<FetchOutcome<MarketSymbol, MarketPrice>>) -> (r: bool)
    ensures
        r == (first_btc_ok(prices@) is Some),
{
    let n = prices.len();
    let mut i: usize = 0;
    proof {
        assert(prices@.skip(0) =~= prices@);
    }
    while i < n
        invariant
            0 <= i <= n,
            n == prices@.len(),
            first_btc_ok(prices@) == first_btc_ok(prices@.skip(i as int)),
        decreases n - i,
    {
        proof {
            assert(prices@.skip(i as int)[0] == prices@[i as int]);
            assert(prices@.skip(i as int).skip(1) =~= prices@.skip(i + 1));
        }
        let is_btc = prices[i].key.is_btc();
        if is_btc {
            match &prices[i].result {
                Ok(_) => {
                    return true;
                },
                Err(_) => {},
            }
        }
        i = i + 1;
    }
    proof {
        assert(prices@.skip(n as int) =~= Seq::<
            FetchOutcome<MarketSymbol, MarketPrice>,
        >::empty());
    }
    false
}

impl DailyIngestionResult {
    /// Bind one daily cycle's fetched values together.  The derived
    /// metrics are computed exactly when the global aggregate arrived and
    /// a BTC price is among the outcomes; a failed global fetch skips the
    /// derived step but keeps every fetched outcome for persistence.
    pub fn assemble(
        now_secs: i64,
        date: Date,
        fear_greed: Option<FearGreedIndexData>,
        fred_indicators: Vec<FetchOutcome<MarketSymbol, FredIndexData>>,
        crypto_prices: Vec<FetchOutcome<MarketSymbol, MarketPrice>>,
        global_crypto_data: Option<GlobalCryptoMarketData>,
    ) -> (r: DailyIngestionResult)
        ensures
            r.timestamp_secs == now_secs,
            r.date == date,
            r.fear_greed == fear_greed,
            r.fred_indicators == fred_indicators,
            r.crypto_prices == crypto_prices,
            r.global_crypto_data == global_crypto_data,
            r.advanced_metrics == (if global_crypto_data is Some && first_btc_ok(crypto_prices@)
                is Some {
                Some(advanced_of(crypto_prices@, global_crypto_data->0, now_secs))
            } else {
                None
            }),
    {
        let advanced_metrics: Option<AdvancedMetrics> = match &global_crypto_data {
            Some(g) => {
                if has_btc_ok(&crypto_prices) {
                    Some(AdvancedMetrics::compute(&crypto_prices, g, now_secs))
                } else {
                    None
                }
            },
            None => None,
        };
        DailyIngestionResult {
            timestamp_secs: now_secs,
            date,
            fear_greed,
            fred_indicators,
            crypto_prices,
            global_crypto_data,
            advanced_metrics,
        }
    }
}

/// A volume figure in whole units as a fixed-point value, saturating at
/// the top of the range.
pub open spec fn vol_fixed(v: u64) -> Fixed {
    Fixed { micros: sat64(v * 1_000_000) as i64 }
}

/// Convert a whole-unit volume into micro-units.
pub fn vol_to_fixed(v: u64) -> (r: Fixed)
    ensures
        r == vol_fixed(v),
{
    assert(0 <= (v as int) * 1_000_000 <= 0x1_0000_0000_0000_0000_0000_0000) by (nonlinear_arith)
        requires
            0 <= v <= u64::MAX,
    ;
    let m: i128 = (v as i128) * 1_000_000;
    Fixed { micros: sat64_i128(m) }
}

/// `rec` is the metric record of the fetched sentiment index on `date`:
/// its decimal value parsed (zero when unparseable).
pub open spec fn is_fear_record(rec: MarketMetricPoint, fg: FearGreedIndexData, date: Date) -> bool {
    &&& rec.name@ == MarketSymbol::FearGreedIndex.spec_str()
    &&& rec.date == date
    &&& rec.payload.value == Some(
        Fixed {
            micros: (if is_decimal(fg.value@) {
                decimal_micros(fg.value@)
            } else {
                0int
            }) as i64,
        },
    )
    &&& rec.payload.source == Some(SourceTag::AlternativeMe)
}

/// Build the sentiment index record of a cycle.
pub fn fear_greed_record(fg: &FearGreedIndexData, date: Date) -> (r: MarketMetricPoint)
    ensures
        is_fear_record(r, *fg, date),
{
    Record {
        name: MarketSymbol::FearGreedIndex.as_str().to_owned(),
        date,
        payload: MetricFields {
            value: Some(parse_fixed_or_zero(fg.value.as_str())),
            source: Some(SourceTag::AlternativeMe),
        },
    }
}

/// `rec` is the metric record of one fetched macro-series observation:
/// named by the series, dated by the observation's own date string.
pub open spec fn is_fred_record(rec: MarketMetricPoint, data: FredIndexData) -> bool {
    &&& rec.name == data.series_id
    &&& rec.date == date_str_value(data.date@)
    &&& rec.payload.value == Some(data.value)
    &&& rec.payload.source == Some(SourceTag::Fred)
}

/// A macro-series outcome yields a record when it was fetched and its
/// date string names a valid date.
pub open spec fn fred_ok(o: FetchOutcome<MarketSymbol, FredIndexData>) -> bool {
    &&& o.result is Ok
    &&& date_str_shape(o.result->Ok_0.date@)
    &&& date_str_value(o.result->Ok_0.date@).valid()
}

/// `out` holds exactly the records of the fetchable macro-series
/// outcomes, in order; failed fetches and unparseable dates yield none.
pub open spec fn fred_records_rel(
    src: Seq<FetchOutcome<MarketSymbol, FredIndexData>>,
    out: Seq<MarketMetricPoint>,
) -> bool
    decreases src.len(),
{
    if src.len() == 0 {
        out.len() == 0
    } else if fred_ok(src[0]) {
        &&& out.len() >= 1
        &&& is_fred_record(out[0], src[0].result->Ok_0)
        &&& fred_records_rel(src.skip(1), out.skip(1))
    } else {
        fred_records_rel(src.skip(1), out)
    }
}

proof fn lemma_fred_rel_snoc(
    src: Seq<FetchOutcome<MarketSymbol, FredIndexData>>,
    out: Seq<MarketMetricPoint>,
    o: FetchOutcome<MarketSymbol, FredIndexData>,
    out2: Seq<MarketMetricPoint>,
)
    requires
        fred_records_rel(src, out),
        if fred_ok(o) {
            out2.len() == out.len() + 1 && out2 == out.push(out2.last()) && is_fred_record(
                out2.last(),
                o.result->Ok_0,
            )
        } else {
            out2 == out
        },
    ensures
        fred_records_rel(src.push(o), out2),
    decreases src.len(),
{
    if src.len() == 0 {
        assert(src.push(o)[0] == o);
        assert(src.push(o).skip(1) =~= Seq::<FetchOutcome<MarketSymbol, FredIndexData>>::empty());
        if fred_ok(o) {
            assert(out2[0] == out2.last());
            assert(out2.skip(1) =~= Seq::<MarketMetricPoint>::empty());
            assert(fred_records_rel(
                Seq::<FetchOutcome<MarketSymbol, FredIndexData>>::empty(),
                out2.skip(1),
            ));
        } else {
            assert(fred_records_rel(
                Seq::<FetchOutcome<MarketSymbol, FredIndexData>>::empty(),
                out2,
            ));
        }
        assert(fred_records_rel(src.push(o), out2));
    } else {
        assert(src.push(o)[0] == src[0]);
        assert(src.push(o).skip(1) =~= src.skip(1).push(o));
        if fred_ok(src[0]) {
            if fred_ok(o) {
                assert(out2.skip(1) =~= out.skip(1).push(out2.last()));
                assert(out2.skip(1).last() == out2.last());
                lemma_fred_rel_snoc(src.skip(1), out.skip(1), o, out2.skip(1));
            } else {
                lemma_fred_rel_snoc(src.skip(1), out.skip(1), o, out2.skip(1));
            }
            assert(out2[0] == out[0]);
            assert(fred_records_rel(src.skip(1).push(o), out2.skip(1)));
            assert(fred_records_rel(src.push(o).skip(1), out2.skip(1)));
            assert(fred_ok(src.push(o)[0]));
            assert(out2.len() >= 1 && is_fred_record(out2[0], src.push(o)[0].result->Ok_0));
        } else {
            lemma_fred_rel_snoc(src.skip(1), out, o, out2);
            assert(fred_records_rel(src.push(o).skip(1), out2));
            assert(!fred_ok(src.push(o)[0]));
        }
        assert(fred_records_rel(src.push(o), out2));
    }
}

/// How many macro-series outcomes yield records.
pub open spec fn fred_out_len(src: Seq<FetchOutcome<MarketSymbol, FredIndexData>>) -> int
    decreases src.len(),
{
    if src.len() == 0 {
        0
    } else {
        (if fred_ok(src[0]) {
            1int
        } else {
            0int
        }) + fred_out_len(src.skip(1))
    }
}

pub proof fn lemma_fred_rel_len(
    src: Seq<FetchOutcome<MarketSymbol, FredIndexData>>,
    out: Seq<MarketMetricPoint>,
)
    requires
        fred_records_rel(src, out),
    ensures
        out.len() == fred_out_len(src),
    decreases src.len(),
{
    if src.len() > 0 {
        if fred_ok(src[0]) {
            lemma_fred_rel_len(src.skip(1), out.skip(1));
        } else {
            lemma_fred_rel_len(src.skip(1), out);
        }
    }
}

/// Build the macro-series records of a cycle: one per fetched observation
/// whose date parses, in outcome order.
#[verifier::loop_isolation(false)]
pub fn fred_records(outcomes: &Vec<FetchOutcome<MarketSymbol, FredIndexData>>) -> (r: Vec<
    MarketMetricPoint,
>)
    ensures
        fred_records_rel(outcomes@, r@),
        forall|x: int| 0 <= x < r@.len() ==> (#[trigger] r@[x]).date.valid(),
{
    let n = outcomes.len();
    let mut out: Vec<MarketMetricPoint> = Vec::new();
    let mut i: usize = 0;
    proof {
        assert(outcomes@.take(0) =~= Seq::<FetchOutcome<MarketSymbol, FredIndexData>>::empty());
    }
    while i < n
        invariant
            0 <= i <= n,
            fred_records_rel(outcomes@.take(i as int), out@),
            forall|x: int| 0 <= x < out@.len() ==> (#[trigger] out@[x]).date.valid(),
        decreases n - i,
    {
        proof {
            assert(outcomes@.take(i + 1) =~= outcomes@.take(i as int).push(outcomes@[i as int]));
        }
        let ghost prev = out@;
        match &outcomes[i].result {
            Ok(data) => {
                match parse_date(data.date.as_str()) {
                    Some(d) => {
                        let rec = Record {
                            name: data.series_id.clone(),
                            date: d,
                            payload: MetricFields {
                                value: Some(data.value),
                                source: Some(SourceTag::Fred),
                            },
                        };
                        proof {
                            assert(fred_ok(outcomes@[i as int]));
                            assert(is_fred_record(rec, outcomes@[i as int].result->Ok_0));
                        }
                        out.push(rec);
                        proof {
                            lemma_fred_rel_snoc(
                                outcomes@.take(i as int),
                                prev,
                                outcomes@[i as int],
                                out@,
                            );
                        }
                    },
                    None => {
                        proof {
                            assert(!fred_ok(outcomes@[i as int]));
                            lemma_fred_rel_snoc(
                                outcomes@.take(i as int),
                                prev,
                                outcomes@[i as int],
                                out@,
                            );
                        }
                    },
                }
            },
            Err(_) => {
                proof {
                    assert(!fred_ok(outcomes@[i as int]));
                    lemma_fred_rel_snoc(outcomes@.take(i as int), prev, outcomes@[i as int], out@);
                }
            },
        }
        i = i + 1;
    }
    proof {
        assert(outcomes@.take(n as int) =~= outcomes@);
    }
    out
}

/// `rec` is the market-data record of one fetched asset price on `date`.
pub open spec fn is_price_record(
    rec: MarketDataPoint,
    o: FetchOutcome<MarketSymbol, MarketPrice>,
    date: Date,
) -> bool {
    &&& rec.name@ == o.key.spec_str()
    &&& rec.date == date
    &&& rec.payload.price_usd == o.result->Ok_0.price_usd
    &&& rec.payload.volume_usd == Some(vol_fixed(o.result->Ok_0.volume_24h_usd))
    &&& rec.payload.market_cap_usd is None
    &&& rec.payload.dominance is None
}

/// `out` holds exactly the records of the successfully fetched asset
/// prices, in order.
pub open spec fn price_records_rel(
    src: Seq<FetchOutcome<MarketSymbol, MarketPrice>>,
    out: Seq<MarketDataPoint>,
    date: Date,
) -> bool
    decreases src.len(),
{
    if src.len() == 0 {
        out.len() == 0
    } else if src[0].result is Ok {
        &&& out.len() >= 1
        &&& is_price_record(out[0], src[0], date)
        &&& price_records_rel(src.skip(1), out.skip(1), date)
    } else {
        price_records_rel(src.skip(1), out, date)
    }
}

proof fn lemma_price_rel_snoc(
    src: Seq<FetchOutcome<MarketSymbol, MarketPrice>>,
    out: Seq<MarketDataPoint>,
    o: FetchOutcome<MarketSymbol, MarketPrice>,
    out2: Seq<MarketDataPoint>,
    date: Date,
)
    requires
        price_records_rel(src, out, date),
        if o.result is Ok {
            out2.len() == out.len() + 1 && out2 == out.push(out2.last()) && is_price_record(
                out2.last(),
                o,
                date,
            )
        } else {
            out2 == out
        },
    ensures
        price_records_rel(src.push(o), out2, date),
    decreases src.len(),
{
    if src.len() == 0 {
        assert(src.push(o)[0] == o);
        assert(src.push(o).skip(1) =~= Seq::<FetchOutcome<MarketSymbol, MarketPrice>>::empty());
        if o.result is Ok {
            assert(out2[0] == out2.last());
            assert(out2.skip(1) =~= Seq::<MarketDataPoint>::empty());
            assert(price_records_rel(
                Seq::<FetchOutcome<MarketSymbol, MarketPrice>>::empty(),
                out2.skip(1),
                date,
            ));
        } else {
            assert(price_records_rel(
                Seq::<FetchOutcome<MarketSymbol, MarketPrice>>::empty(),
                out2,
                date,
            ));
        }
        assert(price_records_rel(src.push(o), out2, date));
    } else {
        assert(src.push(o)[0] == src[0]);
        assert(src.push(o).skip(1) =~= src.skip(1).push(o));
        if src[0].result is Ok {
            if o.result is Ok {
                assert(out2.skip(1) =~= out.skip(1).push(out2.last()));
                assert(out2.skip(1).last() == out2.last());
                lemma_price_rel_snoc(src.skip(1), out.skip(1), o, out2.skip(1), date);
            } else {
                lemma_price_rel_snoc(src.skip(1), out.skip(1), o, out2.skip(1), date);
            }
            assert(out2[0] == out[0]);
            assert(price_records_rel(src.push(o).skip(1), out2.skip(1), date));
        } else {
            lemma_price_rel_snoc(src.skip(1), out, o, out2, date);
            assert(price_records_rel(src.push(o).skip(1), out2, date));
        }
        assert(price_records_rel(src.push(o), out2, date));
    }
}

/// Build the asset-price records of a cycle: one per successful fetch, in
/// outcome order, dated by the cycle's date.
#[verifier::loop_isolation(false)]
pub fn price_records(
    outcomes: &Vec<FetchOutcome<MarketSymbol, MarketPrice>>,
    date: Date,
) -> (r: Vec<MarketDataPoint>)
    requires
        date.valid(),
    ensures
        price_records_rel(outcomes@, r@, date),
        forall|x: int| 0 <= x < r@.len() ==> (#[trigger] r@[x]).date.valid(),
{
    let n = outcomes.len();
    let mut out: Vec<MarketDataPoint> = Vec::new();
    let mut i: usize = 0;
    proof {
        assert(outcomes@.take(0) =~= Seq::<FetchOutcome<MarketSymbol, MarketPrice>>::empty());
    }
    while i < n
        invariant
            0 <= i <= n,
            price_records_rel(outcomes@.take(i as int), out@, date),
            forall|x: int| 0 <= x < out@.len() ==> (#[trigger] out@[x]).date.valid(),
        decreases n - i,
    {
        proof {
            assert(outcomes@.take(i + 1) =~= outcomes@.take(i as int).push(outcomes@[i as int]));
        }
        let ghost prev = out@;
        match &outcomes[i].result {
            Ok(price) => {
                let rec = Record {
                    name: outcomes[i].key.as_str().to_owned(),
                    date,
                    payload: PriceFields {
                        price_usd: price.price_usd,
                        volume_usd: Some(vol_to_fixed(price.volume_24h_usd)),
                        market_cap_usd: None,
                        dominance: None,
                    },
                };
                proof {
                    assert(is_price_record(rec, outcomes@[i as int], date));
                }
                out.push(rec);
                proof {
                    lemma_price_rel_snoc(
                        outcomes@.take(i as int),
                        prev,
                        outcomes@[i as int],
                        out@,
                        date,
                    );
                }
            },
            Err(_) => {
                proof {
                    lemma_price_rel_snoc(
                        outcomes@.take(i as int),
                        prev,
                        outcomes@[i as int],
                        out@,
                        date,
                    );
                }
            },
        }
        i = i + 1;
    }
    proof {
        assert(outcomes@.take(n as int) =~= outcomes@);
    }
    out
}

/// `recs` are the five metric records of the global aggregate on `date`:
/// total, stablecoin, BTC and ETH caps, and 24-hour volume.
pub open spec fn is_global_records(
    recs: Seq<MarketMetricPoint>,
    g: GlobalCryptoMarketData,
    date: Date,
) -> bool {
    &&& recs.len() == 5
    &&& recs[0].name@ == MarketSymbol::GlobalTotalMarketCapUsd.spec_str()
    &&& recs[0].payload.value == Some(g.total_market_cap_usd)
    &&& recs[1].name@ == MarketSymbol::GlobalTotalStableCapUsd.spec_str()
    &&& recs[1].payload.value == Some(g.total_stable_cap_usd)
    &&& recs[2].name@ == MarketSymbol::GlobalTotalBtcCapUsd.spec_str()
    &&& recs[2].payload.value == Some(g.total_btc_cap_usd)
    &&& recs[3].name@ == MarketSymbol::GlobalTotalEthCapUsd.spec_str()
    &&& recs[3].payload.value == Some(g.total_eth_cap_usd)
    &&& recs[4].name@ == MarketSymbol::GlobalTotalVolume24hUsd.spec_str()
    &&& recs[4].payload.value == Some(g.total_volume_24h_usd)
    &&& forall|x: int|
        0 <= x < 5 ==> (#[trigger] recs[x]).date == date && recs[x].payload.source == Some(
            SourceTag::Coingecko,
        )
}

/// Build the global aggregate's five metric records.
pub fn global_records(g: &GlobalCryptoMarketData, date: Date) -> (r: Vec<MarketMetricPoint>)
    ensures
        is_global_records(r@, *g, date),
{
    let mut out: Vec<MarketMetricPoint> = Vec::new();
    out.push(
        Record {
            name: MarketSymbol::GlobalTotalMarketCapUsd.as_str().to_owned(),
            date,
            payload: MetricFields {
                value: Some(g.total_market_cap_usd),
                source: Some(SourceTag::Coingecko),
            },
        },
    );
    out.push(
        Record {
            name: MarketSymbol::GlobalTotalStableCapUsd.as_str().to_owned(),
            date,
            payload: MetricFields {
                value: Some(g.total_stable_cap_usd),
                source: Some(SourceTag::Coingecko),
            },
        },
    );
    out.push(
        Record {
            name: MarketSymbol::GlobalTotalBtcCapUsd.as_str().to_owned(),
            date,
            payload: MetricFields {
                value: Some(g.total_btc_cap_usd),
                source: Some(SourceTag::Coingecko),
            },
        },
    );
    out.push(
        Record {
            name: MarketSymbol::GlobalTotalEthCapUsd.as_str().to_owned(),
            date,
            payload: MetricFields {
                value: Some(g.total_eth_cap_usd),
                source: Some(SourceTag::Coingecko),
            },
        },
    );
    out.push(
        Record {
            name: MarketSymbol::GlobalTotalVolume24hUsd.as_str().to_owned(),
            date,
            payload: MetricFields {
                value: Some(g.total_volume_24h_usd),
                source: Some(SourceTag::Coingecko),
            },
        },
    );
    out
}

/// `recs` are the seven metric records of the derived metrics on `date`;
/// a return whose past price was zero is stored with a null value.
pub open spec fn is_advanced_records(
    recs: Seq<MarketMetricPoint>,
    a: AdvancedMetrics,
    date: Date,
) -> bool {
    &&& recs.len() == 7
    &&& recs[0].name@ == MarketSymbol::BtcDominance.spec_str()
    &&& recs[0].payload.value == Some(a.btc_dominance)
    &&& recs[1].name@ == MarketSymbol::EthDominance.spec_str()
    &&& recs[1].payload.value == Some(a.eth_dominance)
    &&& recs[2].name@ == MarketSymbol::StablecoinDominance.spec_str()
    &&& recs[2].payload.value == Some(a.stablecoin_dominance)
    &&& recs[3].name@ == MarketSymbol::BtcStableRatio.spec_str()
    &&& recs[3].payload.value == Some(a.btc_stable_ratio)
    &&& recs[4].name@ == MarketSymbol::BtcReturn7d.spec_str()
    &&& recs[4].payload.value == a.btc_return_7d
    &&& recs[5].name@ == MarketSymbol::BtcReturn30d.spec_str()
    &&& recs[5].payload.value == a.btc_return_30d
    &&& recs[6].name@ == MarketSymbol::BtcReturn90d.spec_str()
    &&& recs[6].payload.value == a.btc_return_90d
    &&& forall|x: int|
        0 <= x < 7 ==> (#[trigger] recs[x]).date == date && recs[x].payload.source == Some(
            SourceTag::Computed,
        )
}

/// Build the derived metrics' seven records.
pub fn advanced_records(a: &AdvancedMetrics, date: Date) -> (r: Vec<MarketMetricPoint>)
    ensures
        is_advanced_records(r@, *a, date),
{
    let mut out: Vec<MarketMetricPoint> = Vec::new();
    out.push(
        Record {
            name: MarketSymbol::BtcDominance.as_str().to_owned(),
            date,
            payload: MetricFields {
                value: Some(a.btc_dominance),
                source: Some(SourceTag::Computed),
            },
        },
    );
    out.push(
        Record {
            name: MarketSymbol::EthDominance.as_str().to_owned(),
            date,
            payload: MetricFields {
                value: Some(a.eth_dominance),
                source: Some(SourceTag::Computed),
            },
        },
    );
    out.push(
        Record {
            name: MarketSymbol::StablecoinDominance.as_str().to_owned(),
            date,
            payload: MetricFields {
                value: Some(a.stablecoin_dominance),
                source: Some(SourceTag::Computed),
            },
        },
    );
    out.push(
        Record {
            name: MarketSymbol::BtcStableRatio.as_str().to_owned(),
            date,
            payload: MetricFields {
                value: Some(a.btc_stable_ratio),
                source: Some(SourceTag::Computed),
            },
        },
    );
    out.push(
        Record {
            name: MarketSymbol::BtcReturn7d.as_str().to_owned(),
            date,
            payload: MetricFields { value: a.btc_return_7d, source: Some(SourceTag::Computed) },
        },
    );
    out.push(
        Record {
            name: MarketSymbol::BtcReturn30d.as_str().to_owned(),
            date,
            payload: MetricFields { value: a.btc_return_30d, source: Some(SourceTag::Computed) },
        },
    );
    out.push(
        Record {
            name: MarketSymbol::BtcReturn90d.as_str().to_owned(),
            date,
            payload: MetricFields { value: a.btc_return_90d, source: Some(SourceTag::Computed) },
        },
    );
    out
}

/// The metric records a daily cycle persists, in order: the sentiment
/// index if it arrived, then one record per fetched macro observation,
/// then the five global aggregates if they arrived, then the seven
/// derived metrics if they were computed.
pub open spec fn daily_metric_records_ok(
    result: DailyIngestionResult,
    out: Seq<MarketMetricPoint>,
) -> bool {
    let nf: int = if result.fear_greed is Some {
        1
    } else {
        0
    };
    let nfred = fred_out_len(result.fred_indicators@);
    let ng: int = if result.global_crypto_data is Some {
        5
    } else {
        0
    };
    let na: int = if result.advanced_metrics is Some {
        7
    } else {
        0
    };
    &&& out.len() == nf + nfred + ng + na
    &&& (result.fear_greed matches Some(fg) ==> is_fear_record(out[0], fg, result.date))
    &&& fred_records_rel(result.fred_indicators@, out.subrange(nf, nf + nfred))
    &&& (result.global_crypto_data matches Some(g) ==> is_global_records(
        out.subrange(nf + nfred, nf + nfred + 5),
        g,
        result.date,
    ))
    &&& (result.advanced_metrics matches Some(a) ==> is_advanced_records(
        out.subrange(nf + nfred + ng, nf + nfred + ng + 7),
        a,
        result.date,
    ))
}

/// Map one daily cycle onto the records the persistence stage writes: the
/// asset rows of every successfully fetched price, and the metric rows of
/// everything else that arrived.  Failed fetches yield no record and
/// suppress nothing else.
pub fn daily_records(result: &DailyIngestionResult) -> (r: (
    Vec<MarketDataPoint>,
    Vec<MarketMetricPoint>,
))
    requires
        result.date.valid(),
    ensures
        price_records_rel(result.crypto_prices@, r.0@, result.date),
        daily_metric_records_ok(*result, r.1@),
        forall|x: int| 0 <= x < r.0@.len() ==> (#[trigger] r.0@[x]).date.valid(),
        forall|x: int| 0 <= x < r.1@.len() ==> (#[trigger] r.1@[x]).date.valid(),
{
    let data_recs = price_records(&result.crypto_prices, result.date);
    let mut metric_recs: Vec<MarketMetricPoint> = Vec::new();
    match &result.fear_greed {
        Some(fg) => {
            metric_recs.push(fear_greed_record(fg, result.date));
        },
        None => {},
    }
    let ghost nf = metric_recs@.len() as int;
    let mut fred_part = fred_records(&result.fred_indicators);
    proof {
        lemma_fred_rel_len(result.fred_indicators@, fred_part@);
    }
    let ghost gfred = fred_part@;
    metric_recs.append(&mut fred_part);
    let ghost nfred = gfred.len() as int;
    let ghost ng: int = if result.global_crypto_data is Some {
        5
    } else {
        0
    };
    match &result.global_crypto_data {
        Some(g) => {
            let mut gl = global_records(g, result.date);
            let ghost ggl = gl@;
            metric_recs.append(&mut gl);
            proof {
                assert(metric_recs@.subrange(nf + nfred, nf + nfred + 5) =~= ggl);
            }
        },
        None => {},
    }
    match &result.advanced_metrics {
        Some(a) => {
            let mut av = advanced_records(a, result.date);
            let ghost gav = av@;
            metric_recs.append(&mut av);
            proof {
                assert(metric_recs@.subrange(nf + nfred + ng, nf + nfred + ng + 7) =~= gav);
            }
        },
        None => {},
    }
    proof {
        assert(metric_recs@.subrange(nf, nf + nfred) =~= gfred);
    }
    (data_recs, metric_recs)
}

/// The map a store denotes after upserting each record in turn.
pub open spec fn upsert_all<P>(
    m: Map<(Seq<char>, int), Record<P>>,
    recs: Seq<Record<P>>,
) -> Map<(Seq<char>, int), Record<P>>
    decreases recs.len(),
{
    if recs.len() == 0 {
        m
    } else {
        upsert_all(m.insert(recs[0].key(), recs[0]), recs.skip(1))
    }
}

/// Persist one cycle's records: one upsert per record, every record
/// written whatever happened to the ones before it.
#[verifier::loop_isolation(false)]
pub fn persist_daily(
    data_store: &mut RecordStore<PriceFields>,
    metric_store: &mut RecordStore<MetricFields>,
    data_recs: Vec<MarketDataPoint>,
    metric_recs: Vec<MarketMetricPoint>,
)
    requires
        old(data_store).wf(),
        old(metric_store).wf(),
        forall|x: int| 0 <= x < data_recs@.len() ==> (#[trigger] data_recs@[x]).date.valid(),
        forall|x: int| 0 <= x < metric_recs@.len() ==> (#[trigger] metric_recs@[x]).date.valid(),
    ensures
        final(data_store).wf(),
        final(metric_store).wf(),
        final(data_store)@ == upsert_all(old(data_store)@, data_recs@),
        final(metric_store)@ == upsert_all(old(metric_store)@, metric_recs@),
{
    let ghost drecs = data_recs@;
    let mut rest = data_recs;
    while rest.len() > 0
        invariant
            data_store.wf(),
            rest@ == drecs.skip(drecs.len() - rest@.len()),
            rest@.len() <= drecs.len(),
            upsert_all(old(data_store)@, drecs) == upsert_all(data_store@, rest@),
        decreases rest@.len(),
    {
        let ghost before = rest@;
        let rec = rest.remove(0);
        assert(rec == before[0]);
        data_store.upsert(rec);
        proof {
            assert(rest@ =~= before.skip(1));
            assert(rest@ =~= drecs.skip(drecs.len() - rest@.len()));
        }
    }
    proof {
        assert(rest@.len() == 0);
    }
    let ghost mrecs = metric_recs@;
    let mut mrest = metric_recs;
    while mrest.len() > 0
        invariant
            metric_store.wf(),
            mrest@ == mrecs.skip(mrecs.len() - mrest@.len()),
            mrest@.len() <= mrecs.len(),
            upsert_all(old(metric_store)@, mrecs) == upsert_all(metric_store@, mrest@),
        decreases mrest@.len(),
    {
        let ghost before = mrest@;
        let rec = mrest.remove(0);
        assert(rec == before[0]);
        metric_store.upsert(rec);
        proof {
            assert(mrest@ =~= before.skip(1));
            assert(mrest@ =~= mrecs.skip(mrecs.len() - mrest@.len()));
        }
    }
}

/// What the daily job ingests: the macro series, the crypto pairs and the
/// market index series.
#[derive(Debug, Clone)]
pub struct DailyWorkerConfig {
    pub fred_series: Vec<MarketSymbol>,
    pub crypto_pairs: Vec<MarketSymbol>,
    pub market_series: Vec<MarketSymbol>,
}

impl Default for DailyWorkerConfig {
    /// The standard daily source set.
    fn default() -> (r: DailyWorkerConfig)
        ensures
            r.fred_series@ == seq![
                MarketSymbol::DFF,
                MarketSymbol::T10Y2Y,
                MarketSymbol::DEXUSEU,
                MarketSymbol::CPIAUCSL,
                MarketSymbol::DGS10,
                MarketSymbol::DGS2,
                MarketSymbol::M2SL,
                MarketSymbol::UNRATE,
                MarketSymbol::FEDFUNDS,
            ],
            r.crypto_pairs@ == seq![MarketSymbol::BtcUsd, MarketSymbol::EthUsd],
            r.market_series@ == seq![
                MarketSymbol::Gold,
                MarketSymbol::Oil,
                MarketSymbol::Sp500,
                MarketSymbol::Nasdaq,
                MarketSymbol::UsdIndex,
            ],
    {
        DailyWorkerConfig {
            fred_series: vec![
                MarketSymbol::DFF,
                MarketSymbol::T10Y2Y,
                MarketSymbol::DEXUSEU,
                MarketSymbol::CPIAUCSL,
                MarketSymbol::DGS10,
                MarketSymbol::DGS2,
                MarketSymbol::M2SL,
                MarketSymbol::UNRATE,
                MarketSymbol::FEDFUNDS,
            ],
            crypto_pairs: vec![MarketSymbol::BtcUsd, MarketSymbol::EthUsd],
            market_series: vec![
                MarketSymbol::Gold,
                MarketSymbol::Oil,
                MarketSymbol::Sp500,
                MarketSymbol::Nasdaq,
                MarketSymbol::UsdIndex,
            ],
        }
    }
}

/// What the monthly job ingests: the countries whose M2 series it reads.
#[derive(Debug, Clone)]
pub struct MontlyWorkerConfig {
    pub m2_countries: Vec<M2Country>,
}

impl Default for MontlyWorkerConfig {
    /// The standard monthly country set.
    fn default() -> (r: MontlyWorkerConfig)
        ensures
            r.m2_countries@ == seq![
                M2Country::US,
                M2Country::EU,
                M2Country::UK,
                M2Country::Japan,
                M2Country::Canada,
                M2Country::China,
            ],
    {
        MontlyWorkerConfig {
            m2_countries: vec![
                M2Country::US,
                M2Country::EU,
                M2Country::UK,
                M2Country::Japan,
                M2Country::Canada,
                M2Country::China,
            ],
        }
    }
}

} // verus!
