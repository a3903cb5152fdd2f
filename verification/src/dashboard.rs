//! Read-side data shaping: the compact rows the dashboard serves.
//!
//! These functions only re-shape stored rows — the smoothing mathematics
//! is the trailing windowed average of the metrics engine, applied at
//! whole-unit precision because the dashboard serves integer columns.

use vstd::prelude::*;

use crate::date::Date;
use crate::fixed::{round_div, round_div_i128, Fixed};
use crate::metrics::{count_some, lemma_count_some_le_len, lemma_sum_some_bound, sum_some, window_lo};
use crate::fixed::lemma_round_div_bound;
use crate::store::MarketMetricPoint;
use crate::symbol::{has_name, lemma_has_name_at, lemma_has_name_snoc, str_eq, trimmed_of, upper_of, MarketSymbol};

verus! {

/// Clamp a mathematical integer into the `i32` range.
pub open spec fn sat32(x: int) -> int {
    if x > i32::MAX {
        i32::MAX as int
    } else if x < i32::MIN {
        i32::MIN as int
    } else {
        x
    }
}

/// `sat32` made executable on a 64-bit value.
pub fn sat32_i64(x: i64) -> (r: i32)
    ensures
        r == sat32(x as int),
{
    if x > i32::MAX as i64 {
        i32::MAX
    } else if x < i32::MIN as i64 {
        i32::MIN
    } else {
        x as i32
    }
}

/// Sort metric rows by date, ascending.  The rows must carry pairwise
/// distinct dates, as rows of one metric drawn from a keyed store do.
#[verifier::loop_isolation(false)]
pub fn sort_rows_by_date(rows: Vec<MarketMetricPoint>) -> (r: Vec<MarketMetricPoint>)
    requires
        forall|i: int, j: int|
            0 <= i < j < rows@.len() ==> rows@[i].dayn() != rows@[j].dayn(),
        forall|i: int| 0 <= i < rows@.len() ==> (#[trigger] rows@[i]).date.valid(),
    ensures
        r@.len() == rows@.len(),
        r@.to_multiset() == rows@.to_multiset(),
        forall|x: int, y: int| 0 <= x < y < r@.len() ==> r@[x].dayn() < r@[y].dayn(),
{
    broadcast use vstd::seq_lib::group_to_multiset_ensures;

    let ghost orig = rows@;
    let mut rest = rows;
    let mut out: Vec<MarketMetricPoint> = Vec::new();
    while rest.len() > 0
        invariant
            out@.len() + rest@.len() == orig.len(),
            out@.to_multiset().add(rest@.to_multiset()) == orig.to_multiset(),
            forall|x: int, y: int| 0 <= x < y < out@.len() ==> out@[x].dayn() < out@[y].dayn(),
            forall|x: int, y: int|
                0 <= x < out@.len() && 0 <= y < rest@.len() ==> out@[x].dayn() < rest@[y].dayn(),
            forall|i: int, j: int|
                0 <= i < j < rest@.len() ==> rest@[i].dayn() != rest@[j].dayn(),
            forall|i: int| 0 <= i < rest@.len() ==> (#[trigger] rest@[i]).date.valid(),
        decreases rest@.len(),
    {
        let n = rest.len();
        let mut best: usize = 0;
        let mut i: usize = 1;
        while i < n
            invariant
                1 <= i <= n,
                n == rest@.len(),
                0 <= best < i,
                forall|k: int|
                    0 <= k < i && k != best ==> rest@[best as int].dayn() < (
                    #[trigger] rest@[k]).dayn(),
            decreases n - i,
        {
            let di = rest[i].date.to_epoch_days();
            let db = rest[best].date.to_epoch_days();
            if di < db {
                best = i;
            }
            i = i + 1;
        }
        let ghost before = rest@;
        let rec = rest.remove(best);
        proof {
            assert(rec == before[best as int]);
            assert(rest@.to_multiset() =~= before.to_multiset().remove(rec));
            assert forall|p: int| 0 <= p < rest@.len() implies (
            #[trigger] rest@[p]).date.valid() by {
                if p < best {
                    assert(rest@[p] == before[p]);
                } else {
                    assert(rest@[p] == before[p + 1]);
                }
            }
            assert forall|p: int, q: int|
                0 <= p < q < rest@.len() implies rest@[p].dayn() != rest@[q].dayn() by {
                if p < best {
                    if q < best {
                        assert(rest@[p] == before[p] && rest@[q] == before[q]);
                    } else {
                        assert(rest@[p] == before[p] && rest@[q] == before[q + 1]);
                    }
                } else {
                    assert(rest@[p] == before[p + 1] && rest@[q] == before[q + 1]);
                }
            }
        }
        let ghost prev_out = out@;
        out.push(rec);
        proof {
            assert(out@ == prev_out.push(rec));
            assert(prev_out.push(rec).to_multiset() =~= prev_out.to_multiset().insert(rec));
            assert(out@.to_multiset().add(rest@.to_multiset()) =~= orig.to_multiset());
            assert forall|x: int, y: int|
                0 <= x < out@.len() && 0 <= y < rest@.len() implies (#[trigger] out@[x]).dayn() < (
            #[trigger] rest@[y]).dayn() by {
                if x < out@.len() - 1 {
                    assert(before.to_multiset().count(before[(if y < best {
                        y
                    } else {
                        y + 1
                    })]) > 0);
                }
                if y < best {
                    assert(rest@[y] == before[y]);
                } else {
                    assert(rest@[y] == before[y + 1]);
                }
            }
        }
    }
    out
}

/// The optional values of a row sequence, in order.
pub open spec fn row_values(rows: Seq<MarketMetricPoint>) -> Seq<Option<Fixed>> {
    Seq::new(rows.len(), |i: int| rows[i].payload.value)
}

/// A dashboard row's own value: the stored value rounded to whole units,
/// zero when null.
pub open spec fn fg_value_of(v: Option<Fixed>) -> int {
    match v {
        Some(f) => sat32(round_div(f.micros as int, 1_000_000)),
        None => 0,
    }
}

/// The trailing average over window `w` at position `i`, rounded to whole
/// units; zero when the window holds no value.
pub open spec fn fg_avg_of(vals: Seq<Option<Fixed>>, w: int, i: int) -> int {
    let sub = vals.subrange(window_lo(i, w), i + 1);
    if count_some(sub) == 0 {
        0
    } else {
        sat32(round_div(sum_some(sub), count_some(sub) * 1_000_000))
    }
}

/// Trailing average over the window ending at `i`, at whole-unit
/// precision.
#[verifier::loop_isolation(false)]
pub fn fg_window_avg(values: &Vec<Option<Fixed>>, window: usize, i: usize) -> (r: i32)
    requires
        i < values@.len(),
        1 <= window <= 0x1_0000_0000,
    ensures
        r == fg_avg_of(values@, window as int, i as int),
{
    let n = values.len();
    let lo: usize = if i + 1 >= window {
        i + 1 - window
    } else {
        0
    };
    let ghost glo = window_lo(i as int, window as int);
    assert(lo == glo);
    let mut sum: i128 = 0;
    let mut count: u64 = 0;
    let mut j: usize = lo;
    proof {
        assert(values@.subrange(glo, glo) =~= Seq::<Option<Fixed>>::empty());
    }
    while j <= i
        invariant
            glo <= j <= i + 1,
            sum == sum_some(values@.subrange(glo, j as int)),
            count == count_some(values@.subrange(glo, j as int)),
        decreases i + 1 - j,
    {
        proof {
            assert(values@.subrange(glo, j + 1).drop_last() =~= values@.subrange(glo, j as int));
            assert(values@.subrange(glo, j + 1).last() == values@[j as int]);
            lemma_count_some_le_len(values@.subrange(glo, j as int));
            lemma_sum_some_bound(values@.subrange(glo, j + 1));
            lemma_count_some_le_len(values@.subrange(glo, j + 1));
            let c1 = count_some(values@.subrange(glo, j + 1));
            assert(c1 * (i64::MAX as int) <= 0x1_0000_0000 * (i64::MAX as int) && 0x1_0000_0000 * (
            i64::MIN as int) <= c1 * (i64::MIN as int)) by (nonlinear_arith)
                requires
                    0 <= c1 <= 0x1_0000_0000,
            ;
        }
        match values[j] {
            Some(v) => {
                sum = sum + v.micros as i128;
                count = count + 1;
            },
            None => {},
        }
        j = j + 1;
    }
    proof {
        assert(values@.subrange(glo, i + 1) == values@.subrange(glo, j as int));
    }
    if count == 0 {
        0
    } else {
        let ghost sub = values@.subrange(glo, i + 1);
        proof {
            lemma_sum_some_bound(sub);
            lemma_count_some_le_len(sub);
            let c = count_some(sub);
            assert(c * (i64::MIN as int) * 1 <= sum_some(sub) <= c * (i64::MAX as int) * 1);
            assert((c * 1_000_000) * (i64::MIN as int) <= c * (i64::MIN as int) && c * (
            i64::MAX as int) <= (c * 1_000_000) * (i64::MAX as int)) by (nonlinear_arith)
                requires
                    0 < c,
            ;
            lemma_round_div_bound(
                sum_some(sub),
                c * 1_000_000,
                i64::MIN as int,
                i64::MAX as int,
            );
            assert(c * 1_000_000 <= 0x1_0000_0000 * 1_000_000int && c * (i64::MAX as int)
                <= 0x1_0000_0000 * (i64::MAX as int) && 0x1_0000_0000 * (i64::MIN as int) <= c * (
            i64::MIN as int)) by (nonlinear_arith)
                requires
                    0 < c <= 0x1_0000_0000,
            ;
        }
        let q = round_div_i128(sum, (count as i128) * 1_000_000);
        sat32_i64(q as i64)
    }
}

/// The sentiment index table: one row per stored day, sorted by date —
/// the day's instant in milliseconds, the value, and its trailing 7, 14
/// and 21 day averages, all rounded to whole units.
#[derive(Debug, Clone)]
pub struct FearGreedIndex {
    pub data: Vec<(i64, i32, i32, i32, i32)>,
}

/// `out` is the dashboard table of the date-sorted rows `sorted`.
pub open spec fn fg_rows_ok(
    out: Seq<(i64, i32, i32, i32, i32)>,
    sorted: Seq<MarketMetricPoint>,
) -> bool {
    &&& out.len() == sorted.len()
    &&& forall|i: int|
        0 <= i < out.len() ==> {
            let vals = row_values(sorted);
            &&& (#[trigger] out[i]).0 == sorted[i].dayn() * 86_400_000
            &&& out[i].1 == fg_value_of(sorted[i].payload.value)
            &&& out[i].2 == fg_avg_of(vals, 7, i)
            &&& out[i].3 == fg_avg_of(vals, 14, i)
            &&& out[i].4 == fg_avg_of(vals, 21, i)
        }
}

impl FearGreedIndex {
    /// Build the sentiment table from the stored rows of the index: sort
    /// them by date, then compute each day's value and trailing averages.
    /// The rows must carry distinct valid dates, as rows of one metric
    /// drawn from a keyed store do.
    #[verifier::loop_isolation(false)]
    pub fn from_market_data(entries: Vec<MarketMetricPoint>) -> (r: FearGreedIndex)
        requires
            forall|i: int, j: int|
                0 <= i < j < entries@.len() ==> entries@[i].dayn() != entries@[j].dayn(),
            forall|i: int| 0 <= i < entries@.len() ==> (#[trigger] entries@[i]).date.valid(),
        ensures
            exists|sorted: Seq<MarketMetricPoint>|
                {
                    &&& #[trigger] sorted.to_multiset() == entries@.to_multiset()
                    &&& sorted.len() == entries@.len()
                    &&& forall|x: int, y: int|
                        0 <= x < y < sorted.len() ==> sorted[x].dayn() < sorted[y].dayn()
                    &&& fg_rows_ok(r.data@, sorted)
                },
    {
        broadcast use vstd::seq_lib::group_to_multiset_ensures;

        let ghost gentries = entries@;
        let data = sort_rows_by_date(entries);
        let ghost sorted = data@;
        proof {
            assert forall|i: int| 0 <= i < sorted.len() implies (
            #[trigger] sorted[i]).date.valid() by {
                assert(sorted.to_multiset().count(sorted[i]) > 0);
                assert(gentries.contains(sorted[i]));
            }
        }
        let n = data.len();
        let mut values: Vec<Option<Fixed>> = Vec::new();
        let mut i: usize = 0;
        while i < n
            invariant
                0 <= i <= n,
                n == sorted.len(),
                data@ == sorted,
                values@ == row_values(sorted).take(i as int),
            decreases n - i,
        {
            values.push(data[i].payload.value);
            proof {
                assert(values@ =~= row_values(sorted).take(i + 1));
            }
            i = i + 1;
        }
        proof {
            assert(values@ =~= row_values(sorted));
        }
        let mut out: Vec<(i64, i32, i32, i32, i32)> = Vec::new();
        let mut k: usize = 0;
        while k < n
            invariant
                0 <= k <= n,
                n == sorted.len() == values@.len(),
                data@ == sorted,
                values@ == row_values(sorted),
                out@.len() == k,
                forall|i: int|
                    0 <= i < k ==> {
                        &&& (#[trigger] out@[i]).0 == sorted[i].dayn() * 86_400_000
                        &&& out@[i].1 == fg_value_of(sorted[i].payload.value)
                        &&& out@[i].2 == fg_avg_of(row_values(sorted), 7, i)
                        &&& out@[i].3 == fg_avg_of(row_values(sorted), 14, i)
                        &&& out@[i].4 == fg_avg_of(row_values(sorted), 21, i)
                    },
            decreases n - k,
        {
            let ts: i64 = data[k].date.to_epoch_days() * 86_400_000;
            let value: i32 = match data[k].payload.value {
                Some(f) => {
                    let q = round_div_i128(f.micros as i128, 1_000_000);
                    sat32_i64(q as i64)
                },
                None => 0,
            };
            proof {
                lemma_round_div_bound(
                    data@[k as int].payload.value->0.micros as int,
                    1_000_000,
                    i64::MIN as int,
                    i64::MAX as int,
                );
            }
            let a7 = fg_window_avg(&values, 7, k);
            let a14 = fg_window_avg(&values, 14, k);
            let a21 = fg_window_avg(&values, 21, k);
            out.push((ts, value, a7, a14, a21));
            k = k + 1;
        }
        FearGreedIndex { data: out }
    }
}

/// Compact price rows: the day's instant in milliseconds, the price, and
/// the volume if one was stored.
#[derive(Debug, Clone)]
pub struct PriceData {
    pub data: Vec<(i64, Fixed, Option<Fixed>)>,
}

impl PriceData {
    /// One row per stored observation, in the order given.
    pub fn from_market_data(market_data: Vec<crate::store::MarketDataPoint>) -> (r: PriceData)
        requires
            forall|i: int|
                0 <= i < market_data@.len() ==> (#[trigger] market_data@[i]).date.valid(),
        ensures
            r.data@.len() == market_data@.len(),
            forall|i: int|
                0 <= i < market_data@.len() ==> {
                    &&& (#[trigger] r.data@[i]).0 == market_data@[i].dayn() * 86_400_000
                    &&& r.data@[i].1 == market_data@[i].payload.price_usd
                    &&& r.data@[i].2 == market_data@[i].payload.volume_usd
                },
    {
        let n = market_data.len();
        let mut out: Vec<(i64, Fixed, Option<Fixed>)> = Vec::new();
        let mut i: usize = 0;
        while i < n
            invariant
                0 <= i <= n,
                n == market_data@.len(),
                forall|k: int|
                    0 <= k < market_data@.len() ==> (#[trigger] market_data@[k]).date.valid(),
                out@.len() == i,
                forall|k: int|
                    0 <= k < i ==> {
                        &&& (#[trigger] out@[k]).0 == market_data@[k].dayn() * 86_400_000
                        &&& out@[k].1 == market_data@[k].payload.price_usd
                        &&& out@[k].2 == market_data@[k].payload.volume_usd
                    },
            decreases n - i,
        {
            let ts: i64 = market_data[i].date.to_epoch_days() * 86_400_000;
            out.push((ts, market_data[i].payload.price_usd, market_data[i].payload.volume_usd));
            i = i + 1;
        }
        PriceData { data: out }
    }
}

/// `formatted` is the display name for `name`: the canonical symbol name
/// when `name` parses as a symbol, the name itself otherwise.
pub open spec fn formatted_name_ok(formatted: Seq<char>, name: Seq<char>) -> bool {
    &&& forall|m: MarketSymbol|
        upper_of(trimmed_of(name)) == m.spec_str() ==> formatted == m.spec_str()
    &&& (forall|m: MarketSymbol| upper_of(trimmed_of(name)) != m.spec_str()) ==> formatted == name
}

/// `data` is the (instant, value) table of `rows`, null values served as
/// zero.
pub open spec fn metric_points_ok(data: Seq<(i64, Fixed)>, rows: Seq<MarketMetricPoint>) -> bool {
    &&& data.len() == rows.len()
    &&& forall|i: int|
        0 <= i < rows.len() ==> {
            &&& (#[trigger] data[i]).0 == rows[i].dayn() * 86_400_000
            &&& data[i].1 == (match rows[i].payload.value {
                Some(v) => v,
                None => Fixed { micros: 0 },
            })
        }
}

/// One metric's dashboard series.
#[derive(Debug, Clone)]
pub struct MetricData {
    pub name: String,
    pub formatted_name: String,
    pub data: Vec<(i64, Fixed)>,
}

impl MetricData {
    /// The series of one metric's rows, named and displayed under its
    /// canonical symbol name when the name parses.
    pub fn from_market_metrics(name: String, metrics: Vec<MarketMetricPoint>) -> (r: MetricData)
        requires
            forall|i: int| 0 <= i < metrics@.len() ==> (#[trigger] metrics@[i]).date.valid(),
        ensures
            r.name == name,
            formatted_name_ok(r.formatted_name@, name@),
            metric_points_ok(r.data@, metrics@),
    {
        let formatted_name: String = match MarketSymbol::from_str(name.as_str()) {
            Ok(sym) => sym.as_str().to_owned(),
            Err(_) => name.clone(),
        };
        let n = metrics.len();
        let mut out: Vec<(i64, Fixed)> = Vec::new();
        let mut i: usize = 0;
        while i < n
            invariant
                0 <= i <= n,
                n == metrics@.len(),
                forall|k: int| 0 <= k < metrics@.len() ==> (#[trigger] metrics@[k]).date.valid(),
                out@.len() == i,
                forall|k: int|
                    0 <= k < i ==> {
                        &&& (#[trigger] out@[k]).0 == metrics@[k].dayn() * 86_400_000
                        &&& out@[k].1 == (match metrics@[k].payload.value {
                            Some(v) => v,
                            None => Fixed { micros: 0 },
                        })
                    },
            decreases n - i,
        {
            let ts: i64 = metrics[i].date.to_epoch_days() * 86_400_000;
            let v: Fixed = match metrics[i].payload.value {
                Some(v) => v,
                None => Fixed { micros: 0 },
            };
            out.push((ts, v));
            i = i + 1;
        }
        MetricData { name, formatted_name, data: out }
    }
}

/// The rows of `src` whose name reads `nm`, in order.
pub open spec fn rows_of_name(src: Seq<MarketMetricPoint>, nm: Seq<char>) -> Seq<MarketMetricPoint>
    decreases src.len(),
{
    if src.len() == 0 {
        Seq::empty()
    } else if src[0].name@ == nm {
        seq![src[0]] + rows_of_name(src.skip(1), nm)
    } else {
        rows_of_name(src.skip(1), nm)
    }
}

proof fn lemma_rows_of_name_snoc(src: Seq<MarketMetricPoint>, nm: Seq<char>, o: MarketMetricPoint)
    ensures
        rows_of_name(src.push(o), nm) == if o.name@ == nm {
            rows_of_name(src, nm).push(o)
        } else {
            rows_of_name(src, nm)
        },
    decreases src.len(),
{
    if src.len() == 0 {
        assert(src.push(o)[0] == o);
        assert(src.push(o).skip(1) =~= Seq::<MarketMetricPoint>::empty());
        assert(rows_of_name(Seq::<MarketMetricPoint>::empty(), nm) =~= Seq::<
            MarketMetricPoint,
        >::empty());
        if o.name@ == nm {
            assert(rows_of_name(src.push(o), nm) =~= rows_of_name(src, nm).push(o));
        } else {
            assert(rows_of_name(src.push(o), nm) =~= rows_of_name(src, nm));
        }
    } else {
        assert(src.push(o)[0] == src[0]);
        assert(src.push(o).skip(1) =~= src.skip(1).push(o));
        lemma_rows_of_name_snoc(src.skip(1), nm, o);
        if o.name@ == nm {
            assert(rows_of_name(src.push(o), nm) =~= rows_of_name(src, nm).push(o));
        } else {
            assert(rows_of_name(src.push(o), nm) =~= rows_of_name(src, nm));
        }
    }
}

/// Whether some row of `src` is named `nm`.
pub open spec fn name_in_rows(src: Seq<MarketMetricPoint>, nm: Seq<char>) -> bool {
    rows_of_name(src, nm).len() > 0
}

/// The rows of `metrics` whose name reads `name`, in order.
#[verifier::loop_isolation(false)]
pub fn rows_with_name(metrics: &Vec<MarketMetricPoint>, name: &str) -> (r: Vec<MarketMetricPoint>)
    ensures
        r@ == rows_of_name(metrics@, name@),
        forall|x: int|
            0 <= x < r@.len() ==> exists|i: int|
                0 <= i < metrics@.len() && metrics@[i] == #[trigger] r@[x],
{
    let n = metrics.len();
    let mut out: Vec<MarketMetricPoint> = Vec::new();
    let mut i: usize = 0;
    proof {
        assert(metrics@.take(0) =~= Seq::<MarketMetricPoint>::empty());
    }
    while i < n
        invariant
            0 <= i <= n,
            n == metrics@.len(),
            out@ == rows_of_name(metrics@.take(i as int), name@),
            forall|x: int|
                0 <= x < out@.len() ==> exists|k: int|
                    0 <= k < metrics@.len() && metrics@[k] == #[trigger] out@[x],
        decreases n - i,
    {
        proof {
            assert(metrics@.take(i + 1) =~= metrics@.take(i as int).push(metrics@[i as int]));
            lemma_rows_of_name_snoc(metrics@.take(i as int), name@, metrics@[i as int]);
        }
        if str_eq(metrics[i].name.as_str(), name) {
            out.push(metrics[i].duplicate());
            proof {
                assert(metrics@[metrics@.len() - n + i] == out@.last());
            }
        }
        i = i + 1;
    }
    proof {
        assert(metrics@.take(n as int) =~= metrics@);
    }
    out
}

/// The distinct names among `metrics`, in first-appearance order.
#[verifier::loop_isolation(false)]
pub fn distinct_names(metrics: &Vec<MarketMetricPoint>) -> (r: Vec<String>)
    ensures
        forall|k1: int, k2: int|
            0 <= k1 < k2 < r@.len() ==> (#[trigger] r@[k1])@ != (#[trigger] r@[k2])@,
        forall|i: int| 0 <= i < metrics@.len() ==> has_name(r@, (#[trigger] metrics@[i]).name@),
        forall|k: int| 0 <= k < r@.len() ==> name_in_rows(metrics@, (#[trigger] r@[k])@),
{
    let n = metrics.len();
    let mut out: Vec<String> = Vec::new();
    let mut i: usize = 0;
    while i < n
        invariant
            0 <= i <= n,
            n == metrics@.len(),
            forall|k1: int, k2: int|
                0 <= k1 < k2 < out@.len() ==> (#[trigger] out@[k1])@ != (#[trigger] out@[k2])@,
            forall|t: int| 0 <= t < i ==> has_name(out@, (#[trigger] metrics@[t]).name@),
            forall|k: int| 0 <= k < out@.len() ==> name_in_rows(metrics@, (#[trigger] out@[k])@),
        decreases n - i,
    {
        let m = out.len();
        let mut seen = false;
        let mut k: usize = 0;
        while k < m
            invariant
                0 <= k <= m,
                m == out@.len(),
                seen ==> has_name(out@, metrics@[i as int].name@),
                !seen ==> forall|t: int| 0 <= t < k ==> (#[trigger] out@[t])@ != metrics@[
                    i as int
                ].name@,
            decreases m - k,
        {
            if str_eq(out[k].as_str(), metrics[i].name.as_str()) {
                seen = true;
                proof {
                    lemma_has_name_at(out@, k as int);
                }
            }
            k = k + 1;
        }
        let ghost nm = metrics@[i as int].name@;
        if !seen {
            proof {
                lemma_no_match_no_name(out@, nm);
            }
            let ghost prev = out@;
            out.push(metrics[i].name.clone());
            proof {
                assert(out@ == prev.push(metrics@[i as int].name));
                assert forall|t: int| 0 <= t < i + 1 implies has_name(
                    out@,
                    (#[trigger] metrics@[t]).name@,
                ) by {
                    lemma_has_name_snoc(prev, metrics@[i as int].name, metrics@[t].name@);
                }
                assert forall|k1: int, k2: int|
                    0 <= k1 < k2 < out@.len() implies (#[trigger] out@[k1])@ != (
                #[trigger] out@[k2])@ by {
                    if k2 == out@.len() - 1 {
                        assert(prev[k1]@ != nm);
                    }
                }
                assert forall|k2: int| 0 <= k2 < out@.len() implies name_in_rows(
                    metrics@,
                    (#[trigger] out@[k2])@,
                ) by {
                    if k2 == out@.len() - 1 {
                        lemma_self_name_in_rows(metrics@, i as int);
                    }
                }
            }
        } else {
            proof {
                assert forall|t: int| 0 <= t < i + 1 implies has_name(
                    out@,
                    (#[trigger] metrics@[t]).name@,
                ) by {}
            }
        }
        i = i + 1;
    }
    out
}

/// A sequence with none of its entries reading `nm` does not have `nm`.
proof fn lemma_no_match_no_name(names: Seq<String>, nm: Seq<char>)
    requires
        forall|t: int| 0 <= t < names.len() ==> (#[trigger] names[t])@ != nm,
    ensures
        !has_name(names, nm),
    decreases names.len(),
{
    if names.len() > 0 {
        assert(names[0]@ != nm);
        assert(forall|t: int|
            0 <= t < names.skip(1).len() ==> (#[trigger] names.skip(1)[t])@ != nm);
        lemma_no_match_no_name(names.skip(1), nm);
    }
}

/// Every row's own name is among the rows' names.
proof fn lemma_self_name_in_rows(src: Seq<MarketMetricPoint>, i: int)
    requires
        0 <= i < src.len(),
    ensures
        name_in_rows(src, src[i].name@),
    decreases src.len(),
{
    if src[0].name@ == src[i].name@ {
    } else {
        lemma_self_name_in_rows(src.skip(1), i - 1);
    }
}

/// One asset's dashboard panel: its prices plus its metric series grouped
/// by name.
#[derive(Debug, Clone)]
pub struct AssetSnapshot {
    pub symbol: String,
    pub formatted_name: String,
    pub prices: PriceData,
    pub metrics: Vec<MetricData>,
}

impl AssetSnapshot {
    /// Group metric rows by name: one series per distinct name, each
    /// holding exactly that name's rows in stored order.  No order is
    /// promised among the groups.
    pub fn group_metrics(metrics: Vec<MarketMetricPoint>) -> (r: Vec<MetricData>)
        requires
            forall|i: int| 0 <= i < metrics@.len() ==> (#[trigger] metrics@[i]).date.valid(),
        ensures
            forall|k1: int, k2: int| 0 <= k1 < k2 < r@.len() ==> r@[k1].name@ != r@[k2].name@,
            forall|k: int|
                0 <= k < r@.len() ==> {
                    let g = #[trigger] r@[k];
                    &&& formatted_name_ok(g.formatted_name@, g.name@)
                    &&& metric_points_ok(g.data@, rows_of_name(metrics@, g.name@))
                    &&& name_in_rows(metrics@, g.name@)
                },
    {
        let names = distinct_names(&metrics);
        let n = names.len();
        let mut out: Vec<MetricData> = Vec::new();
        let mut k: usize = 0;
        while k < n
            invariant
                0 <= k <= n,
                n == names@.len(),
                forall|i: int| 0 <= i < metrics@.len() ==> (#[trigger] metrics@[i]).date.valid(),
                forall|k1: int, k2: int|
                    0 <= k1 < k2 < names@.len() ==> (#[trigger] names@[k1])@ != (
                    #[trigger] names@[k2])@,
                forall|t: int|
                    0 <= t < names@.len() ==> name_in_rows(metrics@, (#[trigger] names@[t])@),
                out@.len() == k,
                forall|t: int| 0 <= t < k ==> (#[trigger] out@[t]).name@ == names@[t]@,
                forall|t: int|
                    0 <= t < k ==> {
                        let g = #[trigger] out@[t];
                        &&& formatted_name_ok(g.formatted_name@, g.name@)
                        &&& metric_points_ok(g.data@, rows_of_name(metrics@, g.name@))
                        &&& name_in_rows(metrics@, g.name@)
                    },
            decreases n - k,
        {
            let name = names[k].clone();
            let rows = rows_with_name(&metrics, name.as_str());
            proof {
                assert forall|x: int| 0 <= x < rows@.len() implies (
                #[trigger] rows@[x]).date.valid() by {
                    let i = choose|i: int| 0 <= i < metrics@.len() && metrics@[i] == rows@[x];
                }
            }
            let md = MetricData::from_market_metrics(name, rows);
            out.push(md);
            k = k + 1;
        }
        out
    }

    /// An asset's panel from its stored rows: the symbol's names, its
    /// price series, and its metric series grouped by name.
    pub fn from_market_data(
        symbol: MarketSymbol,
        market_data: Vec<crate::store::MarketDataPoint>,
        market_metric: Vec<MarketMetricPoint>,
    ) -> (r: AssetSnapshot)
        requires
            forall|i: int|
                0 <= i < market_data@.len() ==> (#[trigger] market_data@[i]).date.valid(),
            forall|i: int|
                0 <= i < market_metric@.len() ==> (#[trigger] market_metric@[i]).date.valid(),
        ensures
            r.symbol@ == symbol.spec_str(),
            r.formatted_name@ == symbol.spec_str(),
            r.prices.data@.len() == market_data@.len(),
            forall|i: int|
                0 <= i < market_data@.len() ==> (#[trigger] r.prices.data@[i]).0 == market_data@[
                    i
                ].dayn() * 86_400_000 && r.prices.data@[i].1 == market_data@[i].payload.price_usd,
            forall|k1: int, k2: int|
                0 <= k1 < k2 < r.metrics@.len() ==> r.metrics@[k1].name@ != r.metrics@[k2].name@,
            forall|k: int|
                0 <= k < r.metrics@.len() ==> {
                    let g = #[trigger] r.metrics@[k];
                    &&& formatted_name_ok(g.formatted_name@, g.name@)
                    &&& metric_points_ok(g.data@, rows_of_name(market_metric@, g.name@))
                },
    {
        AssetSnapshot {
            symbol: symbol.as_str().to_owned(),
            formatted_name: symbol.as_str().to_owned(),
            prices: PriceData::from_market_data(market_data),
            metrics: Self::group_metrics(market_metric),
        }
    }
}

/// Whether a symbol belongs to the macro-economic dashboard group.
pub open spec fn is_macro_symbol(m: MarketSymbol) -> bool {
    ||| m is Gold
    ||| m is Oil
    ||| m is Sp500
    ||| m is Nasdaq
    ||| m is UsdIndex
    ||| m is DFF
    ||| m is T10Y2Y
    ||| m is DEXUSEU
    ||| m is CPIAUCSL
    ||| m is DGS10
    ||| m is DGS2
    ||| m is M2SL
    ||| m is UNRATE
    ||| m is FEDFUNDS
}

/// Whether a name reads as one of the macro symbols.
pub open spec fn is_macro_name(nm: Seq<char>) -> bool {
    exists|m: MarketSymbol| is_macro_symbol(m) && nm == #[trigger] m.spec_str()
}

/// Executable macro-name test.
pub fn is_macro_name_exec(name: &str) -> (r: bool)
    ensures
        r == is_macro_name(name@),
{
    match MarketSymbol::match_symbol(name) {
        Ok(sym) => {
            let hit = match sym {
                MarketSymbol::Gold => true,
                MarketSymbol::Oil => true,
                MarketSymbol::Sp500 => true,
                MarketSymbol::Nasdaq => true,
                MarketSymbol::UsdIndex => true,
                MarketSymbol::DFF => true,
                MarketSymbol::T10Y2Y => true,
                MarketSymbol::DEXUSEU => true,
                MarketSymbol::CPIAUCSL => true,
                MarketSymbol::DGS10 => true,
                MarketSymbol::DGS2 => true,
                MarketSymbol::M2SL => true,
                MarketSymbol::UNRATE => true,
                MarketSymbol::FEDFUNDS => true,
                _ => false,
            };
            proof {
                if hit {
                    assert(is_macro_symbol(sym) && name@ == sym.spec_str());
                } else {
                    if is_macro_name(name@) {
                        let m = choose|m: MarketSymbol|
                            is_macro_symbol(m) && name@ == m.spec_str();
                        assert(Ok::<MarketSymbol, crate::symbol::ParseMarketSymbolError>(m)
                            == Ok::<MarketSymbol, crate::symbol::ParseMarketSymbolError>(sym));
                        assert(false);
                    }
                }
            }
            hit
        },
        Err(_) => {
            proof {
                if is_macro_name(name@) {
                    let m = choose|m: MarketSymbol| is_macro_symbol(m) && name@ == m.spec_str();
                    assert(false);
                }
            }
            false
        },
    }
}

/// A row qualifies for the macro panel when its name is a macro symbol
/// and it carries a value.
pub open spec fn macro_qualifies(p: MarketMetricPoint) -> bool {
    is_macro_name(p.name@) && p.payload.value is Some
}

/// The qualifying rows of `src`, in order.
pub open spec fn macro_qualified(src: Seq<MarketMetricPoint>) -> Seq<MarketMetricPoint>
    decreases src.len(),
{
    if src.len() == 0 {
        Seq::empty()
    } else if macro_qualifies(src[0]) {
        seq![src[0]] + macro_qualified(src.skip(1))
    } else {
        macro_qualified(src.skip(1))
    }
}

proof fn lemma_macro_qualified_snoc(src: Seq<MarketMetricPoint>, o: MarketMetricPoint)
    ensures
        macro_qualified(src.push(o)) == if macro_qualifies(o) {
            macro_qualified(src).push(o)
        } else {
            macro_qualified(src)
        },
    decreases src.len(),
{
    if src.len() == 0 {
        assert(src.push(o)[0] == o);
        assert(src.push(o).skip(1) =~= Seq::<MarketMetricPoint>::empty());
        assert(macro_qualified(Seq::<MarketMetricPoint>::empty()) =~= Seq::<
            MarketMetricPoint,
        >::empty());
        if macro_qualifies(o) {
            assert(macro_qualified(src.push(o)) =~= macro_qualified(src).push(o));
        } else {
            assert(macro_qualified(src.push(o)) =~= macro_qualified(src));
        }
    } else {
        assert(src.push(o)[0] == src[0]);
        assert(src.push(o).skip(1) =~= src.skip(1).push(o));
        lemma_macro_qualified_snoc(src.skip(1), o);
        if macro_qualifies(o) {
            assert(macro_qualified(src.push(o)) =~= macro_qualified(src).push(o));
        } else {
            assert(macro_qualified(src.push(o)) =~= macro_qualified(src));
        }
    }
}

/// The qualifying rows of `entries`, in order.
#[verifier::loop_isolation(false)]
pub fn macro_qualified_rows(entries: &Vec<MarketMetricPoint>) -> (r: Vec<MarketMetricPoint>)
    ensures
        r@ == macro_qualified(entries@),
{
    let n = entries.len();
    let mut out: Vec<MarketMetricPoint> = Vec::new();
    let mut i: usize = 0;
    proof {
        assert(entries@.take(0) =~= Seq::<MarketMetricPoint>::empty());
    }
    while i < n
        invariant
            0 <= i <= n,
            n == entries@.len(),
            out@ == macro_qualified(entries@.take(i as int)),
        decreases n - i,
    {
        proof {
            assert(entries@.take(i + 1) =~= entries@.take(i as int).push(entries@[i as int]));
            lemma_macro_qualified_snoc(entries@.take(i as int), entries@[i as int]);
        }
        let keep = is_macro_name_exec(entries[i].name.as_str()) && entries[i].payload.value.is_some();
        if keep {
            out.push(entries[i].duplicate());
        }
        i = i + 1;
    }
    proof {
        assert(entries@.take(n as int) =~= entries@);
    }
    out
}

/// One macro series of the panel: its dated values with their sources.
#[derive(Debug, Clone)]
pub struct MacroMetricEntry {
    pub name: String,
    pub formatted_name: String,
    pub values: Vec<(Date, Fixed, Option<crate::store::SourceTag>)>,
}

/// `values` is the dated-value table of `rows`, which all carry values.
pub open spec fn macro_values_ok(
    values: Seq<(Date, Fixed, Option<crate::store::SourceTag>)>,
    rows: Seq<MarketMetricPoint>,
) -> bool {
    &&& values.len() == rows.len()
    &&& forall|i: int|
        0 <= i < rows.len() ==> {
            &&& (#[trigger] values[i]).0 == rows[i].date
            &&& Some(values[i].1) == rows[i].payload.value
            &&& values[i].2 == rows[i].payload.source
        }
}

/// The macro-economic dashboard panel: the macro series grouped by name.
#[derive(Debug, Clone)]
pub struct MacroMetrics {
    pub data: Vec<MacroMetricEntry>,
}

impl MacroMetrics {
    /// Group the macro rows among `entries` by name: one series per macro
    /// symbol that has rows with values; `None` when none qualifies.  No
    /// order is promised among the series.
    pub fn from_market_data(entries: Vec<MarketMetricPoint>) -> (r: Option<MacroMetrics>)
        ensures
            r is None <==> macro_qualified(entries@).len() == 0,
            r matches Some(m) ==> {
                let q = macro_qualified(entries@);
                &&& forall|k1: int, k2: int|
                    0 <= k1 < k2 < m.data@.len() ==> m.data@[k1].name@ != m.data@[k2].name@
                &&& forall|k: int|
                    0 <= k < m.data@.len() ==> {
                        let e = #[trigger] m.data@[k];
                        &&& formatted_name_ok(e.formatted_name@, e.name@)
                        &&& macro_values_ok(e.values@, rows_of_name(q, e.name@))
                        &&& name_in_rows(q, e.name@)
                    }
            },
    {
        let q = macro_qualified_rows(&entries);
        if q.len() == 0 {
            return None;
        }
        proof {
            lemma_macro_qualified_all(entries@);
        }
        let names = distinct_names(&q);
        let n = names.len();
        let mut out: Vec<MacroMetricEntry> = Vec::new();
        let mut k: usize = 0;
        while k < n
            invariant
                0 <= k <= n,
                n == names@.len(),
                q@ == macro_qualified(entries@),
                forall|x: int| 0 <= x < q@.len() ==> macro_qualifies(#[trigger] q@[x]),
                forall|k1: int, k2: int|
                    0 <= k1 < k2 < names@.len() ==> (#[trigger] names@[k1])@ != (
                    #[trigger] names@[k2])@,
                forall|t: int|
                    0 <= t < names@.len() ==> name_in_rows(q@, (#[trigger] names@[t])@),
                out@.len() == k,
                forall|t: int| 0 <= t < k ==> (#[trigger] out@[t]).name@ == names@[t]@,
                forall|t: int|
                    0 <= t < k ==> {
                        let e = #[trigger] out@[t];
                        &&& formatted_name_ok(e.formatted_name@, e.name@)
                        &&& macro_values_ok(e.values@, rows_of_name(q@, e.name@))
                        &&& name_in_rows(q@, e.name@)
                    },
            decreases n - k,
        {
            let name = names[k].clone();
            let rows = rows_with_name(&q, name.as_str());
            proof {
                assert forall|x: int| 0 <= x < rows@.len() implies macro_qualifies(
                    #[trigger] rows@[x],
                ) by {
                    let i = choose|i: int| 0 <= i < q@.len() && q@[i] == rows@[x];
                }
            }
            let formatted_name: String = match MarketSymbol::from_str(name.as_str()) {
                Ok(sym) => sym.as_str().to_owned(),
                Err(_) => name.clone(),
            };
            let rn = rows.len();
            let mut values: Vec<(Date, Fixed, Option<crate::store::SourceTag>)> = Vec::new();
            let mut i: usize = 0;
            while i < rn
                invariant
                    0 <= i <= rn,
                    rn == rows@.len(),
                    forall|x: int| 0 <= x < rows@.len() ==> macro_qualifies(#[trigger] rows@[x]),
                    values@.len() == i,
                    forall|x: int|
                        0 <= x < i ==> {
                            &&& (#[trigger] values@[x]).0 == rows@[x].date
                            &&& Some(values@[x].1) == rows@[x].payload.value
                            &&& values@[x].2 == rows@[x].payload.source
                        },
                decreases rn - i,
            {
                let v: Fixed = match rows[i].payload.value {
                    Some(v) => v,
                    None => {
                        proof {
                            assert(macro_qualifies(rows@[i as int]));
                            assert(false);
                        }
                        vstd::pervasive::unreached()
                    },
                };
                values.push((rows[i].date, v, rows[i].payload.source));
                i = i + 1;
            }
            out.push(MacroMetricEntry { name, formatted_name, values });
            k = k + 1;
        }
        Some(MacroMetrics { data: out })
    }
}

/// Every qualified row qualifies.
proof fn lemma_macro_qualified_all(src: Seq<MarketMetricPoint>)
    ensures
        forall|x: int|
            0 <= x < macro_qualified(src).len() ==> macro_qualifies(
                #[trigger] macro_qualified(src)[x],
            ),
    decreases src.len(),
{
    if src.len() > 0 {
        lemma_macro_qualified_all(src.skip(1));
        let q = macro_qualified(src);
        let qr = macro_qualified(src.skip(1));
        assert forall|x: int| 0 <= x < q.len() implies macro_qualifies(#[trigger] q[x]) by {
            if macro_qualifies(src[0]) {
                if x == 0 {
                    assert(q[x] == src[0]);
                } else {
                    assert(q[x] == qr[x - 1]);
                }
            } else {
                assert(q[x] == qr[x]);
            }
        }
    }
}

/// The dashboard payload: per-asset panels, the sentiment table, and the
/// macro panel when it has data.
#[derive(Debug, Clone)]
pub struct DashboardResponse {
    pub snapshots: Vec<AssetSnapshot>,
    pub fear_greed: FearGreedIndex,
    pub macro_metrics: Option<MacroMetrics>,
}

/// An error answer of the read-side API: a machine code and a message.
#[derive(Debug, Clone)]
pub struct ApiErrorResponse {
    pub error: String,
    pub message: String,
}

impl ApiErrorResponse {
    /// The caller's request was malformed.
    pub fn bad_request(message: String) -> (r: ApiErrorResponse)
        ensures
            r.error@ == "BAD_REQUEST"@,
            r.message == message,
    {
        ApiErrorResponse { error: "BAD_REQUEST".to_owned(), message }
    }

    /// The service itself failed.
    pub fn internal(message: String) -> (r: ApiErrorResponse)
        ensures
            r.error@ == "INTERNAL_ERROR"@,
            r.message == message,
    {
        ApiErrorResponse { error: "INTERNAL_ERROR".to_owned(), message }
    }
}

/// A query for one symbol's most recent days.
#[derive(Debug, Clone)]
pub struct HistoricalMetricsQuery {
    pub symbol: String,
    pub days: i64,
}

} // verus!
