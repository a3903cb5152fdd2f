use market_ingest::clock::current_timestamp_ms;
use market_ingest::cycle::{
    daily_records, fear_greed_record, find_closest, fred_records, select_global_point,
    AdvancedMetrics, DailyIngestionResult, FearGreedIndexData, FredIndexData, MarketPrice,
};
use market_ingest::dashboard::FearGreedIndex;
use market_ingest::date::{parse_date, Date};
use market_ingest::fanout::{pair_outcomes, FetchError};
use market_ingest::fixed::Fixed;
use market_ingest::metrics::{
    dominance, ratio, return_over_time, trailing_average, GlobalCryptoMarketData,
};
use market_ingest::parse::{parse_fixed, parse_fixed_or_zero};
use market_ingest::retry::{execute_with_retry, RetryPolicy};
use market_ingest::schedule::{FixedIntervalScheduler, MonthlyScheduler, Scheduler};
use market_ingest::store::{MetricFields, Record, RecordStore, SourceTag};
use market_ingest::symbol::{normalize_symbol, M2Country, MarketSymbol};
use market_ingest::worker::{IngestionWorker, WorkerEvent, WorkerPhase};

fn units(u: i64) -> Fixed {
    Fixed::from_units(u)
}

// --- fan-out stage ---

#[test]
fn fanout_preserves_order_and_isolates_failures() {
    let requests = vec![MarketSymbol::BtcUsd, MarketSymbol::Gold, MarketSymbol::EthUsd];
    let results: Vec<Result<i64, FetchError>> = vec![
        Ok(1),
        Err(FetchError { message: "provider down".to_string() }),
        Ok(3),
    ];
    let outcomes = pair_outcomes(requests, results);
    assert_eq!(outcomes.len(), 3);
    assert_eq!(outcomes[0].key, MarketSymbol::BtcUsd);
    assert_eq!(outcomes[1].key, MarketSymbol::Gold);
    assert_eq!(outcomes[2].key, MarketSymbol::EthUsd);
    assert_eq!(outcomes[0].result.as_ref().unwrap(), &1);
    assert!(outcomes[1].result.is_err());
    assert_eq!(outcomes[2].result.as_ref().unwrap(), &3);
}

#[test]
fn fanout_of_no_requests_yields_no_outcomes() {
    let requests: Vec<MarketSymbol> = vec![];
    let results: Vec<Result<i64, FetchError>> = vec![];
    let outcomes = pair_outcomes(requests, results);
    assert_eq!(outcomes.len(), 0);
}

// --- derived metrics ---

#[test]
fn dominance_of_half_is_half() {
    let d = dominance(units(500_000), units(1_000_000));
    assert_eq!(d.micros() as f64 / 1_000_000.0, 0.5);
}

#[test]
fn dominance_of_zero_total_is_zero() {
    assert_eq!(dominance(units(7), Fixed::from_micros(0)).micros(), 0);
    assert_eq!(dominance(units(-3), Fixed::from_micros(0)).micros(), 0);
}

#[test]
fn ratio_of_zero_denominator_is_zero() {
    assert_eq!(ratio(units(10), Fixed::from_micros(0)).micros(), 0);
}

#[test]
fn return_over_time_guards_zero_past() {
    assert!(return_over_time(units(5), Fixed::from_micros(0)).is_none());
    let r = return_over_time(units(150), units(100)).unwrap();
    assert_eq!(r.micros(), 500_000); // +0.5
}

#[test]
fn trailing_average_full_window() {
    let values: Vec<Option<Fixed>> =
        vec![10, 20, 30, 40, 50, 60, 70].into_iter().map(|u| Some(units(u))).collect();
    let avg = trailing_average(&values, 7, 6);
    assert_eq!(avg, units(40));
}

#[test]
fn trailing_average_partial_window() {
    let values: Vec<Option<Fixed>> =
        vec![10, 20, 30, 40, 50, 60, 70].into_iter().map(|u| Some(units(u))).collect();
    let avg = trailing_average(&values, 3, 1);
    assert_eq!(avg, units(15));
}

#[test]
fn trailing_average_skips_nulls_and_empty_window_is_zero() {
    let values: Vec<Option<Fixed>> = vec![None, Some(units(10)), None, Some(units(20))];
    assert_eq!(trailing_average(&values, 4, 3), units(15));
    let all_null: Vec<Option<Fixed>> = vec![None, None];
    assert_eq!(trailing_average(&all_null, 2, 1), Fixed::from_micros(0));
}

// --- retry executor ---

#[test]
fn retry_returns_first_success_after_two_failures() {
    let policy = RetryPolicy::new(3, 60_000);
    let outcomes: Vec<Result<u64, String>> = vec![
        Err("first".to_string()),
        Err("second".to_string()),
        Ok(42),
    ];
    let run = execute_with_retry(&policy, outcomes);
    assert_eq!(run.result.unwrap(), 42);
    assert_eq!(run.attempts, 3);
    assert_eq!(run.delays, 2);
}

#[test]
fn retry_exhaustion_surfaces_last_error() {
    let policy = RetryPolicy::new(3, 60_000);
    let outcomes: Vec<Result<u64, String>> = vec![
        Err("first".to_string()),
        Err("second".to_string()),
        Err("third".to_string()),
    ];
    let run = execute_with_retry(&policy, outcomes);
    assert_eq!(run.result.unwrap_err(), "third");
    assert_eq!(run.attempts, 3);
    assert_eq!(run.delays, 2);
}

#[test]
fn retry_stops_at_immediate_success() {
    let policy = RetryPolicy::new(3, 60_000);
    let outcomes: Vec<Result<u64, String>> = vec![Ok(7), Err("unused".to_string()), Ok(9)];
    let run = execute_with_retry(&policy, outcomes);
    assert_eq!(run.result.unwrap(), 7);
    assert_eq!(run.attempts, 1);
    assert_eq!(run.delays, 0);
}

// --- schedulers ---

#[test]
fn monthly_boundary_mid_january() {
    let scheduler = MonthlyScheduler::new();
    // 2024-01-15 12:00:00 UTC
    let now = 19_737 * 86_400 + 43_200;
    let wake = scheduler.next_wake(now);
    assert_eq!(wake, 1_706_745_600); // 2024-02-01T00:00:00Z
}

#[test]
fn monthly_boundary_mid_december() {
    let scheduler = MonthlyScheduler::new();
    // 2024-12-15 00:00:00 UTC
    let now = Date::new(2024, 12, 15).unwrap().to_epoch_secs();
    let wake = scheduler.next_wake(now);
    assert_eq!(wake, 1_735_689_600); // 2025-01-01T00:00:00Z
}

#[test]
fn fixed_interval_waits_relative_to_now() {
    let scheduler = FixedIntervalScheduler::new(86_400);
    assert_eq!(scheduler.next_wake(1_000_000), 1_086_400);
}

// --- calendar ---

#[test]
fn epoch_day_arithmetic() {
    assert_eq!(Date::new(1970, 1, 1).unwrap().to_epoch_days(), 0);
    assert_eq!(Date::new(2024, 1, 15).unwrap().to_epoch_days(), 19_737);
    let d = market_ingest::date::from_epoch_days(19_737);
    assert_eq!(d, Date::new(2024, 1, 15).unwrap());
}

#[test]
fn leap_year_dates() {
    assert!(Date::new(2024, 2, 29).is_some());
    assert!(Date::new(2023, 2, 29).is_none());
    assert!(Date::new(1900, 2, 29).is_none());
    assert!(Date::new(2000, 2, 29).is_some());
}

#[test]
fn parse_date_accepts_iso_shape_only() {
    assert_eq!(parse_date("2024-10-01"), Date::new(2024, 10, 1));
    assert_eq!(parse_date("2024-13-01"), None);
    assert_eq!(parse_date("2024-1-1"), None);
    assert_eq!(parse_date("not a date"), None);
    assert_eq!(parse_date(""), None);
}

// --- decimal parsing ---

#[test]
fn parse_fixed_values() {
    assert_eq!(parse_fixed("55").unwrap().micros(), 55_000_000);
    assert_eq!(parse_fixed("55.3").unwrap().micros(), 55_300_000);
    assert_eq!(parse_fixed("-2.5").unwrap().micros(), -2_500_000);
    assert_eq!(parse_fixed("+0.000001").unwrap().micros(), 1);
    assert!(parse_fixed("abc").is_none());
    assert!(parse_fixed("1.2345678").is_none());
    assert!(parse_fixed("").is_none());
    assert_eq!(parse_fixed_or_zero("oops").micros(), 0);
    assert_eq!(parse_fixed_or_zero("72").micros(), 72_000_000);
}

// --- symbols ---

#[test]
fn symbol_names_round_trip() {
    let all = [
        MarketSymbol::BtcUsd,
        MarketSymbol::EthUsd,
        MarketSymbol::Gold,
        MarketSymbol::DFF,
        MarketSymbol::FearGreedIndex,
        MarketSymbol::GlobalTotalVolume24hUsd,
    ];
    for sym in all {
        assert_eq!(MarketSymbol::from_str(sym.as_str()).unwrap(), sym);
    }
}

#[test]
fn symbol_parse_normalizes() {
    assert_eq!(MarketSymbol::from_str(" btc_usd ").unwrap(), MarketSymbol::BtcUsd);
    let err = MarketSymbol::from_str("nonsense").unwrap_err();
    assert_eq!(err.0, "NONSENSE");
}

#[test]
fn normalize_symbol_maps_known_ids() {
    assert_eq!(normalize_symbol("bitcoin"), "BTC");
    assert_eq!(normalize_symbol("ethereum"), "ETH");
    assert_eq!(normalize_symbol("sui"), "SUI");
    assert_eq!(normalize_symbol("solana"), "SOL");
    assert_eq!(normalize_symbol("dogecoin"), "DOGECOIN");
}

#[test]
fn m2_country_tables() {
    assert_eq!(M2Country::EU.as_fxempire_symbol(), "euro-area");
    assert_eq!(M2Country::EU.as_str(), "Euro Area");
    assert_eq!(M2Country::EU.as_currency_code(), "EUR");
    assert_eq!(M2Country::Japan.as_currency_code(), "JPY");
}

#[test]
fn symbol_tables() {
    assert_eq!(MarketSymbol::BtcUsd.as_yahoo_symbol(), "BTC-USD");
    assert_eq!(MarketSymbol::DFF.as_yahoo_symbol(), "UNKNOWN");
    assert!(MarketSymbol::BtcUsd.is_btc());
    assert!(!MarketSymbol::EthUsd.is_btc());
    assert_eq!(MarketSymbol::btc_metrics().len(), 5);
    assert_eq!(MarketSymbol::eth_metrics().len(), 1);
    assert_eq!(MarketSymbol::macro_metrics().len(), 14);
    assert_eq!(MarketSymbol::fred_metrics().len(), 9);
}

// --- worker state machine ---

#[test]
fn worker_cycle_transitions() {
    let scheduler = FixedIntervalScheduler::new(60);
    let mut worker = IngestionWorker::new(scheduler, 3, 60_000);
    assert_eq!(worker.phase, WorkerPhase::Idle);
    worker.advance(WorkerEvent::Start);
    assert_eq!(worker.phase, WorkerPhase::Fetching);
    worker.advance(WorkerEvent::FetchSucceeded);
    assert_eq!(worker.phase, WorkerPhase::Persisting);
    worker.advance(WorkerEvent::StoreFinished);
    assert_eq!(worker.phase, WorkerPhase::Waiting);
    worker.advance(WorkerEvent::SchedulerWake);
    assert_eq!(worker.phase, WorkerPhase::Fetching);
    // a retry-exhausted fetch also just waits
    worker.advance(WorkerEvent::FetchFailed);
    assert_eq!(worker.phase, WorkerPhase::Waiting);
}

// --- fetch shaping ---

#[test]
fn find_closest_picks_nearest_quote() {
    let timestamps = vec![100, 200, 300];
    let closes = vec![units(1), units(2), units(3)];
    assert_eq!(find_closest(&timestamps, &closes, 290), units(3));
    assert_eq!(find_closest(&timestamps, &closes, 100), units(1));
    assert_eq!(find_closest(&Vec::new(), &Vec::new(), 100), Fixed::from_micros(0));
}

fn global(cap: i64) -> GlobalCryptoMarketData {
    GlobalCryptoMarketData {
        total_market_cap_usd: units(cap),
        total_stable_cap_usd: units(160),
        total_btc_cap_usd: units(1_300),
        total_eth_cap_usd: units(400),
        total_volume_24h_usd: units(90),
    }
}

#[test]
fn select_global_point_takes_second_latest() {
    let points = vec![(300, global(3)), (100, global(1)), (200, global(2))];
    let chosen = select_global_point(&points).unwrap();
    assert_eq!(chosen.total_market_cap_usd, units(2));
    assert!(select_global_point(&vec![(1, global(1))]).is_none());
}

// --- cycle records ---

fn price_outcome(sym: MarketSymbol, ok: bool) -> market_ingest::fanout::FetchOutcome<MarketSymbol, MarketPrice> {
    market_ingest::fanout::FetchOutcome {
        key: sym,
        result: if ok {
            Ok(MarketPrice {
                symbol: sym,
                price_usd: units(150),
                price_usd_7d_ago: units(100),
                price_usd_30d_ago: units(0),
                price_usd_90d_ago: units(50),
                volume_24h_usd: 1_000,
            })
        } else {
            Err(FetchError { message: "offline".to_string() })
        },
    }
}

#[test]
fn advanced_metrics_from_first_btc_price() {
    let prices = vec![
        price_outcome(MarketSymbol::Gold, false),
        price_outcome(MarketSymbol::BtcUsd, true),
    ];
    let g = global(2_600);
    let a = AdvancedMetrics::compute(&prices, &g, 1_000);
    assert_eq!(a.timestamp_secs, 1_000);
    assert_eq!(a.btc_dominance, Fixed::from_micros(500_000)); // 1300 / 2600
    assert_eq!(a.btc_return_7d.unwrap(), Fixed::from_micros(500_000)); // 150 vs 100
    assert!(a.btc_return_30d.is_none()); // past price of zero is guarded
    assert_eq!(a.btc_return_90d.unwrap(), Fixed::from_units(2)); // 150 vs 50
}

#[test]
fn daily_records_map_the_cycle() {
    let date = Date::new(2024, 10, 1).unwrap();
    let fg = FearGreedIndexData {
        value: "55".to_string(),
        classification: "Greed".to_string(),
        timestamp: "1700000000".to_string(),
    };
    let fred = vec![
        market_ingest::fanout::FetchOutcome {
            key: MarketSymbol::DFF,
            result: Ok(FredIndexData {
                series_id: "DFF".to_string(),
                value: Fixed::from_micros(5_330_000),
                date: "2024-09-30".to_string(),
            }),
        },
        market_ingest::fanout::FetchOutcome {
            key: MarketSymbol::UNRATE,
            result: Err(FetchError { message: "offline".to_string() }),
        },
    ];
    let prices = vec![
        price_outcome(MarketSymbol::BtcUsd, true),
        price_outcome(MarketSymbol::EthUsd, false),
    ];
    let result = DailyIngestionResult::assemble(
        1_727_740_800,
        date,
        Some(fg),
        fred,
        prices,
        Some(global(2_600)),
    );
    assert!(result.advanced_metrics.is_some());
    let (data_recs, metric_recs) = daily_records(&result);
    // one asset row: the successful BTC fetch
    assert_eq!(data_recs.len(), 1);
    assert_eq!(data_recs[0].name, "BTC_USD");
    assert_eq!(data_recs[0].payload.price_usd, units(150));
    // 1 sentiment + 1 fred + 5 global + 7 derived
    assert_eq!(metric_recs.len(), 14);
    assert_eq!(metric_recs[0].name, "FEAR_GREED_INDEX");
    assert_eq!(metric_recs[0].payload.value, Some(units(55)));
    assert_eq!(metric_recs[1].name, "DFF");
    assert_eq!(metric_recs[1].date, Date::new(2024, 9, 30).unwrap());
    assert_eq!(metric_recs[2].name, "GLOBAL_TOTAL_MARKET_CAP_USD");
    assert_eq!(metric_recs[7].name, "BTC_DOMINANCE");
    assert_eq!(metric_recs[7].payload.value, Some(Fixed::from_micros(500_000)));
    assert_eq!(metric_recs[12].payload.value, None); // 30d return: past price zero
}

#[test]
fn fear_greed_record_parses_or_zeroes() {
    let date = Date::new(2024, 10, 1).unwrap();
    let good = FearGreedIndexData {
        value: "63".to_string(),
        classification: "Greed".to_string(),
        timestamp: "1700000000".to_string(),
    };
    let rec = fear_greed_record(&good, date);
    assert_eq!(rec.payload.value, Some(units(63)));
    assert_eq!(rec.payload.source, Some(SourceTag::AlternativeMe));
    let bad = FearGreedIndexData {
        value: "??".to_string(),
        classification: "Greed".to_string(),
        timestamp: "1700000000".to_string(),
    };
    assert_eq!(fear_greed_record(&bad, date).payload.value, Some(Fixed::from_micros(0)));
}

#[test]
fn fred_records_skip_failures_and_bad_dates() {
    let outcomes = vec![
        market_ingest::fanout::FetchOutcome {
            key: MarketSymbol::DFF,
            result: Ok(FredIndexData {
                series_id: "DFF".to_string(),
                value: Fixed::from_micros(5_000_000),
                date: "2024-09-30".to_string(),
            }),
        },
        market_ingest::fanout::FetchOutcome {
            key: MarketSymbol::UNRATE,
            result: Ok(FredIndexData {
                series_id: "UNRATE".to_string(),
                value: Fixed::from_micros(4_100_000),
                date: "bad date".to_string(),
            }),
        },
    ];
    let recs = fred_records(&outcomes);
    assert_eq!(recs.len(), 1);
    assert_eq!(recs[0].name, "DFF");
}

// --- dashboard ---

#[test]
fn fear_greed_table_trailing_averages() {
    let mut entries = Vec::new();
    for (i, v) in [10i64, 20, 30, 40, 50, 60, 70].iter().enumerate() {
        entries.push(Record {
            name: "FEAR_GREED_INDEX".to_string(),
            date: Date::new(2024, 10, 1 + i as u8).unwrap(),
            payload: MetricFields {
                value: Some(units(*v)),
                source: Some(SourceTag::AlternativeMe),
            },
        });
    }
    let table = FearGreedIndex::from_market_data(entries);
    assert_eq!(table.data.len(), 7);
    let last = table.data[6];
    assert_eq!(last.1, 70);
    assert_eq!(last.2, 40); // 7-day trailing average of 10..=70
    let second = table.data[1];
    assert_eq!(second.1, 20);
    assert_eq!(second.2, 15); // partial window: mean of 10 and 20
    // rows come out date-sorted with day-precision timestamps
    assert_eq!(last.0, Date::new(2024, 10, 7).unwrap().to_epoch_days() * 86_400_000);
}

// --- persistence laws exercised end to end ---

#[test]
fn upsert_is_idempotent() {
    let mut store: RecordStore<MetricFields> = RecordStore::new();
    let rec = Record {
        name: "BTC_USD".to_string(),
        date: Date::new(2024, 10, 1).unwrap(),
        payload: MetricFields { value: Some(units(68_000)), source: Some(SourceTag::Computed) },
    };
    let rec_again = Record {
        name: "BTC_USD".to_string(),
        date: Date::new(2024, 10, 1).unwrap(),
        payload: MetricFields { value: Some(units(68_000)), source: Some(SourceTag::Computed) },
    };
    store.upsert(rec);
    store.upsert(rec_again);
    assert_eq!(store.len(), 1);
    let kept = store.latest("BTC_USD").unwrap();
    assert_eq!(kept.payload.value, Some(units(68_000)));
}

// --- clock wrapper runs ---

#[test]
fn clock_reads_run() {
    assert!(current_timestamp_ms() > 0);
}
