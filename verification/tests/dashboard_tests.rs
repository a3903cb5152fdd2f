use market_ingest::cycle::select_global_point;
use market_ingest::dashboard::{AssetSnapshot, MacroMetrics, MetricData, PriceData};
use market_ingest::date::Date;
use market_ingest::fixed::Fixed;
use market_ingest::metrics::GlobalCryptoMarketData;
use market_ingest::store::{MetricFields, PriceFields, Record, SourceTag};
use market_ingest::symbol::MarketSymbol;

fn metric_row(name: &str, day: u8, value: Option<i64>) -> Record<MetricFields> {
    Record {
        name: name.to_string(),
        date: Date::new(2024, 10, day).unwrap(),
        payload: MetricFields {
            value: value.map(Fixed::from_units),
            source: Some(SourceTag::Fred),
        },
    }
}

#[test]
fn metric_data_series_and_display_name() {
    let rows = vec![metric_row("btc_usd", 1, Some(5)), metric_row("btc_usd", 2, None)];
    let md = MetricData::from_market_metrics("btc_usd".to_string(), rows);
    assert_eq!(md.name, "btc_usd");
    assert_eq!(md.formatted_name, "BTC_USD");
    assert_eq!(md.data.len(), 2);
    assert_eq!(md.data[0].1, Fixed::from_units(5));
    assert_eq!(md.data[1].1, Fixed::from_micros(0)); // null served as zero
    let unknown = MetricData::from_market_metrics("RSI".to_string(), Vec::new());
    assert_eq!(unknown.formatted_name, "RSI");
}

#[test]
fn price_data_rows() {
    let rec = Record {
        name: "BTC_USD".to_string(),
        date: Date::new(2024, 10, 1).unwrap(),
        payload: PriceFields {
            price_usd: Fixed::from_units(68_000),
            volume_usd: None,
            market_cap_usd: None,
            dominance: None,
        },
    };
    let expected_ms = rec.date.to_epoch_days() * 86_400_000;
    let pd = PriceData::from_market_data(vec![rec]);
    assert_eq!(pd.data.len(), 1);
    assert_eq!(pd.data[0].0, expected_ms);
    assert_eq!(pd.data[0].1, Fixed::from_units(68_000));
    assert_eq!(pd.data[0].2, None);
}

#[test]
fn group_metrics_by_name() {
    let rows = vec![
        metric_row("DFF", 1, Some(5)),
        metric_row("UNRATE", 1, Some(4)),
        metric_row("DFF", 2, Some(6)),
    ];
    let groups = AssetSnapshot::group_metrics(rows);
    assert_eq!(groups.len(), 2);
    let dff = groups.iter().find(|g| g.name == "DFF").unwrap();
    assert_eq!(dff.data.len(), 2);
    let unrate = groups.iter().find(|g| g.name == "UNRATE").unwrap();
    assert_eq!(unrate.data.len(), 1);
}

#[test]
fn asset_snapshot_names() {
    let snap = AssetSnapshot::from_market_data(MarketSymbol::BtcUsd, Vec::new(), Vec::new());
    assert_eq!(snap.symbol, "BTC_USD");
    assert_eq!(snap.formatted_name, "BTC_USD");
    assert_eq!(snap.prices.data.len(), 0);
    assert_eq!(snap.metrics.len(), 0);
}

#[test]
fn macro_metrics_keep_macro_rows_with_values() {
    let rows = vec![
        metric_row("GOLD_USD", 1, Some(2_400)),
        metric_row("RSI", 1, Some(55)),      // not a macro symbol
        metric_row("DFF", 1, None),          // no value
        metric_row("GOLD_USD", 2, Some(2_410)),
    ];
    let m = MacroMetrics::from_market_data(rows).unwrap();
    assert_eq!(m.data.len(), 1);
    assert_eq!(m.data[0].name, "GOLD_USD");
    assert_eq!(m.data[0].values.len(), 2);
    assert_eq!(m.data[0].values[0].0, Date::new(2024, 10, 1).unwrap());
    assert_eq!(m.data[0].values[1].1, Fixed::from_units(2_410));
}

#[test]
fn macro_metrics_none_when_nothing_qualifies() {
    let rows = vec![metric_row("RSI", 1, Some(55)), metric_row("DFF", 1, None)];
    assert!(MacroMetrics::from_market_data(rows).is_none());
}

fn global(cap: i64) -> GlobalCryptoMarketData {
    GlobalCryptoMarketData {
        total_market_cap_usd: Fixed::from_units(cap),
        total_stable_cap_usd: Fixed::from_units(1),
        total_btc_cap_usd: Fixed::from_units(1),
        total_eth_cap_usd: Fixed::from_units(1),
        total_volume_24h_usd: Fixed::from_units(1),
    }
}

#[test]
fn select_global_point_is_stable_on_equal_timestamps() {
    // two points share the top timestamp: descending stable order keeps
    // the earlier-listed one first, so the second pick is the later one
    let points = vec![(200, global(10)), (200, global(20)), (100, global(30))];
    let chosen = select_global_point(&points).unwrap();
    assert_eq!(chosen.total_market_cap_usd, Fixed::from_units(20));
}

#[test]
fn error_responses_carry_their_codes() {
    let bad = market_ingest::dashboard::ApiErrorResponse::bad_request("nope".to_string());
    assert_eq!(bad.error, "BAD_REQUEST");
    assert_eq!(bad.message, "nope");
    let internal = market_ingest::dashboard::ApiErrorResponse::internal("boom".to_string());
    assert_eq!(internal.error, "INTERNAL_ERROR");
}
