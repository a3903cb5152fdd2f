use market_ingest::date::Date;
use market_ingest::fixed::Fixed;
use market_ingest::store::{MetricFields, PriceFields, Record, RecordStore, SourceTag};

fn create_market_data(symbol: &str, date: (i32, u8, u8), price: i64) -> Record<PriceFields> {
    Record {
        name: symbol.to_string(),
        date: Date::new(date.0, date.1, date.2).unwrap(),
        payload: PriceFields {
            price_usd: Fixed::from_units(price),
            volume_usd: Some(Fixed::from_units(35_000_000_000)),
            market_cap_usd: Some(Fixed::from_units(1_300_000_000_000)),
            dominance: Some(Fixed::from_micros(51_200_000)),
        },
    }
}

#[test]
fn test_insert_market_data() {
    let mut store: RecordStore<PriceFields> = RecordStore::new();

    let rec = create_market_data("BTC", (2024, 10, 1), 68_000);
    store.upsert(rec);
    assert_eq!(store.len(), 1);
}

#[test]
fn test_latest_market_data() {
    let mut store: RecordStore<PriceFields> = RecordStore::new();

    let rec1 = create_market_data("BTC", (2024, 10, 1), 68_000);
    let rec2 = create_market_data("BTC", (2024, 10, 2), 69_500);
    let expected_date = rec2.date;
    let expected_price = rec2.payload.price_usd;

    store.upsert(rec1);
    store.upsert(rec2);

    let latest = store.latest("BTC").unwrap();
    assert_eq!(latest.date, expected_date);
    assert_eq!(latest.payload.price_usd, expected_price);
}

#[test]
fn test_range_market_data() {
    let mut store: RecordStore<PriceFields> = RecordStore::new();

    let rec1 = create_market_data("BTC", (2024, 10, 1), 68_000);
    let rec2 = create_market_data("BTC", (2024, 10, 2), 69_500);
    let d1 = rec1.date;
    let d2 = rec2.date;

    store.upsert(rec1);
    store.upsert(rec2);

    let range = store.range("BTC", &d1, &d2);
    assert_eq!(range.len(), 2);
    assert_eq!(range[0].date, d1);
    assert_eq!(range[1].date, d2);
}

#[test]
fn test_upsert_market_data() {
    let mut store: RecordStore<PriceFields> = RecordStore::new();

    let rec = create_market_data("BTC", (2024, 10, 1), 68_000);
    let d = rec.date;
    store.upsert(rec);

    // Update price for the same timestamp
    let updated = create_market_data("BTC", (2024, 10, 1), 70_000);
    store.upsert(updated);

    let fetched = store.range("BTC", &d, &d);
    assert_eq!(fetched.len(), 1);
    assert_eq!(fetched[0].payload.price_usd, Fixed::from_units(70_000));
}

fn create_record(date: (i32, u8, u8), value_micros: i64) -> Record<MetricFields> {
    Record {
        name: "RSI".to_string(),
        date: Date::new(date.0, date.1, date.2).unwrap(),
        payload: MetricFields {
            value: Some(Fixed::from_micros(value_micros)),
            source: Some(SourceTag::Tradingview),
        },
    }
}

#[test]
fn test_insert_indicator() {
    let mut store: RecordStore<MetricFields> = RecordStore::new();

    let rec = create_record((2024, 10, 1), 55_300_000);
    store.upsert(rec);
    assert_eq!(store.len(), 1);
}

#[test]
fn test_latest_indicator() {
    let mut store: RecordStore<MetricFields> = RecordStore::new();

    let rec1 = create_record((2024, 10, 1), 55_300_000);
    let rec2 = create_record((2024, 10, 2), 60_100_000);
    let expected_date = rec2.date;
    let expected_value = rec2.payload.value;

    store.upsert(rec1);
    store.upsert(rec2);

    let latest = store.latest("RSI").unwrap();
    assert_eq!(latest.date, expected_date);
    assert_eq!(latest.payload.value, expected_value);
}

#[test]
fn test_range_indicators() {
    let mut store: RecordStore<MetricFields> = RecordStore::new();

    let rec1 = create_record((2024, 10, 1), 55_300_000);
    let rec2 = create_record((2024, 10, 2), 60_100_000);
    let d1 = rec1.date;
    let d2 = rec2.date;

    store.upsert(rec1);
    store.upsert(rec2);

    let range = store.range("RSI", &d1, &d2);
    assert_eq!(range.len(), 2);
    assert_eq!(range[0].date, d1);
    assert_eq!(range[1].date, d2);
}

#[test]
fn test_upsert_indicator() {
    let mut store: RecordStore<MetricFields> = RecordStore::new();

    let rec = create_record((2024, 10, 1), 55_300_000);
    let d = rec.date;
    store.upsert(rec);

    // update the value for the same timestamp
    let updated = create_record((2024, 10, 1), 58_000_000);
    store.upsert(updated);

    let fetched = store.range("RSI", &d, &d);
    assert_eq!(fetched.len(), 1);
    assert_eq!(fetched[0].payload.value, Some(Fixed::from_micros(58_000_000)));
}

#[test]
fn test_latest_n_returns_most_recent_first() {
    let mut store: RecordStore<PriceFields> = RecordStore::new();
    store.upsert(create_market_data("BTC", (2024, 10, 1), 68_000));
    store.upsert(create_market_data("BTC", (2024, 10, 3), 70_000));
    store.upsert(create_market_data("BTC", (2024, 10, 2), 69_500));
    store.upsert(create_market_data("ETH", (2024, 10, 4), 2_600));

    let top2 = store.latest_n("BTC", 2);
    assert_eq!(top2.len(), 2);
    assert_eq!(top2[0].date, Date::new(2024, 10, 3).unwrap());
    assert_eq!(top2[1].date, Date::new(2024, 10, 2).unwrap());

    let all = store.latest_n("BTC", 10);
    assert_eq!(all.len(), 3);
}

#[test]
fn test_latest_array_metrics_takes_one_per_name() {
    let mut store: RecordStore<MetricFields> = RecordStore::new();
    store.upsert(create_record((2024, 10, 1), 55_300_000));
    store.upsert(create_record((2024, 10, 2), 60_100_000));

    let rows = store.latest_array_metrics(&vec!["RSI".to_string(), "MISSING".to_string()]);
    assert_eq!(rows.len(), 1);
    assert_eq!(rows[0].date, Date::new(2024, 10, 2).unwrap());
}

#[test]
fn test_get_by_key() {
    let mut store: RecordStore<PriceFields> = RecordStore::new();
    store.upsert(create_market_data("BTC", (2024, 10, 1), 68_000));
    let d = Date::new(2024, 10, 1).unwrap();
    assert!(store.get("BTC", &d).is_some());
    assert!(store.get("ETH", &d).is_none());
    assert!(store.get("BTC", &Date::new(2024, 10, 2).unwrap()).is_none());
}
