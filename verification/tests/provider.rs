use std::collections::BTreeMap;
use std::path::PathBuf;

use midas_backtesting_engine::adapters::parquet::{
    candle_required_fields, event_required_fields, validate_schema_for_dataset,
};
use midas_backtesting_engine::adapters::provider::{
    default_prefer_candles, filter_market_data, is_blank, validate_market_data_mode,
    validate_market_data_set, DataSourceCapabilities, DataSourceMetadata, FileDataSource,
    FileDataSourceSpec, HistoricalDataSource, InMemoryDataSource, LoadedMarketData,
    MarketDataFacts, MarketDataMode, MarketDataRequest, ProviderError, SourceDataFormat,
    SourceField, SourceFieldType, SourceSchema,
};
use midas_backtesting_engine::engine::replay::{CandleFacts, EventFacts};

const HOUR: i64 = 3_600_000_000_000;
const JAN_1_2024: i64 = 1_704_067_200_000_000_000;

fn hourly_candles(count: i64) -> Vec<CandleFacts> {
    (0..count)
        .map(|index| CandleFacts { timestamp: JAN_1_2024 + index * HOUR, valid: true })
        .collect()
}

fn metadata(instrument: &str, timeframe: Option<&str>) -> DataSourceMetadata {
    DataSourceMetadata {
        provider_name: "mock".to_string(),
        instrument: instrument.to_string(),
        timeframe: timeframe.map(|t| t.to_string()),
        data_mode: "candles".to_string(),
        fingerprint: Some("abc".to_string()),
        source_schema: None,
        notes: BTreeMap::new(),
    }
}

fn request(mode: MarketDataMode) -> MarketDataRequest {
    MarketDataRequest {
        symbol: "BTC-PERP".to_string(),
        venue: None,
        timeframe: Some("1h".to_string()),
        start: None,
        end: None,
        mode,
        limit: None,
    }
}

fn event(timestamp: i64, sequence: u64) -> EventFacts {
    EventFacts { timestamp, sequence, valid: true, is_candle: false }
}

fn field(name: &str, data_type: SourceFieldType) -> SourceField {
    SourceField { name: name.to_string(), data_type, nullable: false }
}

fn caps(candles: bool, events: bool, sequences: bool) -> DataSourceCapabilities {
    DataSourceCapabilities {
        supports_candles: candles,
        supports_events: events,
        supports_range_filtering: true,
        supports_sequence_guarantees: sequences,
    }
}

#[test]
fn parquet_schema_validation_requires_event_fields() {
    let schema = SourceSchema {
        format: SourceDataFormat::Parquet,
        fields: vec![
            field("timestamp", SourceFieldType::Timestamp),
            field("sequence", SourceFieldType::UInt64),
        ],
    };
    let error =
        validate_schema_for_dataset(&schema, &MarketDataFacts::Events(vec![])).unwrap_err();
    assert!(matches!(error, ProviderError::MissingSchemaField { required: 2 }));
}

#[test]
fn in_memory_provider_filters_by_range() {
    let provider = InMemoryDataSource {
        name: "mock".to_string(),
        loaded: LoadedMarketData {
            dataset: MarketDataFacts::Candles(hourly_candles(5)),
            metadata: metadata("BTC-PERP", Some("1h")),
        },
    };
    let mut req = request(MarketDataMode::Candles);
    req.start = Some(JAN_1_2024 + HOUR);
    req.end = Some(JAN_1_2024 + 3 * HOUR);
    let kept = provider.load(&req).unwrap();
    assert_eq!(kept.len(), 3);
    assert_eq!(kept, vec![1, 2, 3]);
}

#[test]
fn provider_rejects_duplicate_event_sequences() {
    let mut meta = metadata("BTC-PERP", Some("event"));
    meta.data_mode = "events".to_string();
    let provider = InMemoryDataSource {
        name: "mock".to_string(),
        loaded: LoadedMarketData {
            dataset: MarketDataFacts::Events(vec![event(JAN_1_2024, 1), event(JAN_1_2024, 1)]),
            metadata: meta,
        },
    };
    let mut req = request(MarketDataMode::Events);
    req.timeframe = Some("event".to_string());
    let error = provider.load(&req).unwrap_err();
    assert!(matches!(error, ProviderError::SequenceNotIncreasing { index: 1 }));
}

#[test]
fn file_data_source_reports_mode_capabilities() {
    let provider = FileDataSource {
        name: "files".to_string(),
        instrument: "BTC-PERP".to_string(),
        timeframe: Some("1h".to_string()),
        spec: FileDataSourceSpec::CandleCsv { path: PathBuf::from("examples/data/btc_perp_1h.csv") },
        schema: None,
    };
    let capabilities = provider.capabilities();
    assert!(capabilities.supports_candles);
    assert!(!capabilities.supports_events);
}

#[test]
fn event_file_source_serves_events_without_sequence_promise() {
    let provider = FileDataSource {
        name: "files".to_string(),
        instrument: "BTC-PERP".to_string(),
        timeframe: None,
        spec: FileDataSourceSpec::EventJson { path: PathBuf::from("events.json") },
        schema: None,
    };
    let capabilities = provider.capabilities();
    assert!(!capabilities.supports_candles);
    assert!(capabilities.supports_events);
    assert!(!capabilities.supports_sequence_guarantees);
    assert_eq!(provider.name(), "files");
    assert_eq!(provider.origin_label(), "file_json");
}

#[test]
fn requests_default_to_preferring_candles() {
    assert_eq!(default_prefer_candles(), MarketDataMode::PreferCandles);
}

#[test]
fn blank_symbols_are_rejected() {
    assert!(is_blank(""));
    assert!(is_blank(" \t\n\u{00A0}\u{3000}"));
    assert!(!is_blank(" BTC "));
    let mut req = request(MarketDataMode::Candles);
    req.symbol = "   ".to_string();
    assert_eq!(req.validate(), Err(ProviderError::BlankSymbol));
}

#[test]
fn start_after_end_is_rejected() {
    let mut req = request(MarketDataMode::Candles);
    req.start = Some(10);
    req.end = Some(5);
    assert_eq!(req.validate(), Err(ProviderError::StartAfterEnd));
    req.end = Some(10);
    assert_eq!(req.validate(), Ok(()));
}

#[test]
fn mode_mismatches_are_reported() {
    let candles = MarketDataFacts::Candles(hourly_candles(3));
    let events = MarketDataFacts::Events(vec![event(0, 1)]);
    let both = caps(true, true, false);
    assert_eq!(
        validate_market_data_mode(&events, MarketDataMode::Candles, &both),
        Err(ProviderError::EventsForCandleRequest)
    );
    assert_eq!(
        validate_market_data_mode(&candles, MarketDataMode::Events, &both),
        Err(ProviderError::CandlesForEventRequest)
    );
    assert_eq!(
        validate_market_data_mode(&events, MarketDataMode::PreferCandles, &caps(true, false, false)),
        Err(ProviderError::PreferCandlesUnsatisfiable)
    );
    assert_eq!(validate_market_data_mode(&events, MarketDataMode::PreferCandles, &both), Ok(()));
    assert_eq!(
        validate_market_data_mode(&candles, MarketDataMode::PreferEvents, &caps(false, true, false)),
        Err(ProviderError::PreferEventsUnsatisfiable)
    );
    assert_eq!(validate_market_data_mode(&candles, MarketDataMode::Candles, &both), Ok(()));
}

#[test]
fn candle_sets_must_increase_before_validity_is_checked() {
    let mut candles = hourly_candles(4);
    candles[1].valid = false;
    candles[3].timestamp = candles[2].timestamp;
    assert_eq!(
        validate_market_data_set(&MarketDataFacts::Candles(candles.clone()), &caps(true, false, false)),
        Err(ProviderError::CandlesNotIncreasing { index: 3 })
    );
    candles[3].timestamp += HOUR;
    assert_eq!(
        validate_market_data_set(&MarketDataFacts::Candles(candles), &caps(true, false, false)),
        Err(ProviderError::InvalidCandle { index: 1 })
    );
}

#[test]
fn event_sets_report_the_first_problem() {
    let guarantees = caps(false, true, true);
    let out_of_order = vec![event(10, 1), event(5, 2)];
    assert_eq!(
        validate_market_data_set(&MarketDataFacts::Events(out_of_order), &guarantees),
        Err(ProviderError::EventsOutOfOrder { index: 1 })
    );
    let unsequenced = vec![event(10, 1), event(20, 0)];
    assert_eq!(
        validate_market_data_set(&MarketDataFacts::Events(unsequenced.clone()), &guarantees),
        Err(ProviderError::MissingSequence { index: 1 })
    );
    assert_eq!(
        validate_market_data_set(&MarketDataFacts::Events(unsequenced), &caps(false, true, false)),
        Ok(())
    );
    let mut invalid = vec![event(10, 1), event(20, 2)];
    invalid[0].valid = false;
    assert_eq!(
        validate_market_data_set(&MarketDataFacts::Events(invalid), &guarantees),
        Err(ProviderError::InvalidEvent { index: 0 })
    );
}

#[test]
fn filtering_applies_bounds_then_limit() {
    let data = MarketDataFacts::Candles(hourly_candles(5));
    let kept = filter_market_data(&data, Some(JAN_1_2024 + HOUR), None, Some(2)).unwrap();
    assert_eq!(kept, vec![1, 2]);
    assert_eq!(
        filter_market_data(&data, Some(JAN_1_2024 + 10 * HOUR), None, None),
        Err(ProviderError::EmptyRange)
    );
    assert_eq!(filter_market_data(&data, None, None, Some(0)), Err(ProviderError::EmptyRange));
    assert_eq!(data.len(), 5);
    assert_eq!(data.mode_label(), "candles");
    assert_eq!(data.time_bounds(), Some((JAN_1_2024, JAN_1_2024 + 4 * HOUR)));
}

#[test]
fn loaded_data_must_match_instrument_and_timeframe() {
    let loaded = LoadedMarketData {
        dataset: MarketDataFacts::Candles(hourly_candles(3)),
        metadata: metadata("ETH-PERP", Some("1h")),
    };
    assert_eq!(
        loaded.validate(&request(MarketDataMode::Candles), &caps(true, false, false)),
        Err(ProviderError::InstrumentMismatch)
    );
    let loaded = LoadedMarketData {
        dataset: MarketDataFacts::Candles(hourly_candles(3)),
        metadata: metadata("BTC-PERP", Some("4h")),
    };
    assert_eq!(
        loaded.validate(&request(MarketDataMode::Candles), &caps(true, false, false)),
        Err(ProviderError::TimeframeMismatch)
    );
    let loaded = LoadedMarketData {
        dataset: MarketDataFacts::Candles(hourly_candles(3)),
        metadata: metadata("BTC-PERP", None),
    };
    assert_eq!(loaded.validate(&request(MarketDataMode::Candles), &caps(true, false, false)), Ok(()));
}

#[test]
fn parquet_schema_checks_types_and_ignores_other_formats() {
    let mut schema = SourceSchema {
        format: SourceDataFormat::Parquet,
        fields: vec![
            field("timestamp", SourceFieldType::Timestamp),
            field("open", SourceFieldType::Utf8),
        ],
    };
    let candles = MarketDataFacts::Candles(hourly_candles(3));
    assert_eq!(
        validate_schema_for_dataset(&schema, &candles),
        Err(ProviderError::SchemaFieldType { required: 1 })
    );
    schema.format = SourceDataFormat::Csv;
    assert_eq!(validate_schema_for_dataset(&schema, &candles), Ok(()));
    let full = SourceSchema {
        format: SourceDataFormat::Parquet,
        fields: vec![
            field("kind", SourceFieldType::Utf8),
            field("sequence", SourceFieldType::UInt64),
            field("timestamp", SourceFieldType::Timestamp),
        ],
    };
    assert_eq!(validate_schema_for_dataset(&full, &MarketDataFacts::Events(vec![])), Ok(()));
}

#[test]
fn required_field_lists_match_the_layouts() {
    let candle_names: Vec<&str> = candle_required_fields().iter().map(|f| f.0).collect();
    assert_eq!(candle_names, vec!["timestamp", "open", "high", "low", "close", "volume"]);
    let events = event_required_fields();
    assert_eq!(events.len(), 3);
    assert_eq!(events[1], ("sequence", SourceFieldType::UInt64));
}

#[test]
fn file_source_serves_filtered_and_checked_data() {
    let provider = FileDataSource {
        name: "files".to_string(),
        instrument: "BTC-PERP".to_string(),
        timeframe: Some("1h".to_string()),
        spec: FileDataSourceSpec::CandleCsv { path: PathBuf::from("candles.csv") },
        schema: None,
    };
    let mut req = request(MarketDataMode::Events);
    let data = MarketDataFacts::Candles(hourly_candles(4));
    assert_eq!(provider.serve(&data, &req), Err(ProviderError::CandlesForEventRequest));
    req.mode = MarketDataMode::PreferCandles;
    req.limit = Some(2);
    assert_eq!(provider.serve(&data, &req), Ok(vec![0, 1]));
}
