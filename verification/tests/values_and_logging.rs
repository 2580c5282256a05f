use webgpu_candles::logging::{ConsoleLogger, LogComponent, LogEntry, LogLevel};
use webgpu_candles::market_data::{Symbol, TimeInterval, Timestamp};
use webgpu_candles::services::{AppError, EventOptions, LineVisibility};
use webgpu_candles::text::padded_decimal;

#[test]
fn toggles_visibility() {
    let mut v = LineVisibility::default();
    assert!(v.sma_20);
    v.toggle("sma20");
    assert!(!v.sma_20);
}

#[test]
fn toggling_unknown_line_changes_nothing() {
    let mut v = LineVisibility::default();
    assert_eq!(v.toggle("sma21"), None);
    assert!(v.sma_20 && v.sma_50 && v.sma_200 && v.ema_12 && v.ema_26);
    assert_eq!(v.toggle("ema26"), Some(false));
    assert_eq!(v.toggle("ema26"), Some(true));
}

#[test]
fn symbols_are_upper_case_and_never_empty() {
    assert_eq!(Symbol::new("btcusdt".to_string()).unwrap().value(), "BTCUSDT");
    assert_eq!(Symbol::new(String::new()).err(), Some("Symbol cannot be empty".to_string()));
    assert_eq!(Symbol::from("ethusdt").value(), "ETHUSDT");
}

#[test]
fn intervals_name_and_measure_their_buckets() {
    assert_eq!(TimeInterval::TwoSeconds.to_binance_str(), "1s");
    assert_eq!(TimeInterval::OneMonth.to_binance_str(), "1M");
    assert_eq!(TimeInterval::TwoSeconds.duration_ms(), 2_000);
    assert_eq!(TimeInterval::FourHours.duration_ms(), 14_400_000);
    assert_eq!(TimeInterval::OneMonth.duration_ms(), 2_592_000_000);
    assert_eq!(TimeInterval::OneMinute.bucket_start(125_000), 120_000);
    assert_eq!(Timestamp::from(42).value(), 42);
}

#[test]
fn log_lines_carry_level_component_and_metadata() {
    let logger = ConsoleLogger::new_production();
    assert!(!logger.should_log(LogLevel::Debug));
    assert!(logger.should_log(LogLevel::Info));
    assert!(ConsoleLogger::new_development().should_log(LogLevel::Debug));
    assert!(!ConsoleLogger::new_development().should_log(LogLevel::Trace));
    let entry = LogEntry::new(5, LogLevel::Warn, LogComponent::Infrastructure("BinanceWS"), "slow");
    assert_eq!(logger.format_log_entry(&entry, "12:00:00.000"), "[12:00:00.000]  WARN INF:BinanceWS | slow");
    let with_meta = LogEntry::new_with_metadata(
        5,
        LogLevel::Error,
        LogComponent::Domain("Chart"),
        "bad",
        "id=1",
    );
    assert_eq!(logger.format_log_entry(&with_meta, "t"), "[t] ERROR DOM:Chart | bad | id=1");
}

#[test]
fn errors_and_options_read_as_documented() {
    assert_eq!(AppError::NetworkError("down".to_string()).message(), "Network Error: down");
    assert_eq!(AppError::ValidationError("x".to_string()).message(), "Validation Error: x");
    let o = EventOptions::default();
    assert!(o.passive && !o.capture && !o.once);
    assert_eq!(padded_decimal(7, 3), "007");
    assert_eq!(padded_decimal(1234, 2), "1234");
}

#[test]
fn symbol_normalisation_is_idempotent_and_case_blind() {
    let t = Symbol::new("btcUsdt".to_string()).unwrap();
    assert_eq!(t.value(), "BTCUSDT");
    assert_eq!(Symbol::new(t.value().to_string()).unwrap(), t);
    assert_eq!(Symbol::new("BTCUSDT".to_lowercase()).unwrap(), t);
}
