use webgpu_candles::chart::{
    BucketStep, CandlePayload, ChartData, ChartType, Indicator, IndicatorType,
};
use webgpu_candles::market_data::{TimeInterval, Timestamp};
use webgpu_candles::series::{apply_stream_candle, Candle};
use webgpu_candles::viewport::view_window;
use webgpu_candles::services::{Aggregator, ChartStateService, DataStats};

#[derive(Debug, Clone, Copy, PartialEq)]
struct Bar {
    open: f64,
    high: f64,
    low: f64,
    close: f64,
    volume: f64,
}

impl CandlePayload for Bar {
    fn bucket_seed(&self) -> Self {
        *self
    }

    fn merge(&self, incoming: &Self) -> Self {
        Bar {
            open: self.open,
            high: if incoming.high > self.high { incoming.high } else { self.high },
            low: if incoming.low < self.low { incoming.low } else { self.low },
            close: incoming.close,
            volume: self.volume + incoming.volume,
        }
    }
}

fn candle(minute: u64) -> Candle<Bar> {
    let price = 100.0 + minute as f64;
    Candle::new(
        Timestamp::from(minute * 60_000),
        Bar { open: price, high: price + 1.0, low: price - 1.0, close: price + 0.5, volume: 1.0 },
    )
}

fn at(ms: u64, close: f64) -> Candle<Bar> {
    Candle::new(
        Timestamp::from(ms),
        Bar { open: close, high: close + 1.0, low: close - 1.0, close, volume: 2.0 },
    )
}

fn base_timestamps(chart: &ChartData<Bar>) -> Vec<u64> {
    chart
        .get_series(TimeInterval::TwoSeconds)
        .unwrap()
        .get_candles()
        .iter()
        .map(|c| c.timestamp.value())
        .collect()
}

#[test]
fn historical_prepend_preserves_viewport_and_order() {
    let mut chart = ChartData::new("test".to_string(), ChartType::Candlestick, 10);
    chart.set_historical_data((3..6).map(candle).collect());

    let start = candle(4).timestamp.value();
    let end = candle(5).timestamp.value();
    let base_window = |chart: &ChartData<Bar>| {
        view_window(chart.get_series(TimeInterval::TwoSeconds).unwrap().get_candles(), start, end)
    };
    let before = base_window(&chart);

    let result = chart.prepend_historical_data((0..4).map(candle).collect());

    assert_eq!(result.added, 3);
    assert_eq!(base_timestamps(&chart), (0..6).map(|m| m * 60_000).collect::<Vec<_>>());
    // the same time view still shows the same newest two candles
    assert_eq!(before, Some((2, 0)));
    assert_eq!(base_window(&chart), before);
}

#[test]
fn historical_prepend_keeps_nearest_data_when_capacity_is_reached() {
    let mut chart = ChartData::new("test".to_string(), ChartType::Candlestick, 5);
    chart.set_historical_data((4..7).map(candle).collect());

    let result = chart.prepend_historical_data((0..4).map(candle).collect());

    assert_eq!(result.added, 2);
    assert_eq!(base_timestamps(&chart), (2..7).map(|m| m * 60_000).collect::<Vec<_>>());
}

#[test]
fn revision_changes_without_scanning_candles() {
    let mut chart = ChartData::new("test".to_string(), ChartType::Candlestick, 10);
    let initial = chart.revision();
    chart.add_realtime_candle(candle(1));
    let after_insert = chart.revision();
    chart.add_realtime_candle(candle(1));
    assert_ne!(after_insert, initial);
    assert_ne!(chart.revision(), after_insert);
}

#[test]
fn base_series_bulk_load_skips_derived_timeframes() {
    let mut chart = ChartData::new("stress".to_string(), ChartType::Candlestick, 10);
    chart.set_base_series((0..10).map(candle).collect());

    assert_eq!(chart.get_candle_count(), 10);
    assert_eq!(chart.get_series(TimeInterval::OneMinute).unwrap().count(), 0);
    let bounds = chart.get_series(TimeInterval::TwoSeconds).unwrap().time_bounds();
    assert_eq!(bounds, Some((candle(0).timestamp.value(), candle(9).timestamp.value())));
}

#[test]
fn prepend_with_nothing_older_changes_nothing() {
    let mut chart = ChartData::new("test".to_string(), ChartType::Candlestick, 10);
    chart.set_historical_data((3..6).map(candle).collect());
    let revision = chart.revision();

    let result = chart.prepend_historical_data((3..9).map(candle).collect());

    assert_eq!(result.added, 0);
    assert!(result.reports.is_empty());
    assert_eq!(chart.revision(), revision);
    assert_eq!(base_timestamps(&chart), vec![180_000, 240_000, 300_000]);
}

#[test]
fn prepend_into_empty_chart_loads_sorted_unique_history() {
    let mut chart = ChartData::new("test".to_string(), ChartType::Candlestick, 10);
    let result = chart.prepend_historical_data(vec![candle(2), candle(0), candle(2), candle(1)]);
    assert_eq!(result.added, 3);
    assert_eq!(result.reports.len(), 3);
    assert_eq!(base_timestamps(&chart), vec![0, 60_000, 120_000]);
}

#[test]
fn historical_data_is_sorted_and_bounded() {
    let mut chart = ChartData::new("test".to_string(), ChartType::Candlestick, 3);
    let reports = chart.set_historical_data(vec![candle(4), candle(1), candle(3), candle(2), candle(0)]);
    assert_eq!(reports.len(), 5);
    assert_eq!(reports[0].candle.timestamp.value(), 0);
    assert_eq!(reports[4].candle.timestamp.value(), 240_000);
    assert_eq!(base_timestamps(&chart), vec![120_000, 180_000, 240_000]);
    assert!(chart.has_data());
}

#[test]
fn same_candle_twice_is_stored_once() {
    let mut chart = ChartData::new("test".to_string(), ChartType::Candlestick, 10);
    chart.add_candle(candle(1));
    chart.add_candle(candle(2));
    chart.add_candle(candle(2));
    assert_eq!(base_timestamps(&chart), vec![60_000, 120_000]);
}

#[test]
fn live_candle_replaces_the_newest_or_appends() {
    let mut chart = ChartData::new("test".to_string(), ChartType::Candlestick, 10);
    let first = chart.add_realtime_candle(at(2_000, 10.0));
    assert!(first.base_is_new);
    assert!(!first.base_is_update);
    let update = chart.add_realtime_candle(at(2_000, 11.0));
    assert!(!update.base_is_new);
    assert!(update.base_is_update);
    let series = chart.get_series(TimeInterval::TwoSeconds).unwrap();
    assert_eq!(series.count(), 1);
    assert_eq!(series.latest().unwrap().ohlcv.close, 11.0);
    let newer = chart.add_realtime_candle(at(4_000, 12.0));
    assert!(newer.base_is_new);
    assert_eq!(chart.get_candle_count(), 2);
}

#[test]
fn two_second_candles_roll_up_into_minutes() {
    let mut chart = ChartData::new("test".to_string(), ChartType::Candlestick, 10);
    let a = chart.add_realtime_candle(at(60_000, 10.0));
    let b = chart.add_realtime_candle(at(62_000, 20.0));
    let c = chart.add_realtime_candle(at(120_000, 5.0));

    // slot 1 is the one-minute series
    assert!(matches!(a.steps[0], BucketStep::Opened { flushed: None, .. }));
    assert!(matches!(b.steps[0], BucketStep::Merged { .. }));
    match c.steps[0] {
        BucketStep::Opened { flushed: Some(prev), .. } => {
            assert_eq!(prev.close, 20.0);
            assert_eq!(prev.high, 21.0);
            assert_eq!(prev.low, 9.0);
            assert_eq!(prev.volume, 4.0);
        }
        _ => panic!("a new minute should close the previous one"),
    }
    let minutes = chart.get_series(TimeInterval::OneMinute).unwrap();
    let stamps: Vec<u64> = minutes.get_candles().iter().map(|c| c.timestamp.value()).collect();
    assert_eq!(stamps, vec![60_000, 120_000]);
    assert_eq!(minutes.get_candles()[0].ohlcv.close, 20.0);
    assert_eq!(a.steps.len(), 7);
    assert!(chart.get_series(TimeInterval::ThirtyMinutes).is_none());
}

#[test]
fn indicators_are_added_and_removed_by_id() {
    let mut chart: ChartData<Bar> = ChartData::new("test".to_string(), ChartType::Line, 10);
    chart.add_indicator(Indicator::new("sma".to_string(), IndicatorType::SimpleMovingAverage));
    chart.add_indicator(Indicator::new("ema".to_string(), IndicatorType::ExponentialMovingAverage));
    chart.add_indicator(Indicator::new("sma".to_string(), IndicatorType::MACD));
    chart.remove_indicator("sma");
    assert_eq!(chart.indicators().len(), 1);
    assert_eq!(chart.indicators()[0].id, "ema");
    assert_eq!(chart.id(), "test");
    assert_eq!(chart.chart_type(), ChartType::Line);
}

#[test]
fn stats_and_update_check_follow_the_data() {
    let mut chart = ChartData::new("test".to_string(), ChartType::Candlestick, 10);
    let service = ChartStateService::new();
    assert!(!service.should_update(&chart));
    let idle = DataStats::idle();
    assert_eq!(idle.total_candles, 0);
    assert!(!idle.has_data);
    assert!(!idle.is_streaming);
    chart.add_candle(candle(1));
    assert!(service.should_update(&chart));
    let stats = DataStats::of_chart(&chart, true);
    assert_eq!(stats.total_candles, 1);
    assert!(stats.has_data);
    assert!(stats.is_streaming);
}

#[test]
fn aggregate_merges_into_the_bucket_start() {
    let candles = vec![at(61_000, 10.0), at(62_000, 30.0), at(63_000, 20.0)];
    let one = Aggregator::aggregate(&candles, TimeInterval::OneMinute).unwrap();
    assert_eq!(one.timestamp.value(), 60_000);
    assert_eq!(one.ohlcv.open, 10.0);
    assert_eq!(one.ohlcv.close, 20.0);
    assert_eq!(one.ohlcv.high, 31.0);
    assert_eq!(one.ohlcv.low, 9.0);
    assert_eq!(one.ohlcv.volume, 6.0);
    assert!(Aggregator::aggregate::<Bar>(&[], TimeInterval::OneMinute).is_none());
}

#[test]
fn ordered_history_loads_back_unchanged() {
    let mut chart = ChartData::new("test".to_string(), ChartType::Candlestick, 10);
    let history: Vec<Candle<Bar>> = (0..10).map(candle).collect();
    chart.set_historical_data(history.clone());
    let loaded = chart.get_series(TimeInterval::TwoSeconds).unwrap().get_candles();
    assert_eq!(loaded.len(), 10);
    for (a, b) in loaded.iter().zip(history.iter()) {
        assert_eq!(a.timestamp, b.timestamp);
        assert_eq!(a.ohlcv, b.ohlcv);
    }
}

#[test]
fn loaded_history_rolls_up_one_candle_per_bucket() {
    let mut chart = ChartData::new("test".to_string(), ChartType::Candlestick, 100);
    let history: Vec<Candle<Bar>> =
        vec![at(58_000, 1.0), at(60_000, 2.0), at(62_000, 3.0), at(118_000, 4.0), at(302_000, 5.0)];
    chart.set_historical_data(history);
    let stamps = |interval| -> Vec<u64> {
        chart.get_series(interval).unwrap().get_candles().iter().map(|c| c.timestamp.value()).collect()
    };
    assert_eq!(stamps(TimeInterval::OneMinute), vec![0, 60_000, 300_000]);
    assert_eq!(stamps(TimeInterval::FiveMinutes), vec![0, 300_000]);
    assert_eq!(stamps(TimeInterval::OneHour), vec![0]);
    let minutes = chart.get_series(TimeInterval::OneMinute).unwrap().get_candles();
    assert_eq!(minutes[1].ohlcv.close, 4.0);
    assert_eq!(minutes[1].ohlcv.volume, 6.0);
}

#[test]
fn base_series_keeps_the_last_candle_of_each_timestamp() {
    let mut chart = ChartData::new("stress".to_string(), ChartType::Candlestick, 3);
    chart.set_base_series(vec![at(0, 1.0), at(2_000, 2.0), at(2_000, 3.0), at(4_000, 4.0), at(6_000, 5.0)]);
    let base = chart.get_series(TimeInterval::TwoSeconds).unwrap().get_candles();
    let stamps: Vec<u64> = base.iter().map(|c| c.timestamp.value()).collect();
    assert_eq!(stamps, vec![2_000, 4_000, 6_000]);
    assert_eq!(base[0].ohlcv.close, 3.0);
}

#[test]
fn a_minute_bucket_rolls_up_its_candles() {
    let mut chart = ChartData::new("test".to_string(), ChartType::Candlestick, 10);
    chart.add_candle(at(120_000, 10.0));
    chart.add_candle(at(122_000, 14.0));
    chart.add_candle(at(124_000, 7.0));
    let minutes = chart.get_series(TimeInterval::OneMinute).unwrap().get_candles();
    assert_eq!(minutes.len(), 1);
    let b = minutes[0].ohlcv;
    assert_eq!(minutes[0].timestamp.value(), 120_000);
    assert_eq!((b.open, b.high, b.low, b.close, b.volume), (10.0, 15.0, 6.0, 7.0, 6.0));
}

#[test]
fn loaded_history_reports_every_candle_and_rolls_up_each_bucket() {
    let mut chart = ChartData::new("test".to_string(), ChartType::Candlestick, 10);
    let reports = chart.set_historical_data(vec![candle(2), candle(0), candle(1)]);

    assert_eq!(reports.len(), 3);
    let stamps: Vec<u64> = reports.iter().map(|r| r.candle.timestamp.value()).collect();
    assert_eq!(stamps, vec![0, 60_000, 120_000]);
    assert!(reports.iter().all(|r| r.base_is_new && !r.base_is_update));
    // one-minute slot: each candle opens its own bucket, closing the one before
    assert!(matches!(reports[0].steps[0], BucketStep::Opened { flushed: None, .. }));
    match reports[1].steps[0] {
        BucketStep::Opened { flushed: Some(prev), .. } => assert_eq!(prev.close, 100.5),
        _ => panic!("expected the first minute to be closed"),
    }
    // five-minute slot: the later candles merge into the first bucket
    assert!(matches!(reports[1].steps[1], BucketStep::Merged { .. }));
    assert!(matches!(reports[2].steps[1], BucketStep::Merged { .. }));

    let five = chart.get_series(TimeInterval::FiveMinutes).unwrap().get_candles();
    assert_eq!(five.len(), 1);
    let b = five[0].ohlcv;
    assert_eq!(five[0].timestamp.value(), 0);
    assert_eq!((b.open, b.high, b.low, b.close, b.volume), (100.0, 103.0, 99.0, 102.5, 3.0));
}

#[test]
fn prepended_history_is_rolled_up_with_the_loaded_candles() {
    let mut chart = ChartData::new("test".to_string(), ChartType::Candlestick, 10);
    chart.set_historical_data(vec![candle(3), candle(4)]);
    let result = chart.prepend_historical_data(vec![candle(1), candle(0)]);

    assert_eq!(result.added, 2);
    assert_eq!(result.reports.len(), 4);
    assert_eq!(result.reports[0].candle.timestamp.value(), 0);
    assert_eq!(result.reports[3].candle.timestamp.value(), 240_000);
    let five = chart.get_series(TimeInterval::FiveMinutes).unwrap().get_candles();
    assert_eq!(five.len(), 1);
    let b = five[0].ohlcv;
    assert_eq!((b.open, b.high, b.low, b.close, b.volume), (100.0, 105.0, 99.0, 104.5, 4.0));
}

#[test]
fn stream_candles_replace_append_or_are_ignored() {
    let mut candles: Vec<Candle<Bar>> = Vec::new();
    assert!(apply_stream_candle(&mut candles, candle(1), 2));
    assert!(apply_stream_candle(&mut candles, at(60_000, 7.0), 2));
    assert_eq!(candles.len(), 1);
    assert_eq!(candles[0].ohlcv.close, 7.0);
    assert!(!apply_stream_candle(&mut candles, candle(0), 2));
    assert_eq!(candles.len(), 1);
    assert!(apply_stream_candle(&mut candles, candle(2), 2));
    assert!(apply_stream_candle(&mut candles, candle(3), 2));
    let stamps: Vec<u64> = candles.iter().map(|c| c.timestamp.value()).collect();
    assert_eq!(stamps, vec![120_000, 180_000]);
}
