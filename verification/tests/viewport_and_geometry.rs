use std::collections::VecDeque;

use webgpu_candles::chart::CandlePayload;
use webgpu_candles::geometry::{build_render_candles, lod_candle_count, visible_range_by_time};
use webgpu_candles::market_data::Timestamp;
use webgpu_candles::series::Candle;
use webgpu_candles::viewport::{
    clamp_window, history_end_time, latest_window, should_auto_scroll, should_fetch_history,
    view_window, window_start, DEFAULT_VISIBLE_CANDLES, HISTORY_PRELOAD_THRESHOLD,
};

#[derive(Debug, Clone, Copy, PartialEq)]
struct Bar {
    open: f64,
    high: f64,
    low: f64,
    close: f64,
    volume: f64,
}

impl CandlePayload for Bar {
    fn bucket_seed(&self) -> Self {
        *self
    }

    fn merge(&self, incoming: &Self) -> Self {
        Bar {
            open: self.open,
            high: if incoming.high > self.high { incoming.high } else { self.high },
            low: if incoming.low < self.low { incoming.low } else { self.low },
            close: incoming.close,
            volume: self.volume + incoming.volume,
        }
    }
}

fn make_candle(i: u64) -> Candle<Bar> {
    let base = 100.0 + (i % 10) as f64;
    Candle::new(
        Timestamp::from(i * 60_000),
        Bar { open: base, high: base + 1.0, low: base - 1.0, close: base + 0.5, volume: 10.0 },
    )
}

fn series(n: u64) -> VecDeque<Candle<Bar>> {
    (0..n).map(make_candle).collect()
}

#[test]
fn lod_caps_geometry_and_preserves_bucket_extremes() {
    let mut candles = series(10_000);
    candles[4_999].ohlcv.high = 50_000.0;
    candles[5_000].ohlcv.low = 1.0;

    let rendered = build_render_candles(&candles, 0, candles.len(), 1600);

    assert_eq!(rendered.len(), 800);
    assert_eq!(rendered.first().unwrap().candle.ohlcv.open, candles[0].ohlcv.open);
    assert_eq!(rendered.last().unwrap().candle.ohlcv.close, candles[9_999].ohlcv.close);
    assert!(rendered.iter().any(|item| item.candle.ohlcv.high == 50_000.0));
    assert!(rendered.iter().any(|item| item.candle.ohlcv.low == 1.0));
}

#[test]
fn lod_budget_is_one_candle_per_two_pixels_within_limits() {
    assert_eq!(lod_candle_count(10_000, 1600), 800);
    assert_eq!(lod_candle_count(10_000, 100), 128);
    assert_eq!(lod_candle_count(1_000_000, 20_000), 4096);
    assert_eq!(lod_candle_count(50, 1600), 50);
    assert_eq!(lod_candle_count(0, 1600), 0);
}

#[test]
fn small_windows_render_every_candle() {
    let candles = series(100);
    let rendered = build_render_candles(&candles, 10, 20, 1600);
    assert_eq!(rendered.len(), 20);
    assert_eq!(rendered[0].candle.timestamp, candles[10].timestamp);
    assert_eq!(rendered[0].candle.ohlcv, candles[10].ohlcv);
    assert_eq!(rendered[19].source_index, 29);
}

#[test]
fn visible_range_by_time_starts_at_first_candle_not_older() {
    let candles = series(100);
    assert_eq!(visible_range_by_time(&candles, 30 * 60_000 + 1, 10), (31, 10));
    assert_eq!(visible_range_by_time(&candles, 99 * 60_000, 10), (90, 10));
    assert_eq!(visible_range_by_time(&VecDeque::<Candle<Bar>>::new(), 0, 10), (0, 0));
}

#[test]
fn history_is_fetched_near_the_left_edge() {
    assert_eq!(HISTORY_PRELOAD_THRESHOLD, 200);
    assert!(should_fetch_history(0));
    assert!(should_fetch_history(199));
    assert!(!should_fetch_history(200));
    assert_eq!(history_end_time(Some(60_000)), Some(59_999));
    assert_eq!(history_end_time(Some(0)), None);
    assert_eq!(history_end_time(None), None);
}

#[test]
fn window_start_stays_inside_the_series() {
    assert_eq!(window_start(1000, 32, 0), 968);
    assert_eq!(window_start(1000, 32, -100), 868);
    assert_eq!(window_start(1000, 32, 50), 968);
    assert_eq!(window_start(1000, 32, -5000), 0);
    assert_eq!(window_start(10, 10, -3), 0);
    assert_eq!(window_start(0, 0, 7), 0);
}

#[test]
fn auto_scroll_only_at_the_live_edge() {
    assert!(should_auto_scroll(1000, 32, 0));
    assert!(should_auto_scroll(1000, 32, 12));
    assert!(!should_auto_scroll(1000, 32, -1));
    assert!(should_auto_scroll(10, 10, -4));
}

#[test]
fn view_window_counts_candles_between_the_view_times() {
    let candles = series(100);
    // candles 40..=49 are in view, the newest window of ten starts at 90
    assert_eq!(view_window(&candles, 40 * 60_000, 49 * 60_000), Some((10, -50)));
    // a view of a single instant shows one candle
    assert_eq!(view_window(&candles, 0, 0), Some((1, -99)));
    assert_eq!(view_window(&candles, 200 * 60_000, 300 * 60_000), Some((1, 1)));
    assert_eq!(view_window(&VecDeque::<Candle<Bar>>::new(), 0, 1), None);
}

#[test]
fn clamp_window_gives_start_and_time_bounds() {
    let candles = series(100);
    assert_eq!(clamp_window(&candles, 10, 5), (10, 10 * 60_000, 14 * 60_000));
    assert_eq!(clamp_window(&candles, -4, 5), (0, 0, 4 * 60_000));
    assert_eq!(clamp_window(&candles, 99, 5), (95, 95 * 60_000, 99 * 60_000));
}

#[test]
fn reset_shows_the_newest_candles() {
    let candles = series(200);
    assert_eq!(
        latest_window(&candles, DEFAULT_VISIBLE_CANDLES),
        Some((104, 104 * 60_000, 199 * 60_000))
    );
    let few = series(5);
    assert_eq!(latest_window(&few, DEFAULT_VISIBLE_CANDLES), Some((0, 0, 4 * 60_000)));
    assert_eq!(latest_window(&VecDeque::<Candle<Bar>>::new(), 96), None);
}

#[test]
fn view_window_positions_back_to_the_first_candle_in_view() {
    let candles = series(100);
    let (visible, offset) = view_window(&candles, 40 * 60_000, 49 * 60_000).unwrap();
    assert_eq!(window_start(candles.len(), visible, offset as i64), 40);
    let (visible, offset) = view_window(&candles, 95 * 60_000, 200 * 60_000).unwrap();
    assert_eq!((visible, offset), (5, 0));
    assert_eq!(window_start(candles.len(), visible, offset as i64), 95);
}
