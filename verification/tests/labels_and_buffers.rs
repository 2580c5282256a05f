use webgpu_candles::buffers::{DoubleBuffer, RecentLog, RENDER_TIME_LOG_CAPACITY};
use webgpu_candles::gpu::IndicatorType;
use webgpu_candles::time_labels::{
    label_kind_for_span, label_text, time_label_candles, utc_text, visible_span_ms,
    TimeLabelKind, UtcDateParts,
};
use webgpu_candles::market_data::Timestamp;
use webgpu_candles::series::Candle;
use std::collections::VecDeque;

fn epoch() -> UtcDateParts {
    UtcDateParts { year: 1970, month: 1, day: 1, hours: 0, minutes: 0 }
}

#[test]
fn visible_span_selects_intraday_labels() {
    let kind = label_kind_for_span(60 * 60 * 1000);
    assert_eq!(kind, TimeLabelKind::HourMinute);
    assert_eq!(label_text(kind, &epoch()), "00:00");
    assert_eq!(utc_text(&epoch()), "1970-01-01 00:00 UTC");
}

#[test]
fn label_kind_follows_the_span_thresholds() {
    let day = 24 * 60 * 60 * 1000u64;
    assert_eq!(label_kind_for_span(2 * day), TimeLabelKind::HourMinute);
    assert_eq!(label_kind_for_span(2 * day + 1), TimeLabelKind::DayMonth);
    assert_eq!(label_kind_for_span(120 * day), TimeLabelKind::DayMonth);
    assert_eq!(label_kind_for_span(120 * day + 1), TimeLabelKind::MonthYear);
}

#[test]
fn labels_are_zero_padded() {
    let p = UtcDateParts { year: 2024, month: 3, day: 7, hours: 9, minutes: 5 };
    assert_eq!(label_text(TimeLabelKind::HourMinute, &p), "09:05");
    assert_eq!(label_text(TimeLabelKind::DayMonth, &p), "07.03");
    assert_eq!(label_text(TimeLabelKind::MonthYear, &p), "03.2024");
    assert_eq!(utc_text(&p), "2024-03-07 09:05 UTC");
    let q = UtcDateParts { year: 999, month: 12, day: 31, hours: 23, minutes: 59 };
    assert_eq!(utc_text(&q), "0999-12-31 23:59 UTC");
}

#[test]
fn five_labels_spread_over_the_window() {
    assert_eq!(time_label_candles(100, 10, 8), vec![(0, 10), (1, 12), (2, 14), (3, 16), (4, 17)]);
    // labels past the end of the series are left out
    assert_eq!(time_label_candles(13, 10, 8), vec![(0, 10), (1, 12)]);
    assert_eq!(time_label_candles(100, 100, 8), Vec::<(usize, usize)>::new());
    assert_eq!(time_label_candles(5, 0, 0), vec![(0, 0), (1, 0), (2, 0), (3, 0), (4, 0)]);
}

#[test]
fn visible_span_is_first_to_last_shown_candle() {
    let candles: VecDeque<Candle<()>> =
        (0..10u64).map(|i| Candle::new(Timestamp::from(i * 1000), ())).collect();
    assert_eq!(visible_span_ms(&candles, 2, 3), 2000);
    assert_eq!(visible_span_ms(&candles, 8, 10), 1000);
    assert_eq!(visible_span_ms(&candles, 10, 3), 0);
    assert_eq!(visible_span_ms(&candles, 4, 0), 0);
}

#[test]
fn render_time_ring_buffer() {
    let mut log: RecentLog<f64> = RecentLog::render_times();
    for i in 0..65 {
        log.push(i as f64);
    }
    assert_eq!(log.len(), RENDER_TIME_LOG_CAPACITY);
    assert_eq!(log.len(), 60);
    assert_eq!(log.oldest().copied(), Some(5.0));
    assert_eq!(log.entries().back().copied(), Some(64.0));
}

#[test]
fn recent_log_starts_empty() {
    let log: RecentLog<u32> = RecentLog::new(3);
    assert!(log.is_empty());
    assert_eq!(log.oldest(), None);
}

#[test]
fn prepared_buffer_is_drawn_after_swap() {
    let mut buffers = DoubleBuffer::new(10_000);
    assert_eq!(buffers.current_buffer(), 0);
    assert_eq!(buffers.draw_count(), 0);
    assert!(buffers.commit_next(420));
    let info = buffers.info();
    assert_eq!(info.vertex_counts, [0, 420]);
    assert!(info.swap_ready);
    assert!(buffers.swap());
    assert_eq!(buffers.current_buffer(), 1);
    assert_eq!(buffers.next_buffer(), 0);
    assert_eq!(buffers.draw_count(), 420);
    assert!(!buffers.swap());
    assert_eq!(buffers.current_buffer(), 1);
}

#[test]
fn overflowing_geometry_is_truncated_and_not_swapped() {
    let mut buffers = DoubleBuffer::new(100);
    assert!(!buffers.commit_next(150));
    let info = buffers.info();
    assert_eq!(info.vertex_counts, [0, 100]);
    assert!(!info.swap_ready);
    assert_eq!(info.total_capacity, 100);
    assert!(!buffers.swap());
    assert!(!buffers.commit_current(101));
    assert_eq!(buffers.draw_count(), 100);
    assert!(buffers.commit_current(7));
    assert_eq!(buffers.draw_count(), 7);
}

#[test]
fn indicator_lines_have_their_palette_slots() {
    assert_eq!(IndicatorType::SMA20.color_code(), 2);
    assert_eq!(IndicatorType::EMA26.color_code(), 6);
    assert_eq!(IndicatorType::Tenkan.color_code(), 10);
    assert_eq!(IndicatorType::Chikou.color_code(), 14);
}
