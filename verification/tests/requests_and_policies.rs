use std::collections::HashMap;

use webgpu_candles::binance::BinanceWebSocketClient;
use webgpu_candles::events::{DomainEvent, MarketDataEvent};
use webgpu_candles::http::{endpoint_url, BinanceHttpClient, HttpUtils};
use webgpu_candles::klines::{kline_rows, KlineCell, KlineError, KlineResponse, KlineRow};
use webgpu_candles::market_data::{Symbol, TimeInterval};
use webgpu_candles::render_policy::{geometry_needs_update, RenderBackend, RenderChartUseCase};
use webgpu_candles::services::LineVisibility;

#[test]
fn test_url_building() {
    let mut params = HashMap::new();
    params.insert("symbol".to_string(), "BTCUSDT".to_string());
    params.insert("interval".to_string(), "1m".to_string());

    let url = HttpUtils::build_url_with_params("https://api.example.com/data", &params);
    assert!(url.contains("symbol=BTCUSDT"));
    assert!(url.contains("interval=1m"));
}

#[test]
fn test_url_encoding() {
    assert_eq!(HttpUtils::url_encode("hello world"), "hello%20world");
    assert_eq!(HttpUtils::url_encode("a&b=c"), "a%26b%3Dc");
}

#[test]
fn url_helpers_handle_edges() {
    assert_eq!(HttpUtils::url_encode("q?x#y"), "q%3Fx%23y");
    assert_eq!(HttpUtils::url_encode(""), "");
    let empty: HashMap<String, String> = HashMap::new();
    assert_eq!(HttpUtils::build_url_with_params("https://h/p", &empty), "https://h/p");
    let pairs = vec![("a".to_string(), "1".to_string()), ("b".to_string(), "2".to_string())];
    assert_eq!(HttpUtils::build_url_from_pairs("https://h/p", &pairs), "https://h/p?a=1&b=2");
    assert!(HttpUtils::is_success_status(200));
    assert!(HttpUtils::is_success_status(299));
    assert!(!HttpUtils::is_success_status(300));
    assert!(!HttpUtils::is_success_status(199));
}

#[test]
fn endpoint_joins_with_one_slash() {
    assert_eq!(endpoint_url("https://h/", "/api/x"), "https://h/api/x");
    assert_eq!(endpoint_url("https://h", "api/x"), "https://h/api/x");
    assert_eq!(endpoint_url("https://h//", "//x"), "https://h/x");
    assert_eq!(endpoint_url("https://h", "http://other/x"), "http://other/x");
}

#[test]
fn historical_klines_url_caps_the_limit() {
    let client = BinanceHttpClient::new();
    let url = client.historical_klines_url(
        &Symbol::from("btcusdt"),
        TimeInterval::OneHour,
        Some(5000),
        Some(10),
        Some(20),
    );
    assert_eq!(
        url,
        "https://api.binance.com/api/v3/klines?symbol=BTCUSDT&interval=1h&limit=1000&startTime=10&endTime=20"
    );
    let test = BinanceHttpClient::with_testnet();
    let url = test.historical_klines_url(&Symbol::from("ETHUSDT"), TimeInterval::OneMonth, None, None, None);
    assert_eq!(url, "https://testnet.binance.vision/api/v3/klines?symbol=ETHUSDT&interval=1M");
}

#[test]
fn websocket_client_addresses() {
    let client = BinanceWebSocketClient::new(Symbol::from("BTCUSDT"), TimeInterval::FiveMinutes);
    assert_eq!(client.stream_name(), "btcusdt@kline_5m");
    assert_eq!(client.stream_url(), "wss://stream.binance.com:9443/ws/btcusdt@kline_5m");
    assert_eq!(
        client.historical_data_url(500),
        "https://api.binance.com/api/v3/klines?symbol=BTCUSDT&interval=5m&limit=500"
    );
    assert_eq!(
        client.historical_data_before_url(777, 1000),
        "https://api.binance.com/api/v3/klines?symbol=BTCUSDT&interval=5m&endTime=777&limit=1000"
    );
    assert_eq!(client.interval(), TimeInterval::FiveMinutes);
    assert_eq!(client.symbol().value(), "BTCUSDT");
}

fn good_row() -> KlineRow {
    let mut cells = vec![KlineCell::Integer(60_000)];
    for _ in 0..5 {
        cells.push(KlineCell::Text { number: true });
    }
    for _ in 0..6 {
        cells.push(KlineCell::Other);
    }
    KlineRow::Cells(cells)
}

fn row_with(field: usize, cell: KlineCell) -> KlineRow {
    match good_row() {
        KlineRow::Cells(mut cells) => {
            cells[field] = cell;
            KlineRow::Cells(cells)
        }
        other => other,
    }
}

#[test]
fn kline_rows_keep_complete_rows_and_skip_short_ones() {
    let short = KlineRow::Cells(vec![KlineCell::Integer(1); 11]);
    let response = KlineResponse::Rows(vec![good_row(), short, good_row()]);
    assert_eq!(kline_rows(&response), Ok(vec![0, 2]));
    assert_eq!(kline_rows(&KlineResponse::Rows(vec![])), Ok(vec![]));
}

#[test]
fn kline_rows_report_the_first_problem() {
    assert_eq!(kline_rows(&KlineResponse::NotArray), Err(KlineError::ResponseNotArray));
    let r = KlineResponse::Rows(vec![good_row(), KlineRow::NotArray]);
    assert_eq!(kline_rows(&r), Err(KlineError::RowNotArray));
    let r = KlineResponse::Rows(vec![row_with(0, KlineCell::Text { number: true })]);
    assert_eq!(kline_rows(&r), Err(KlineError::InvalidTimestamp));
    let r = KlineResponse::Rows(vec![row_with(2, KlineCell::Other)]);
    assert_eq!(kline_rows(&r), Err(KlineError::InvalidField(2)));
    let r = KlineResponse::Rows(vec![
        row_with(1, KlineCell::Text { number: false }),
        KlineRow::NotArray,
    ]);
    assert_eq!(kline_rows(&r), Err(KlineError::UnparsableField(1)));
    assert_eq!(KlineError::UnparsableField(1).message(), "Failed to parse open price");
    assert_eq!(KlineError::InvalidField(5).message(), "Invalid volume");
    assert_eq!(KlineError::ResponseNotArray.message(), "Response is not an array");
}

#[test]
fn renderer_choice_follows_support_and_size() {
    let none: RenderChartUseCase<&str, &str> = RenderChartUseCase::new();
    assert_eq!(none.choose_backend(10), RenderBackend::Unavailable);

    let mut adaptive = RenderChartUseCase::with_adaptive_renderers("canvas", true, Some("gpu"));
    assert_eq!(adaptive.choose_backend(499), RenderBackend::Canvas);
    assert_eq!(adaptive.choose_backend(500), RenderBackend::WebGpu);
    adaptive.force_canvas();
    assert_eq!(adaptive.choose_backend(1_000_000), RenderBackend::Canvas);
    adaptive.force_webgpu();
    assert_eq!(adaptive.choose_backend(0), RenderBackend::WebGpu);

    let failed = RenderChartUseCase::<&str, &str>::with_adaptive_renderers("canvas", true, None);
    assert_eq!(failed.choose_backend(10_000), RenderBackend::Canvas);
    assert_eq!(
        failed.get_renderer_info(),
        "{\"canvas_2d\":true,\"webgpu\":false,\"webgpu_supported\":false,\"threshold\":500,\"adaptive\":true}"
    );
}

#[test]
fn market_data_events_are_named_by_kind() {
    let e: MarketDataEvent<()> = MarketDataEvent::HistoricalDataLoaded {
        symbol: Symbol::from("BTCUSDT"),
        interval: TimeInterval::OneMinute,
        candle_count: 3,
    };
    assert_eq!(e.event_type(), "HistoricalDataLoaded");
    let lost: MarketDataEvent<()> = MarketDataEvent::MarketDataConnectionLost {
        symbol: Symbol::from("BTCUSDT"),
        reason: "closed".to_string(),
    };
    assert_eq!(lost.event_type(), "MarketDataConnectionLost");
}

#[test]
fn geometry_is_rebuilt_only_on_change() {
    let v = LineVisibility::default();
    assert!(!geometry_needs_update(10, 10, false, 3, 3, v, v));
    assert!(geometry_needs_update(11, 10, false, 3, 3, v, v));
    assert!(geometry_needs_update(10, 10, true, 3, 3, v, v));
    assert!(geometry_needs_update(10, 10, false, 4, 3, v, v));
    let mut w = v;
    w.toggle("ema12");
    assert!(geometry_needs_update(10, 10, false, 3, 3, w, v));
}

#[test]
fn every_parameter_reaches_the_query() {
    let mut params = HashMap::new();
    params.insert("symbol".to_string(), "BTCUSDT".to_string());
    params.insert("interval".to_string(), "1m".to_string());
    let url = HttpUtils::build_url_with_params("https://api.example.com/data", &params);
    assert!(
        url == "https://api.example.com/data?symbol=BTCUSDT&interval=1m"
            || url == "https://api.example.com/data?interval=1m&symbol=BTCUSDT"
    );
}
