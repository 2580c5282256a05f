use webgpu_candles::binance::{BinanceRestClient, BinanceSubscription, ReconnectBackoff};
use webgpu_candles::market_data::{Symbol, TimeInterval};

#[test]
fn test_ui_klines_url_before() {
    let client = BinanceRestClient::new(Symbol::from("BTCUSDT"), TimeInterval::OneMinute);
    let url = client.ui_klines_url_before(12345, 1000);
    assert_eq!(
        url,
        "https://api.binance.com/api/v3/uiKlines?symbol=BTCUSDT&interval=1m&endTime=12345&limit=1000"
    );
}

#[test]
fn klines_url_uppercases_symbol_and_names_interval() {
    let client = BinanceRestClient::new(Symbol::from("ethusdt"), TimeInterval::FifteenMinutes);
    let url = client.klines_url_before(0, 7);
    assert_eq!(
        url,
        "https://api.binance.com/api/v3/klines?symbol=ETHUSDT&interval=15m&endTime=0&limit=7"
    );
}

#[test]
fn kline_subscription_uses_lowercase_stream_name() {
    let sub = BinanceSubscription::kline_subscription("BTCUSDT", "1m");
    assert_eq!(sub.method, "SUBSCRIBE");
    assert_eq!(sub.params, vec!["btcusdt@kline_1m".to_string()]);
    assert_eq!(sub.id, 1);
    let unsub = BinanceSubscription::unsubscribe("SolUsdt", "5m");
    assert_eq!(unsub.method, "UNSUBSCRIBE");
    assert_eq!(unsub.params, vec!["solusdt@kline_5m".to_string()]);
    assert_eq!(unsub.id, 2);
}

#[test]
fn reconnect_delay_doubles_up_to_thirty_two_seconds() {
    let mut backoff = ReconnectBackoff::new();
    let waits: Vec<u64> = (0..8).map(|_| backoff.on_failure()).collect();
    assert_eq!(waits, vec![1, 2, 4, 8, 16, 32, 32, 32]);
    backoff.on_connected();
    assert_eq!(backoff.delay(), 1);
}
