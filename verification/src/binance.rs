use vstd::prelude::*;
use vstd::string::*;

use crate::market_data::{Symbol, TimeInterval};
use crate::text::{decimal, decimal_string, lowercase, to_lower, to_upper, uppercase};

verus! {

/// Base address of the Binance REST API.
pub open spec fn spec_base_url() -> Seq<char> {
    "https://api.binance.com/api/v3"@
}

/// A candle request: `endpoint` of the REST API for `symbol` (upper-cased)
/// and `interval`, ending at `end_time`, at most `limit` candles.
pub open spec fn spec_klines_url(
    endpoint: Seq<char>,
    symbol: Seq<char>,
    interval: TimeInterval,
    end_time: u64,
    limit: u32,
) -> Seq<char> {
    spec_base_url() + endpoint + "?symbol="@ + to_upper(symbol) + "&interval="@
        + interval.spec_binance_str() + "&endTime="@ + decimal(end_time as nat) + "&limit="@
        + decimal(limit as nat)
}

/// Simple REST client for the Binance API: builds its request addresses.
pub struct BinanceRestClient {
    symbol: Symbol,
    interval: TimeInterval,
}

impl BinanceRestClient {
    pub closed spec fn spec_symbol(&self) -> Seq<char> {
        self.symbol@
    }

    pub closed spec fn spec_interval(&self) -> TimeInterval {
        self.interval
    }

    pub fn new(symbol: Symbol, interval: TimeInterval) -> (c: Self)
        ensures
            c.spec_symbol() == symbol@,
            c.spec_interval() == interval,
    {
        BinanceRestClient { symbol, interval }
    }

    pub fn symbol(&self) -> (r: &Symbol)
        ensures
            r@ == self.spec_symbol(),
    {
        &self.symbol
    }

    pub fn interval(&self) -> (r: TimeInterval)
        ensures
            r == self.spec_interval(),
    {
        self.interval
    }

    fn base_url(&self) -> (r: String)
        ensures
            r@ == spec_base_url(),
    {
        String::from_str("https://api.binance.com/api/v3")
    }

    fn url_for(&self, endpoint: &str, end_time: u64, limit: u32) -> (r: String)
        ensures
            r@ == spec_klines_url(endpoint@, self.spec_symbol(), self.spec_interval(), end_time, limit),
    {
        let mut url = self.base_url();
        url.append(endpoint);
        url.append("?symbol=");
        let upper = uppercase(self.symbol.value());
        url.append(upper.as_str());
        url.append("&interval=");
        url.append(self.interval.to_binance_str());
        url.append("&endTime=");
        let end_text = decimal_string(end_time);
        url.append(end_text.as_str());
        url.append("&limit=");
        let limit_text = decimal_string(limit as u64);
        url.append(limit_text.as_str());
        url
    }

    /// Address of the `uiKlines` request for candles before `end_time`.
    pub fn ui_klines_url_before(&self, end_time: u64, limit: u32) -> (r: String)
        ensures
            r@ == spec_klines_url("/uiKlines"@, self.spec_symbol(), self.spec_interval(), end_time, limit),
    {
        self.url_for("/uiKlines", end_time, limit)
    }

    /// Address of the `klines` request for candles before `end_time`.
    pub fn klines_url_before(&self, end_time: u64, limit: u32) -> (r: String)
        ensures
            r@ == spec_klines_url("/klines"@, self.spec_symbol(), self.spec_interval(), end_time, limit),
    {
        self.url_for("/klines", end_time, limit)
    }
}

/// Name of the kline stream of `symbol` (lower-cased) and `interval`.
pub open spec fn spec_kline_stream(symbol: Seq<char>, interval: Seq<char>) -> Seq<char> {
    to_lower(symbol) + "@kline_"@ + interval
}

/// A subscription request sent over the Binance WebSocket.
#[derive(Debug)]
pub struct BinanceSubscription {
    pub method: String,
    pub params: Vec<String>,
    pub id: u64,
}

fn kline_stream(symbol: &str, interval: &str) -> (r: String)
    ensures
        r@ == spec_kline_stream(symbol@, interval@),
{
    let mut stream = lowercase(symbol);
    stream.append("@kline_");
    stream.append(interval);
    stream
}

impl BinanceSubscription {
    pub fn kline_subscription(symbol: &str, interval: &str) -> (r: Self)
        ensures
            r.method@ == "SUBSCRIBE"@,
            r.params@.len() == 1,
            r.params@[0]@ == spec_kline_stream(symbol@, interval@),
            r.id == 1,
    {
        let mut params: Vec<String> = Vec::new();
        params.push(kline_stream(symbol, interval));
        BinanceSubscription { method: String::from_str("SUBSCRIBE"), params, id: 1 }
    }

    pub fn unsubscribe(symbol: &str, interval: &str) -> (r: Self)
        ensures
            r.method@ == "UNSUBSCRIBE"@,
            r.params@.len() == 1,
            r.params@[0]@ == spec_kline_stream(symbol@, interval@),
            r.id == 2,
    {
        let mut params: Vec<String> = Vec::new();
        params.push(kline_stream(symbol, interval));
        BinanceSubscription { method: String::from_str("UNSUBSCRIBE"), params, id: 2 }
    }
}

/// Delay in seconds before the first reconnection attempt.
pub const INITIAL_RECONNECT_DELAY_SECS: u64 = 1;

/// Longest delay in seconds between reconnection attempts.
pub const MAX_RECONNECT_DELAY_SECS: u64 = 32;

/// The delay that follows `delay` after another failure: doubled, at most 32 s.
pub open spec fn spec_next_delay(delay: u64) -> u64 {
    if 2 * delay < MAX_RECONNECT_DELAY_SECS {
        (2 * delay) as u64
    } else {
        MAX_RECONNECT_DELAY_SECS
    }
}

/// Reconnection back-off of the kline stream: wait, then double the wait up to
/// 32 s after every failure; start again at 1 s after a successful connection.
pub struct ReconnectBackoff {
    delay: u64,
}

impl ReconnectBackoff {
    pub closed spec fn spec_delay(&self) -> u64 {
        self.delay
    }

    /// The delay stays between 1 s and 32 s.
    pub open spec fn wf(&self) -> bool {
        INITIAL_RECONNECT_DELAY_SECS <= self.spec_delay() <= MAX_RECONNECT_DELAY_SECS
    }

    pub fn new() -> (b: Self)
        ensures
            b.wf(),
            b.spec_delay() == INITIAL_RECONNECT_DELAY_SECS,
    {
        ReconnectBackoff { delay: INITIAL_RECONNECT_DELAY_SECS }
    }

    /// The current delay in seconds.
    pub fn delay(&self) -> (d: u64)
        ensures
            d == self.spec_delay(),
    {
        self.delay
    }

    /// A connection was opened: the next failure waits 1 s again.
    pub fn on_connected(&mut self)
        ensures
            final(self).wf(),
            final(self).spec_delay() == INITIAL_RECONNECT_DELAY_SECS,
    {
        self.delay = INITIAL_RECONNECT_DELAY_SECS;
    }

    /// The connection failed or ended: returns how long to wait before the
    /// next attempt, and doubles the delay up to 32 s.
    pub fn on_failure(&mut self) -> (wait: u64)
        requires
            old(self).wf(),
        ensures
            final(self).wf(),
            wait == old(self).spec_delay(),
            final(self).spec_delay() == spec_next_delay(old(self).spec_delay()),
    {
        let wait = self.delay;
        let doubled = self.delay * 2;
        self.delay = if doubled < MAX_RECONNECT_DELAY_SECS {
            doubled
        } else {
            MAX_RECONNECT_DELAY_SECS
        };
        wait
    }
}

/// After any run of failures from a fresh start, the delay is the smaller of
/// 2^failures seconds and 32 s.
pub open spec fn spec_delay_after(failures: nat) -> u64
    decreases failures,
{
    if failures == 0 {
        INITIAL_RECONNECT_DELAY_SECS
    } else {
        spec_next_delay(spec_delay_after((failures - 1) as nat))
    }
}

/// The back-off delay never leaves [1 s, 32 s] and reaches 32 s after five
/// failures in a row, staying there.
pub proof fn law_backoff_bounded(failures: nat)
    ensures
        INITIAL_RECONNECT_DELAY_SECS <= spec_delay_after(failures) <= MAX_RECONNECT_DELAY_SECS,
        failures >= 5 ==> spec_delay_after(failures) == MAX_RECONNECT_DELAY_SECS,
    decreases failures,
{
    if failures > 0 {
        law_backoff_bounded((failures - 1) as nat);
        if failures == 5 {
            reveal_with_fuel(spec_delay_after, 6);
        }
    }
}

/// Address of the Binance WebSocket stream endpoint.
pub open spec fn spec_stream_base() -> Seq<char> {
    "wss://stream.binance.com:9443/ws/"@
}

/// A candle page of the public API: the latest `limit` candles of `symbol`
/// (upper-cased) and `interval`, ending at `end_time` where one is given.
pub open spec fn spec_recent_klines_url(
    symbol: Seq<char>,
    interval: TimeInterval,
    end_time: Option<u64>,
    limit: u32,
) -> Seq<char> {
    let head = "https://api.binance.com/api/v3/klines?symbol="@ + to_upper(symbol)
        + "&interval="@ + interval.spec_binance_str();
    match end_time {
        Some(t) => head + "&endTime="@ + decimal(t as nat) + "&limit="@ + decimal(limit as nat),
        None => head + "&limit="@ + decimal(limit as nat),
    }
}

/// WebSocket client of the Binance kline stream: the symbol and interval it
/// follows, and the addresses it connects to and loads history from.
pub struct BinanceWebSocketClient {
    symbol: Symbol,
    interval: TimeInterval,
}

impl BinanceWebSocketClient {
    pub closed spec fn spec_symbol(&self) -> Seq<char> {
        self.symbol@
    }

    pub closed spec fn spec_interval(&self) -> TimeInterval {
        self.interval
    }

    pub fn new(symbol: Symbol, interval: TimeInterval) -> (c: Self)
        ensures
            c.spec_symbol() == symbol@,
            c.spec_interval() == interval,
    {
        BinanceWebSocketClient { symbol, interval }
    }

    pub fn symbol(&self) -> (r: &Symbol)
        ensures
            r@ == self.spec_symbol(),
    {
        &self.symbol
    }

    pub fn interval(&self) -> (r: TimeInterval)
        ensures
            r == self.spec_interval(),
    {
        self.interval
    }

    /// Name of the followed stream: `<symbol lower-cased>@kline_<interval>`.
    pub fn stream_name(&self) -> (r: String)
        ensures
            r@ == spec_kline_stream(self.spec_symbol(), self.spec_interval().spec_binance_str()),
    {
        kline_stream(self.symbol.value(), self.interval.to_binance_str())
    }

    /// Address the client connects to: the stream endpoint followed by the
    /// stream name.
    pub fn stream_url(&self) -> (r: String)
        ensures
            r@ == spec_stream_base() + spec_kline_stream(
                self.spec_symbol(),
                self.spec_interval().spec_binance_str(),
            ),
    {
        let mut url = String::from_str("wss://stream.binance.com:9443/ws/");
        let name = self.stream_name();
        url.append(name.as_str());
        url
    }

    fn klines_url(&self, end_time: Option<u64>, limit: u32) -> (r: String)
        ensures
            r@ == spec_recent_klines_url(self.spec_symbol(), self.spec_interval(), end_time, limit),
    {
        let mut url = String::from_str("https://api.binance.com/api/v3/klines?symbol=");
        let upper = uppercase(self.symbol.value());
        url.append(upper.as_str());
        url.append("&interval=");
        url.append(self.interval.to_binance_str());
        match end_time {
            Some(t) => {
                url.append("&endTime=");
                let text = decimal_string(t);
                url.append(text.as_str());
            },
            None => {},
        }
        url.append("&limit=");
        let text = decimal_string(limit as u64);
        url.append(text.as_str());
        url
    }

    /// Address of the request for the latest `limit` candles.
    pub fn historical_data_url(&self, limit: u32) -> (r: String)
        ensures
            r@ == spec_recent_klines_url(self.spec_symbol(), self.spec_interval(), None, limit),
    {
        self.klines_url(None, limit)
    }

    /// Address of the request for `limit` candles ending at `end_time`.
    pub fn historical_data_before_url(&self, end_time: u64, limit: u32) -> (r: String)
        ensures
            r@ == spec_recent_klines_url(
                self.spec_symbol(),
                self.spec_interval(),
                Some(end_time),
                limit,
            ),
    {
        self.klines_url(Some(end_time), limit)
    }
}

} // verus!
