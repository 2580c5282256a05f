use vstd::prelude::*;
use vstd::string::*;

use crate::chart::{is_rollup, lemma_rollup_start, lemma_rollup_step, payloads, rolled_up, CandlePayload, ChartData};
use crate::market_data::{TimeInterval, Timestamp};
use crate::series::Candle;

verus! {

/// Application errors.
#[derive(Debug, Clone)]
pub enum AppError {
    NetworkError(String),
    RenderingError(String),
    ValidationError(String),
}

impl AppError {
    /// The error as shown to the user, such as `Network Error: timeout`.
    pub open spec fn spec_message(&self) -> Seq<char> {
        match self {
            AppError::NetworkError(msg) => "Network Error: "@ + msg@,
            AppError::RenderingError(msg) => "Rendering Error: "@ + msg@,
            AppError::ValidationError(msg) => "Validation Error: "@ + msg@,
        }
    }

    pub fn message(&self) -> (r: String)
        ensures
            r@ == self.spec_message(),
    {
        let (prefix, msg) = match self {
            AppError::NetworkError(msg) => ("Network Error: ", msg),
            AppError::RenderingError(msg) => ("Rendering Error: ", msg),
            AppError::ValidationError(msg) => ("Validation Error: ", msg),
        };
        let mut r = String::from_str(prefix);
        r.append(msg.as_str());
        r
    }
}

/// Errors of market data repositories.
#[derive(Debug, Clone)]
pub enum RepositoryError {
    NetworkError(String),
    ParseError(String),
    ValidationError(String),
    ConnectionError(String),
}

/// Statistics of the loaded data.
#[derive(Debug, Clone, Copy, PartialEq, Eq, Structural)]
pub struct DataStats {
    pub total_candles: usize,
    pub has_data: bool,
    pub is_streaming: bool,
}

impl DataStats {
    /// Statistics of a chart, streaming or not.
    pub fn of_chart<P: CandlePayload>(chart: &ChartData<P>, is_streaming: bool) -> (s: Self)
        requires
            chart.wf(),
        ensures
            s.total_candles == chart.base().len(),
            s.has_data == (chart.base().len() > 0),
            s.is_streaming == is_streaming,
    {
        DataStats {
            total_candles: chart.get_candle_count(),
            has_data: chart.has_data(),
            is_streaming,
        }
    }

    /// Statistics when no data stream runs.
    pub fn idle() -> (s: Self)
        ensures
            s.total_candles == 0,
            !s.has_data,
            !s.is_streaming,
    {
        DataStats { total_candles: 0, has_data: false, is_streaming: false }
    }
}

/// Domain service preparing charts for rendering.
#[derive(Debug, Clone, Copy)]
pub struct ChartRenderingService;

impl ChartRenderingService {
    pub fn new() -> (s: Self) {
        ChartRenderingService
    }
}

/// Domain service managing chart state.
#[derive(Debug, Clone, Copy)]
pub struct ChartStateService;

impl ChartStateService {
    pub fn new() -> (s: Self) {
        ChartStateService
    }

    /// A chart is redrawn when it holds data.
    pub fn should_update<P: CandlePayload>(&self, chart: &ChartData<P>) -> (b: bool)
        requires
            chart.wf(),
        ensures
            b == (chart.base().len() > 0),
    {
        chart.has_data()
    }
}

/// Domain service for market analysis.
#[derive(Debug, Clone, Copy)]
pub struct MarketAnalysisService;

impl MarketAnalysisService {
    pub fn new() -> (s: Self) {
        MarketAnalysisService
    }
}

/// The presentation layer.
#[derive(Debug, Clone, Copy)]
pub struct PresentationLayer;

impl PresentationLayer {
    pub fn new() -> (p: Self) {
        PresentationLayer
    }
}

/// Options of a window event listener.
#[derive(Clone, Copy, Debug, PartialEq, Eq, Structural)]
pub struct EventOptions {
    pub passive: bool,
    pub capture: bool,
    pub once: bool,
}

impl Default for EventOptions {
    /// Passive, bubbling, repeated.
    fn default() -> (o: Self)
        ensures
            o.passive,
            !o.capture,
            !o.once,
    {
        EventOptions { passive: true, capture: false, once: false }
    }
}

/// Service combining candles into one.
#[derive(Debug, Clone, Copy)]
pub struct Aggregator;

impl Aggregator {
    /// Combine candles into one candle of `interval`: stamped with the start
    /// of the bucket of the first candle; its payload is the first candle's
    /// bucket seed merged with the others in order. `None` for no candles.
    pub fn aggregate<P: CandlePayload>(candles: &[Candle<P>], interval: TimeInterval) -> (r: Option<Candle<P>>)
        ensures
            r is None <==> candles@.len() == 0,
            r matches Some(c) ==> c.timestamp.0 == interval.spec_bucket_start(candles@[0].timestamp.0),
            r matches Some(c) ==> rolled_up(payloads(candles@), c.ohlcv),
    {
        let n = candles.len();
        if n == 0 {
            return None;
        }
        let ghost ps = payloads(candles@);
        let first = candles[0];
        let mut ohlcv = first.ohlcv.bucket_seed();
        let ghost mut acc: Seq<P> = seq![ohlcv];
        proof {
            assert(ps[0] == first.ohlcv);
            lemma_rollup_start(ps, ohlcv);
        }
        let mut i: usize = 1;
        while i < n
            invariant
                1 <= i <= n,
                n == candles@.len(),
                ps == payloads(candles@),
                is_rollup(ps.take(i as int), acc),
                acc.len() == i,
                acc.last() == ohlcv,
            decreases n - i,
        {
            ohlcv = ohlcv.merge(&candles[i].ohlcv);
            proof {
                assert(ps[i as int] == candles@[i as int].ohlcv);
                lemma_rollup_step(ps, acc, i as int, ohlcv);
                acc = acc.push(ohlcv);
            }
            i += 1;
        }
        proof {
            assert(ps.take(n as int) =~= ps);
            assert(is_rollup(ps, acc));
        }
        let start = interval.bucket_start(first.timestamp.0);
        Some(Candle { timestamp: Timestamp(start), ohlcv })
    }
}

/// Visibility of the indicator lines.
#[derive(Debug, Clone, Copy, PartialEq, Eq, Structural)]
pub struct LineVisibility {
    pub sma_20: bool,
    pub sma_50: bool,
    pub sma_200: bool,
    pub ema_12: bool,
    pub ema_26: bool,
}

impl Default for LineVisibility {
    /// Every line visible.
    fn default() -> (v: Self)
        ensures
            v.sma_20 && v.sma_50 && v.sma_200 && v.ema_12 && v.ema_26,
    {
        LineVisibility { sma_20: true, sma_50: true, sma_200: true, ema_12: true, ema_26: true }
    }
}

/// Visibility after toggling the line called `name` (`sma20`, `sma50`,
/// `sma200`, `ema12` or `ema26`); any other name changes nothing.
pub open spec fn spec_toggled(v: LineVisibility, name: Seq<char>) -> LineVisibility {
    if name == "sma20"@ {
        LineVisibility { sma_20: !v.sma_20, ..v }
    } else if name == "sma50"@ {
        LineVisibility { sma_50: !v.sma_50, ..v }
    } else if name == "sma200"@ {
        LineVisibility { sma_200: !v.sma_200, ..v }
    } else if name == "ema12"@ {
        LineVisibility { ema_12: !v.ema_12, ..v }
    } else if name == "ema26"@ {
        LineVisibility { ema_26: !v.ema_26, ..v }
    } else {
        v
    }
}

/// The new state of the line called `name`, if there is such a line.
pub open spec fn spec_toggle_result(v: LineVisibility, name: Seq<char>) -> Option<bool> {
    let t = spec_toggled(v, name);
    if name == "sma20"@ {
        Some(t.sma_20)
    } else if name == "sma50"@ {
        Some(t.sma_50)
    } else if name == "sma200"@ {
        Some(t.sma_200)
    } else if name == "ema12"@ {
        Some(t.ema_12)
    } else if name == "ema26"@ {
        Some(t.ema_26)
    } else {
        None
    }
}

fn same_text(a: &str, b: &str) -> (r: bool)
    ensures
        r == (a@ == b@),
{
    String::from_str(a) == String::from_str(b)
}

impl LineVisibility {
    /// Toggle the line called `line_name`; returns its new state, or `None`
    /// when no line has that name.
    pub fn toggle(&mut self, line_name: &str) -> (r: Option<bool>)
        ensures
            *final(self) == spec_toggled(*old(self), line_name@),
            r == spec_toggle_result(*old(self), line_name@),
    {
        if same_text(line_name, "sma20") {
            self.sma_20 = !self.sma_20;
            Some(self.sma_20)
        } else if same_text(line_name, "sma50") {
            self.sma_50 = !self.sma_50;
            Some(self.sma_50)
        } else if same_text(line_name, "sma200") {
            self.sma_200 = !self.sma_200;
            Some(self.sma_200)
        } else if same_text(line_name, "ema12") {
            self.ema_12 = !self.ema_12;
            Some(self.ema_12)
        } else if same_text(line_name, "ema26") {
            self.ema_26 = !self.ema_26;
            Some(self.ema_26)
        } else {
            None
        }
    }
}

/// The name of indicator line `k`: the SMA 20, 50 and 200 lines, then the
/// EMA 12 and 26 lines.
pub open spec fn line_name(k: int) -> Seq<char> {
    if k == 0 {
        "sma20"@
    } else if k == 1 {
        "sma50"@
    } else if k == 2 {
        "sma200"@
    } else if k == 3 {
        "ema12"@
    } else {
        "ema26"@
    }
}

/// Whether indicator line `k` (numbered as in `line_name`) is shown.
pub open spec fn line_shown(v: LineVisibility, k: int) -> bool {
    if k == 0 {
        v.sma_20
    } else if k == 1 {
        v.sma_50
    } else if k == 2 {
        v.sma_200
    } else if k == 3 {
        v.ema_12
    } else {
        v.ema_26
    }
}

/// Toggling the line named by line `k`'s name flips line `k` and leaves
/// every other line as it was; the answer is line `k`'s new state.
pub proof fn law_toggle_flips_exactly_the_named_line(v: LineVisibility, k: int, j: int)
    requires
        0 <= k < 5,
        0 <= j < 5,
    ensures
        line_shown(spec_toggled(v, line_name(k)), j) == if j == k {
            !line_shown(v, j)
        } else {
            line_shown(v, j)
        },
        spec_toggle_result(v, line_name(k)) == Some(!line_shown(v, k)),
{
    reveal_strlit("sma20");
    reveal_strlit("sma50");
    reveal_strlit("sma200");
    reveal_strlit("ema12");
    reveal_strlit("ema26");
    assert("sma20"@ != "sma50"@ && "sma20"@ != "sma200"@ && "sma20"@ != "ema12"@ && "sma20"@ != "ema26"@) by {
        assert("sma20"@[3] != "sma50"@[3]);
        assert("sma20"@.len() != "sma200"@.len());
        assert("sma20"@[0] != "ema12"@[0]);
        assert("sma20"@[0] != "ema26"@[0]);
    }
    assert("sma50"@ != "sma200"@ && "sma50"@ != "ema12"@ && "sma50"@ != "ema26"@) by {
        assert("sma50"@.len() != "sma200"@.len());
        assert("sma50"@[0] != "ema12"@[0]);
        assert("sma50"@[0] != "ema26"@[0]);
    }
    assert("sma200"@ != "ema12"@ && "sma200"@ != "ema26"@) by {
        assert("sma200"@.len() != "ema12"@.len());
        assert("sma200"@.len() != "ema26"@.len());
    }
    assert("ema12"@ != "ema26"@) by {
        assert("ema12"@[3] != "ema26"@[3]);
    }
}

/// A name that is none of the lines' names changes nothing and gets no answer.
pub proof fn law_toggle_unknown_name_changes_nothing(v: LineVisibility, name: Seq<char>)
    requires
        forall|k: int| 0 <= k < 5 ==> name != #[trigger] line_name(k),
    ensures
        spec_toggled(v, name) == v,
        spec_toggle_result(v, name) is None,
{
    assert(name != line_name(0));
    assert(name != line_name(1));
    assert(name != line_name(2));
    assert(name != line_name(3));
    assert(name != line_name(4));
}

/// Toggling a line twice restores the visibility.
pub proof fn law_toggle_twice_restores(v: LineVisibility, name: Seq<char>)
    ensures
        spec_toggled(spec_toggled(v, name), name) == v,
{
}

} // verus!
