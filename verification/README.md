# webgpu_candles

The verified core of a WebGPU candlestick chart for Binance spot markets,
written in Verus.

`src/` is the library. Every function in it carries a contract; Verus proves
them all except four small wrappers around std (case mapping, `String::push`
and the entries of a `HashMap`), marked `external_body`, whose contracts are
trusted. The laws the chart relies on are public proof functions or the
`ensures` of the functions they are about:

- `market_data`, `series`, `history`: timestamps, symbols and intervals; the
  bounded, time-ordered candle series; sorting, de-duplicating and loading
  history.
- `chart`: the chart's candle data, one series per timeframe, the derived
  series rolled up from the base one, history prepending and revisions.
- `geometry`, `viewport`, `time_labels`, `buffers`, `gpu`, `render_policy`:
  level of detail, visible windows, time labels, double buffering, the
  render-time log and the choice of renderer.
- `binance`, `http`, `klines`, `text`: request addresses, subscriptions,
  reconnection back-off, query strings, and reading kline responses.
- `logging`, `events`, `services`: log filtering and formatting, event names
  and small domain services.

The candle payload is generic (`CandlePayload`): prices and volumes are
floating point and live outside the library. The contracts say which payload
operations a bucket's payload comes from: the seed of its first candle with
the others merged in, in order (`rolled_up`). Each added candle moves every
derived series as `bucket_step_holds` says, several additions into one bucket
roll up as `law_bucket_rolls_up_additions` says, and loading or prepending
history leaves every derived candle rolled up from the candles of its bucket
(`rolled_from`), with one report per loaded candle (`loaded_report`).

`app/` is ordinary Rust around the library: the floating-point prices and
indicators, the viewport in screen units, the console logger and clock, and
the HTTP and WebSocket transport to Binance.

`tests/` runs the library on concrete values.
