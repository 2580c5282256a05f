//! Verified core of the WebGPU candles chart: market-data value objects,
//! candle series, chart data, level-of-detail bucketing and the Binance
//! request builders.

pub mod market_data;
pub mod series;
pub mod text;
pub mod history;
pub mod chart;
pub mod geometry;
pub mod binance;
pub mod logging;
pub mod services;
pub mod http;
pub mod viewport;
pub mod time_labels;
pub mod events;
pub mod buffers;
pub mod gpu;
pub mod klines;
pub mod render_policy;
