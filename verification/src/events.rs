use vstd::prelude::*;

use crate::market_data::{Symbol, TimeInterval};
use crate::series::Candle;

verus! {

/// An event of the domain, known by the name of its kind.
pub trait DomainEvent: Sized {
    /// Name of the event's kind.
    fn event_type(&self) -> &'static str;
}

/// Events of the market-data side.
pub enum MarketDataEvent<P> {
    NewCandleReceived { symbol: Symbol, interval: TimeInterval, candle: Candle<P> },
    HistoricalDataLoaded { symbol: Symbol, interval: TimeInterval, candle_count: usize },
    DataValidationFailed { symbol: Symbol, reason: String },
    MarketDataConnectionEstablished { symbol: Symbol, interval: TimeInterval },
    MarketDataConnectionLost { symbol: Symbol, reason: String },
}

impl<P> MarketDataEvent<P> {
    /// The name of each kind: its variant's name.
    pub open spec fn spec_event_type(&self) -> Seq<char> {
        match self {
            MarketDataEvent::NewCandleReceived { .. } => "NewCandleReceived"@,
            MarketDataEvent::HistoricalDataLoaded { .. } => "HistoricalDataLoaded"@,
            MarketDataEvent::DataValidationFailed { .. } => "DataValidationFailed"@,
            MarketDataEvent::MarketDataConnectionEstablished { .. } => "MarketDataConnectionEstablished"@,
            MarketDataEvent::MarketDataConnectionLost { .. } => "MarketDataConnectionLost"@,
        }
    }
}

impl<P> DomainEvent for MarketDataEvent<P> {
    fn event_type(&self) -> (r: &'static str)
        ensures
            r@ == self.spec_event_type(),
    {
        match self {
            MarketDataEvent::NewCandleReceived { .. } => "NewCandleReceived",
            MarketDataEvent::HistoricalDataLoaded { .. } => "HistoricalDataLoaded",
            MarketDataEvent::DataValidationFailed { .. } => "DataValidationFailed",
            MarketDataEvent::MarketDataConnectionEstablished { .. } => "MarketDataConnectionEstablished",
            MarketDataEvent::MarketDataConnectionLost { .. } => "MarketDataConnectionLost",
        }
    }
}

} // verus!
