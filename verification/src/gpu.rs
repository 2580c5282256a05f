use vstd::prelude::*;

verus! {

/// The indicator lines the GPU pipeline draws.
#[derive(Debug, Clone, Copy, PartialEq, Eq, Structural)]
pub enum IndicatorType {
    SMA20,
    SMA50,
    SMA200,
    EMA12,
    EMA26,
    Tenkan,
    Kijun,
    SenkouA,
    SenkouB,
    Chikou,
}

impl IndicatorType {
    /// Colour slot of the line in the shader's palette: 2 to 6 for the
    /// moving averages, 10 to 14 for the Ichimoku lines.
    pub open spec fn spec_color_code(&self) -> u32 {
        match self {
            IndicatorType::SMA20 => 2,
            IndicatorType::SMA50 => 3,
            IndicatorType::SMA200 => 4,
            IndicatorType::EMA12 => 5,
            IndicatorType::EMA26 => 6,
            IndicatorType::Tenkan => 10,
            IndicatorType::Kijun => 11,
            IndicatorType::SenkouA => 12,
            IndicatorType::SenkouB => 13,
            IndicatorType::Chikou => 14,
        }
    }

    /// The colour slot of this line (see `spec_color_code`).
    pub fn color_code(&self) -> (c: u32)
        ensures
            c == self.spec_color_code(),
    {
        match self {
            IndicatorType::SMA20 => 2,
            IndicatorType::SMA50 => 3,
            IndicatorType::SMA200 => 4,
            IndicatorType::EMA12 => 5,
            IndicatorType::EMA26 => 6,
            IndicatorType::Tenkan => 10,
            IndicatorType::Kijun => 11,
            IndicatorType::SenkouA => 12,
            IndicatorType::SenkouB => 13,
            IndicatorType::Chikou => 14,
        }
    }
}

/// Each line has its own colour slot.
pub proof fn law_color_codes_distinct(a: IndicatorType, b: IndicatorType)
    ensures
        a.spec_color_code() == b.spec_color_code() ==> a == b,
{
}

} // verus!
