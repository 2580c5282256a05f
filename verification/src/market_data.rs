use vstd::prelude::*;
use vstd::string::*;

use crate::text::{ascii_upper, is_ascii_text, to_upper, uppercase};

verus! {

/// A point in time, in milliseconds since the Unix epoch.
#[derive(Debug, Clone, Copy, PartialEq, Eq, Hash, Structural)]
pub struct Timestamp(pub u64);

impl Timestamp {
    pub fn from(value: u64) -> (t: Self)
        ensures
            t.0 == value,
    {
        Timestamp(value)
    }

    pub fn value(&self) -> (v: u64)
        ensures
            v == self.0,
    {
        self.0
    }
}

/// A trading symbol such as `BTCUSDT`, kept in upper case.
#[derive(Debug, Clone, PartialEq, Eq, Hash)]
pub struct Symbol(String);

impl View for Symbol {
    type V = Seq<char>;

    closed spec fn view(&self) -> Seq<char> {
        self.0@
    }
}

impl Symbol {
    /// A symbol from non-empty text, upper-cased.
    pub fn new(symbol: String) -> (r: Result<Self, String>)
        ensures
            r is Err <==> symbol@.len() == 0,
            r matches Ok(s) ==> s@ == to_upper(symbol@),
            r matches Ok(s) ==> is_ascii_text(symbol@) ==> s@ == ascii_upper(symbol@),
            r matches Err(e) ==> e@ == "Symbol cannot be empty"@,
    {
        if symbol.as_str().is_empty() {
            return Err(String::from_str("Symbol cannot be empty"));
        }
        Ok(Symbol(uppercase(symbol.as_str())))
    }

    /// A symbol from text, upper-cased (the text is not checked).
    pub fn from(value: &str) -> (s: Self)
        ensures
            s@ == to_upper(value@),
            is_ascii_text(value@) ==> s@ == ascii_upper(value@),
    {
        Symbol(uppercase(value))
    }

    pub fn value(&self) -> (r: &str)
        ensures
            r@ == self@,
    {
        self.0.as_str()
    }
}

/// Candle intervals: the chart's own timeframes and the exchange's.
#[derive(Debug, Clone, Copy, PartialEq, Eq, Hash, Structural)]
pub enum TimeInterval {
    TwoSeconds,
    OneMinute,
    FiveMinutes,
    FifteenMinutes,
    ThirtyMinutes,
    OneHour,
    FourHours,
    OneDay,
    OneWeek,
    OneMonth,
}

impl TimeInterval {
    /// The interval's name in the Binance API. The two-second chart is built
    /// from Binance's one-second candles.
    pub open spec fn spec_binance_str(self) -> Seq<char> {
        match self {
            TimeInterval::TwoSeconds => "1s"@,
            TimeInterval::OneMinute => "1m"@,
            TimeInterval::FiveMinutes => "5m"@,
            TimeInterval::FifteenMinutes => "15m"@,
            TimeInterval::ThirtyMinutes => "30m"@,
            TimeInterval::OneHour => "1h"@,
            TimeInterval::FourHours => "4h"@,
            TimeInterval::OneDay => "1d"@,
            TimeInterval::OneWeek => "1w"@,
            TimeInterval::OneMonth => "1M"@,
        }
    }

    /// Length of the interval in milliseconds (a month counts thirty days).
    pub open spec fn spec_duration_ms(self) -> u64 {
        match self {
            TimeInterval::TwoSeconds => 2000,
            TimeInterval::OneMinute => 60000,
            TimeInterval::FiveMinutes => 300000,
            TimeInterval::FifteenMinutes => 900000,
            TimeInterval::ThirtyMinutes => 1800000,
            TimeInterval::OneHour => 3600000,
            TimeInterval::FourHours => 14400000,
            TimeInterval::OneDay => 86400000,
            TimeInterval::OneWeek => 604800000,
            TimeInterval::OneMonth => 2592000000,
        }
    }

    /// Start of the interval bucket that holds `t`.
    pub open spec fn spec_bucket_start(self, t: u64) -> u64 {
        (t / self.spec_duration_ms() * self.spec_duration_ms()) as u64
    }

    pub fn to_binance_str(&self) -> (r: &'static str)
        ensures
            r@ == self.spec_binance_str(),
    {
        match self {
            TimeInterval::TwoSeconds => "1s",
            TimeInterval::OneMinute => "1m",
            TimeInterval::FiveMinutes => "5m",
            TimeInterval::FifteenMinutes => "15m",
            TimeInterval::ThirtyMinutes => "30m",
            TimeInterval::OneHour => "1h",
            TimeInterval::FourHours => "4h",
            TimeInterval::OneDay => "1d",
            TimeInterval::OneWeek => "1w",
            TimeInterval::OneMonth => "1M",
        }
    }

    pub fn duration_ms(&self) -> (d: u64)
        ensures
            d == self.spec_duration_ms(),
            d > 0,
    {
        match self {
            TimeInterval::TwoSeconds => 2 * 1000,
            TimeInterval::OneMinute => 60 * 1000,
            TimeInterval::FiveMinutes => 5 * 60 * 1000,
            TimeInterval::FifteenMinutes => 15 * 60 * 1000,
            TimeInterval::ThirtyMinutes => 30 * 60 * 1000,
            TimeInterval::OneHour => 60 * 60 * 1000,
            TimeInterval::FourHours => 4 * 60 * 60 * 1000,
            TimeInterval::OneDay => 24 * 60 * 60 * 1000,
            TimeInterval::OneWeek => 7 * 24 * 60 * 60 * 1000,
            TimeInterval::OneMonth => 30 * 24 * 60 * 60 * 1000,
        }
    }

    /// Start of the interval bucket that holds `t`: `t` rounded down to a
    /// multiple of the interval's length.
    pub fn bucket_start(&self, t: u64) -> (b: u64)
        ensures
            b == self.spec_bucket_start(t),
            b <= t,
            t < b + self.spec_duration_ms(),
            b % self.spec_duration_ms() == 0,
    {
        let d = self.duration_ms();
        let q = t / d;
        proof {
            vstd::arithmetic::div_mod::lemma_fundamental_div_mod(t as int, d as int);
            vstd::arithmetic::mul::lemma_mul_is_commutative(q as int, d as int);
            vstd::arithmetic::div_mod::lemma_mod_multiples_basic(q as int, d as int);
        }
        q * d
    }
}

/// The number that the decimal digits `d` write.
pub open spec fn decimal_value(d: Seq<char>) -> int
    decreases d.len(),
{
    if d.len() == 0 {
        0
    } else {
        decimal_value(d.drop_last()) * 10 + (d.last() as int - '0' as int)
    }
}

/// Milliseconds in one unit of a Binance interval code: `s`econd, `m`inute,
/// `h`our, `d`ay, `w`eek and `M`onth (a month counts thirty days).
pub open spec fn code_unit_ms(u: char) -> int {
    if u == 's' {
        1000
    } else if u == 'm' {
        60int * 1000
    } else if u == 'h' {
        60int * 60 * 1000
    } else if u == 'd' {
        24int * 60 * 60 * 1000
    } else if u == 'w' {
        7int * 24 * 60 * 60 * 1000
    } else if u == 'M' {
        30int * 24 * 60 * 60 * 1000
    } else {
        0
    }
}

/// The length a Binance interval code names: its number times its unit.
pub open spec fn code_length_ms(code: Seq<char>) -> int {
    if code.len() == 0 {
        0
    } else {
        decimal_value(code.drop_last()) * code_unit_ms(code.last())
    }
}

/// Interval lengths: two seconds, one minute of sixty seconds, and every
/// longer interval the stated multiple of a shorter one (an hour of sixty
/// minutes, a day of twenty-four hours, a week of seven days, a month of
/// thirty days).
pub proof fn law_interval_lengths()
    ensures
        TimeInterval::TwoSeconds.spec_duration_ms() == 2 * 1000,
        TimeInterval::OneMinute.spec_duration_ms() == 60 * 1000,
        TimeInterval::FiveMinutes.spec_duration_ms() == 5 * TimeInterval::OneMinute.spec_duration_ms(),
        TimeInterval::FifteenMinutes.spec_duration_ms() == 15 * TimeInterval::OneMinute.spec_duration_ms(),
        TimeInterval::ThirtyMinutes.spec_duration_ms() == 30 * TimeInterval::OneMinute.spec_duration_ms(),
        TimeInterval::OneHour.spec_duration_ms() == 60 * TimeInterval::OneMinute.spec_duration_ms(),
        TimeInterval::FourHours.spec_duration_ms() == 4 * TimeInterval::OneHour.spec_duration_ms(),
        TimeInterval::OneDay.spec_duration_ms() == 24 * TimeInterval::OneHour.spec_duration_ms(),
        TimeInterval::OneWeek.spec_duration_ms() == 7 * TimeInterval::OneDay.spec_duration_ms(),
        TimeInterval::OneMonth.spec_duration_ms() == 30 * TimeInterval::OneDay.spec_duration_ms(),
{
}

/// A day bucket is the UTC day: every instant falls into the bucket that
/// starts at midnight of its day, so two instants of one day share a bucket.
pub proof fn law_day_bucket_is_the_utc_day(t1: u64, t2: u64)
    ensures
        TimeInterval::OneDay.spec_bucket_start(t1) == t1 as int - (t1 as int) % (24int * 60 * 60 * 1000),
        (t1 as int) / (24int * 60 * 60 * 1000) == (t2 as int) / (24int * 60 * 60 * 1000) ==> TimeInterval::OneDay.spec_bucket_start(t1)
            == TimeInterval::OneDay.spec_bucket_start(t2),
{
    let day: int = 86400000;
    assert(TimeInterval::OneDay.spec_duration_ms() == day);
    vstd::arithmetic::div_mod::lemma_fundamental_div_mod(t1 as int, day);
    let q = (t1 as int) / day;
    assert(q * day == day * q) by (nonlinear_arith);
    assert(0 <= (t1 as int) % day);
    assert(TimeInterval::OneDay.spec_bucket_start(t1) == q * day);
    vstd::arithmetic::div_mod::lemma_fundamental_div_mod(t2 as int, day);
    assert(((t2 as int) / day) * day == day * ((t2 as int) / day)) by (nonlinear_arith);
    assert(0 <= (t2 as int) % day);
    assert(TimeInterval::OneDay.spec_bucket_start(t2) == ((t2 as int) / day) * day);
}

/// A code made of the digits `digits` followed by the unit `unit` names
/// their number of units.
proof fn lemma_code_length(code: Seq<char>, digits: Seq<char>, unit: char)
    requires
        code =~= digits.push(unit),
    ensures
        code_length_ms(code) == decimal_value(digits) * code_unit_ms(unit),
{
    assert(code.drop_last() =~= digits);
}

/// Each interval's Binance code names its length: the code's number times
/// its unit is the interval's length, except for the two-second chart, which
/// is built from Binance's one-second candles.
pub proof fn law_binance_code_names_the_interval(i: TimeInterval)
    ensures
        i != TimeInterval::TwoSeconds ==> code_length_ms(i.spec_binance_str()) == i.spec_duration_ms(),
        i == TimeInterval::TwoSeconds ==> 2 * code_length_ms(i.spec_binance_str()) == i.spec_duration_ms(),
{
    reveal_with_fuel(decimal_value, 3);
    assert(seq!['1', '5'].drop_last() =~= seq!['1']);
    assert(seq!['3', '0'].drop_last() =~= seq!['3']);
    match i {
        TimeInterval::TwoSeconds => {
            reveal_strlit("1s");
            assert(seq!['1'].drop_last() =~= Seq::<char>::empty());
            assert(decimal_value(seq!['1']) == 1);
            lemma_code_length(i.spec_binance_str(), seq!['1'], 's');
            assert(code_length_ms(i.spec_binance_str()) == 1000);
        },
        TimeInterval::OneMinute => {
            reveal_strlit("1m");
            assert(seq!['1'].drop_last() =~= Seq::<char>::empty());
            assert(decimal_value(seq!['1']) == 1);
            lemma_code_length(i.spec_binance_str(), seq!['1'], 'm');
            assert(code_length_ms(i.spec_binance_str()) == 60000);
        },
        TimeInterval::FiveMinutes => {
            reveal_strlit("5m");
            assert(seq!['5'].drop_last() =~= Seq::<char>::empty());
            assert(decimal_value(seq!['5']) == 5);
            lemma_code_length(i.spec_binance_str(), seq!['5'], 'm');
            assert(code_length_ms(i.spec_binance_str()) == 300000);
        },
        TimeInterval::FifteenMinutes => {
            reveal_strlit("15m");
            assert(seq!['1'].drop_last() =~= Seq::<char>::empty());
            assert(decimal_value(seq!['1', '5']) == 15);
            lemma_code_length(i.spec_binance_str(), seq!['1', '5'], 'm');
            assert(code_length_ms(i.spec_binance_str()) == 900000);
        },
        TimeInterval::ThirtyMinutes => {
            reveal_strlit("30m");
            assert(seq!['3'].drop_last() =~= Seq::<char>::empty());
            assert(decimal_value(seq!['3', '0']) == 30);
            lemma_code_length(i.spec_binance_str(), seq!['3', '0'], 'm');
            assert(code_length_ms(i.spec_binance_str()) == 1800000);
        },
        TimeInterval::OneHour => {
            reveal_strlit("1h");
            assert(seq!['1'].drop_last() =~= Seq::<char>::empty());
            assert(decimal_value(seq!['1']) == 1);
            lemma_code_length(i.spec_binance_str(), seq!['1'], 'h');
            assert(code_length_ms(i.spec_binance_str()) == 3600000);
        },
        TimeInterval::FourHours => {
            reveal_strlit("4h");
            assert(seq!['4'].drop_last() =~= Seq::<char>::empty());
            assert(decimal_value(seq!['4']) == 4);
            lemma_code_length(i.spec_binance_str(), seq!['4'], 'h');
            assert(code_length_ms(i.spec_binance_str()) == 14400000);
        },
        TimeInterval::OneDay => {
            reveal_strlit("1d");
            assert(seq!['1'].drop_last() =~= Seq::<char>::empty());
            assert(decimal_value(seq!['1']) == 1);
            lemma_code_length(i.spec_binance_str(), seq!['1'], 'd');
            assert(code_length_ms(i.spec_binance_str()) == 86400000);
        },
        TimeInterval::OneWeek => {
            reveal_strlit("1w");
            assert(seq!['1'].drop_last() =~= Seq::<char>::empty());
            assert(decimal_value(seq!['1']) == 1);
            lemma_code_length(i.spec_binance_str(), seq!['1'], 'w');
            assert(code_length_ms(i.spec_binance_str()) == 604800000);
        },
        TimeInterval::OneMonth => {
            reveal_strlit("1M");
            assert(seq!['1'].drop_last() =~= Seq::<char>::empty());
            assert(decimal_value(seq!['1']) == 1);
            lemma_code_length(i.spec_binance_str(), seq!['1'], 'M');
            assert(code_length_ms(i.spec_binance_str()) == 2592000000);
        },
    }
}

/// Distinct intervals have distinct Binance codes.
pub proof fn law_binance_codes_distinct(a: TimeInterval, b: TimeInterval)
    ensures
        a != b ==> a.spec_binance_str() != b.spec_binance_str(),
{
    law_binance_code_names_the_interval(a);
    law_binance_code_names_the_interval(b);
}

} // verus!
