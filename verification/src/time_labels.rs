use std::collections::VecDeque;
use vstd::prelude::*;
use vstd::string::*;

use crate::series::Candle;
use crate::text::{decimal, padded_decimal, zero_padded};

verus! {

broadcast use vstd::string::group_string_axioms;

/// Longest visible span, in milliseconds, labelled with hours and minutes.
pub const TWO_DAYS_MS: u64 = 172_800_000;

/// Longest visible span, in milliseconds, labelled with day and month.
pub const FOUR_MONTHS_MS: u64 = 10_368_000_000;

/// Number of labels under the chart.
pub const TIME_LABEL_COUNT: usize = 5;

/// What a time label shows.
#[derive(Debug, Clone, Copy, PartialEq, Eq, Structural)]
pub enum TimeLabelKind {
    /// `HH:MM`
    HourMinute,
    /// `DD.MM`
    DayMonth,
    /// `MM.YYYY`
    MonthYear,
}

/// Labels of a span of at most two days show the time of day, of at most
/// 120 days the date, and of more the month and year.
pub open spec fn spec_label_kind_for_span(span_ms: u64) -> TimeLabelKind {
    if span_ms <= TWO_DAYS_MS {
        TimeLabelKind::HourMinute
    } else if span_ms <= FOUR_MONTHS_MS {
        TimeLabelKind::DayMonth
    } else {
        TimeLabelKind::MonthYear
    }
}

/// The kind of label for a visible span of `span_ms` milliseconds.
pub fn label_kind_for_span(span_ms: u64) -> (k: TimeLabelKind)
    ensures
        k == spec_label_kind_for_span(span_ms),
{
    if span_ms <= TWO_DAYS_MS {
        TimeLabelKind::HourMinute
    } else if span_ms <= FOUR_MONTHS_MS {
        TimeLabelKind::DayMonth
    } else {
        TimeLabelKind::MonthYear
    }
}

/// The UTC calendar fields of an instant (month counted from 1).
#[derive(Debug, Clone, Copy)]
pub struct UtcDateParts {
    pub year: u32,
    pub month: u32,
    pub day: u32,
    pub hours: u32,
    pub minutes: u32,
}

/// `n` in decimal, zero-padded to two digits.
pub open spec fn two_digits(n: u32) -> Seq<char> {
    zero_padded(decimal(n as nat), 2)
}

/// Text of a label: `HH:MM`, `DD.MM` or `MM.YYYY`.
pub open spec fn spec_label_text(kind: TimeLabelKind, p: UtcDateParts) -> Seq<char> {
    match kind {
        TimeLabelKind::HourMinute => two_digits(p.hours) + ":"@ + two_digits(p.minutes),
        TimeLabelKind::DayMonth => two_digits(p.day) + "."@ + two_digits(p.month),
        TimeLabelKind::MonthYear => two_digits(p.month) + "."@ + decimal(p.year as nat),
    }
}

/// The label of an instant with calendar fields `parts`.
pub fn label_text(kind: TimeLabelKind, parts: &UtcDateParts) -> (r: String)
    ensures
        r@ == spec_label_text(kind, *parts),
{
    match kind {
        TimeLabelKind::HourMinute => {
            let mut r = padded_decimal(parts.hours as u64, 2);
            r.append(":");
            let m = padded_decimal(parts.minutes as u64, 2);
            r.append(m.as_str());
            r
        },
        TimeLabelKind::DayMonth => {
            let mut r = padded_decimal(parts.day as u64, 2);
            r.append(".");
            let m = padded_decimal(parts.month as u64, 2);
            r.append(m.as_str());
            r
        },
        TimeLabelKind::MonthYear => {
            let mut r = padded_decimal(parts.month as u64, 2);
            r.append(".");
            let y = padded_decimal(parts.year as u64, 0);
            proof {
                assert(zero_padded(decimal(parts.year as nat), 0) == decimal(parts.year as nat));
            }
            r.append(y.as_str());
            r
        },
    }
}

/// Full UTC text of an instant: `YYYY-MM-DD HH:MM UTC`.
pub open spec fn spec_utc_text(p: UtcDateParts) -> Seq<char> {
    zero_padded(decimal(p.year as nat), 4) + "-"@ + two_digits(p.month) + "-"@ + two_digits(p.day)
        + " "@ + two_digits(p.hours) + ":"@ + two_digits(p.minutes) + " UTC"@
}

/// The tooltip text of an instant with calendar fields `parts`.
pub fn utc_text(parts: &UtcDateParts) -> (r: String)
    ensures
        r@ == spec_utc_text(*parts),
{
    let mut r = padded_decimal(parts.year as u64, 4);
    r.append("-");
    let month = padded_decimal(parts.month as u64, 2);
    r.append(month.as_str());
    r.append("-");
    let day = padded_decimal(parts.day as u64, 2);
    r.append(day.as_str());
    r.append(" ");
    let hours = padded_decimal(parts.hours as u64, 2);
    r.append(hours.as_str());
    r.append(":");
    let minutes = padded_decimal(parts.minutes as u64, 2);
    r.append(minutes.as_str());
    r.append(" UTC");
    r
}

/// Time between the first and the last candle of the window of `visible`
/// candles from `start` (cut at the end of the series), or zero when the
/// window is empty or out of the series.
pub open spec fn spec_visible_span<P>(s: Seq<Candle<P>>, start: nat, visible: nat) -> nat {
    let end: int = if start + visible < s.len() {
        (start + visible) as int
    } else {
        s.len() as int
    };
    let last = if end > 0 {
        end - 1
    } else {
        0
    };
    if start < s.len() && last < s.len() && s[last].timestamp.0 >= s[start as int].timestamp.0 {
        (s[last].timestamp.0 - s[start as int].timestamp.0) as nat
    } else {
        0
    }
}

/// The span in milliseconds of a visible window (see `spec_visible_span`).
pub fn visible_span_ms<P>(candles: &VecDeque<Candle<P>>, start: usize, visible: usize) -> (r: u64)
    ensures
        r == spec_visible_span(candles@, start as nat, visible as nat),
{
    let len = candles.len();
    let end = if start < len && visible < len - start {
        start + visible
    } else {
        len
    };
    let last = if end > 0 {
        end - 1
    } else {
        0
    };
    if start < len && last < len {
        let first_ts = candles[start].timestamp.0;
        let last_ts = candles[last].timestamp.0;
        if last_ts >= first_ts {
            last_ts - first_ts
        } else {
            0
        }
    } else {
        0
    }
}

/// Offset inside the window of the candle under label `i`: `i` quarters of
/// the window, at most its last candle.
pub open spec fn label_offset(i: nat, visible: nat) -> nat {
    let q = i * visible / 4;
    let last = if visible > 0 {
        (visible - 1) as nat
    } else {
        0
    };
    if q < last {
        q
    } else {
        last
    }
}

/// The labels among the first `n` whose candle lies in the series, each as
/// (label number, candle index), in order.
pub open spec fn label_slots(start: nat, visible: nat, len: nat, n: nat) -> Seq<(usize, usize)>
    decreases n,
{
    if n == 0 {
        Seq::empty()
    } else {
        let i = (n - 1) as nat;
        let prev = label_slots(start, visible, len, i);
        if start + label_offset(i, visible) < len {
            prev.push((i as usize, (start + label_offset(i, visible)) as usize))
        } else {
            prev
        }
    }
}

/// The candles under the five time labels of a window of `visible` candles
/// from `start` in a series of `len` candles (see `label_slots`).
pub fn time_label_candles(len: usize, start: usize, visible: usize) -> (r: Vec<(usize, usize)>)
    ensures
        r@ == label_slots(start as nat, visible as nat, len as nat, TIME_LABEL_COUNT as nat),
{
    let mut r: Vec<(usize, usize)> = Vec::new();
    let mut i: usize = 0;
    while i < TIME_LABEL_COUNT
        invariant
            i <= TIME_LABEL_COUNT,
            r@ == label_slots(start as nat, visible as nat, len as nat, i as nat),
        decreases TIME_LABEL_COUNT - i,
    {
        assert((i as u128) * (visible as u128) <= 4 * 0xffff_ffff_ffff_ffffu128) by (nonlinear_arith)
            requires
                i <= 4,
                visible <= 0xffff_ffff_ffff_ffffu128,
        ;
        let q: u128 = (i as u128) * (visible as u128) / 4;
        let last: usize = if visible > 0 {
            visible - 1
        } else {
            0
        };
        let offset: usize = if q < last as u128 {
            q as usize
        } else {
            last
        };
        proof {
            assert(q == (i as nat) * (visible as nat) / 4);
            assert(offset == label_offset(i as nat, visible as nat));
        }
        if start < len && offset < len - start {
            r.push((i, start + offset));
        }
        i += 1;
    }
    r
}

} // verus!
