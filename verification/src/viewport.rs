use std::collections::VecDeque;
use vstd::prelude::*;

use crate::history::{lemma_upper_bound_at, upper_bound};
use crate::series::{lemma_lower_bound_at, lemma_lower_bound_props, lower_bound, Candle};

verus! {

/// Index below which the left edge of the view asks for older history.
pub const HISTORY_PRELOAD_THRESHOLD: usize = 200;

/// Most candles asked for by one history request.
pub const HISTORY_FETCH_LIMIT: u32 = 1000;

/// Candles shown after a reset of the view.
pub const DEFAULT_VISIBLE_CANDLES: usize = 96;

/// Whether the view's left edge is close enough to the oldest candle to
/// load more history.
pub fn should_fetch_history(left_index: usize) -> (b: bool)
    ensures
        b == (left_index < HISTORY_PRELOAD_THRESHOLD),
{
    left_index < HISTORY_PRELOAD_THRESHOLD
}

/// `x` pulled into `[lo, hi]` (`lo <= hi`).
pub open spec fn clamp_int(x: int, lo: int, hi: int) -> int {
    if x < lo {
        lo
    } else if x > hi {
        hi
    } else {
        x
    }
}

/// First index of a window of `visible` candles out of `len`, moved by
/// `offset` candles from the newest position and kept inside the series.
pub open spec fn spec_window_start(len: nat, visible: nat, offset: int) -> int {
    clamp_int(len - visible + offset, 0, len - visible)
}

/// First index of the visible window: `visible` candles ending at the newest
/// one, shifted by `offset` (negative: towards older candles), never before
/// the first candle nor past the newest.
pub fn window_start(len: usize, visible: usize, offset: i64) -> (start: usize)
    requires
        visible <= len,
    ensures
        start == spec_window_start(len as nat, visible as nat, offset as int),
        start + visible <= len,
{
    let max_start: i128 = (len - visible) as i128;
    let wanted: i128 = max_start + offset as i128;
    if wanted < 0 {
        0
    } else if wanted > max_start {
        len - visible
    } else {
        wanted as usize
    }
}

/// Whether the window reaches the newest candle, so that new candles should
/// scroll into view: exactly when it is not moved back, or shows everything.
pub fn should_auto_scroll(len: usize, visible: usize, offset: i64) -> (b: bool)
    requires
        visible <= len,
    ensures
        b == (spec_window_start(len as nat, visible as nat, offset as int) + visible >= len),
        b == (offset >= 0 || visible == len),
{
    let start = window_start(len, visible, offset);
    start + visible >= len
}

/// Window of a time view over a series: the candles from the first one not
/// older than `start_ts` up to the last one not newer than `end_ts`, counted
/// between one and all of them, and the offset of its first candle from the
/// start of a window of that size ending at the newest candle.
pub open spec fn spec_view_window<P>(s: Seq<Candle<P>>, start_ts: u64, end_ts: u64) -> (nat, int) {
    let first = lower_bound(s, start_ts);
    let after = upper_bound(s, end_ts);
    let span: int = if after > first {
        after - first
    } else {
        0
    };
    let visible = clamp_int(span, 1, s.len() as int) as nat;
    (visible, first - (s.len() - visible))
}

/// The candle count and offset of a time view (see `spec_view_window`), or
/// `None` for an empty series.
pub fn view_window<P>(candles: &VecDeque<Candle<P>>, start_ts: u64, end_ts: u64) -> (r: Option<
    (usize, i128),
>)
    ensures
        r is None <==> candles@.len() == 0,
        r matches Some((visible, offset)) ==> (visible as nat, offset as int) == spec_view_window(
            candles@,
            start_ts,
            end_ts,
        ),
{
    let len = candles.len();
    if len == 0 {
        return None;
    }
    let mut first: usize = 0;
    while first < len && candles[first].timestamp.0 < start_ts
        invariant
            first <= len,
            len == candles@.len(),
            forall|j: int| 0 <= j < first ==> (#[trigger] candles@[j]).timestamp.0 < start_ts,
        decreases len - first,
    {
        first += 1;
    }
    let mut after: usize = 0;
    while after < len && candles[after].timestamp.0 <= end_ts
        invariant
            after <= len,
            len == candles@.len(),
            forall|j: int| 0 <= j < after ==> (#[trigger] candles@[j]).timestamp.0 <= end_ts,
        decreases len - after,
    {
        after += 1;
    }
    proof {
        lemma_lower_bound_at(candles@, start_ts, first as int);
        lemma_upper_bound_at(candles@, end_ts, after as int);
    }
    let span = if after > first {
        after - first
    } else {
        0
    };
    let visible = if span < 1 {
        1
    } else {
        span
    };
    let offset: i128 = first as i128 - (len - visible) as i128;
    Some((visible, offset))
}

/// Positioning a window by the candle count and offset of a time view gives
/// back the view's first candle, pulled in only as far as the window needs
/// to fit the series.
pub proof fn law_view_window_round_trip<P>(s: Seq<Candle<P>>, start_ts: u64, end_ts: u64)
    requires
        s.len() > 0,
    ensures
        ({
            let (visible, offset) = spec_view_window(s, start_ts, end_ts);
            &&& 1 <= visible <= s.len()
            &&& spec_window_start(s.len(), visible, offset) == clamp_int(
                lower_bound(s, start_ts) as int,
                0,
                s.len() - visible,
            )
        }),
{
    lemma_lower_bound_props(s, start_ts);
}

/// A window of `visible` candles whose first index is `desired` pulled into
/// the series: that index and the timestamps of the window's first and last
/// candles.
pub fn clamp_window<P>(candles: &VecDeque<Candle<P>>, desired: i64, visible: usize) -> (r: (
    usize,
    u64,
    u64,
))
    requires
        1 <= visible <= candles@.len(),
    ensures
        r.0 == clamp_int(desired as int, 0, candles@.len() - visible),
        r.1 == candles@[r.0 as int].timestamp.0,
        r.2 == candles@[r.0 + visible - 1].timestamp.0,
{
    let max_start = candles.len() - visible;
    let start: usize = if desired < 0 {
        0
    } else if desired as u64 > max_start as u64 {
        max_start
    } else {
        desired as usize
    };
    let end = start + visible - 1;
    (start, candles[start].timestamp.0, candles[end].timestamp.0)
}

/// The newest `count` candles (all of them when there are fewer), as
/// `clamp_window` describes them, or `None` for an empty series.
pub fn latest_window<P>(candles: &VecDeque<Candle<P>>, count: usize) -> (r: Option<
    (usize, u64, u64),
>)
    ensures
        r is None <==> candles@.len() == 0 || count == 0,
        r matches Some((start, first_ts, last_ts)) ==> {
            &&& start == if candles@.len() > count {
                candles@.len() - count
            } else {
                0
            }
            &&& first_ts == candles@[start as int].timestamp.0
            &&& last_ts == candles@.last().timestamp.0
        },
{
    let len = candles.len();
    if len == 0 || count == 0 {
        return None;
    }
    let visible = if count < len {
        count
    } else {
        len
    };
    let start = len - visible;
    Some((start, candles[start].timestamp.0, candles[len - 1].timestamp.0))
}

/// End time of the next history request: just before the oldest loaded
/// candle, or `None` when there is none or it is stamped at zero.
pub fn history_end_time(oldest: Option<u64>) -> (r: Option<u64>)
    ensures
        r == (match oldest {
            Some(t) => if t > 0 {
                Some((t - 1) as u64)
            } else {
                None
            },
            None => None,
        }),
{
    match oldest {
        Some(t) => if t > 0 {
            Some(t - 1)
        } else {
            None
        },
        None => None,
    }
}

} // verus!
