use vstd::prelude::*;
use vstd::string::*;

use crate::history::{
    dedup_by_time, dedup_candles, lemma_dedup_by_time_members, lemma_dedup_by_time_props,
    law_loaded_history_ordered_and_bounded, lemma_load_all_sorted_input,
    lemma_sort_by_time_members, lemma_sort_by_time_sorted, lemma_sort_by_time_sorted_input,
    load_all, non_decreasing, sort_by_time, sort_candles,
};
use crate::market_data::{TimeInterval, Timestamp};
use crate::series::{
    add_bounded, keep_newest, law_live_candle, lemma_add_bounded_at_latest, lemma_add_bounded_preserves,
    lemma_add_bounded_newest, lemma_add_bounded_timestamps, lemma_lower_bound_at, lemma_lower_bound_props, lower_bound,
    strictly_increasing, timestamps, Candle, CandleSeries,
};

verus! {

/// Chart types.
#[derive(Debug, Clone, Copy, PartialEq, Eq, Structural)]
pub enum ChartType {
    Candlestick,
    Line,
    Area,
    OHLC,
    Heikin,
    Renko,
    PointAndFigure,
}

/// Essential indicator types.
#[derive(Debug, Clone, Copy, PartialEq, Eq, Structural)]
pub enum IndicatorType {
    SimpleMovingAverage,
    ExponentialMovingAverage,
    MACD,
}

/// An indicator attached to a chart.
#[derive(Debug, Clone)]
pub struct Indicator {
    pub id: String,
    pub indicator_type: IndicatorType,
}

impl Indicator {
    pub fn new(id: String, indicator_type: IndicatorType) -> (r: Self)
        ensures
            r.id == id,
            r.indicator_type == indicator_type,
    {
        Indicator { id, indicator_type }
    }
}

/// What rolling candles up into longer buckets needs from a candle payload.
/// The arithmetic on prices and volumes is the payload type's own.
pub trait CandlePayload: Sized + Copy {
    /// Payload of a bucket made of this candle alone.
    fn bucket_seed(&self) -> Self;

    /// Payload of a bucket (`self`) after `incoming` joined it.
    fn merge(&self, incoming: &Self) -> Self;
}

/// The payloads of a run of candles.
pub open spec fn payloads<P>(s: Seq<Candle<P>>) -> Seq<P> {
    s.map_values(|c: Candle<P>| c.ohlcv)
}

/// `acc` is the running roll-up of `ps`: the first payload's `bucket_seed`,
/// then each following payload `merge`d in, in order.
pub open spec fn is_rollup<P: CandlePayload>(ps: Seq<P>, acc: Seq<P>) -> bool {
    &&& acc.len() == ps.len()
    &&& ps.len() > 0 ==> call_ensures(P::bucket_seed, (&ps[0],), acc[0])
    &&& forall|i: int|
        1 <= i < ps.len() ==> call_ensures(P::merge, (&acc[i - 1], &ps[i]), #[trigger] acc[i])
}

/// `r` is the payload of a bucket holding the payloads `ps`, in order: the
/// first one's seed with the others merged in one by one.
pub open spec fn rolled_up<P: CandlePayload>(ps: Seq<P>, r: P) -> bool {
    exists|acc: Seq<P>| #[trigger] is_rollup(ps, acc) && acc.len() > 0 && r == acc.last()
}

/// The roll-up of the first payload is its seed.
pub proof fn lemma_rollup_start<P: CandlePayload>(ps: Seq<P>, seed: P)
    requires
        ps.len() > 0,
        call_ensures(P::bucket_seed, (&ps[0],), seed),
    ensures
        is_rollup(ps.take(1), seq![seed]),
{
    assert(ps.take(1)[0] == ps[0]);
}

/// Merging the next payload into a roll-up extends it by one.
pub proof fn lemma_rollup_step<P: CandlePayload>(ps: Seq<P>, acc: Seq<P>, i: int, next: P)
    requires
        1 <= i < ps.len(),
        is_rollup(ps.take(i), acc),
        call_ensures(P::merge, (&acc.last(), &ps[i]), next),
    ensures
        is_rollup(ps.take(i + 1), acc.push(next)),
{
    let acc2 = acc.push(next);
    let t = ps.take(i + 1);
    assert(t[i] == ps[i]);
    assert(acc.len() == i);
    assert forall|j: int| 1 <= j < t.len() implies call_ensures(
        P::merge,
        (&acc2[j - 1], &t[j]),
        #[trigger] acc2[j],
    ) by {
        if j < i {
            assert(acc2[j] == acc[j] && acc2[j - 1] == acc[j - 1]);
            assert(t[j] == ps.take(i)[j]);
        }
    }
    assert(t[0] == ps.take(i)[0]);
}

/// The chart keeps one series per timeframe it shows; slot 0 holds the base
/// (two-second) series, slots 1 to 7 the series derived from it.
pub const SLOT_COUNT: usize = 8;

/// The timeframe shown in a slot.
pub open spec fn slot_interval(k: int) -> TimeInterval {
    if k == 0 {
        TimeInterval::TwoSeconds
    } else if k == 1 {
        TimeInterval::OneMinute
    } else if k == 2 {
        TimeInterval::FiveMinutes
    } else if k == 3 {
        TimeInterval::FifteenMinutes
    } else if k == 4 {
        TimeInterval::OneHour
    } else if k == 5 {
        TimeInterval::OneDay
    } else if k == 6 {
        TimeInterval::OneWeek
    } else {
        TimeInterval::OneMonth
    }
}

/// The slot that shows a timeframe, if the chart shows it.
pub open spec fn spec_slot_of(interval: TimeInterval) -> Option<usize> {
    match interval {
        TimeInterval::TwoSeconds => Some(0),
        TimeInterval::OneMinute => Some(1),
        TimeInterval::FiveMinutes => Some(2),
        TimeInterval::FifteenMinutes => Some(3),
        TimeInterval::OneHour => Some(4),
        TimeInterval::OneDay => Some(5),
        TimeInterval::OneWeek => Some(6),
        TimeInterval::OneMonth => Some(7),
        TimeInterval::ThirtyMinutes => None,
        TimeInterval::FourHours => None,
    }
}

/// Start of the bucket of slot `k` that holds time `t`.
pub open spec fn bucket_of(k: int, t: u64) -> u64 {
    slot_interval(k).spec_bucket_start(t)
}

/// The candles of `s` restamped at the start of their bucket of slot `k`.
pub open spec fn bucketed<P>(s: Seq<Candle<P>>, k: int) -> Seq<Candle<P>> {
    s.map_values(|c: Candle<P>| Candle { timestamp: Timestamp(bucket_of(k, c.timestamp.0)), ohlcv: c.ohlcv })
}

pub fn slot_of(interval: TimeInterval) -> (r: Option<usize>)
    ensures
        r == spec_slot_of(interval),
        r matches Some(k) ==> k < SLOT_COUNT && slot_interval(k as int) == interval,
{
    match interval {
        TimeInterval::TwoSeconds => Some(0),
        TimeInterval::OneMinute => Some(1),
        TimeInterval::FiveMinutes => Some(2),
        TimeInterval::FifteenMinutes => Some(3),
        TimeInterval::OneHour => Some(4),
        TimeInterval::OneDay => Some(5),
        TimeInterval::OneWeek => Some(6),
        TimeInterval::OneMonth => Some(7),
        TimeInterval::ThirtyMinutes => None,
        TimeInterval::FourHours => None,
    }
}

fn interval_of_slot(k: usize) -> (i: TimeInterval)
    requires
        k < SLOT_COUNT,
    ensures
        i == slot_interval(k as int),
{
    if k == 0 {
        TimeInterval::TwoSeconds
    } else if k == 1 {
        TimeInterval::OneMinute
    } else if k == 2 {
        TimeInterval::FiveMinutes
    } else if k == 3 {
        TimeInterval::FifteenMinutes
    } else if k == 4 {
        TimeInterval::OneHour
    } else if k == 5 {
        TimeInterval::OneDay
    } else if k == 6 {
        TimeInterval::OneWeek
    } else {
        TimeInterval::OneMonth
    }
}

/// What adding a candle did to one derived series.
#[derive(Debug, Clone, Copy)]
pub enum BucketStep<P> {
    /// The candle fell into the newest bucket, whose payload became `ohlcv`.
    Merged { ohlcv: P },
    /// The candle opened a newer bucket with payload `ohlcv`; `flushed` is the
    /// payload of the previous newest bucket when that bucket was still open.
    Opened { ohlcv: P, flushed: Option<P> },
    /// The candle belongs to an older bucket, which was put back with payload `ohlcv`.
    Placed { ohlcv: P },
}

impl<P> BucketStep<P> {
    /// The payload the step stored.
    pub open spec fn spec_ohlcv(self) -> P {
        match self {
            BucketStep::Merged { ohlcv } => ohlcv,
            BucketStep::Opened { ohlcv, .. } => ohlcv,
            BucketStep::Placed { ohlcv } => ohlcv,
        }
    }
}

/// What adding one candle did: the base series step and one step per
/// derived series (slot `k` is `steps[k - 1]`). Indicators are kept in step
/// with the series by replaying these reports.
#[derive(Debug, Clone)]
pub struct CandleReport<P> {
    pub candle: Candle<P>,
    /// The candle is newer than every base candle before it.
    pub base_is_new: bool,
    /// The candle replaced the newest base candle.
    pub base_is_update: bool,
    pub steps: Vec<BucketStep<P>>,
}

/// Result of prepending older history.
#[derive(Debug, Clone)]
pub struct HistoryPrepend<P> {
    /// How many candles were added before the oldest loaded one.
    pub added: usize,
    /// Reports of the reload, one per candle, oldest first.
    pub reports: Vec<CandleReport<P>>,
}

/// How one derived series moves when a candle stamped `t` with payload
/// `incoming` arrives: a candle of the newest bucket is merged into it
/// (`merge` of the bucket's payload and `incoming`); any other candle puts
/// its own bucket, seeded from it (`bucket_seed` of `incoming`), at its place.
pub open spec fn bucket_step_holds<P: CandlePayload>(
    s: Seq<Candle<P>>,
    was_open: bool,
    s2: Seq<Candle<P>>,
    now_open: bool,
    k: int,
    t: u64,
    incoming: P,
    max: nat,
    step: BucketStep<P>,
) -> bool {
    let b = bucket_of(k, t);
    let merged = s.len() > 0 && s.last().timestamp.0 == b;
    let newer = !merged && (s.len() == 0 || b > s.last().timestamp.0);
    &&& s2 == add_bounded(s, Candle { timestamp: Timestamp(b), ohlcv: step.spec_ohlcv() }, max)
    &&& merged ==> step is Merged && now_open && call_ensures(
        P::merge,
        (&s.last().ohlcv, &incoming),
        step.spec_ohlcv(),
    )
    &&& !merged ==> call_ensures(P::bucket_seed, (&incoming,), step.spec_ohlcv())
    &&& newer ==> now_open && (step matches BucketStep::Opened { flushed, .. } && flushed == (if was_open && s.len() > 0 {
        Some(s.last().ohlcv)
    } else {
        None
    }))
    &&& !merged && !newer ==> step is Placed && now_open == was_open
}

/// The revision after one more change (wrapping around).
pub open spec fn next_revision(r: u64) -> u64 {
    if r == u64::MAX {
        0
    } else {
        (r + 1) as u64
    }
}

/// The older history to put before `base`: `h` ordered by time, the first of
/// each timestamp kept, only candles older than the oldest of `base`, and at
/// most as many as the free room `max - base.len()`, the newest of them.
pub open spec fn history_to_prepend<P>(h: Seq<Candle<P>>, base: Seq<Candle<P>>, max: nat) -> Seq<
    Candle<P>,
> {
    let d = dedup_by_time(sort_by_time(h));
    let older = if base.len() > 0 {
        d.take(lower_bound(d, base[0].timestamp.0) as int)
    } else {
        d
    };
    keep_newest(older, (if base.len() <= max { max - base.len() } else { 0 }) as nat)
}

/// Every change of the chart's data gives a new revision.
pub proof fn law_revision_always_changes(r: u64)
    ensures
        next_revision(r) != r,
{
}

/// Loading history that is already strictly ordered by time and fits the
/// bound gives back that history as the base series (ordering it first
/// changes nothing).
pub proof fn law_load_sorted_history<P>(s: Seq<Candle<P>>, max: nat)
    requires
        strictly_increasing(s),
        s.len() <= max,
    ensures
        sort_by_time(s) == s,
        load_all(sort_by_time(s), max) == s,
{
    assert forall|i: int, j: int| 0 <= i < j < s.len() implies (#[trigger] s[i]).timestamp.0
        <= (#[trigger] s[j]).timestamp.0 by {
        assert(s[i].timestamp.0 < s[j].timestamp.0);
    }
    lemma_sort_by_time_sorted_input(s);
    lemma_load_all_sorted_input(s, max);
}

/// Older history goes before the loaded candles without breaking their
/// order: the result is strictly ordered by time and within the bound, and
/// every added candle is one of the requested candles, older than the oldest
/// loaded one.
pub proof fn law_prepend_keeps_order<P>(h: Seq<Candle<P>>, base: Seq<Candle<P>>, max: nat)
    requires
        strictly_increasing(base),
        base.len() <= max,
    ensures
        strictly_increasing(history_to_prepend(h, base, max) + base),
        (history_to_prepend(h, base, max) + base).len() <= max,
        forall|i: int|
            0 <= i < history_to_prepend(h, base, max).len() ==> base.len() > 0 ==> (#[trigger] history_to_prepend(
                h,
                base,
                max,
            )[i]).timestamp.0 < base[0].timestamp.0,
        forall|i: int|
            0 <= i < history_to_prepend(h, base, max).len() ==> h.contains(
                #[trigger] history_to_prepend(h, base, max)[i],
            ),
{
    let sorted = sort_by_time(h);
    let d = dedup_by_time(sorted);
    lemma_sort_by_time_sorted(h);
    lemma_dedup_by_time_props(sorted);
    lemma_sort_by_time_members(h);
    lemma_dedup_by_time_members(sorted);
    let t0: u64 = if base.len() > 0 {
        base[0].timestamp.0
    } else {
        0
    };
    lemma_lower_bound_props(d, t0);
    let older = if base.len() > 0 {
        d.take(lower_bound(d, t0) as int)
    } else {
        d
    };
    let room: nat = (max - base.len()) as nat;
    let p = history_to_prepend(h, base, max);
    assert(p == keep_newest(older, room));
    let off: int = if older.len() > room {
        older.len() - room
    } else {
        0
    };
    assert forall|i: int| 0 <= i < p.len() implies (#[trigger] p[i]) == d[i + off] by {
    }
    assert forall|i: int| 0 <= i < p.len() implies h.contains(#[trigger] p[i]) by {
        assert(p[i] == d[i + off]);
        assert(sorted.contains(d[i + off]));
        let w = choose|w: int| 0 <= w < sorted.len() && sorted[w] == d[i + off];
        assert(h.contains(sorted[w]));
    }
    let all = p + base;
    assert forall|a: int, b: int| 0 <= a < b < all.len() implies (#[trigger] all[a]).timestamp.0
        < (#[trigger] all[b]).timestamp.0 by {
        let kl = p.len() as int;
        if b < kl {
            assert(all[a] == d[a + off] && all[b] == d[b + off]);
        } else if a < kl {
            assert(all[a] == d[a + off] && all[b] == base[b - kl]);
            if b - kl > 0 {
                assert(base[0].timestamp.0 < base[b - kl].timestamp.0);
            }
        } else {
            assert(all[a] == base[a - kl] && all[b] == base[b - kl]);
        }
    }
}

/// Later times never fall into earlier buckets.
proof fn lemma_bucket_of_monotone(k: int, t1: u64, t2: u64)
    requires
        t1 <= t2,
    ensures
        bucket_of(k, t1) <= bucket_of(k, t2),
{
    let d = slot_interval(k).spec_duration_ms() as int;
    assert(d > 0);
    let a = t1 as int;
    let b = t2 as int;
    assert((a / d) * d <= (b / d) * d) by (nonlinear_arith)
        requires
            0 <= a <= b,
            d > 0,
    {
        assert(a / d <= b / d) by {
            vstd::arithmetic::div_mod::lemma_div_is_ordered(a, b, d);
        }
    }
    assert(0 <= (a / d) * d <= a) by (nonlinear_arith)
        requires
            0 <= a,
            d > 0,
    {
        vstd::arithmetic::div_mod::lemma_fundamental_div_mod(a, d);
    }
    assert(0 <= (b / d) * d <= b) by (nonlinear_arith)
        requires
            0 <= b,
            d > 0,
    {
        vstd::arithmetic::div_mod::lemma_fundamental_div_mod(b, d);
    }
}

/// Restamping candles ordered by time at their bucket starts keeps them ordered.
proof fn lemma_bucketed_non_decreasing<P>(s: Seq<Candle<P>>, k: int)
    requires
        non_decreasing(s),
    ensures
        non_decreasing(bucketed(s, k)),
{
    let b = bucketed(s, k);
    assert forall|i: int, j: int| 0 <= i < j < b.len() implies (#[trigger] b[i]).timestamp.0
        <= (#[trigger] b[j]).timestamp.0 by {
        lemma_bucket_of_monotone(k, s[i].timestamp.0, s[j].timestamp.0);
    }
}

/// Loading candles ordered by time, with room for all of them, keeps one
/// candle per timestamp: the timestamps are those of the first candle of
/// each run of equal timestamps.
proof fn lemma_load_all_ordered_timestamps<P>(s: Seq<Candle<P>>, max: nat)
    requires
        non_decreasing(s),
        dedup_by_time(s).len() <= max,
    ensures
        timestamps(load_all(s, max)) == timestamps(dedup_by_time(s)),
    decreases s.len(),
{
    if s.len() > 0 {
        let d0 = s.drop_last();
        assert forall|i: int, j: int| 0 <= i < j < d0.len() implies (#[trigger] d0[i]).timestamp.0
            <= (#[trigger] d0[j]).timestamp.0 by {
            assert(d0[i] == s[i] && d0[j] == s[j]);
        }
        lemma_dedup_by_time_props(d0);
        lemma_dedup_by_time_props(s);
        let dd = dedup_by_time(d0);
        if s.len() > 1 {
            assert(dedup_by_time(s) == dd || dedup_by_time(s) == dd.push(s.last()));
            assert(dd.len() <= dedup_by_time(s).len());
        }
        lemma_load_all_ordered_timestamps(d0, max);
        let l = load_all(d0, max);
        law_loaded_history_ordered_and_bounded(d0, max);
        let c = s.last();
        if d0.len() == 0 {
            lemma_add_bounded_newest(l, c, max);
            assert(l.len() == 0);
            assert(timestamps(load_all(s, max)) =~= timestamps(dedup_by_time(s)));
        } else {
            assert(l.len() == timestamps(l).len());
            assert(dd.len() == timestamps(dd).len());
            assert(l.last().timestamp.0 == timestamps(l)[l.len() - 1]);
            assert(dd.last().timestamp.0 == timestamps(dd)[dd.len() - 1]);
            assert(dd.last().timestamp == d0.last().timestamp);
            assert(d0.last() == s[s.len() - 2]);
            assert(s[s.len() - 2].timestamp.0 <= c.timestamp.0);
            if l.last().timestamp == c.timestamp {
                lemma_add_bounded_at_latest(l, c, max);
                assert(dedup_by_time(s) == dd);
                assert(timestamps(l.update(l.len() - 1, c)) =~= timestamps(l));
            } else {
                lemma_add_bounded_newest(l, c, max);
                assert(dedup_by_time(s) == dd.push(c));
                let r = l.push(c);
                assert(r.len() <= max);
                assert(timestamps(r) =~= timestamps(l).push(c.timestamp.0));
                assert(timestamps(dd.push(c)) =~= timestamps(dd).push(c.timestamp.0));
            }
        }
    }
}

/// The candles of `s` whose bucket of slot `k` starts at `b`, in order.
pub open spec fn in_bucket<P>(s: Seq<Candle<P>>, k: int, b: u64) -> Seq<Candle<P>> {
    s.filter(|c: Candle<P>| bucket_of(k, c.timestamp.0) == b)
}

/// Every candle of the derived series `d` (slot `k`) holds the roll-up of
/// the candles of `input` that fall into its bucket.
pub open spec fn rolled_from<P: CandlePayload>(d: Seq<Candle<P>>, input: Seq<Candle<P>>, k: int) -> bool {
    forall|j: int|
        0 <= j < d.len() ==> rolled_up(
            payloads(in_bucket(input, k, d[j].timestamp.0)),
            (#[trigger] d[j]).ohlcv,
        )
}

/// What loading candle `i` of the ordered candles `s` did to the series of
/// slot `k`, with room for `cap` candles: it merged into the bucket of the
/// candle before it when that bucket is the same (and there is room), else
/// opened its bucket, closing the previous one (reported with its rolled-up
/// payload) once there was one; the step's payload is the roll-up of the
/// candles so far in its bucket (with no room: the candle's seed).
pub open spec fn loaded_step<P: CandlePayload>(step: BucketStep<P>, s: Seq<Candle<P>>, i: int, k: int, cap: nat) -> bool {
    let b = bucket_of(k, s[i].timestamp.0);
    let had = i > 0 && cap > 0;
    let merged = had && bucket_of(k, s[i - 1].timestamp.0) == b;
    &&& merged ==> step is Merged
    &&& !merged ==> (step matches BucketStep::Opened { flushed, .. } && (had ==> (flushed matches Some(
        p,
    ) && rolled_up(payloads(in_bucket(s.take(i), k, bucket_of(k, s[i - 1].timestamp.0))), p))) && (!had
        ==> flushed is None))
    &&& cap > 0 ==> rolled_up(payloads(in_bucket(s.take(i + 1), k, b)), step.spec_ohlcv())
    &&& cap == 0 ==> call_ensures(P::bucket_seed, (&s[i].ohlcv,), step.spec_ohlcv())
}

/// The report of loading candle `i` of the ordered candles `s` into emptied
/// series bounded by `cap`: the candle, whether it was newer than or
/// replaced the newest base candle, and one `loaded_step` per derived series.
pub open spec fn loaded_report<P: CandlePayload>(r: CandleReport<P>, s: Seq<Candle<P>>, i: int, cap: nat) -> bool {
    let pre = load_all(s.take(i), cap);
    &&& r.candle == s[i]
    &&& r.base_is_new == (pre.len() == 0 || s[i].timestamp.0 > pre.last().timestamp.0)
    &&& r.base_is_update == (pre.len() > 0 && s[i].timestamp == pre.last().timestamp)
    &&& r.steps@.len() == SLOT_COUNT - 1
    &&& forall|k: int| 1 <= k < SLOT_COUNT ==> loaded_step(#[trigger] r.steps@[k - 1], s, i, k, cap)
}

proof fn lemma_in_bucket_push<P>(s: Seq<Candle<P>>, c: Candle<P>, k: int, b: u64)
    ensures
        in_bucket(s.push(c), k, b) == (if bucket_of(k, c.timestamp.0) == b {
            in_bucket(s, k, b).push(c)
        } else {
            in_bucket(s, k, b)
        }),
{
    reveal(Seq::filter);
    assert(s.push(c).drop_last() =~= s);
}

proof fn lemma_in_bucket_none<P>(s: Seq<Candle<P>>, k: int, b: u64)
    requires
        forall|i: int| 0 <= i < s.len() ==> bucket_of(k, (#[trigger] s[i]).timestamp.0) != b,
    ensures
        in_bucket(s, k, b).len() == 0,
    decreases s.len(),
{
    reveal(Seq::filter);
    if s.len() > 0 {
        let d = s.drop_last();
        assert forall|i: int| 0 <= i < d.len() implies bucket_of(k, (#[trigger] d[i]).timestamp.0) != b by {
            assert(d[i] == s[i]);
        }
        lemma_in_bucket_none(d, k, b);
        assert(d.push(s.last()) =~= s);
        lemma_in_bucket_push(d, s.last(), k, b);
    }
}

proof fn lemma_rolled_up_push<P: CandlePayload>(ps: Seq<P>, r: P, x: P, r2: P)
    requires
        rolled_up(ps, r),
        call_ensures(P::merge, (&r, &x), r2),
    ensures
        rolled_up(ps.push(x), r2),
{
    let acc = choose|acc: Seq<P>| #[trigger] is_rollup(ps, acc) && acc.len() > 0 && r == acc.last();
    let q = ps.push(x);
    assert(q.take(ps.len() as int) =~= ps);
    assert(q[ps.len() as int] == x);
    lemma_rollup_step(q, acc, ps.len() as int, r2);
    assert(q.take(ps.len() as int + 1) =~= q);
    assert(is_rollup(q, acc.push(r2)));
}

proof fn lemma_rolled_up_single<P: CandlePayload>(x: P, r: P)
    requires
        call_ensures(P::bucket_seed, (&x,), r),
    ensures
        rolled_up(seq![x], r),
{
    let q = seq![x];
    lemma_rollup_start(q, r);
    assert(q.take(1) =~= q);
    assert(is_rollup(q, seq![r]));
}

/// One candle of ordered history loaded into a derived series: the series
/// keeps rolling up the candles of each bucket, its newest bucket is the
/// candle's, and the step is as `loaded_step` says.
proof fn lemma_loaded_slot_step<P: CandlePayload>(
    s_old: Seq<Candle<P>>,
    s_new: Seq<Candle<P>>,
    was_open: bool,
    now_open: bool,
    s: Seq<Candle<P>>,
    i: int,
    k: int,
    cap: nat,
    step: BucketStep<P>,
)
    requires
        non_decreasing(s),
        0 <= i < s.len(),
        1 <= k < SLOT_COUNT,
        strictly_increasing(s_old),
        s_old.len() <= cap,
        rolled_from(s_old, s.take(i), k),
        i > 0 && cap > 0 ==> s_old.len() > 0 && s_old.last().timestamp.0 == bucket_of(k, s[i - 1].timestamp.0),
        !(i > 0 && cap > 0) ==> s_old.len() == 0,
        was_open == (i > 0),
        bucket_step_holds(s_old, was_open, s_new, now_open, k, s[i].timestamp.0, s[i].ohlcv, cap, step),
    ensures
        rolled_from(s_new, s.take(i + 1), k),
        cap > 0 ==> s_new.len() > 0 && s_new.last().timestamp.0 == bucket_of(k, s[i].timestamp.0),
        cap == 0 ==> s_new.len() == 0,
        now_open,
        loaded_step(step, s, i, k, cap),
{
    let c = s[i];
    let b = bucket_of(k, c.timestamp.0);
    let pre = s.take(i);
    let post = s.take(i + 1);
    assert(post =~= pre.push(c));
    let had = i > 0 && cap > 0;
    // every earlier candle lies in a bucket no later than the previous candle's
    if i > 0 {
        assert forall|j: int| 0 <= j < pre.len() implies bucket_of(k, (#[trigger] pre[j]).timestamp.0) <= bucket_of(
            k,
            s[i - 1].timestamp.0,
        ) by {
            assert(pre[j] == s[j]);
            if j < i - 1 {
                lemma_bucket_of_monotone(k, s[j].timestamp.0, s[i - 1].timestamp.0);
            }
        }
        lemma_bucket_of_monotone(k, s[i - 1].timestamp.0, c.timestamp.0);
    }
    let newc = Candle { timestamp: Timestamp(b), ohlcv: step.spec_ohlcv() };
    assert forall|j: int| 0 <= j < s_old.len() && s_old[j].timestamp.0 != b implies in_bucket(post, k, s_old[j].timestamp.0)
        == in_bucket(pre, k, s_old[j].timestamp.0) by {
        lemma_in_bucket_push(pre, c, k, s_old[j].timestamp.0);
    }
    lemma_in_bucket_push(pre, c, k, b);
    let merged = s_old.len() > 0 && s_old.last().timestamp.0 == b;
    assert(merged == (had && bucket_of(k, s[i - 1].timestamp.0) == b));
    if merged {
        let n = s_old.len() as int;
        lemma_add_bounded_at_latest(s_old, newc, cap);
        assert(s_new == s_old.update(n - 1, newc));
        assert forall|j: int| 0 <= j < n - 1 implies s_old[j].timestamp.0 != b by {
            assert(s_old[j].timestamp.0 < s_old[n - 1].timestamp.0);
        }
        assert(in_bucket(post, k, b) == in_bucket(pre, k, b).push(c));
        assert(rolled_up(payloads(in_bucket(pre, k, b)), s_old[n - 1].ohlcv));
        assert(payloads(in_bucket(post, k, b)) =~= payloads(in_bucket(pre, k, b)).push(c.ohlcv));
        lemma_rolled_up_push(payloads(in_bucket(pre, k, b)), s_old[n - 1].ohlcv, c.ohlcv, step.spec_ohlcv());
        assert forall|j: int| 0 <= j < s_new.len() implies rolled_up(
            payloads(in_bucket(post, k, s_new[j].timestamp.0)),
            (#[trigger] s_new[j]).ohlcv,
        ) by {
            if j < n - 1 {
                assert(s_new[j] == s_old[j]);
            }
        }
    } else {
        // the candle opens its bucket: nothing before it lies there
        if had {
            assert(bucket_of(k, s[i - 1].timestamp.0) < b);
        }
        if i == 0 || had {
            assert forall|j: int| 0 <= j < pre.len() implies bucket_of(k, (#[trigger] pre[j]).timestamp.0) != b by {}
            lemma_in_bucket_none(pre, k, b);
            assert(in_bucket(post, k, b) =~= seq![c]);
            assert(payloads(in_bucket(post, k, b)) =~= seq![c.ohlcv]);
            lemma_rolled_up_single(c.ohlcv, step.spec_ohlcv());
        }
        assert(s_old.len() == 0 || b > s_old.last().timestamp.0);
        law_live_candle(s_old, newc, cap);
        let q = s_old.push(newc);
        assert(s_new == keep_newest(q, cap));
        if cap > 0 {
            let off: int = if q.len() > cap { q.len() - cap } else { 0 };
            assert(s_new =~= q.subrange(off, q.len() as int));
            assert forall|j: int| 0 <= j < s_new.len() implies rolled_up(
                payloads(in_bucket(post, k, s_new[j].timestamp.0)),
                (#[trigger] s_new[j]).ohlcv,
            ) by {
                assert(s_new[j] == q[j + off]);
                if j + off < s_old.len() {
                    assert(q[j + off] == s_old[j + off]);
                    assert(s_old[j + off].timestamp.0 != b) by {
                        if s_old.len() > 0 && j + off < s_old.len() - 1 {
                            assert(s_old[j + off].timestamp.0 < s_old.last().timestamp.0);
                        }
                    }
                }
            }
            assert(s_new.last() == newc);
        } else {
            assert(s_new.len() == 0);
        }
    }
}

/// Roll-up: loading history ordered by time into a chart with room for it
/// leaves in each derived series exactly one candle per bucket that a
/// candle of the history falls into, in time order.
pub proof fn law_rollup_one_candle_per_bucket<P>(s: Seq<Candle<P>>, k: int, max: nat)
    requires
        non_decreasing(s),
        1 <= k < SLOT_COUNT,
        dedup_by_time(bucketed(s, k)).len() <= max,
    ensures
        timestamps(load_all(bucketed(s, k), max)) == timestamps(dedup_by_time(bucketed(s, k))),
        strictly_increasing(dedup_by_time(bucketed(s, k))),
{
    lemma_bucketed_non_decreasing(s, k);
    lemma_load_all_ordered_timestamps(bucketed(s, k), max);
    lemma_dedup_by_time_props(bucketed(s, k));
}

/// The candle data of a chart: one bounded series per timeframe, the base
/// series fed with candles and the others rolled up from it.
pub struct ChartData<P> {
    id: String,
    chart_type: ChartType,
    indicators: Vec<Indicator>,
    series: Vec<CandleSeries<P>>,
    open_buckets: Vec<bool>,
    revision: u64,
}

impl<P: CandlePayload> ChartData<P> {
    /// The series of slot `k`.
    pub closed spec fn slot(&self, k: int) -> Seq<Candle<P>> {
        self.series@[k]@
    }

    /// The base (two-second) series.
    pub open spec fn base(&self) -> Seq<Candle<P>> {
        self.slot(0)
    }

    /// Whether the newest bucket of slot `k` is still open (not yet closed
    /// into the indicators).
    pub closed spec fn is_open(&self, k: int) -> bool {
        self.open_buckets@[k]
    }

    /// The bound shared by all series.
    pub closed spec fn spec_capacity(&self) -> nat {
        self.series@[0].spec_max_size()
    }

    pub closed spec fn spec_revision(&self) -> u64 {
        self.revision
    }

    pub closed spec fn spec_id(&self) -> Seq<char> {
        self.id@
    }

    pub closed spec fn spec_chart_type(&self) -> ChartType {
        self.chart_type
    }

    pub closed spec fn spec_indicators(&self) -> Seq<Indicator> {
        self.indicators@
    }

    /// Same series, open buckets and revision.
    pub open spec fn same_data(&self, other: &Self) -> bool {
        &&& forall|k: int| 0 <= k < SLOT_COUNT ==> #[trigger] self.slot(k) == other.slot(k)
        &&& forall|k: int| 0 <= k < SLOT_COUNT ==> #[trigger] self.is_open(k) == other.is_open(k)
        &&& self.spec_capacity() == other.spec_capacity()
        &&& self.spec_revision() == other.spec_revision()
        &&& other.wf() ==> self.wf()
    }

    pub closed spec fn layout_ok(&self) -> bool {
        &&& self.series@.len() == SLOT_COUNT
        &&& self.open_buckets@.len() == SLOT_COUNT
        &&& forall|k: int|
            0 <= k < SLOT_COUNT ==> (#[trigger] self.series@[k]).spec_max_size()
                == self.series@[0].spec_max_size()
    }

    /// Every series ordered by time and within the bound; every derived
    /// candle stamped at the start of its bucket.
    pub open spec fn wf(&self) -> bool {
        &&& self.layout_ok()
        &&& forall|k: int|
            0 <= k < SLOT_COUNT ==> strictly_increasing(#[trigger] self.slot(k)) && self.slot(
                k,
            ).len() <= self.spec_capacity()
        &&& forall|k: int, i: int|
            1 <= k < SLOT_COUNT && 0 <= i < self.slot(k).len() ==> (#[trigger] self.slot(k)[i]).timestamp.0
                % slot_interval(k).spec_duration_ms() == 0
    }

    proof fn lemma_slot_wf(&self, k: int)
        requires
            self.wf(),
            0 <= k < SLOT_COUNT,
        ensures
            self.series@[k].wf(),
            self.series@[k].spec_max_size() == self.spec_capacity(),
    {
        assert(strictly_increasing(self.slot(k)));
    }

    fn fresh_series(max_candles: usize) -> (r: Vec<CandleSeries<P>>)
        ensures
            r@.len() == SLOT_COUNT,
            forall|k: int|
                0 <= k < SLOT_COUNT ==> (#[trigger] r@[k])@ == Seq::<Candle<P>>::empty()
                    && r@[k].spec_max_size() == max_candles,
    {
        let mut v: Vec<CandleSeries<P>> = Vec::new();
        let mut k: usize = 0;
        while k < SLOT_COUNT
            invariant
                k <= SLOT_COUNT,
                v@.len() == k,
                forall|j: int|
                    0 <= j < k ==> (#[trigger] v@[j])@ == Seq::<Candle<P>>::empty()
                        && v@[j].spec_max_size() == max_candles,
            decreases SLOT_COUNT - k,
        {
            v.push(CandleSeries::new(max_candles));
            k += 1;
        }
        v
    }

    fn closed_buckets() -> (r: Vec<bool>)
        ensures
            r@.len() == SLOT_COUNT,
            forall|k: int| 0 <= k < SLOT_COUNT ==> !(#[trigger] r@[k]),
    {
        let mut v: Vec<bool> = Vec::new();
        let mut k: usize = 0;
        while k < SLOT_COUNT
            invariant
                k <= SLOT_COUNT,
                v@.len() == k,
                forall|j: int| 0 <= j < k ==> !(#[trigger] v@[j]),
            decreases SLOT_COUNT - k,
        {
            v.push(false);
            k += 1;
        }
        v
    }

    /// An empty chart whose series each hold at most `max_candles` candles.
    pub fn new(id: String, chart_type: ChartType, max_candles: usize) -> (c: Self)
        ensures
            c.wf(),
            c.spec_id() == id@,
            c.spec_chart_type() == chart_type,
            c.spec_indicators().len() == 0,
            c.spec_capacity() == max_candles,
            c.spec_revision() == 0,
            forall|k: int| 0 <= k < SLOT_COUNT ==> #[trigger] c.slot(k).len() == 0,
    {
        let c = ChartData {
            id,
            chart_type,
            indicators: Vec::new(),
            series: Self::fresh_series(max_candles),
            open_buckets: Self::closed_buckets(),
            revision: 0,
        };
        c
    }

    pub fn id(&self) -> (r: &str)
        ensures
            r@ == self.spec_id(),
    {
        self.id.as_str()
    }

    pub fn chart_type(&self) -> (r: ChartType)
        ensures
            r == self.spec_chart_type(),
    {
        self.chart_type
    }

    pub fn indicators(&self) -> (r: &Vec<Indicator>)
        ensures
            r@ == self.spec_indicators(),
    {
        &self.indicators
    }

    /// Monotonic data revision, changed by every accepted update.
    pub fn revision(&self) -> (r: u64)
        ensures
            r == self.spec_revision(),
    {
        self.revision
    }

    fn bump_revision(&mut self)
        ensures
            final(self).spec_revision() == next_revision(old(self).spec_revision()),
            final(self).series == old(self).series,
            final(self).open_buckets == old(self).open_buckets,
            final(self).id == old(self).id,
            final(self).chart_type == old(self).chart_type,
            final(self).indicators == old(self).indicators,
            old(self).wf() ==> final(self).wf(),
            final(self).spec_capacity() == old(self).spec_capacity(),
            forall|k: int| 0 <= k < SLOT_COUNT ==> #[trigger] final(self).slot(k) == old(self).slot(k),
            forall|k: int| 0 <= k < SLOT_COUNT ==> #[trigger] final(self).is_open(k) == old(self).is_open(k),
    {
        self.revision = self.revision.wrapping_add(1);
        assert(forall|k: int| 0 <= k < SLOT_COUNT ==> #[trigger] self.slot(k) == old(self).slot(k));
        assert(old(self).wf() ==> self.wf());
    }

    /// The series of a timeframe, when the chart shows that timeframe.
    pub fn get_series(&self, interval: TimeInterval) -> (r: Option<&CandleSeries<P>>)
        requires
            self.wf(),
        ensures
            spec_slot_of(interval) is None ==> r is None,
            spec_slot_of(interval) matches Some(k) ==> (r matches Some(s) && s@ == self.slot(
                k as int,
            ) && s.wf() && s.spec_max_size() == self.spec_capacity()),
    {
        match slot_of(interval) {
            Some(k) => {
                proof {
                    self.lemma_slot_wf(k as int);
                }
                Some(&self.series[k])
            },
            None => None,
        }
    }

    /// Total number of candles (in the base series).
    pub fn get_candle_count(&self) -> (n: usize)
        requires
            self.wf(),
        ensures
            n == self.base().len(),
    {
        self.series[0].count()
    }

    /// Whether the base series holds any candle.
    pub fn has_data(&self) -> (b: bool)
        requires
            self.wf(),
        ensures
            b == (self.base().len() > 0),
    {
        self.series[0].count() > 0
    }

    pub fn add_indicator(&mut self, indicator: Indicator)
        ensures
            final(self).spec_indicators() == old(self).spec_indicators().push(indicator),
            final(self).same_data(old(self)),
            final(self).spec_id() == old(self).spec_id(),
    {
        self.indicators.push(indicator);
        assert(self.series == old(self).series);
        assert(forall|k: int| 0 <= k < SLOT_COUNT ==> #[trigger] self.slot(k) == old(self).slot(k));
        assert(forall|k: int| 0 <= k < SLOT_COUNT ==> #[trigger] self.is_open(k) == old(self).is_open(k));
        assert(self.spec_capacity() == old(self).spec_capacity());
        assert(old(self).wf() ==> self.wf());
    }

    /// Remove every indicator with the given id, keeping the others in order.
    pub fn remove_indicator(&mut self, indicator_id: &str)
        ensures
            final(self).spec_indicators() == old(self).spec_indicators().filter(
                |ind: Indicator| ind.id@ != indicator_id@,
            ),
            final(self).same_data(old(self)),
            final(self).spec_id() == old(self).spec_id(),
    {
        let target = String::from_str(indicator_id);
        let ghost pred = |ind: Indicator| ind.id@ != indicator_id@;
        let ghost orig = self.indicators@;
        let ghost mut consumed: int = 0;
        let mut j: usize = 0;
        while j < self.indicators.len()
            invariant
                0 <= consumed <= orig.len(),
                j <= self.indicators@.len(),
                self.indicators@.len() - j == orig.len() - consumed,
                self.indicators@.take(j as int) == orig.take(consumed).filter(pred),
                self.indicators@.skip(j as int) == orig.skip(consumed),
                target@ == indicator_id@,
                pred == (|ind: Indicator| ind.id@ != indicator_id@),
                self.series == old(self).series,
                self.open_buckets == old(self).open_buckets,
                self.revision == old(self).revision,
                self.id == old(self).id,
            decreases self.indicators@.len() - j,
        {
            let ghost before = self.indicators@;
            let ghost x = orig[consumed];
            proof {
                assert(before.skip(j as int)[0] == orig.skip(consumed)[0]);
                assert(before[j as int] == x);
                reveal_with_fuel(Seq::filter, 1);
                assert(orig.take(consumed + 1).drop_last() =~= orig.take(consumed));
                assert(orig.take(consumed + 1).last() == x);
            }
            if self.indicators[j].id == target {
                let _ = self.indicators.remove(j);
                proof {
                    assert(self.indicators@.take(j as int) =~= before.take(j as int));
                    let a = self.indicators@.skip(j as int);
                    let b = orig.skip(consumed + 1);
                    assert forall|m: int| 0 <= m < a.len() implies a[m] == b[m] by {
                        assert(before.skip(j as int)[m + 1] == orig.skip(consumed)[m + 1]);
                    }
                    assert(a =~= b);
                }
            } else {
                j += 1;
                proof {
                    assert(self.indicators@.take(j as int) =~= before.take(j - 1).push(x));
                    let a = self.indicators@.skip(j as int);
                    let b = orig.skip(consumed + 1);
                    assert forall|m: int| 0 <= m < a.len() implies a[m] == b[m] by {
                        assert(before.skip(j - 1)[m + 1] == orig.skip(consumed)[m + 1]);
                    }
                    assert(a =~= b);
                }
            }
            proof {
                consumed = consumed + 1;
            }
        }
        proof {
            assert(self.indicators@ =~= self.indicators@.take(j as int));
            assert(orig.take(consumed) =~= orig);
        }
        assert(forall|k: int| 0 <= k < SLOT_COUNT ==> #[trigger] self.slot(k) == old(self).slot(k));
        assert(forall|k: int| 0 <= k < SLOT_COUNT ==> #[trigger] self.is_open(k) == old(self).is_open(k));
        assert(old(self).wf() ==> self.wf());
    }
}


impl<P: CandlePayload> ChartData<P> {
    proof fn lemma_wf_after_slot_change(&self, pre: &Self, k: int)
        requires
            pre.wf(),
            0 <= k < SLOT_COUNT,
            self.series@.len() == SLOT_COUNT,
            self.open_buckets@.len() == SLOT_COUNT,
            forall|j: int| 0 <= j < SLOT_COUNT && j != k ==> #[trigger] self.series@[j] == pre.series@[j],
            self.series@[k].wf(),
            self.series@[k].spec_max_size() == pre.spec_capacity(),
            k >= 1 ==> forall|i: int| 0 <= i < self.slot(k).len() ==> (#[trigger] self.slot(k)[i]).timestamp.0
                % slot_interval(k).spec_duration_ms() == 0,
        ensures
            self.wf(),
            self.spec_capacity() == pre.spec_capacity(),
            forall|j: int| 0 <= j < SLOT_COUNT && j != k ==> #[trigger] self.slot(j) == pre.slot(j),
    {
        assert(self.spec_capacity() == pre.spec_capacity()) by {
            if k != 0 {
                assert(self.series@[0] == pre.series@[0]);
            }
        }
        assert forall|j: int| 0 <= j < SLOT_COUNT implies (#[trigger] self.series@[j]).spec_max_size()
            == self.series@[0].spec_max_size() by {
            if j != k {
                assert(pre.series@[j].spec_max_size() == pre.series@[0].spec_max_size());
            }
        }
        assert forall|j: int| 0 <= j < SLOT_COUNT implies strictly_increasing(#[trigger] self.slot(j))
            && self.slot(j).len() <= self.spec_capacity() by {
            if j != k {
                assert(self.slot(j) == pre.slot(j));
            }
        }
        assert forall|j: int, i: int| 1 <= j < SLOT_COUNT && 0 <= i < self.slot(j).len() implies (#[trigger] self.slot(j)[i]).timestamp.0
            % slot_interval(j).spec_duration_ms() == 0 by {
            if j != k {
                assert(self.slot(j) == pre.slot(j));
            }
        }
    }

    /// Roll a candle up into the series of derived slot `k`.
    fn update_slot(&mut self, k: usize, candle: Candle<P>) -> (step: BucketStep<P>)
        requires
            old(self).wf(),
            1 <= k < SLOT_COUNT,
        ensures
            final(self).wf(),
            final(self).spec_capacity() == old(self).spec_capacity(),
            final(self).spec_revision() == old(self).spec_revision(),
            final(self).spec_id() == old(self).spec_id(),
            final(self).spec_chart_type() == old(self).spec_chart_type(),
            final(self).spec_indicators() == old(self).spec_indicators(),
            forall|j: int| 0 <= j < SLOT_COUNT && j != k ==> #[trigger] final(self).slot(j) == old(self).slot(j),
            forall|j: int| 0 <= j < SLOT_COUNT && j != k ==> #[trigger] final(self).is_open(j) == old(self).is_open(j),
            bucket_step_holds(
                old(self).slot(k as int),
                old(self).is_open(k as int),
                final(self).slot(k as int),
                final(self).is_open(k as int),
                k as int,
                candle.timestamp.0,
                candle.ohlcv,
                old(self).spec_capacity(),
                step,
            ),
    {
        let ghost s = self.slot(k as int);
        let ghost cap = self.spec_capacity();
        let ghost pre = *self;
        proof {
            self.lemma_slot_wf(k as int);
        }
        let interval = interval_of_slot(k);
        let b = interval.bucket_start(candle.timestamp.0);
        let d = interval.duration_ms();
        let latest: Option<Candle<P>> = match self.series[k].latest() {
            Some(l) => Some(*l),
            None => None,
        };
        let merged = match latest {
            Some(l) => l.timestamp.0 == b,
            None => false,
        };
        if merged {
            let l = latest.unwrap();
            let m = l.ohlcv.merge(&candle.ohlcv);
            self.series[k].set_latest_ohlcv(m);
            self.open_buckets.set(k, true);
            proof {
                lemma_add_bounded_at_latest(s, Candle { timestamp: Timestamp(b), ohlcv: m }, cap);
                assert(self.slot(k as int) =~= s.update(s.len() - 1, Candle { timestamp: Timestamp(b), ohlcv: m }));
                assert forall|i: int| 0 <= i < self.slot(k as int).len() implies (#[trigger] self.slot(k as int)[i]).timestamp.0
                    % slot_interval(k as int).spec_duration_ms() == 0 by {
                    assert(self.slot(k as int)[i].timestamp == s[i].timestamp);
                }
                self.lemma_wf_after_slot_change(&pre, k as int);
            }
            return BucketStep::Merged { ohlcv: m };
        }
        let newer = match latest {
            Some(l) => b > l.timestamp.0,
            None => true,
        };
        let mut flushed: Option<P> = None;
        if newer {
            let was_open = self.open_buckets[k];
            self.open_buckets.set(k, false);
            if was_open {
                flushed = match latest {
                    Some(l) => Some(l.ohlcv),
                    None => None,
                };
            }
        }
        let seed = candle.ohlcv.bucket_seed();
        let bucket = Candle { timestamp: Timestamp(b), ohlcv: seed };
        self.series[k].add_candle(bucket);
        proof {
            let pred = |c: Candle<P>| c.timestamp.0 % d == 0;
            assert forall|j: int| 0 <= j < s.len() implies #[trigger] pred(s[j]) by {
                assert(s[j].timestamp.0 % slot_interval(k as int).spec_duration_ms() == 0);
            }
            lemma_add_bounded_preserves(s, bucket, cap, pred);
            let s2 = self.slot(k as int);
            assert forall|i: int| 0 <= i < s2.len() implies (#[trigger] s2[i]).timestamp.0
                % slot_interval(k as int).spec_duration_ms() == 0 by {
                assert(pred(s2[i]));
            }
        }
        let step = if newer {
            self.open_buckets.set(k, true);
            BucketStep::Opened { ohlcv: seed, flushed }
        } else {
            BucketStep::Placed { ohlcv: seed }
        };
        proof {
            self.lemma_wf_after_slot_change(&pre, k as int);
        }
        step
    }
}

impl<P: CandlePayload> ChartData<P> {
    /// What adding `candle` to `pre` did, `self` being the chart after it: the
    /// base series took the candle and every derived series moved as
    /// `bucket_step_holds` says, the report recording each step.
    pub open spec fn report_holds(&self, pre: &Self, candle: Candle<P>, r: CandleReport<P>) -> bool {
        &&& self.base() == add_bounded(pre.base(), candle, pre.spec_capacity())
        &&& r.candle == candle
        &&& r.base_is_new == (pre.base().len() == 0 || candle.timestamp.0 > pre.base().last().timestamp.0)
        &&& r.base_is_update == (pre.base().len() > 0 && candle.timestamp == pre.base().last().timestamp)
        &&& r.steps@.len() == SLOT_COUNT - 1
        &&& forall|k: int|
            1 <= k < SLOT_COUNT ==> bucket_step_holds(
                pre.slot(k),
                pre.is_open(k),
                self.slot(k),
                self.is_open(k),
                k,
                candle.timestamp.0,
                candle.ohlcv,
                pre.spec_capacity(),
                #[trigger] r.steps@[k - 1],
            )
    }

    fn apply_candle(&mut self, candle: Candle<P>) -> (r: CandleReport<P>)
        requires
            old(self).wf(),
        ensures
            final(self).wf(),
            final(self).report_holds(old(self), candle, r),
            final(self).spec_capacity() == old(self).spec_capacity(),
            final(self).spec_revision() == old(self).spec_revision(),
            final(self).spec_id() == old(self).spec_id(),
            final(self).spec_chart_type() == old(self).spec_chart_type(),
            final(self).spec_indicators() == old(self).spec_indicators(),
    {
        let ghost pre = *self;
        proof {
            self.lemma_slot_wf(0);
        }
        let (base_is_new, base_is_update) = match self.series[0].latest() {
            Some(l) => (candle.timestamp.0 > l.timestamp.0, candle.timestamp.0 == l.timestamp.0),
            None => (true, false),
        };
        self.series[0].add_candle(candle);
        proof {
            self.lemma_wf_after_slot_change(&pre, 0);
        }
        let ghost mid = *self;
        let mut steps: Vec<BucketStep<P>> = Vec::new();
        let mut k: usize = 1;
        while k < SLOT_COUNT
            invariant
                1 <= k <= SLOT_COUNT,
                self.wf(),
                self.spec_capacity() == pre.spec_capacity(),
                self.spec_revision() == pre.spec_revision(),
                self.spec_id() == pre.spec_id(),
                self.spec_chart_type() == pre.spec_chart_type(),
                self.spec_indicators() == pre.spec_indicators(),
                steps@.len() == k - 1,
                self.slot(0) == mid.slot(0),
                forall|j: int| k <= j < SLOT_COUNT ==> #[trigger] self.slot(j) == pre.slot(j),
                forall|j: int| 1 <= j < SLOT_COUNT && j >= k ==> #[trigger] self.is_open(j) == pre.is_open(j),
                forall|j: int|
                    1 <= j < k ==> bucket_step_holds(
                        pre.slot(j),
                        pre.is_open(j),
                        self.slot(j),
                        self.is_open(j),
                        j,
                        candle.timestamp.0,
                        candle.ohlcv,
                        pre.spec_capacity(),
                        #[trigger] steps@[j - 1],
                    ),
            decreases SLOT_COUNT - k,
        {
            let ghost before = *self;
            let step = self.update_slot(k, candle);
            steps.push(step);
            proof {
                assert forall|j: int| 1 <= j < k + 1 implies bucket_step_holds(
                    pre.slot(j),
                    pre.is_open(j),
                    self.slot(j),
                    self.is_open(j),
                    j,
                    candle.timestamp.0,
                    candle.ohlcv,
                    pre.spec_capacity(),
                    #[trigger] steps@[j - 1],
                ) by {
                    if j < k {
                        assert(self.slot(j) == before.slot(j));
                        assert(self.is_open(j) == before.is_open(j));
                    }
                }
            }
            k += 1;
        }
        CandleReport { candle, base_is_new, base_is_update, steps }
    }

    /// Add a candle (history loaded in the background): see `report_holds`.
    pub fn add_candle(&mut self, candle: Candle<P>) -> (r: CandleReport<P>)
        requires
            old(self).wf(),
        ensures
            final(self).wf(),
            final(self).report_holds(old(self), candle, r),
            final(self).spec_capacity() == old(self).spec_capacity(),
            final(self).spec_revision() == next_revision(old(self).spec_revision()),
            final(self).spec_id() == old(self).spec_id(),
            final(self).spec_chart_type() == old(self).spec_chart_type(),
            final(self).spec_indicators() == old(self).spec_indicators(),
    {
        let r = self.apply_candle(candle);
        self.bump_revision();
        r
    }

    /// Add a candle arriving in real time: see `report_holds`.
    pub fn add_realtime_candle(&mut self, candle: Candle<P>) -> (r: CandleReport<P>)
        requires
            old(self).wf(),
        ensures
            final(self).wf(),
            final(self).report_holds(old(self), candle, r),
            final(self).spec_capacity() == old(self).spec_capacity(),
            final(self).spec_revision() == next_revision(old(self).spec_revision()),
            final(self).spec_id() == old(self).spec_id(),
            final(self).spec_chart_type() == old(self).spec_chart_type(),
            final(self).spec_indicators() == old(self).spec_indicators(),
    {
        let r = self.apply_candle(candle);
        self.bump_revision();
        r
    }
}

/// The series of slot `k` after the first `m` of `candles` were added, one
/// report at a time, to `charts[0]`: still the earlier candles, then one
/// candle at the start of the candles' bucket rolling up those `m` payloads.
proof fn lemma_bucket_rollup_prefix<P: CandlePayload>(
    charts: Seq<ChartData<P>>,
    candles: Seq<Candle<P>>,
    reports: Seq<CandleReport<P>>,
    k: int,
    m: int,
)
    requires
        1 <= k < SLOT_COUNT,
        1 <= m <= candles.len(),
        charts.len() == candles.len() + 1,
        reports.len() == candles.len(),
        forall|i: int|
            0 <= i < charts.len() ==> (#[trigger] charts[i]).wf() && charts[i].spec_capacity()
                == charts[0].spec_capacity(),
        forall|i: int|
            0 <= i < candles.len() ==> charts[i + 1].report_holds(&charts[i], candles[i], #[trigger] reports[i]),
        forall|i: int|
            0 <= i < candles.len() ==> bucket_of(k, (#[trigger] candles[i]).timestamp.0) == bucket_of(
                k,
                candles[0].timestamp.0,
            ),
        charts[0].slot(k).len() < charts[0].spec_capacity(),
        charts[0].slot(k).len() == 0 || charts[0].slot(k).last().timestamp.0 < bucket_of(k, candles[0].timestamp.0),
    ensures
        charts[m].slot(k).len() == charts[0].slot(k).len() + 1,
        charts[m].slot(k).take(charts[0].slot(k).len() as int) == charts[0].slot(k),
        charts[m].slot(k).last().timestamp.0 == bucket_of(k, candles[0].timestamp.0),
        rolled_up(payloads(candles.take(m)), charts[m].slot(k).last().ohlcv),
    decreases m,
{
    let b = bucket_of(k, candles[0].timestamp.0);
    let cap = charts[0].spec_capacity();
    let s0 = charts[0].slot(k);
    let i = m - 1;
    let pre = charts[i];
    let post = charts[m];
    let r = reports[i];
    let c = candles[i];
    assert(post.report_holds(&pre, c, r));
    let step = r.steps@[k - 1];
    assert(bucket_step_holds(
        pre.slot(k),
        pre.is_open(k),
        post.slot(k),
        post.is_open(k),
        k,
        c.timestamp.0,
        c.ohlcv,
        cap,
        step,
    ));
    assert(bucket_of(k, c.timestamp.0) == b);
    let newc = Candle { timestamp: Timestamp(b), ohlcv: step.spec_ohlcv() };
    assert(strictly_increasing(pre.slot(k)) && pre.slot(k).len() <= cap);
    assert(candles.take(m) =~= candles.take(i).push(c));
    assert(payloads(candles.take(m)) =~= payloads(candles.take(i)).push(c.ohlcv));
    if m == 1 {
        lemma_add_bounded_newest(s0, newc, cap);
        assert(post.slot(k) =~= s0.push(newc));
        assert(payloads(candles.take(m)) =~= seq![c.ohlcv]);
        lemma_rolled_up_single(c.ohlcv, step.spec_ohlcv());
        assert(post.slot(k).take(s0.len() as int) =~= s0);
    } else {
        lemma_bucket_rollup_prefix(charts, candles, reports, k, m - 1);
        let s = pre.slot(k);
        lemma_add_bounded_at_latest(s, newc, cap);
        assert(post.slot(k) == s.update(s.len() - 1, newc));
        lemma_rolled_up_push(payloads(candles.take(i)), s.last().ohlcv, c.ohlcv, step.spec_ohlcv());
        assert(post.slot(k).take(s0.len() as int) =~= s.take(s0.len() as int));
    }
}

/// Roll-up over several additions: candles that all fall into one bucket of
/// slot `k`, newer than that series' newest candle, added one after another
/// while the series has room, grow it by exactly one candle, stamped with the
/// bucket's start, whose payload is the roll-up of their payloads in order
/// (the first one's `bucket_seed`, the others `merge`d in); the earlier
/// candles stay as they were.
pub proof fn law_bucket_rolls_up_additions<P: CandlePayload>(
    charts: Seq<ChartData<P>>,
    candles: Seq<Candle<P>>,
    reports: Seq<CandleReport<P>>,
    k: int,
)
    requires
        1 <= k < SLOT_COUNT,
        candles.len() > 0,
        charts.len() == candles.len() + 1,
        reports.len() == candles.len(),
        forall|i: int|
            0 <= i < charts.len() ==> (#[trigger] charts[i]).wf() && charts[i].spec_capacity()
                == charts[0].spec_capacity(),
        forall|i: int|
            0 <= i < candles.len() ==> charts[i + 1].report_holds(&charts[i], candles[i], #[trigger] reports[i]),
        forall|i: int|
            0 <= i < candles.len() ==> bucket_of(k, (#[trigger] candles[i]).timestamp.0) == bucket_of(
                k,
                candles[0].timestamp.0,
            ),
        charts[0].slot(k).len() < charts[0].spec_capacity(),
        charts[0].slot(k).len() == 0 || charts[0].slot(k).last().timestamp.0 < bucket_of(k, candles[0].timestamp.0),
    ensures
        charts.last().slot(k).len() == charts[0].slot(k).len() + 1,
        charts.last().slot(k).take(charts[0].slot(k).len() as int) == charts[0].slot(k),
        charts.last().slot(k).last().timestamp.0 == bucket_of(k, candles[0].timestamp.0),
        rolled_up(payloads(candles), charts.last().slot(k).last().ohlcv),
{
    let n = candles.len() as int;
    lemma_bucket_rollup_prefix(charts, candles, reports, k, n);
    assert(candles.take(n) =~= candles);
}

impl<P: CandlePayload> ChartData<P> {
    /// Clear every series (keeping the bound) and close every bucket.
    fn reset_series(&mut self)
        requires
            old(self).wf(),
        ensures
            final(self).wf(),
            final(self).spec_capacity() == old(self).spec_capacity(),
            final(self).spec_revision() == old(self).spec_revision(),
            final(self).spec_id() == old(self).spec_id(),
            final(self).spec_chart_type() == old(self).spec_chart_type(),
            final(self).spec_indicators() == old(self).spec_indicators(),
            forall|k: int| 0 <= k < SLOT_COUNT ==> #[trigger] final(self).slot(k).len() == 0,
            forall|k: int| 0 <= k < SLOT_COUNT ==> !#[trigger] final(self).is_open(k),
    {
        let limit = self.series[0].capacity();
        self.series = Self::fresh_series(limit);
        self.open_buckets = Self::closed_buckets();
        proof {
            assert(self.spec_capacity() == limit);
            assert forall|k: int| 0 <= k < SLOT_COUNT implies strictly_increasing(#[trigger] self.slot(k))
                && self.slot(k).len() <= self.spec_capacity() by {
                assert(self.slot(k) == Seq::<Candle<P>>::empty());
            }
        }
    }

    /// Replace all data by `candles`: the candles are ordered by time (stably)
    /// and added one by one to emptied series, each derived series taking a
    /// candle at the start of each candle's bucket; the reports of those
    /// additions are returned in order.
    pub fn set_historical_data(&mut self, candles: Vec<Candle<P>>) -> (reports: Vec<CandleReport<P>>)
        requires
            old(self).wf(),
        ensures
            final(self).wf(),
            final(self).spec_capacity() == old(self).spec_capacity(),
            final(self).base() == load_all(sort_by_time(candles@), old(self).spec_capacity()),
            forall|k: int|
                1 <= k < SLOT_COUNT ==> timestamps(#[trigger] final(self).slot(k)) == timestamps(
                    load_all(bucketed(sort_by_time(candles@), k), old(self).spec_capacity()),
                ),
            final(self).spec_revision() == next_revision(old(self).spec_revision()),
            final(self).spec_id() == old(self).spec_id(),
            final(self).spec_chart_type() == old(self).spec_chart_type(),
            final(self).spec_indicators() == old(self).spec_indicators(),
            forall|k: int|
                1 <= k < SLOT_COUNT ==> rolled_from(#[trigger] final(self).slot(k), sort_by_time(candles@), k),
            reports@.len() == candles@.len(),
            forall|i: int|
                0 <= i < reports@.len() ==> loaded_report(
                    #[trigger] reports@[i],
                    sort_by_time(candles@),
                    i,
                    old(self).spec_capacity(),
                ),
    {
        let ghost cap = self.spec_capacity();
        let sorted = sort_candles(&candles);
        self.reset_series();
        proof {
            lemma_sort_by_time_sorted(candles@);
            assert forall|k: int| 1 <= k < SLOT_COUNT implies rolled_from(#[trigger] self.slot(k), sorted@.take(0), k) by {
                assert(self.slot(k).len() == 0);
            }
            assert(self.base() =~= load_all(sorted@.take(0), cap));
            assert forall|k: int| 1 <= k < SLOT_COUNT implies timestamps(#[trigger] self.slot(k))
                == timestamps(load_all(bucketed(sorted@.take(0), k), cap)) by {
                assert(bucketed(sorted@.take(0), k).len() == 0);
                assert(timestamps(self.slot(k)) =~= timestamps(load_all(bucketed(sorted@.take(0), k), cap)));
            }
        }
        let n = sorted.len();
        let mut reports: Vec<CandleReport<P>> = Vec::new();
        let mut i: usize = 0;
        while i < n
            invariant
                i <= n,
                n == sorted@.len(),
                sorted@ == sort_by_time(candles@),
                self.wf(),
                self.spec_capacity() == cap,
                self.spec_revision() == old(self).spec_revision(),
                self.spec_id() == old(self).spec_id(),
                self.spec_chart_type() == old(self).spec_chart_type(),
                self.spec_indicators() == old(self).spec_indicators(),
                self.base() == load_all(sorted@.take(i as int), cap),
                forall|k: int|
                    1 <= k < SLOT_COUNT ==> timestamps(#[trigger] self.slot(k)) == timestamps(
                        load_all(bucketed(sorted@.take(i as int), k), cap),
                    ),
                non_decreasing(sorted@),
                forall|k: int|
                    1 <= k < SLOT_COUNT ==> rolled_from(#[trigger] self.slot(k), sorted@.take(i as int), k),
                forall|k: int|
                    1 <= k < SLOT_COUNT && i > 0 && cap > 0 ==> (#[trigger] self.slot(k)).len() > 0
                        && self.slot(k).last().timestamp.0 == bucket_of(k, sorted@[i - 1].timestamp.0),
                forall|k: int|
                    1 <= k < SLOT_COUNT && !(i > 0 && cap > 0) ==> (#[trigger] self.slot(k)).len() == 0,
                forall|k: int| 1 <= k < SLOT_COUNT ==> #[trigger] self.is_open(k) == (i > 0),
                reports@.len() == i,
                forall|j: int| 0 <= j < i ==> loaded_report(#[trigger] reports@[j], sorted@, j, cap),
            decreases n - i,
        {
            let c = sorted[i];
            let ghost before = *self;
            let r = self.apply_candle(c);
            proof {
                assert forall|k: int| 1 <= k < SLOT_COUNT implies {
                    &&& rolled_from(#[trigger] self.slot(k), sorted@.take(i + 1), k)
                    &&& cap > 0 ==> self.slot(k).len() > 0 && self.slot(k).last().timestamp.0 == bucket_of(
                        k,
                        sorted@[i as int].timestamp.0,
                    )
                    &&& cap == 0 ==> self.slot(k).len() == 0
                    &&& self.is_open(k)
                    &&& loaded_step(r.steps@[k - 1], sorted@, i as int, k, cap)
                } by {
                    assert(bucket_step_holds(
                        before.slot(k),
                        before.is_open(k),
                        self.slot(k),
                        self.is_open(k),
                        k,
                        c.timestamp.0,
                        c.ohlcv,
                        cap,
                        r.steps@[k - 1],
                    ));
                    before.lemma_slot_wf(k);
                    lemma_loaded_slot_step(
                        before.slot(k),
                        self.slot(k),
                        before.is_open(k),
                        self.is_open(k),
                        sorted@,
                        i as int,
                        k,
                        cap,
                        r.steps@[k - 1],
                    );
                }
                assert(loaded_report(r, sorted@, i as int, cap));
                assert(sorted@.take(i + 1).drop_last() =~= sorted@.take(i as int));
                assert(sorted@.take(i + 1).last() == c);
                assert forall|k: int| 1 <= k < SLOT_COUNT implies timestamps(#[trigger] self.slot(k))
                    == timestamps(load_all(bucketed(sorted@.take(i + 1), k), cap)) by {
                    let bt = bucketed(sorted@.take(i + 1), k);
                    assert(bt.drop_last() =~= bucketed(sorted@.take(i as int), k));
                    let b = bucket_of(k, c.timestamp.0);
                    assert(bt.last() == Candle { timestamp: Timestamp(b), ohlcv: c.ohlcv });
                    assert(bucket_step_holds(
                        before.slot(k),
                        before.is_open(k),
                        self.slot(k),
                        self.is_open(k),
                        k,
                        c.timestamp.0,
                        c.ohlcv,
                        cap,
                        r.steps@[k - 1],
                    ));
                    lemma_add_bounded_timestamps(
                        before.slot(k),
                        load_all(bucketed(sorted@.take(i as int), k), cap),
                        Candle { timestamp: Timestamp(b), ohlcv: r.steps@[k - 1].spec_ohlcv() },
                        bt.last(),
                        cap,
                    );
                }
            }
            let ghost old_reports = reports@;
            reports.push(r);
            proof {
                assert forall|j: int| 0 <= j < i + 1 implies loaded_report(#[trigger] reports@[j], sorted@, j, cap) by {
                    if j < i {
                        assert(reports@[j] == old_reports[j]);
                    }
                }
            }
            i += 1;
            proof {
                assert forall|k: int| 1 <= k < SLOT_COUNT implies #[trigger] self.is_open(k) == (i > 0) by {
                    assert(rolled_from(self.slot(k), sorted@.take(i as int), k));
                }
            }
        }
        proof {
            assert(sorted@.take(n as int) =~= sorted@);
            assert(forall|k: int| 1 <= k < SLOT_COUNT ==> #[trigger] bucketed(sorted@.take(n as int), k) == bucketed(sorted@, k));
        }
        self.bump_revision();
        reports
    }

    /// Install a base series already ordered by time without deriving the
    /// other timeframes: the candles are loaded in order (the last of each
    /// timestamp stays, the newest are kept within the bound) and the other
    /// series are left empty.
    pub fn set_base_series(&mut self, candles: Vec<Candle<P>>)
        requires
            old(self).wf(),
            non_decreasing(candles@),
        ensures
            final(self).wf(),
            final(self).spec_capacity() == old(self).spec_capacity(),
            final(self).base() == load_all(candles@, old(self).spec_capacity()),
            forall|k: int| 1 <= k < SLOT_COUNT ==> #[trigger] final(self).slot(k).len() == 0,
            final(self).spec_revision() == next_revision(old(self).spec_revision()),
            final(self).spec_id() == old(self).spec_id(),
            final(self).spec_chart_type() == old(self).spec_chart_type(),
            final(self).spec_indicators() == old(self).spec_indicators(),
    {
        self.reset_series();
        let ghost pre = *self;
        proof {
            self.lemma_slot_wf(0);
        }
        self.series[0].replace_all(candles);
        proof {
            self.lemma_wf_after_slot_change(&pre, 0);
        }
        self.bump_revision();
    }

    /// Put older history before the loaded candles, leaving them as they are:
    /// see `history_to_prepend`. When there is something to add, the chart is
    /// reloaded with the older candles followed by the loaded ones.
    pub fn prepend_historical_data(&mut self, historical: Vec<Candle<P>>) -> (r: HistoryPrepend<P>)
        requires
            old(self).wf(),
        ensures
            final(self).wf(),
            final(self).spec_capacity() == old(self).spec_capacity(),
            final(self).spec_id() == old(self).spec_id(),
            final(self).spec_chart_type() == old(self).spec_chart_type(),
            final(self).spec_indicators() == old(self).spec_indicators(),
            r.added == history_to_prepend(historical@, old(self).base(), old(self).spec_capacity()).len(),
            r.added == 0 ==> final(self).same_data(old(self)) && r.reports@.len() == 0,
            r.added > 0 ==> {
                &&& final(self).base() == history_to_prepend(historical@, old(self).base(), old(self).spec_capacity())
                    + old(self).base()
                &&& forall|k: int|
                    1 <= k < SLOT_COUNT ==> timestamps(#[trigger] final(self).slot(k)) == timestamps(
                        load_all(bucketed(final(self).base(), k), old(self).spec_capacity()),
                    )
                &&& final(self).spec_revision() == next_revision(old(self).spec_revision())
                &&& forall|k: int|
                    1 <= k < SLOT_COUNT ==> rolled_from(#[trigger] final(self).slot(k), final(self).base(), k)
                &&& r.reports@.len() == final(self).base().len()
                &&& forall|i: int|
                    0 <= i < r.reports@.len() ==> loaded_report(
                        #[trigger] r.reports@[i],
                        final(self).base(),
                        i,
                        old(self).spec_capacity(),
                    )
            },
    {
        let ghost base = self.base();
        let ghost cap = self.spec_capacity();
        let ghost h = historical@;
        proof {
            self.lemma_slot_wf(0);
        }
        let before = self.series[0].count();
        let oldest: Option<u64> = match self.series[0].oldest() {
            Some(c) => Some(c.timestamp.0),
            None => None,
        };
        let sorted = sort_candles(&historical);
        let mut older = dedup_candles(&sorted);
        let ghost d = older@;
        proof {
            lemma_sort_by_time_sorted(h);
            lemma_dedup_by_time_props(sort_by_time(h));
        }
        match oldest {
            Some(t) => {
                let len = older.len();
                let mut p: usize = 0;
                while p < len && older[p].timestamp.0 < t
                    invariant
                        p <= len,
                        len == older@.len(),
                        older@ == d,
                        forall|j: int| 0 <= j < p ==> (#[trigger] older@[j]).timestamp.0 < t,
                    decreases len - p,
                {
                    p += 1;
                }
                proof {
                    lemma_lower_bound_at(d, t, p as int);
                }
                older.truncate(p);
            },
            None => {},
        }
        let ghost older_spec = if base.len() > 0 {
            d.take(lower_bound(d, base[0].timestamp.0) as int)
        } else {
            d
        };
        proof {
            assert(older@ =~= older_spec);
        }
        if older.len() == 0 {
            proof {
                assert(history_to_prepend(h, base, cap) =~= older_spec);
                assert(forall|k: int| 0 <= k < SLOT_COUNT ==> #[trigger] self.slot(k) == old(self).slot(k));
            }
            return HistoryPrepend { added: 0, reports: Vec::new() };
        }
        let capacity = self.series[0].capacity();
        let available = capacity - before;
        let kept = if older.len() > available {
            let at = older.len() - available;
            older.split_off(at)
        } else {
            older
        };
        proof {
            assert(kept@ =~= history_to_prepend(h, base, cap));
        }
        if kept.len() == 0 {
            proof {
                assert(forall|k: int| 0 <= k < SLOT_COUNT ==> #[trigger] self.slot(k) == old(self).slot(k));
            }
            return HistoryPrepend { added: 0, reports: Vec::new() };
        }
        let ghost kept_spec = kept@;
        let mut all = kept;
        let base_candles = self.series[0].get_candles();
        let m = base_candles.len();
        let mut j: usize = 0;
        while j < m
            invariant
                j <= m,
                m == base.len(),
                base_candles@ == base,
                all@ == kept_spec + base.take(j as int),
            decreases m - j,
        {
            let c = base_candles[j];
            all.push(c);
            proof {
                assert(base.take(j + 1) =~= base.take(j as int).push(c));
                assert(all@ =~= kept_spec + base.take(j + 1));
            }
            j += 1;
        }
        proof {
            assert(base.take(m as int) =~= base);
            let all_s = all@;
            law_prepend_keeps_order(h, base, cap);
            assert(all_s =~= history_to_prepend(h, base, cap) + base);
            law_load_sorted_history(all_s, cap);
        }
        let reports = self.set_historical_data(all);
        let added = self.series[0].count() - before;
        HistoryPrepend { added, reports }
    }
}
} // verus!
