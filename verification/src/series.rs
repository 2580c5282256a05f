use std::collections::VecDeque;
use vstd::prelude::*;

use crate::history::{law_loaded_history_ordered_and_bounded, load_all, non_decreasing};
use crate::market_data::Timestamp;

verus! {

/// A candle: the start time of its bucket and its price/volume payload.
///
/// The payload type is left open: the series logic orders and finds candles
/// by their timestamps alone and carries the payload along unchanged.
#[derive(Debug, Clone, Copy)]
pub struct Candle<P> {
    pub timestamp: Timestamp,
    pub ohlcv: P,
}

impl<P> Candle<P> {
    pub fn new(timestamp: Timestamp, ohlcv: P) -> (c: Self)
        ensures
            c.timestamp == timestamp,
            c.ohlcv == ohlcv,
    {
        Candle { timestamp, ohlcv }
    }
}

/// Timestamps strictly increase along the sequence.
pub open spec fn strictly_increasing<P>(s: Seq<Candle<P>>) -> bool {
    forall|i: int, j: int|
        0 <= i < j < s.len() ==> (#[trigger] s[i]).timestamp.0 < (#[trigger] s[j]).timestamp.0
}

/// Length of the leading run of candles older than `t`; on a series ordered
/// by time this is the position at which a candle stamped `t` belongs.
pub open spec fn lower_bound<P>(s: Seq<Candle<P>>, t: u64) -> nat
    decreases s.len(),
{
    if s.len() == 0 {
        0
    } else if s[0].timestamp.0 < t {
        1 + lower_bound(s.drop_first(), t)
    } else {
        0
    }
}

/// Put `c` at its place in time: it replaces the candle with the same
/// timestamp, or is inserted before the first newer one.
pub open spec fn insert_by_time<P>(s: Seq<Candle<P>>, c: Candle<P>) -> Seq<Candle<P>> {
    let p = lower_bound(s, c.timestamp.0) as int;
    if p < s.len() && s[p].timestamp == c.timestamp {
        s.update(p, c)
    } else {
        s.insert(p, c)
    }
}

/// `insert_by_time`, then drop the oldest candle when the series is over `max`.
pub open spec fn add_bounded<P>(s: Seq<Candle<P>>, c: Candle<P>, max: nat) -> Seq<Candle<P>> {
    let r = insert_by_time(s, c);
    if r.len() > max {
        r.drop_first()
    } else {
        r
    }
}

/// The newest `max` candles of `s`.
pub open spec fn keep_newest<P>(s: Seq<Candle<P>>, max: nat) -> Seq<Candle<P>> {
    if s.len() > max {
        s.skip(s.len() - max)
    } else {
        s
    }
}

/// The timestamps of a sequence of candles.
pub open spec fn timestamps<P>(s: Seq<Candle<P>>) -> Seq<u64> {
    s.map_values(|c: Candle<P>| c.timestamp.0)
}

pub proof fn lemma_lower_bound_at<P>(s: Seq<Candle<P>>, t: u64, i: int)
    requires
        0 <= i <= s.len(),
        forall|j: int| 0 <= j < i ==> (#[trigger] s[j]).timestamp.0 < t,
        i == s.len() || s[i].timestamp.0 >= t,
    ensures
        lower_bound(s, t) == i,
    decreases i,
{
    if i > 0 {
        let d = s.drop_first();
        assert forall|j: int| 0 <= j < i - 1 implies (#[trigger] d[j]).timestamp.0 < t by {
            assert(d[j] == s[j + 1]);
        }
        if i < s.len() {
            assert(d[i - 1] == s[i]);
        }
        lemma_lower_bound_at(d, t, i - 1);
    }
}

pub proof fn lemma_lower_bound_props<P>(s: Seq<Candle<P>>, t: u64)
    ensures
        lower_bound(s, t) <= s.len(),
        forall|j: int| 0 <= j < lower_bound(s, t) ==> (#[trigger] s[j]).timestamp.0 < t,
        lower_bound(s, t) < s.len() ==> s[lower_bound(s, t) as int].timestamp.0 >= t,
    decreases s.len(),
{
    if s.len() > 0 && s[0].timestamp.0 < t {
        let d = s.drop_first();
        lemma_lower_bound_props(d, t);
        assert forall|j: int| 0 <= j < lower_bound(s, t) implies (#[trigger] s[j]).timestamp.0
            < t by {
            if j > 0 {
                assert(s[j] == d[j - 1]);
            }
        }
        if lower_bound(s, t) < s.len() {
            assert(s[lower_bound(s, t) as int] == d[lower_bound(d, t) as int]);
        }
    }
}

/// Placing a candle by time keeps a series strictly ordered by time.
pub proof fn lemma_insert_by_time_sorted<P>(s: Seq<Candle<P>>, c: Candle<P>)
    requires
        strictly_increasing(s),
    ensures
        strictly_increasing(insert_by_time(s, c)),
        insert_by_time(s, c).len() == s.len() || insert_by_time(s, c).len() == s.len() + 1,
        insert_by_time(s, c).contains(c),
{
    let t = c.timestamp.0;
    lemma_lower_bound_props(s, t);
    let p = lower_bound(s, t) as int;
    let r = insert_by_time(s, c);
    if p < s.len() && s[p].timestamp == c.timestamp {
        assert(r[p] == c);
        assert forall|i: int, j: int| 0 <= i < j < r.len() implies (#[trigger] r[i]).timestamp.0
            < (#[trigger] r[j]).timestamp.0 by {
            assert(r[i].timestamp.0 == s[i].timestamp.0);
            assert(r[j].timestamp.0 == s[j].timestamp.0);
        }
    } else {
        s.insert_ensures(p, c);
        assert(r[p] == c);
        assert forall|j: int| p <= j < s.len() implies (#[trigger] s[j]).timestamp.0 > t by {
            if j > p {
                assert(s[p].timestamp.0 < s[j].timestamp.0);
            }
        }
        assert forall|i: int, j: int| 0 <= i < j < r.len() implies (#[trigger] r[i]).timestamp.0
            < (#[trigger] r[j]).timestamp.0 by {
            if j < p {
                assert(r[i] == s[i] && r[j] == s[j]);
            } else if j == p {
                assert(r[i] == s[i]);
            } else if i < p {
                assert(r[i] == s[i] && r[j] == s[j - 1]);
            } else if i == p {
                assert(r[j] == s[j - 1]);
            } else {
                assert(r[i] == s[i - 1] && r[j] == s[j - 1]);
            }
        }
    }
}

/// Adding a candle to a series ordered by time keeps what was there: a
/// candle whose timestamp is new adds one candle and every earlier candle
/// stays; a candle whose timestamp is already present replaces exactly the
/// candle with that timestamp. While the series is under its bound nothing
/// is dropped.
pub proof fn law_insert_keeps_existing_candles<P>(s: Seq<Candle<P>>, c: Candle<P>, max: nat)
    requires
        strictly_increasing(s),
    ensures
        insert_by_time(s, c).contains(c),
        (forall|i: int| 0 <= i < s.len() ==> (#[trigger] s[i]).timestamp != c.timestamp) ==> {
            &&& insert_by_time(s, c).len() == s.len() + 1
            &&& forall|i: int| 0 <= i < s.len() ==> insert_by_time(s, c).contains(#[trigger] s[i])
        },
        forall|i: int|
            0 <= i < s.len() && (#[trigger] s[i]).timestamp == c.timestamp ==> insert_by_time(s, c) == s.update(
                i,
                c,
            ),
        s.len() < max ==> add_bounded(s, c, max) == insert_by_time(s, c),
{
    let t = c.timestamp.0;
    lemma_lower_bound_props(s, t);
    lemma_insert_by_time_sorted(s, c);
    let p = lower_bound(s, t) as int;
    let r = insert_by_time(s, c);
    assert forall|i: int| 0 <= i < s.len() && (#[trigger] s[i]).timestamp == c.timestamp implies r == s.update(
        i,
        c,
    ) by {
        assert(i >= p);
        if p < i {
            assert(s[p].timestamp.0 < s[i].timestamp.0);
        }
    }
    if forall|i: int| 0 <= i < s.len() ==> (#[trigger] s[i]).timestamp != c.timestamp {
        if p < s.len() {
            assert(s[p].timestamp != c.timestamp);
        }
        s.insert_ensures(p, c);
        assert forall|i: int| 0 <= i < s.len() implies r.contains(#[trigger] s[i]) by {
            if i < p {
                assert(r[i] == s[i]);
            } else {
                assert(r[i + 1] == s[i]);
            }
        }
    }
}

/// Adding a candle keeps a series strictly ordered by time and within its bound.
pub proof fn lemma_add_bounded_sorted<P>(s: Seq<Candle<P>>, c: Candle<P>, max: nat)
    requires
        strictly_increasing(s),
        s.len() <= max,
    ensures
        strictly_increasing(add_bounded(s, c, max)),
        add_bounded(s, c, max).len() <= max,
{
    lemma_insert_by_time_sorted(s, c);
    let r = insert_by_time(s, c);
    if r.len() > max {
        let d = r.drop_first();
        assert forall|i: int, j: int| 0 <= i < j < d.len() implies (#[trigger] d[i]).timestamp.0
            < (#[trigger] d[j]).timestamp.0 by {
            assert(d[i] == r[i + 1] && d[j] == r[j + 1]);
        }
    }
}

/// Every candle of `add_bounded(s, c, max)` is `c` or a candle of `s`, so a
/// property of all of them carries over.
pub proof fn lemma_add_bounded_preserves<P>(
    s: Seq<Candle<P>>,
    c: Candle<P>,
    max: nat,
    pred: spec_fn(Candle<P>) -> bool,
)
    requires
        forall|j: int| 0 <= j < s.len() ==> #[trigger] pred(s[j]),
        pred(c),
    ensures
        forall|i: int| 0 <= i < add_bounded(s, c, max).len() ==> #[trigger] pred(add_bounded(s, c, max)[i]),
{
    lemma_lower_bound_props(s, c.timestamp.0);
    let p = lower_bound(s, c.timestamp.0) as int;
    let r = insert_by_time(s, c);
    assert forall|i: int| 0 <= i < r.len() implies #[trigger] pred(r[i]) by {
        if p < s.len() && s[p].timestamp == c.timestamp {
            if i != p {
                assert(r[i] == s[i]);
            }
        } else {
            s.insert_ensures(p, c);
            if i < p {
                assert(r[i] == s[i]);
            } else if i > p {
                assert(r[i] == s[i - 1]);
            }
        }
    }
    let a = add_bounded(s, c, max);
    assert forall|i: int| 0 <= i < a.len() implies #[trigger] pred(a[i]) by {
        if r.len() > max {
            assert(a[i] == r[i + 1]);
        } else {
            assert(a[i] == r[i]);
        }
    }
}

/// Adding a candle stamped like the newest one replaces the newest one.
pub proof fn lemma_add_bounded_at_latest<P>(s: Seq<Candle<P>>, c: Candle<P>, max: nat)
    requires
        strictly_increasing(s),
        s.len() <= max,
        s.len() > 0,
        s.last().timestamp == c.timestamp,
    ensures
        add_bounded(s, c, max) == s.update(s.len() - 1, c),
{
    let n = s.len() as int;
    assert forall|j: int| 0 <= j < n - 1 implies (#[trigger] s[j]).timestamp.0 < c.timestamp.0 by {
        assert(s[j].timestamp.0 < s[n - 1].timestamp.0);
    }
    lemma_lower_bound_at(s, c.timestamp.0, n - 1);
}

/// Adding a candle newer than all others appends it (dropping the oldest when full).
pub proof fn lemma_add_bounded_newest<P>(s: Seq<Candle<P>>, c: Candle<P>, max: nat)
    requires
        strictly_increasing(s),
        s.len() == 0 || s.last().timestamp.0 < c.timestamp.0,
    ensures
        insert_by_time(s, c) == s.push(c),
{
    let n = s.len() as int;
    assert forall|j: int| 0 <= j < n implies (#[trigger] s[j]).timestamp.0 < c.timestamp.0 by {
        if j < n - 1 {
            assert(s[j].timestamp.0 < s[n - 1].timestamp.0);
        }
    }
    lemma_lower_bound_at(s, c.timestamp.0, n);
    assert(s.insert(n, c) =~= s.push(c));
}

/// Where a timestamp belongs depends on the timestamps of the series alone.
pub proof fn lemma_lower_bound_timestamps<P>(s1: Seq<Candle<P>>, s2: Seq<Candle<P>>, t: u64)
    requires
        timestamps(s1) == timestamps(s2),
    ensures
        lower_bound(s1, t) == lower_bound(s2, t),
    decreases s1.len(),
{
    assert(s1.len() == timestamps(s1).len());
    if s1.len() > 0 {
        assert(s1[0].timestamp.0 == timestamps(s1)[0]);
        assert(s2[0].timestamp.0 == timestamps(s2)[0]);
        assert(timestamps(s1.drop_first()) =~= timestamps(s1).drop_first());
        assert(timestamps(s2.drop_first()) =~= timestamps(s2).drop_first());
        lemma_lower_bound_timestamps(s1.drop_first(), s2.drop_first(), t);
    }
}

/// The timestamps after adding a candle depend only on the timestamps before
/// and the candle's timestamp, not on the payloads.
pub proof fn lemma_add_bounded_timestamps<P>(
    s1: Seq<Candle<P>>,
    s2: Seq<Candle<P>>,
    c1: Candle<P>,
    c2: Candle<P>,
    max: nat,
)
    requires
        timestamps(s1) == timestamps(s2),
        c1.timestamp == c2.timestamp,
    ensures
        timestamps(add_bounded(s1, c1, max)) == timestamps(add_bounded(s2, c2, max)),
{
    let t = c1.timestamp.0;
    lemma_lower_bound_timestamps(s1, s2, t);
    lemma_lower_bound_props(s1, t);
    let p = lower_bound(s1, t) as int;
    assert(s1.len() == timestamps(s1).len() && s2.len() == timestamps(s2).len());
    assert forall|i: int| 0 <= i < s1.len() implies s1[i].timestamp == s2[i].timestamp by {
        assert(s1[i].timestamp.0 == timestamps(s1)[i]);
        assert(s2[i].timestamp.0 == timestamps(s2)[i]);
    }
    let r1 = insert_by_time(s1, c1);
    let r2 = insert_by_time(s2, c2);
    if p < s1.len() && s1[p].timestamp == c1.timestamp {
        assert(timestamps(r1) =~= timestamps(r2));
    } else {
        s1.insert_ensures(p, c1);
        s2.insert_ensures(p, c2);
        assert(timestamps(r1) =~= timestamps(r2));
    }
    if r1.len() > max {
        assert(timestamps(r1.drop_first()) =~= timestamps(r2.drop_first()));
    }
}

/// Adding a candle is idempotent: delivering the same candle twice leaves
/// the series as delivering it once.
pub proof fn law_add_candle_idempotent<P>(s: Seq<Candle<P>>, c: Candle<P>, max: nat)
    requires
        strictly_increasing(s),
        s.len() <= max,
    ensures
        add_bounded(add_bounded(s, c, max), c, max) == add_bounded(s, c, max),
{
    let t = c.timestamp.0;
    lemma_lower_bound_props(s, t);
    let p = lower_bound(s, t) as int;
    let r0 = insert_by_time(s, c);
    let r = add_bounded(s, c, max);
    if p < s.len() && s[p].timestamp == c.timestamp {
        assert forall|j: int| 0 <= j < p implies (#[trigger] r[j]).timestamp.0 < t by {
            assert(r[j] == s[j]);
        }
        lemma_lower_bound_at(r, t, p);
        assert(r.update(p, c) =~= r);
    } else {
        s.insert_ensures(p, c);
        if r0.len() > max {
            if p == 0 {
                assert(r =~= s);
            } else {
                assert(r[p - 1] == c);
                assert forall|j: int| 0 <= j < p - 1 implies (#[trigger] r[j]).timestamp.0 < t by {
                    assert(r[j] == r0[j + 1]);
                    assert(r0[j + 1] == s[j + 1]);
                }
                lemma_lower_bound_at(r, t, p - 1);
                assert(r.update(p - 1, c) =~= r);
            }
        } else {
            assert forall|j: int| 0 <= j < p implies (#[trigger] r[j]).timestamp.0 < t by {
                assert(r[j] == s[j]);
            }
            lemma_lower_bound_at(r, t, p);
            assert(r.update(p, c) =~= r);
        }
    }
}

/// The live edge of a series: a candle for the newest timestamp replaces the
/// newest candle; a newer candle is appended, the oldest one dropping out
/// when the series is full.
pub proof fn law_live_candle<P>(s: Seq<Candle<P>>, c: Candle<P>, max: nat)
    requires
        strictly_increasing(s),
        s.len() <= max,
    ensures
        s.len() > 0 && s.last().timestamp == c.timestamp ==> add_bounded(s, c, max) == s.update(
            s.len() - 1,
            c,
        ),
        s.len() == 0 || s.last().timestamp.0 < c.timestamp.0 ==> add_bounded(s, c, max)
            == keep_newest(s.push(c), max),
{
    if s.len() > 0 && s.last().timestamp == c.timestamp {
        lemma_add_bounded_at_latest(s, c, max);
    }
    if s.len() == 0 || s.last().timestamp.0 < c.timestamp.0 {
        lemma_add_bounded_newest(s, c, max);
        let q = s.push(c);
        if q.len() > max {
            assert(q.drop_first() =~= q.skip(q.len() - max));
        }
    }
}

/// A live candle applied to a plain list of candles: the first candle is
/// taken; a candle with the newest timestamp replaces the newest candle; a
/// newer one is appended and the oldest candles are dropped down to `cap`;
/// an older one is ignored.
pub open spec fn spec_stream_candle<P>(s: Seq<Candle<P>>, c: Candle<P>, cap: nat) -> Seq<Candle<P>> {
    if s.len() == 0 {
        seq![c]
    } else if s.last().timestamp == c.timestamp {
        s.update(s.len() - 1, c)
    } else if c.timestamp.0 > s.last().timestamp.0 {
        keep_newest(s.push(c), cap)
    } else {
        s
    }
}

/// Apply a live candle to `candles` (see `spec_stream_candle`); returns
/// whether the list changed, that is unless the candle was older than the
/// newest one.
pub fn apply_stream_candle<P: Copy>(candles: &mut Vec<Candle<P>>, candle: Candle<P>, cap: usize) -> (changed: bool)
    requires
        strictly_increasing(old(candles)@),
        cap > 0,
    ensures
        final(candles)@ == spec_stream_candle(old(candles)@, candle, cap as nat),
        changed == (old(candles)@.len() == 0 || candle.timestamp.0 >= old(candles)@.last().timestamp.0),
        strictly_increasing(final(candles)@),
{
    let ghost s = candles@;
    let len = candles.len();
    if len == 0 {
        candles.push(candle);
        proof {
            assert(candles@ =~= seq![candle]);
        }
        return true;
    }
    let last_ts = candles[len - 1].timestamp.0;
    if last_ts == candle.timestamp.0 {
        candles.set(len - 1, candle);
        proof {
            assert forall|i: int, j: int| 0 <= i < j < candles@.len() implies (#[trigger] candles@[i]).timestamp.0
                < (#[trigger] candles@[j]).timestamp.0 by {
                assert(candles@[i].timestamp == s[i].timestamp && candles@[j].timestamp == s[j].timestamp);
            }
        }
        return true;
    }
    if candle.timestamp.0 > last_ts {
        candles.push(candle);
        let ghost q = s.push(candle);
        proof {
            assert forall|i: int, j: int| 0 <= i < j < q.len() implies (#[trigger] q[i]).timestamp.0
                < (#[trigger] q[j]).timestamp.0 by {
                if j == q.len() - 1 && i < s.len() - 1 {
                    assert(s[i].timestamp.0 < s[s.len() - 1].timestamp.0);
                }
            }
        }
        let ghost mut dropped: int = 0;
        while candles.len() > cap
            invariant
                cap > 0,
                0 <= dropped <= q.len(),
                dropped == 0 || q.len() - dropped >= cap,
                candles@ == q.skip(dropped),
                strictly_increasing(q),
            decreases candles.len(),
        {
            let _ = candles.remove(0);
            proof {
                dropped = dropped + 1;
                assert(candles@ =~= q.skip(dropped));
            }
        }
        proof {
            if q.len() > cap {
                assert(dropped == q.len() - cap);
            } else {
                assert(dropped == 0);
                assert(q.skip(0) =~= q);
            }
            let r = candles@;
            assert forall|i: int, j: int| 0 <= i < j < r.len() implies (#[trigger] r[i]).timestamp.0
                < (#[trigger] r[j]).timestamp.0 by {
                assert(r[i] == q[i + dropped] && r[j] == q[j + dropped]);
            }
        }
        return true;
    }
    false
}

/// A series of candles ordered by time and bounded in length.
pub struct CandleSeries<P> {
    candles: VecDeque<Candle<P>>,
    max_size: usize,
}

impl<P> View for CandleSeries<P> {
    type V = Seq<Candle<P>>;

    closed spec fn view(&self) -> Seq<Candle<P>> {
        self.candles@
    }
}

impl<P> CandleSeries<P> {
    /// The most candles the series holds.
    pub closed spec fn spec_max_size(&self) -> nat {
        self.max_size as nat
    }

    /// Candles strictly ordered by time, and no more of them than the bound.
    pub open spec fn wf(&self) -> bool {
        &&& strictly_increasing(self@)
        &&& self@.len() <= self.spec_max_size()
    }

    pub fn new(max_size: usize) -> (s: Self)
        ensures
            s.wf(),
            s@ == Seq::<Candle<P>>::empty(),
            s.spec_max_size() == max_size,
    {
        CandleSeries { candles: VecDeque::new(), max_size }
    }

    /// Add a candle: a candle with the same timestamp is replaced, an older one
    /// is inserted at its place in time, a newer one is appended; the oldest
    /// candle is dropped when the series grows beyond its bound.
    pub fn add_candle(&mut self, candle: Candle<P>)
        requires
            old(self).wf(),
        ensures
            final(self).wf(),
            final(self)@ == add_bounded(old(self)@, candle, old(self).spec_max_size()),
            final(self).spec_max_size() == old(self).spec_max_size(),
    {
        proof {
            lemma_add_bounded_sorted(self@, candle, self.spec_max_size());
        }
        let len = self.candles.len();
        if len > 0 {
            let last_ts = self.candles[len - 1].timestamp.0;
            if last_ts == candle.timestamp.0 {
                proof {
                    let s = self@;
                    assert forall|j: int| 0 <= j < len - 1 implies (#[trigger] s[j]).timestamp.0
                        < candle.timestamp.0 by {
                        assert(s[j].timestamp.0 < s[len - 1].timestamp.0);
                    }
                    lemma_lower_bound_at(s, candle.timestamp.0, len - 1);
                }
                let _ = self.candles.pop_back();
                self.candles.push_back(candle);
                proof {
                    assert(self@ =~= insert_by_time(old(self)@, candle));
                }
                return ;
            }
            if candle.timestamp.0 < last_ts {
                self.insert_candle_sorted(candle);
                return ;
            }
        }
        proof {
            let s = self@;
            assert forall|j: int| 0 <= j < len implies (#[trigger] s[j]).timestamp.0
                < candle.timestamp.0 by {
                if j < len - 1 {
                    assert(s[j].timestamp.0 < s[len - 1].timestamp.0);
                }
            }
            lemma_lower_bound_at(s, candle.timestamp.0, len as int);
        }
        self.candles.push_back(candle);
        proof {
            assert(self@ =~= insert_by_time(old(self)@, candle));
        }
        if self.candles.len() > self.max_size {
            let _ = self.candles.pop_front();
        }
        proof {
            assert(self@ =~= add_bounded(old(self)@, candle, old(self).spec_max_size()));
        }
    }

    /// Insert a candle at its place in time, replacing one with the same timestamp.
    fn insert_candle_sorted(&mut self, candle: Candle<P>)
        requires
            old(self).wf(),
        ensures
            final(self)@ == add_bounded(old(self)@, candle, old(self).spec_max_size()),
            final(self).spec_max_size() == old(self).spec_max_size(),
    {
        let t = candle.timestamp.0;
        let len = self.candles.len();
        let mut pos: usize = 0;
        while pos < len && self.candles[pos].timestamp.0 < t
            invariant
                pos <= len,
                len == self.candles@.len(),
                self@ == old(self)@,
                self.max_size == old(self).max_size,
                forall|j: int| 0 <= j < pos ==> (#[trigger] self.candles@[j]).timestamp.0 < t,
            decreases len - pos,
        {
            pos += 1;
        }
        proof {
            lemma_lower_bound_at(self@, t, pos as int);
        }
        if pos < len && self.candles[pos].timestamp.0 == t {
            let _ = self.candles.remove(pos);
            self.candles.insert(pos, candle);
            proof {
                assert(self@ =~= old(self)@.update(pos as int, candle));
            }
        } else {
            self.candles.insert(pos, candle);
        }
        proof {
            assert(self@ =~= insert_by_time(old(self)@, candle));
        }
        if self.candles.len() > self.max_size {
            let _ = self.candles.pop_front();
        }
        proof {
            assert(self@ =~= add_bounded(old(self)@, candle, old(self).spec_max_size()));
        }
    }

    /// Replace the whole series by candles ordered by time (equal timestamps
    /// allowed): they are loaded one by one as `load_all` says, so the last
    /// candle of each timestamp stays and the newest candles are kept when
    /// there are more than the bound.
    pub fn replace_all(&mut self, candles: Vec<Candle<P>>) where P: Copy
        requires
            non_decreasing(candles@),
        ensures
            final(self).wf(),
            final(self)@ == load_all(candles@, old(self).spec_max_size()),
            final(self).spec_max_size() == old(self).spec_max_size(),
    {
        let ghost all = candles@;
        let cap = self.max_size;
        let n = candles.len();
        let mut kept: VecDeque<Candle<P>> = VecDeque::new();
        let mut i: usize = 0;
        proof {
            assert(all.take(0) =~= Seq::<Candle<P>>::empty());
        }
        while i < n
            invariant
                i <= n,
                n == all.len(),
                all == candles@,
                non_decreasing(all),
                kept@ == load_all(all.take(i as int), cap as nat),
                strictly_increasing(kept@),
                kept@.len() <= cap,
                kept@.len() > 0 ==> i > 0 && kept@.last().timestamp == all[i - 1].timestamp,
            decreases n - i,
        {
            let c = candles[i];
            let ghost pre = kept@;
            proof {
                law_live_candle(pre, c, cap as nat);
                assert(all.take(i + 1).drop_last() =~= all.take(i as int));
                assert(all.take(i + 1).last() == c);
                law_loaded_history_ordered_and_bounded(all.take(i + 1), cap as nat);
            }
            let len = kept.len();
            let same = len > 0 && kept[len - 1].timestamp.0 == c.timestamp.0;
            if same {
                let _ = kept.pop_back();
                kept.push_back(c);
                proof {
                    assert(kept@ =~= pre.update(pre.len() - 1, c));
                }
            } else {
                proof {
                    if pre.len() > 0 {
                        assert(all[i - 1].timestamp.0 <= all[i as int].timestamp.0);
                    }
                }
                kept.push_back(c);
                if kept.len() > cap {
                    let _ = kept.pop_front();
                    proof {
                        assert(kept@ =~= pre.push(c).skip(pre.push(c).len() - cap));
                    }
                }
            }
            i += 1;
        }
        proof {
            assert(all.take(n as int) =~= all);
        }
        self.candles = kept;
    }

    /// Replace the payload of the newest candle, keeping its timestamp.
    pub fn set_latest_ohlcv(&mut self, ohlcv: P)
        requires
            old(self).wf(),
            old(self)@.len() > 0,
        ensures
            final(self).wf(),
            final(self)@ == old(self)@.update(
                old(self)@.len() - 1,
                Candle { timestamp: old(self)@.last().timestamp, ohlcv },
            ),
            final(self).spec_max_size() == old(self).spec_max_size(),
    {
        let last = self.candles.pop_back();
        match last {
            Some(c) => {
                self.candles.push_back(Candle { timestamp: c.timestamp, ohlcv });
            },
            None => {},
        }
        proof {
            let s = self@;
            assert(s =~= old(self)@.update(
                old(self)@.len() - 1,
                Candle { timestamp: old(self)@.last().timestamp, ohlcv },
            ));
            assert forall|i: int, j: int| 0 <= i < j < s.len() implies (#[trigger] s[i]).timestamp.0
                < (#[trigger] s[j]).timestamp.0 by {
                assert(s[i].timestamp == old(self)@[i].timestamp);
                assert(s[j].timestamp == old(self)@[j].timestamp);
            }
        }
    }

    pub fn get_candles(&self) -> (r: &VecDeque<Candle<P>>)
        ensures
            r@ == self@,
    {
        &self.candles
    }

    /// The newest candle, if any.
    pub fn latest(&self) -> (r: Option<&Candle<P>>)
        ensures
            r is None <==> self@.len() == 0,
            r matches Some(c) ==> *c == self@.last(),
    {
        let len = self.candles.len();
        if len == 0 {
            None
        } else {
            Some(&self.candles[len - 1])
        }
    }

    /// The oldest candle, if any.
    pub fn oldest(&self) -> (r: Option<&Candle<P>>)
        ensures
            r is None <==> self@.len() == 0,
            r matches Some(c) ==> *c == self@[0],
    {
        if self.candles.len() == 0 {
            None
        } else {
            Some(&self.candles[0])
        }
    }

    pub fn count(&self) -> (n: usize)
        ensures
            n == self@.len(),
    {
        self.candles.len()
    }

    /// Maximum number of candles in the series.
    pub fn max_size(&self) -> (n: usize)
        ensures
            n == self.spec_max_size(),
    {
        self.max_size
    }

    /// Capacity of the series (maximum candle count).
    pub fn capacity(&self) -> (n: usize)
        ensures
            n == self.spec_max_size(),
    {
        self.max_size
    }

    /// Timestamps of the oldest and the newest candle.
    pub fn time_bounds(&self) -> (r: Option<(u64, u64)>)
        ensures
            r is None <==> self@.len() == 0,
            r matches Some((first, last)) ==> first == self@[0].timestamp.0 && last
                == self@.last().timestamp.0,
    {
        let len = self.candles.len();
        if len == 0 {
            None
        } else {
            Some((self.candles[0].timestamp.0, self.candles[len - 1].timestamp.0))
        }
    }
}

} // verus!
