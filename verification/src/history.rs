use vstd::prelude::*;

use crate::series::{add_bounded, lemma_add_bounded_sorted, lemma_lower_bound_at, strictly_increasing, Candle};

verus! {

/// Timestamps never decrease along the sequence.
pub open spec fn non_decreasing<P>(s: Seq<Candle<P>>) -> bool {
    forall|i: int, j: int|
        0 <= i < j < s.len() ==> (#[trigger] s[i]).timestamp.0 <= (#[trigger] s[j]).timestamp.0
}

/// Length of the leading run of candles not newer than `t`; on a series
/// ordered by time this is the position after the last candle stamped `t`.
pub open spec fn upper_bound<P>(s: Seq<Candle<P>>, t: u64) -> nat
    decreases s.len(),
{
    if s.len() == 0 {
        0
    } else if s[0].timestamp.0 <= t {
        1 + upper_bound(s.drop_first(), t)
    } else {
        0
    }
}

/// Candles ordered by time; candles with equal timestamps keep their order
/// (the result of a stable sort by timestamp).
pub open spec fn sort_by_time<P>(s: Seq<Candle<P>>) -> Seq<Candle<P>>
    decreases s.len(),
{
    if s.len() == 0 {
        s
    } else {
        let r = sort_by_time(s.drop_last());
        r.insert(upper_bound(r, s.last().timestamp.0) as int, s.last())
    }
}

/// Of each run of consecutive candles with one timestamp, the first.
pub open spec fn dedup_by_time<P>(s: Seq<Candle<P>>) -> Seq<Candle<P>>
    decreases s.len(),
{
    if s.len() <= 1 {
        s
    } else {
        let d = dedup_by_time(s.drop_last());
        if d.last().timestamp == s.last().timestamp {
            d
        } else {
            d.push(s.last())
        }
    }
}

/// The series obtained by adding the candles of `s` one by one, in order, to
/// an empty series bounded by `max`.
pub open spec fn load_all<P>(s: Seq<Candle<P>>, max: nat) -> Seq<Candle<P>>
    decreases s.len(),
{
    if s.len() == 0 {
        Seq::empty()
    } else {
        add_bounded(load_all(s.drop_last(), max), s.last(), max)
    }
}

pub proof fn lemma_upper_bound_at<P>(s: Seq<Candle<P>>, t: u64, i: int)
    requires
        0 <= i <= s.len(),
        forall|j: int| 0 <= j < i ==> (#[trigger] s[j]).timestamp.0 <= t,
        i == s.len() || s[i].timestamp.0 > t,
    ensures
        upper_bound(s, t) == i,
    decreases i,
{
    if i > 0 {
        let d = s.drop_first();
        assert forall|j: int| 0 <= j < i - 1 implies (#[trigger] d[j]).timestamp.0 <= t by {
            assert(d[j] == s[j + 1]);
        }
        if i < s.len() {
            assert(d[i - 1] == s[i]);
        }
        lemma_upper_bound_at(d, t, i - 1);
    }
}

pub proof fn lemma_upper_bound_props<P>(s: Seq<Candle<P>>, t: u64)
    ensures
        upper_bound(s, t) <= s.len(),
        forall|j: int| 0 <= j < upper_bound(s, t) ==> (#[trigger] s[j]).timestamp.0 <= t,
        upper_bound(s, t) < s.len() ==> s[upper_bound(s, t) as int].timestamp.0 > t,
    decreases s.len(),
{
    if s.len() > 0 && s[0].timestamp.0 <= t {
        let d = s.drop_first();
        lemma_upper_bound_props(d, t);
        assert forall|j: int| 0 <= j < upper_bound(s, t) implies (#[trigger] s[j]).timestamp.0
            <= t by {
            if j > 0 {
                assert(s[j] == d[j - 1]);
            }
        }
        if upper_bound(s, t) < s.len() {
            assert(s[upper_bound(s, t) as int] == d[upper_bound(d, t) as int]);
        }
    }
}

/// Inserting after the candles not newer than `c` keeps a sequence ordered.
pub proof fn lemma_insert_after_sorted<P>(s: Seq<Candle<P>>, c: Candle<P>)
    requires
        non_decreasing(s),
    ensures
        non_decreasing(s.insert(upper_bound(s, c.timestamp.0) as int, c)),
{
    let t = c.timestamp.0;
    lemma_upper_bound_props(s, t);
    let p = upper_bound(s, t) as int;
    let r = s.insert(p, c);
    s.insert_ensures(p, c);
    assert forall|j: int| p <= j < s.len() implies (#[trigger] s[j]).timestamp.0 > t by {
        if j > p {
            assert(s[p].timestamp.0 <= s[j].timestamp.0);
        }
    }
    assert forall|i: int, j: int| 0 <= i < j < r.len() implies (#[trigger] r[i]).timestamp.0
        <= (#[trigger] r[j]).timestamp.0 by {
        if j < p {
            assert(r[i] == s[i] && r[j] == s[j]);
        } else if j == p {
            assert(r[i] == s[i]);
        } else if i < p {
            assert(r[i] == s[i] && r[j] == s[j - 1]);
        } else if i == p {
            assert(r[j] == s[j - 1]);
        } else {
            assert(r[i] == s[i - 1] && r[j] == s[j - 1]);
        }
    }
}

pub proof fn lemma_sort_by_time_sorted<P>(s: Seq<Candle<P>>)
    ensures
        non_decreasing(sort_by_time(s)),
        sort_by_time(s).len() == s.len(),
    decreases s.len(),
{
    if s.len() > 0 {
        lemma_sort_by_time_sorted(s.drop_last());
        let r = sort_by_time(s.drop_last());
        lemma_insert_after_sorted(r, s.last());
        lemma_upper_bound_props(r, s.last().timestamp.0);
    }
}

/// A sequence already ordered by time is left as it is.
pub proof fn lemma_sort_by_time_sorted_input<P>(s: Seq<Candle<P>>)
    requires
        non_decreasing(s),
    ensures
        sort_by_time(s) == s,
    decreases s.len(),
{
    if s.len() > 0 {
        let d = s.drop_last();
        assert forall|i: int, j: int| 0 <= i < j < d.len() implies (#[trigger] d[i]).timestamp.0
            <= (#[trigger] d[j]).timestamp.0 by {
            assert(d[i] == s[i] && d[j] == s[j]);
        }
        lemma_sort_by_time_sorted_input(d);
        let t = s.last().timestamp.0;
        assert forall|j: int| 0 <= j < d.len() implies (#[trigger] d[j]).timestamp.0 <= t by {
            assert(d[j] == s[j]);
        }
        lemma_upper_bound_at(d, t, d.len() as int);
        assert(d.insert(d.len() as int, s.last()) =~= s);
    }
}

pub proof fn lemma_dedup_by_time_props<P>(s: Seq<Candle<P>>)
    requires
        non_decreasing(s),
    ensures
        strictly_increasing(dedup_by_time(s)),
        s.len() > 0 ==> dedup_by_time(s).len() > 0 && dedup_by_time(s).last().timestamp
            == s.last().timestamp,
        s.len() == 0 ==> dedup_by_time(s).len() == 0,
    decreases s.len(),
{
    if s.len() > 1 {
        let d0 = s.drop_last();
        assert forall|i: int, j: int| 0 <= i < j < d0.len() implies (#[trigger] d0[i]).timestamp.0
            <= (#[trigger] d0[j]).timestamp.0 by {
            assert(d0[i] == s[i] && d0[j] == s[j]);
        }
        lemma_dedup_by_time_props(d0);
        let d = dedup_by_time(d0);
        assert(d0.last() == s[s.len() - 2]);
        assert(s[s.len() - 2].timestamp.0 <= s.last().timestamp.0);
        if d.last().timestamp != s.last().timestamp {
            let r = d.push(s.last());
            assert forall|i: int, j: int| 0 <= i < j < r.len() implies (#[trigger] r[i]).timestamp.0
                < (#[trigger] r[j]).timestamp.0 by {
                if j == r.len() - 1 {
                    if i < d.len() - 1 {
                        assert(d[i].timestamp.0 < d.last().timestamp.0);
                    }
                } else {
                    assert(r[i] == d[i] && r[j] == d[j]);
                }
            }
        }
    }
}

/// Ordering by time only moves candles: each one of the result is one of the input.
pub proof fn lemma_sort_by_time_members<P>(s: Seq<Candle<P>>)
    ensures
        forall|i: int| 0 <= i < sort_by_time(s).len() ==> s.contains(#[trigger] sort_by_time(s)[i]),
    decreases s.len(),
{
    if s.len() > 0 {
        let d = s.drop_last();
        lemma_sort_by_time_members(d);
        lemma_sort_by_time_sorted(d);
        let r = sort_by_time(d);
        let p = upper_bound(r, s.last().timestamp.0) as int;
        lemma_upper_bound_props(r, s.last().timestamp.0);
        r.insert_ensures(p, s.last());
        assert forall|i: int| 0 <= i < sort_by_time(s).len() implies s.contains(#[trigger] sort_by_time(s)[i]) by {
            let x = sort_by_time(s)[i];
            if i == p {
                assert(s[s.len() - 1] == x);
            } else {
                let k = if i < p { i } else { i - 1 };
                assert(x == r[k]);
                assert(d.contains(x));
                let w = choose|w: int| 0 <= w < d.len() && d[w] == x;
                assert(s[w] == x);
            }
        }
    }
}

/// Removing repeated timestamps only drops candles: each one of the result
/// is one of the input.
pub proof fn lemma_dedup_by_time_members<P>(s: Seq<Candle<P>>)
    ensures
        forall|i: int| 0 <= i < dedup_by_time(s).len() ==> s.contains(#[trigger] dedup_by_time(s)[i]),
    decreases s.len(),
{
    if s.len() > 1 {
        let d0 = s.drop_last();
        lemma_dedup_by_time_members(d0);
        let d = dedup_by_time(d0);
        assert forall|i: int| 0 <= i < dedup_by_time(s).len() implies s.contains(#[trigger] dedup_by_time(s)[i]) by {
            let x = dedup_by_time(s)[i];
            if i < d.len() {
                assert(x == d[i]);
                assert(d0.contains(x));
                let w = choose|w: int| 0 <= w < d0.len() && d0[w] == x;
                assert(s[w] == x);
            } else {
                assert(x == s[s.len() - 1]);
            }
        }
    } else {
        assert forall|i: int| 0 <= i < dedup_by_time(s).len() implies s.contains(#[trigger] dedup_by_time(s)[i]) by {
            assert(dedup_by_time(s)[i] == s[i]);
        }
    }
}

/// Loading candles already strictly ordered by time, no more than the bound,
/// gives back exactly those candles.
pub proof fn lemma_load_all_sorted_input<P>(s: Seq<Candle<P>>, max: nat)
    requires
        strictly_increasing(s),
        s.len() <= max,
    ensures
        load_all(s, max) == s,
    decreases s.len(),
{
    if s.len() > 0 {
        let d = s.drop_last();
        assert forall|i: int, j: int| 0 <= i < j < d.len() implies (#[trigger] d[i]).timestamp.0
            < (#[trigger] d[j]).timestamp.0 by {
            assert(d[i] == s[i] && d[j] == s[j]);
        }
        lemma_load_all_sorted_input(d, max);
        let t = s.last().timestamp.0;
        assert forall|j: int| 0 <= j < d.len() implies (#[trigger] d[j]).timestamp.0 < t by {
            assert(d[j] == s[j]);
        }
        lemma_lower_bound_at(d, t, d.len() as int);
        assert(d.insert(d.len() as int, s.last()) =~= s);
    }
}

/// Loading any history, in any order and with repeated timestamps, yields a
/// series strictly ordered by time and within its bound.
pub proof fn law_loaded_history_ordered_and_bounded<P>(s: Seq<Candle<P>>, max: nat)
    ensures
        strictly_increasing(load_all(s, max)),
        load_all(s, max).len() <= max,
    decreases s.len(),
{
    if s.len() > 0 {
        law_loaded_history_ordered_and_bounded(s.drop_last(), max);
        lemma_add_bounded_sorted(load_all(s.drop_last(), max), s.last(), max);
    }
}

/// The candles ordered by time, stably (equal timestamps keep their order).
pub fn sort_candles<P: Copy>(candles: &Vec<Candle<P>>) -> (r: Vec<Candle<P>>)
    ensures
        r@ == sort_by_time(candles@),
        non_decreasing(r@),
{
    let n = candles.len();
    let mut res: Vec<Candle<P>> = Vec::new();
    let mut i: usize = 0;
    while i < n
        invariant
            i <= n,
            n == candles@.len(),
            res@ == sort_by_time(candles@.take(i as int)),
            non_decreasing(res@),
        decreases n - i,
    {
        let c = candles[i];
        let t = c.timestamp.0;
        let len = res.len();
        let mut j = len;
        while j > 0 && res[j - 1].timestamp.0 > t
            invariant
                j <= len,
                len == res@.len(),
                forall|m: int| j <= m < len ==> (#[trigger] res@[m]).timestamp.0 > t,
            decreases j,
        {
            j -= 1;
        }
        proof {
            let s = res@;
            assert forall|m: int| 0 <= m < j implies (#[trigger] s[m]).timestamp.0 <= t by {
                if m < j - 1 {
                    assert(s[m].timestamp.0 <= s[j - 1].timestamp.0);
                }
            }
            lemma_upper_bound_at(s, t, j as int);
            lemma_insert_after_sorted(s, c);
            assert(candles@.take(i + 1).drop_last() =~= candles@.take(i as int));
            assert(candles@.take(i + 1).last() == c);
        }
        res.insert(j, c);
        i += 1;
    }
    proof {
        assert(candles@.take(n as int) =~= candles@);
    }
    res
}

/// Of each run of consecutive candles with one timestamp, keep the first.
pub fn dedup_candles<P: Copy>(candles: &Vec<Candle<P>>) -> (r: Vec<Candle<P>>)
    ensures
        r@ == dedup_by_time(candles@),
{
    let n = candles.len();
    let mut res: Vec<Candle<P>> = Vec::new();
    let mut i: usize = 0;
    while i < n
        invariant
            i <= n,
            n == candles@.len(),
            res@ == dedup_by_time(candles@.take(i as int)),
            i > 0 ==> res@.len() > 0,
        decreases n - i,
    {
        let c = candles[i];
        let len = res.len();
        proof {
            assert(candles@.take(i + 1).drop_last() =~= candles@.take(i as int));
            assert(candles@.take(i + 1).last() == c);
        }
        if len == 0 {
            res.push(c);
            proof {
                assert(res@ =~= candles@.take(i + 1));
            }
        } else if res[len - 1].timestamp.0 != c.timestamp.0 {
            res.push(c);
        }
        i += 1;
    }
    proof {
        assert(candles@.take(n as int) =~= candles@);
    }
    res
}

} // verus!
