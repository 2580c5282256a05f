use std::collections::VecDeque;
use vstd::prelude::*;

use crate::chart::{is_rollup, lemma_rollup_start, lemma_rollup_step, payloads, rolled_up, CandlePayload};
use crate::series::Candle;

verus! {

/// Keep overview geometry near one logical bar per two physical pixels.
pub const PIXELS_PER_RENDERED_CANDLE: usize = 2;

/// Fewest candles the level of detail allows before it stops merging.
pub const MIN_LOD_CANDLES: usize = 128;

/// Most candles sent to the GPU.
pub const MAX_LOD_CANDLES: usize = 4096;

/// Number of candles sent to the GPU for `visible` candles on a canvas
/// `width` pixels wide: one per two pixels, between 128 and 4096, never more
/// than are visible.
pub open spec fn spec_lod_candle_count(visible: nat, width: nat) -> nat {
    let per_pixel = width / 2;
    let budget = if per_pixel < 128 {
        128
    } else if per_pixel > 4096 {
        4096
    } else {
        per_pixel
    };
    if visible < budget {
        visible
    } else {
        budget as nat
    }
}

/// Number of candles sent to the GPU after level-of-detail aggregation.
pub fn lod_candle_count(visible_count: usize, canvas_width: u32) -> (n: usize)
    ensures
        n == spec_lod_candle_count(visible_count as nat, canvas_width as nat),
        n <= visible_count,
        n <= MAX_LOD_CANDLES,
{
    let per_pixel = canvas_width as usize / PIXELS_PER_RENDERED_CANDLE;
    let budget = if per_pixel < MIN_LOD_CANDLES {
        MIN_LOD_CANDLES
    } else if per_pixel > MAX_LOD_CANDLES {
        MAX_LOD_CANDLES
    } else {
        per_pixel
    };
    if visible_count < budget {
        visible_count
    } else {
        budget
    }
}

/// First index of bucket `b` when `visible` candles from `start` are split
/// into `target` buckets.
#[verifier::opaque]
pub open spec fn bucket_lo(start: int, visible: int, target: int, b: int) -> int {
    start + b * visible / target
}

/// End (exclusive) of bucket `b`, cut at `end`.
pub open spec fn bucket_hi(start: int, visible: int, target: int, end: int, b: int) -> int {
    let hi = bucket_lo(start, visible, target, b + 1);
    if hi < end {
        hi
    } else {
        end
    }
}

/// The non-empty buckets among the first `n`, as index ranges.
pub open spec fn lod_ranges(start: int, visible: int, target: int, end: int, n: int) -> Seq<(int, int)>
    decreases n,
{
    if n <= 0 {
        Seq::empty()
    } else {
        let prev = lod_ranges(start, visible, target, end, n - 1);
        let lo = bucket_lo(start, visible, target, n - 1);
        let hi = bucket_hi(start, visible, target, end, n - 1);
        if lo < hi {
            prev.push((lo, hi))
        } else {
            prev
        }
    }
}

/// The index ranges of `len` candles that become one rendered candle each,
/// for the `visible` candles from `start` on a canvas `width` pixels wide:
/// each candle alone when they fit the budget, else the candles split into
/// `lod_candle_count` buckets.
pub open spec fn render_ranges(len: int, start: int, visible: int, width: nat) -> Seq<(int, int)> {
    let target = spec_lod_candle_count(visible as nat, width) as int;
    if target == 0 {
        Seq::empty()
    } else if target == visible {
        let k = if start >= len {
            0
        } else if visible < len - start {
            visible
        } else {
            len - start
        };
        Seq::new(k as nat, |i: int| (start + i, start + i + 1))
    } else {
        let end = if start + visible < len {
            start + visible
        } else {
            len
        };
        lod_ranges(start, visible, target, end, target)
    }
}

proof fn lemma_bucket_lo_steps(start: int, visible: int, target: int, a: int, b: int)
    requires
        0 < target <= visible,
        0 <= a < b,
    ensures
        bucket_lo(start, visible, target, a) < bucket_lo(start, visible, target, b),
{
    reveal(bucket_lo);
    assert(a * visible + visible <= b * visible) by (nonlinear_arith)
        requires
            a < b,
            visible > 0,
    ;
    assert(a * visible + target <= b * visible);
    assert((a * visible + target) / target == a * visible / target + 1) by {
        vstd::arithmetic::div_mod::lemma_div_plus_one(a * visible, target);
    }
    assert((a * visible + target) / target <= b * visible / target) by {
        vstd::arithmetic::div_mod::lemma_div_is_ordered(a * visible + target, b * visible, target);
    }
}

/// Shape of the bucket ranges: bucket `i` of the result is bucket `i` of the
/// split, every one non-empty, and the buckets left out are past `end`.
proof fn lemma_lod_ranges_shape(start: int, visible: int, target: int, end: int, n: int)
    requires
        0 < target < visible,
        0 <= n <= target,
    ensures
        lod_ranges(start, visible, target, end, n).len() <= n,
        forall|i: int|
            0 <= i < lod_ranges(start, visible, target, end, n).len() ==> #[trigger] lod_ranges(
                start,
                visible,
                target,
                end,
                n,
            )[i] == (bucket_lo(start, visible, target, i), bucket_hi(start, visible, target, end, i))
                && bucket_lo(start, visible, target, i) < bucket_hi(start, visible, target, end, i),
        lod_ranges(start, visible, target, end, n).len() < n ==> bucket_lo(
            start,
            visible,
            target,
            lod_ranges(start, visible, target, end, n).len() as int,
        ) >= end,
    decreases n,
{
    if n > 0 {
        lemma_lod_ranges_shape(start, visible, target, end, n - 1);
        let prev = lod_ranges(start, visible, target, end, n - 1);
        let lo = bucket_lo(start, visible, target, n - 1);
        let hi = bucket_hi(start, visible, target, end, n - 1);
        lemma_bucket_lo_steps(start, visible, target, n - 1, n);
        if prev.len() < n - 1 {
            lemma_bucket_lo_steps(start, visible, target, prev.len() as int, n - 1);
        }
        if lo < hi {
            assert(prev.len() == n - 1);
            let r = prev.push((lo, hi));
            assert(lod_ranges(start, visible, target, end, n) == r);
            assert forall|i: int| 0 <= i < r.len() implies #[trigger] r[i] == (
                bucket_lo(start, visible, target, i),
                bucket_hi(start, visible, target, end, i),
            ) && bucket_lo(start, visible, target, i) < bucket_hi(start, visible, target, end, i) by {
                if i < prev.len() {
                    assert(r[i] == prev[i]);
                }
            }
        } else {
            let r = lod_ranges(start, visible, target, end, n);
            assert(r == prev);
            assert forall|i: int| 0 <= i < r.len() implies #[trigger] r[i] == (
                bucket_lo(start, visible, target, i),
                bucket_hi(start, visible, target, end, i),
            ) && bucket_lo(start, visible, target, i) < bucket_hi(start, visible, target, end, i) by {
                assert(r[i] == prev[i]);
            }
        }
    }
}

/// The rendered buckets split the visible candles: they are non-empty,
/// follow each other without gap or overlap, start at `start` and end at
/// the end of the visible candles; there are at most `target` of them, and
/// exactly `target` when all the visible candles are in the series.
pub proof fn law_lod_buckets_partition(start: int, visible: int, target: int, end: int)
    requires
        0 < target < visible,
        start < end <= start + visible,
    ensures
        ({
            let r = lod_ranges(start, visible, target, end, target);
            &&& 0 < r.len() <= target
            &&& end == start + visible ==> r.len() == target
            &&& r[0].0 == start
            &&& r.last().1 == end
            &&& forall|i: int| 0 <= i < r.len() ==> (#[trigger] r[i]).0 < r[i].1
            &&& forall|i: int| 0 <= i < r.len() - 1 ==> (#[trigger] r[i]).1 == r[i + 1].0
        }),
{
    lemma_lod_ranges_shape(start, visible, target, end, target);
    let r = lod_ranges(start, visible, target, end, target);
    assert(bucket_lo(start, visible, target, 0) == start) by {
        reveal(bucket_lo);
    }
    if r.len() == 0 {
        assert(start >= end);
    }
    assert forall|i: int| 0 <= i < r.len() - 1 implies (#[trigger] r[i]).1 == r[i + 1].0 by {
        assert(r[i + 1].0 < r[i + 1].1);
        assert(r[i + 1].1 <= end);
    }
    let m = r.len() as int;
    assert(bucket_lo(start, visible, target, target) == start + visible) by {
        reveal(bucket_lo);
        vstd::arithmetic::div_mod::lemma_div_multiples_vanish(visible, target);
        vstd::arithmetic::mul::lemma_mul_is_commutative(target, visible);
    }
    if m < target {
        assert(bucket_lo(start, visible, target, m) >= end);
        lemma_bucket_lo_steps(start, visible, target, m, target);
    }
}

/// A candle sent to the GPU and the index of the last source candle it covers.
#[derive(Debug, Clone, Copy)]
pub struct RenderCandle<P> {
    pub candle: Candle<P>,
    pub source_index: usize,
}

/// The candles to render for the `visible_count` candles from `start_index`:
/// each candle as it is when they fit the level-of-detail budget, else one
/// candle per bucket, stamped with its first candle's time, with the payload
/// of the first candle's seed merged with the others of the bucket in order
/// (see `rolled_up`).
pub fn build_render_candles<P: CandlePayload>(
    candles: &VecDeque<Candle<P>>,
    start_index: usize,
    visible_count: usize,
    canvas_width: u32,
) -> (r: Vec<RenderCandle<P>>)
    requires
        start_index + visible_count <= usize::MAX,
        spec_lod_candle_count(visible_count as nat, canvas_width as nat) * visible_count
            <= usize::MAX,
    ensures
        ({
            let ranges = render_ranges(
                candles@.len() as int,
                start_index as int,
                visible_count as int,
                canvas_width as nat,
            );
            &&& r@.len() == ranges.len()
            &&& forall|i: int|
                0 <= i < r@.len() ==> (#[trigger] r@[i]).source_index == ranges[i].1 - 1
                    && r@[i].candle.timestamp == candles@[ranges[i].0].timestamp
            &&& spec_lod_candle_count(visible_count as nat, canvas_width as nat) == visible_count
                ==> forall|i: int| 0 <= i < r@.len() ==> (#[trigger] r@[i]).candle == candles@[start_index + i]
            &&& spec_lod_candle_count(visible_count as nat, canvas_width as nat) != visible_count
                ==> forall|i: int|
                0 <= i < r@.len() ==> rolled_up(
                    payloads(candles@.subrange(ranges[i].0, ranges[i].1)),
                    (#[trigger] r@[i]).candle.ohlcv,
                )
        }),
{
    let len = candles.len();
    let target = lod_candle_count(visible_count, canvas_width);
    let ghost ranges = render_ranges(len as int, start_index as int, visible_count as int, canvas_width as nat);
    let mut result: Vec<RenderCandle<P>> = Vec::new();
    if target == 0 {
        return result;
    }
    if target == visible_count {
        let mut i: usize = 0;
        while i < visible_count && start_index < len && i < len - start_index
            invariant
                i <= visible_count,
                start_index < len ==> i <= len - start_index,
                start_index >= len ==> i == 0,
                len == candles@.len(),
                ranges == render_ranges(len as int, start_index as int, visible_count as int, canvas_width as nat),
                target == visible_count,
                target == spec_lod_candle_count(visible_count as nat, canvas_width as nat),
                start_index + visible_count <= usize::MAX,
                result@.len() == i,
                forall|j: int|
                    0 <= j < i ==> (#[trigger] result@[j]).candle == candles@[start_index + j]
                        && result@[j].source_index == start_index + j,
            decreases visible_count - i,
        {
            let c = candles[start_index + i];
            result.push(RenderCandle { candle: c, source_index: start_index + i });
            i += 1;
        }
        proof {
            assert(ranges.len() == i);
            assert forall|j: int| 0 <= j < i implies (#[trigger] ranges[j]) == (start_index + j, start_index + j + 1) by {}
        }
        return result;
    }
    let end_index = if start_index + visible_count < len {
        start_index + visible_count
    } else {
        len
    };
    let mut bucket: usize = 0;
    while bucket < target
        invariant
            bucket <= target,
            0 < target < visible_count,
            len == candles@.len(),
            end_index <= len,
            end_index as int == (if start_index + visible_count < len {
                start_index + visible_count
            } else {
                len as int
            }),
            target * visible_count <= usize::MAX,
            start_index + visible_count <= usize::MAX,
            result@ .len() == lod_ranges(start_index as int, visible_count as int, target as int, end_index as int, bucket as int).len(),
            forall|i: int|
                0 <= i < result@.len() ==> (#[trigger] result@[i]).source_index == lod_ranges(
                    start_index as int,
                    visible_count as int,
                    target as int,
                    end_index as int,
                    bucket as int,
                )[i].1 - 1 && result@[i].candle.timestamp == candles@[lod_ranges(
                    start_index as int,
                    visible_count as int,
                    target as int,
                    end_index as int,
                    bucket as int,
                )[i].0].timestamp,
            forall|i: int|
                0 <= i < result@.len() ==> rolled_up(
                    payloads(
                        candles@.subrange(
                            lod_ranges(
                                start_index as int,
                                visible_count as int,
                                target as int,
                                end_index as int,
                                bucket as int,
                            )[i].0,
                            lod_ranges(
                                start_index as int,
                                visible_count as int,
                                target as int,
                                end_index as int,
                                bucket as int,
                            )[i].1,
                        ),
                    ),
                    (#[trigger] result@[i]).candle.ohlcv,
                ),
        decreases target - bucket,
    {
        proof {
            assert(bucket * visible_count <= target * visible_count) by (nonlinear_arith)
                requires
                    bucket <= target,
            ;
            assert((bucket + 1) * visible_count <= target * visible_count) by (nonlinear_arith)
                requires
                    bucket < target,
            ;
            assert(bucket * visible_count / (target as int) <= visible_count) by {
                vstd::arithmetic::div_mod::lemma_div_is_ordered(
                    bucket * visible_count,
                    target * visible_count,
                    target as int,
                );
                vstd::arithmetic::div_mod::lemma_div_multiples_vanish(visible_count as int, target as int);
                vstd::arithmetic::mul::lemma_mul_is_commutative(target as int, visible_count as int);
            }
            assert((bucket + 1) * visible_count / (target as int) <= visible_count) by {
                vstd::arithmetic::div_mod::lemma_div_is_ordered(
                    (bucket + 1) * visible_count,
                    target * visible_count,
                    target as int,
                );
                vstd::arithmetic::div_mod::lemma_div_multiples_vanish(visible_count as int, target as int);
                vstd::arithmetic::mul::lemma_mul_is_commutative(target as int, visible_count as int);
            }
        }
        let lo = start_index + bucket * visible_count / target;
        let hi_raw = start_index + (bucket + 1) * visible_count / target;
        let hi = if hi_raw < end_index {
            hi_raw
        } else {
            end_index
        };
        proof {
            reveal(bucket_lo);
            assert(lo == bucket_lo(start_index as int, visible_count as int, target as int, bucket as int));
            assert(hi == bucket_hi(start_index as int, visible_count as int, target as int, end_index as int, bucket as int));
        }
        let ghost prev = lod_ranges(start_index as int, visible_count as int, target as int, end_index as int, bucket as int);
        if lo < hi {
            let ghost ps = payloads(candles@.subrange(lo as int, hi as int));
            let first = candles[lo];
            let mut ohlcv = first.ohlcv.bucket_seed();
            let ghost mut acc: Seq<P> = seq![ohlcv];
            proof {
                assert(ps[0] == first.ohlcv);
                lemma_rollup_start(ps, ohlcv);
            }
            let mut j = lo + 1;
            while j < hi
                invariant
                    lo < j <= hi,
                    hi <= len,
                    len == candles@.len(),
                    ps == payloads(candles@.subrange(lo as int, hi as int)),
                    is_rollup(ps.take(j - lo), acc),
                    acc.len() == j - lo,
                    acc.last() == ohlcv,
                decreases hi - j,
            {
                ohlcv = ohlcv.merge(&candles[j].ohlcv);
                proof {
                    assert(ps[j - lo] == candles@[j as int].ohlcv);
                    lemma_rollup_step(ps, acc, j - lo, ohlcv);
                    acc = acc.push(ohlcv);
                }
                j += 1;
            }
            proof {
                assert(ps.take(hi - lo) =~= ps);
                assert(is_rollup(ps, acc));
            }
            result.push(RenderCandle {
                candle: Candle { timestamp: first.timestamp, ohlcv },
                source_index: hi - 1,
            });
            proof {
                let nxt = lod_ranges(start_index as int, visible_count as int, target as int, end_index as int, bucket + 1);
                assert(nxt == prev.push((lo as int, hi as int)));
                assert forall|i: int| 0 <= i < result@.len() implies (#[trigger] result@[i]).source_index == nxt[i].1 - 1
                    && result@[i].candle.timestamp == candles@[nxt[i].0].timestamp by {
                    if i < prev.len() {
                        assert(nxt[i] == prev[i]);
                    }
                }
                assert forall|i: int| 0 <= i < result@.len() implies rolled_up(
                    payloads(candles@.subrange(nxt[i].0, nxt[i].1)),
                    (#[trigger] result@[i]).candle.ohlcv,
                ) by {
                    if i < prev.len() {
                        assert(nxt[i] == prev[i]);
                    } else {
                        assert(nxt[i] == (lo as int, hi as int));
                    }
                }
            }
        } else {
            proof {
                let nxt = lod_ranges(start_index as int, visible_count as int, target as int, end_index as int, bucket + 1);
                assert(nxt == prev);
            }
        }
        bucket += 1;
    }
    result
}

/// Start of the visible window whose first candle is the first one not
/// older than `start_ts`, pulled back so that `visible` candles fit.
pub open spec fn spec_start_by_time<P>(s: Seq<Candle<P>>, start_ts: u64, visible: nat) -> nat {
    let first = crate::series::lower_bound(s, start_ts);
    let max_start = if s.len() >= visible {
        (s.len() - visible) as nat
    } else {
        0
    };
    if first < max_start {
        first
    } else {
        max_start
    }
}

/// The visible window (start index, candle count) of a series for a view
/// starting at `start_ts` and showing `visible` candles.
pub fn visible_range_by_time<P>(candles: &VecDeque<Candle<P>>, start_ts: u64, visible: usize) -> (r: (
    usize,
    usize,
))
    ensures
        candles@.len() == 0 ==> r == (0usize, 0usize),
        candles@.len() > 0 ==> r.0 == spec_start_by_time(candles@, start_ts, visible as nat) && r.1
            == visible,
{
    let len = candles.len();
    if len == 0 {
        return (0, 0);
    }
    let mut first: usize = 0;
    while first < len && candles[first].timestamp.0 < start_ts
        invariant
            first <= len,
            len == candles@.len(),
            forall|j: int| 0 <= j < first ==> (#[trigger] candles@[j]).timestamp.0 < start_ts,
        decreases len - first,
    {
        first += 1;
    }
    proof {
        crate::series::lemma_lower_bound_at(candles@, start_ts, first as int);
    }
    let max_start = if len >= visible {
        len - visible
    } else {
        0
    };
    let start = if first < max_start {
        first
    } else {
        max_start
    };
    (start, visible)
}

} // verus!
