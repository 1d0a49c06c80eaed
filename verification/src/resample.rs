//! Resampling of debounced ticks onto a fixed one-second grid.
//!
//! The verified part of the resampler computes, for every whole second of
//! the run, the integer *window*: how many ticks the second consumed, how
//! many milliseconds that advance spanned, and the running tick count.
//! The caller turns each window into smoothed speed, calories and distance
//! (single-precision arithmetic) and hands the bit patterns back to
//! [`make_interval_data`].

use vstd::prelude::*;

use crate::ticks::ticks_sorted;

verus! {

/// Width of one resampling interval, in milliseconds.
pub const INTERVAL_SIZE: u32 = 1000;

/// The integer content of one resampled second.
#[derive(Debug, Clone, Copy, PartialEq, Eq, Structural)]
pub struct IntervalWindow {
    /// The 1-based second this window covers.
    pub second: u32,
    /// Number of ticks attributed to this second.
    pub count: usize,
    /// Milliseconds between the tick the window stopped on and the tick
    /// the previous window stopped on: the denominator of the speed.
    pub span: u32,
    /// Ticks seen strictly before this second's boundary: the running
    /// tick count, the numerator of the distance to date.
    pub cumulative: usize,
}

/// One per-second sample of the run.  `speed`, `calories` and `distance`
/// hold the bit patterns of non-negative single-precision values.
#[derive(Debug, Clone, Copy, PartialEq, Eq, Structural)]
pub struct IntervalDatum {
    pub time: u32,
    pub speed: u32,
    pub calories: u32,
    pub distance: u32,
}

/// The ticks strictly increase (true of every debounced sequence).
pub open spec fn ticks_strict(s: Seq<u32>) -> bool {
    forall|i: int, j: int| 0 <= i < j < s.len() ==> s[i] < s[j]
}

/// How many elements of the sorted sequence `s` lie strictly below `b`;
/// equally, the least index whose element is at or above `b`.
pub open spec fn count_below(s: Seq<u32>, b: int) -> int
    decreases s.len(),
{
    if s.len() == 0 {
        0
    } else if (s.last() as int) < b {
        s.len() as int
    } else {
        count_below(s.drop_last(), b)
    }
}

/// On a sorted sequence, `count_below` is between 0 and the length, every
/// earlier element is below `b`, and the element at the count (if any) is
/// at or above `b`.
pub proof fn lemma_count_below(s: Seq<u32>, b: int)
    requires
        ticks_sorted(s),
    ensures
        0 <= count_below(s, b) <= s.len(),
        forall|j: int| 0 <= j < count_below(s, b) ==> (s[j] as int) < b,
        count_below(s, b) < s.len() ==> (s[count_below(s, b)] as int) >= b,
    decreases s.len(),
{
    if s.len() == 0 {
    } else if (s.last() as int) < b {
        assert forall|j: int| 0 <= j < count_below(s, b) implies (s[j] as int) < b by {
            assert(s[j] <= s[s.len() - 1]);
        }
    } else {
        assert(ticks_sorted(s.drop_last()));
        lemma_count_below(s.drop_last(), b);
        assert(forall|j: int| 0 <= j < s.len() - 1 ==> s.drop_last()[j] == s[j]);
    }
}

/// Any index `c` such that everything before it is below `b` and the
/// element at it (if any) is not, is exactly `count_below`.
pub proof fn lemma_count_below_unique(s: Seq<u32>, b: int, c: int)
    requires
        ticks_sorted(s),
        0 <= c <= s.len(),
        forall|j: int| 0 <= j < c ==> (s[j] as int) < b,
        c < s.len() ==> (s[c] as int) >= b,
    ensures
        c == count_below(s, b),
{
    lemma_count_below(s, b);
    let k = count_below(s, b);
    if c < k {
        assert((s[c] as int) < b);
    } else if k < c {
        assert((s[k] as int) < b);
    }
}

/// How many windows the resampler emits: the number of seconds `s >= 1`
/// with `il * s` strictly below the last tick.
pub open spec fn num_windows(t: Seq<u32>, il: u32) -> int {
    if t.len() == 0 || t.last() == 0 {
        0
    } else {
        ((t.last() - 1) as int) / (il as int)
    }
}

/// What the `k`-th window of the resampling of `t` holds: the 1-based
/// second, the running tick count at its boundary, and the ticks and
/// milliseconds its advance consumed.
pub open spec fn window_at_ok(t: Seq<u32>, il: u32, k: int, win: IntervalWindow) -> bool {
    let c = count_below(t, (il as int) * (k + 1));
    let prev = count_below(t, (il as int) * k);
    &&& win.second == k + 1
    &&& win.cumulative == c
    &&& win.count == c - prev
    &&& 0 <= prev <= c < t.len()
    &&& win.span == t[c] - t[prev]
}

/// What the resampler promises of its output: one window per whole second,
/// each as `window_at_ok` says.
pub open spec fn windows_ok(t: Seq<u32>, il: u32, w: Seq<IntervalWindow>) -> bool {
    &&& w.len() == num_windows(t, il)
    &&& forall|k: int| 0 <= k < w.len() ==> #[trigger] window_at_ok(t, il, k, w[k])
}

/// Resample the debounced ticks to one window per whole second: advance an
/// index while the tick at it lies before the second's boundary; report how
/// far the index moved and how wide (in milliseconds) the move was.  The
/// window of the final, partial second is not emitted.
pub fn interval_windows(debounced: &Vec<u32>, interval_length: u32) -> (res: Vec<IntervalWindow>)
    requires
        interval_length >= 1,
        ticks_strict(debounced@),
    ensures
        windows_ok(debounced@, interval_length, res@),
{
    let mut res: Vec<IntervalWindow> = Vec::new();
    let n: usize = debounced.len();
    if n == 0 {
        return res;
    }
    let last_tick: u32 = debounced[n - 1];
    proof {
        assert(ticks_sorted(debounced@));
        lemma_count_below(debounced@, 0);
        lemma_count_below_unique(debounced@, 0, 0);
        if last_tick == 0 {
            assert(num_windows(debounced@, interval_length) == 0);
        }
    }
    let mut second: u32 = 1;
    let mut boundary64: u64 = interval_length as u64;
    let mut i: usize = 0;
    while boundary64 < (last_tick as u64)
        invariant
            1 <= second,
            n == debounced@.len(),
            0 < n,
            interval_length >= 1,
            ticks_strict(debounced@),
            ticks_sorted(debounced@),
            last_tick == debounced@.last(),
            second - 1 == res@.len(),
            boundary64 == (interval_length as int) * (second as int),
            second as u64 <= boundary64,
            i == count_below(debounced@, (interval_length as int) * (second - 1)),
            i < n,
            forall|k: int|
                0 <= k < res@.len() ==> #[trigger] ((interval_length as int) * (k + 1))
                    < last_tick,
            forall|k: int|
                0 <= k < res@.len() ==> #[trigger] window_at_ok(
                    debounced@,
                    interval_length,
                    k,
                    res@[k],
                ),
        decreases last_tick as int + interval_length as int - boundary64 as int,
    {
        let boundary: u32 = boundary64 as u32;
        let window_begin: usize = i;
        proof {
            lemma_count_below(debounced@, (interval_length as int) * ((second - 1) as int));
            assert((interval_length as int) * ((second - 1) as int)
                <= (interval_length as int) * (second as int))
                by (nonlinear_arith)
                requires
                    interval_length >= 1,
                    second >= 1,
            ;
        }
        while debounced[i] < boundary
            invariant
                n == debounced@.len(),
                ticks_sorted(debounced@),
                window_begin <= i <= n,
                i < n,
                boundary <= last_tick,
                last_tick == debounced@.last(),
                forall|j: int| 0 <= j < i ==> debounced@[j] < boundary,
            decreases n - i,
        {
            i = i + 1;
            proof {
                if i == n {
                    assert(debounced@[n - 1] < boundary);
                }
            }
        }
        proof {
            lemma_count_below_unique(debounced@, boundary as int, i as int);
            assert((interval_length as int) * (second as int)
                == (interval_length as int) * ((res@.len() as int) + 1));
            lemma_count_below(debounced@, (interval_length as int) * (res@.len() as int));
        }
        let span: u32 = debounced[i] - debounced[window_begin];
        let count: usize = i - window_begin;
        res.push(IntervalWindow { second, count, span, cumulative: i });
        proof {
            let t = debounced@;
            let k = res@.len() - 1;
            assert(count_below(t, (interval_length as int) * (k + 1)) == i as int);
            assert(count_below(t, (interval_length as int) * k) == window_begin as int);
            assert(window_at_ok(t, interval_length, k, res@[k]));
        }
        second = second + 1;
        boundary64 = boundary64 + (interval_length as u64);
        proof {
            assert((interval_length as int) * (second as int)
                == (interval_length as int) * ((second - 1) as int) + (interval_length as int))
                by (nonlinear_arith)
            ;
        }
    }
    proof {
        let k = res@.len() as int;
        if last_tick >= 1 {
            if k >= 1 {
                assert((interval_length as int) * ((k - 1) + 1) < last_tick);
            }
            assert((interval_length as int) * k < (last_tick as int));
            assert(k == ((last_tick - 1) as int) / (interval_length as int))
                by (nonlinear_arith)
                requires
                    interval_length >= 1,
                    last_tick >= 1,
                    (interval_length as int) * k < (last_tick as int),
                    (interval_length as int) * (k + 1) >= (last_tick as int),
                    k >= 0,
            ;
        } else {
            if k >= 1 {
                assert((interval_length as int) * (0 + 1) < last_tick);
            }
            assert(res@.len() == 0);
        }
    }
    res
}

/// A window that consumed any ticks spans a positive number of
/// milliseconds: the speed's denominator is zero only when its numerator
/// is too.
pub proof fn lemma_window_span_positive(t: Seq<u32>, il: u32, w: Seq<IntervalWindow>)
    requires
        ticks_strict(t),
        windows_ok(t, il, w),
    ensures
        forall|k: int| 0 <= k < w.len() && #[trigger] w[k].count > 0 ==> w[k].span > 0,
{
    assert forall|k: int| 0 <= k < w.len() && #[trigger] w[k].count > 0 implies w[k].span > 0 by {
        assert(window_at_ok(t, il, k, w[k]));
        let c = count_below(t, (il as int) * (k + 1));
        let prev = count_below(t, (il as int) * k);
        assert(prev < c);
        assert(t[prev] < t[c]);
    }
}

/// The resampling contract pins its result: any two window sequences
/// meeting it for the same ticks and interval length are equal.
pub proof fn lemma_windows_unique(
    t: Seq<u32>,
    il: u32,
    w1: Seq<IntervalWindow>,
    w2: Seq<IntervalWindow>,
)
    requires
        windows_ok(t, il, w1),
        windows_ok(t, il, w2),
    ensures
        w1 == w2,
{
    assert forall|k: int| 0 <= k < w1.len() implies w1[k] == w2[k] by {
        assert(window_at_ok(t, il, k, w1[k]));
        assert(window_at_ok(t, il, k, w2[k]));
    }
    assert(w1 =~= w2);
}

/// The running tick counts of the windows never decrease: the integer
/// numerators of the distance-to-date series are monotone.
pub proof fn lemma_windows_cumulative_monotone(t: Seq<u32>, il: u32, w: Seq<IntervalWindow>)
    requires
        ticks_sorted(t),
        windows_ok(t, il, w),
    ensures
        forall|k1: int, k2: int|
            0 <= k1 <= k2 < w.len() ==> #[trigger] w[k1].cumulative <= #[trigger] w[k2].cumulative,
{
    assert forall|k1: int, k2: int| 0 <= k1 <= k2 < w.len() implies #[trigger] w[k1].cumulative
        <= #[trigger] w[k2].cumulative by {
        assert(window_at_ok(t, il, k1, w[k1]));
        assert(window_at_ok(t, il, k2, w[k2]));
        let b1 = (il as int) * (k1 + 1);
        let b2 = (il as int) * (k2 + 1);
        assert((il as int) * (k1 + 1) <= (il as int) * (k2 + 1)) by (nonlinear_arith)
            requires
                0 <= k1 <= k2,
                il >= 0,
        ;
        lemma_count_below(t, b1);
        lemma_count_below(t, b2);
        if count_below(t, b2) < count_below(t, b1) {
            assert((t[count_below(t, b2)] as int) < b1);
        }
    }
}

/// Zip the per-second speed, calorie and distance bit patterns into the
/// interval series: sample `k` carries time `k + 1` and the `k`-th value
/// of each series.
pub fn make_interval_data(speeds: &Vec<u32>, calories: &Vec<u32>, distances: &Vec<u32>) -> (res:
    Vec<IntervalDatum>)
    requires
        speeds@.len() == calories@.len(),
        speeds@.len() == distances@.len(),
        speeds@.len() < u32::MAX,
    ensures
        res@.len() == speeds@.len(),
        forall|k: int|
            0 <= k < res@.len() ==> #[trigger] res@[k] == (IntervalDatum {
                time: (k + 1) as u32,
                speed: speeds@[k],
                calories: calories@[k],
                distance: distances@[k],
            }),
{
    let mut res: Vec<IntervalDatum> = Vec::new();
    let n: usize = speeds.len();
    let mut k: usize = 0;
    while k < n
        invariant
            k <= n,
            n == speeds@.len(),
            n == calories@.len(),
            n == distances@.len(),
            n < u32::MAX,
            res@.len() == k,
            forall|j: int|
                0 <= j < k ==> #[trigger] res@[j] == (IntervalDatum {
                    time: (j + 1) as u32,
                    speed: speeds@[j],
                    calories: calories@[j],
                    distance: distances@[j],
                }),
        decreases n - k,
    {
        res.push(
            IntervalDatum {
                time: (k as u32) + 1,
                speed: speeds[k],
                calories: calories[k],
                distance: distances[k],
            },
        );
        k = k + 1;
    }
    res
}

} // verus!
