//! Best-effort distance records: for each target distance of a fixed
//! catalogue, the shortest-time window of the interval series that covers
//! it.
//!
//! A window `[l, r]` covers a target `D` when
//! `data[r].distance > data[l].distance + D`.  The sum on the right is
//! single-precision arithmetic, so the caller precomputes one *threshold*
//! per start index, `thr[l] = data[l].distance + D`, and hands the verified
//! scan the bit patterns.  Since all values are non-negative and finite,
//! the unsigned order of the bit patterns is the numeric order, and the
//! scan itself — a two-pointer sweep minimizing the covered time — is
//! proved to return the true minimum, earliest start winning ties.

use vstd::prelude::*;

use crate::resample::IntervalDatum;

verus! {

/// Bit pattern of the single-precision target 1.0 (one mile).
pub const TARGET_ONE_MILE: u32 = 0x3F80_0000;

/// Bit pattern of the single-precision target 2.0 (two miles).
pub const TARGET_TWO_MILES: u32 = 0x4000_0000;

/// Bit pattern of the single-precision target 3.0 (three miles).
pub const TARGET_THREE_MILES: u32 = 0x4040_0000;

/// Bit pattern of the single-precision target 4.0 (four miles).
pub const TARGET_FOUR_MILES: u32 = 0x4080_0000;

/// Bit pattern of the single-precision target 5.0 (five miles).
pub const TARGET_FIVE_MILES: u32 = 0x40A0_0000;

/// Bit pattern of the single-precision target 0.5 (half a mile).
pub const TARGET_HALF_MILE: u32 = 0x3F00_0000;

/// Bit pattern of the single-precision target 0.25 (one lap).
pub const TARGET_LAP: u32 = 0x3E80_0000;

/// Bit pattern of the one-kilometre target: the catalogue's kilometre
/// constant 1.60934, rounded to single precision.
pub const TARGET_ONE_KM: u32 = 0x3FCD_FEDA;

/// Bit pattern of five times the one-kilometre target, the product taken
/// in single precision (8.0467).
pub const TARGET_FIVE_KM: u32 = 0x4100_BF48;

/// Bit pattern of ten times the one-kilometre target, the product taken
/// in single precision (16.0934).
pub const TARGET_TEN_KM: u32 = 0x4180_BF48;

/// The shortest-time window covering one target distance.  Distances are
/// single-precision bit patterns; times are 1-based seconds.
#[derive(Debug, Clone, Copy, PartialEq, Eq, Structural)]
pub struct DistanceRecord {
    pub start_time: u32,
    pub end_time: u32,
    pub start_distance: u32,
    pub end_distance: u32,
    pub time: u32,
}

/// One record slot per name of the fixed catalogue; a slot is `None` when
/// the run never covered that distance.
#[derive(Debug)]
pub struct DistanceRecordSet {
    pub one_mile: Option<DistanceRecord>,
    pub two_miles: Option<DistanceRecord>,
    pub three_miles: Option<DistanceRecord>,
    pub four_miles: Option<DistanceRecord>,
    pub five_miles: Option<DistanceRecord>,
    pub half_mile: Option<DistanceRecord>,
    pub lap: Option<DistanceRecord>,
    pub one_km: Option<DistanceRecord>,
    pub five_km: Option<DistanceRecord>,
    pub ten_km: Option<DistanceRecord>,
}

/// One precomputed threshold series per name of the catalogue:
/// `thr[l]` holds the bit pattern of `data[l].distance + target`, the sum
/// taken in single precision.
pub struct RecordThresholds {
    pub one_mile: Vec<u32>,
    pub two_miles: Vec<u32>,
    pub three_miles: Vec<u32>,
    pub four_miles: Vec<u32>,
    pub five_miles: Vec<u32>,
    pub half_mile: Vec<u32>,
    pub lap: Vec<u32>,
    pub one_km: Vec<u32>,
    pub five_km: Vec<u32>,
    pub ten_km: Vec<u32>,
}

/// The per-second distances never decrease.
pub open spec fn distances_sorted(data: Seq<IntervalDatum>) -> bool {
    forall|i: int, j: int|
        0 <= i <= j < data.len() ==> #[trigger] data[i].distance <= #[trigger] data[j].distance
}

/// The per-second timestamps never decrease.
pub open spec fn times_sorted(data: Seq<IntervalDatum>) -> bool {
    forall|i: int, j: int|
        0 <= i <= j < data.len() ==> #[trigger] data[i].time <= #[trigger] data[j].time
}

/// What a valid threshold series is: as long as the data, non-decreasing,
/// and at each index at least the distance there and at least the target.
/// Every series of the form `thr[l] = data[l].distance + target` (the sum
/// in single precision, on non-negative values) has these properties,
/// because rounded addition is monotone.
pub open spec fn thresholds_ok(data: Seq<IntervalDatum>, target: u32, thr: Seq<u32>) -> bool {
    &&& thr.len() == data.len()
    &&& forall|i: int, j: int| 0 <= i <= j < thr.len() ==> #[trigger] thr[i] <= #[trigger] thr[j]
    &&& forall|i: int| 0 <= i < thr.len() ==> #[trigger] thr[i] >= data[i].distance
    &&& forall|i: int| 0 <= i < thr.len() ==> #[trigger] thr[i] >= target
}

/// The window `[l, r]` covers the target: the distance at `r` exceeds the
/// threshold of `l`.
pub open spec fn covers(data: Seq<IntervalDatum>, thr: Seq<u32>, l: int, r: int) -> bool {
    &&& 0 <= l < data.len()
    &&& 0 <= r < data.len()
    &&& data[r].distance > thr[l]
}

/// The time the window `[l, r]` took.
pub open spec fn window_time(data: Seq<IntervalDatum>, l: int, r: int) -> int {
    data[r].time - data[l].time
}

/// `b` is the record of the window `[l, r]`, `r` is the least end covering
/// `l`, no covering window is faster, and every earlier-starting covering
/// window is strictly slower.
pub open spec fn record_matches(
    data: Seq<IntervalDatum>,
    thr: Seq<u32>,
    l: int,
    r: int,
    b: DistanceRecord,
) -> bool {
    &&& covers(data, thr, l, r)
    &&& forall|j: int| 0 <= j < r ==> #[trigger] data[j].distance <= thr[l]
    &&& b.start_time == data[l].time
    &&& b.end_time == data[r].time
    &&& b.start_distance == data[l].distance
    &&& b.end_distance == data[r].distance
    &&& b.time == data[r].time - data[l].time
    &&& forall|l2: int, r2: int|
        #[trigger] covers(data, thr, l2, r2) ==> window_time(data, l2, r2) >= b.time
    &&& forall|l2: int, r2: int|
        #[trigger] covers(data, thr, l2, r2) && l2 < l ==> window_time(data, l2, r2) > b.time
}

/// What the record search promises: `None` exactly when no window covers
/// the target, otherwise the record of the fastest covering window,
/// earliest start winning ties.
pub open spec fn record_result_ok(
    data: Seq<IntervalDatum>,
    target: u32,
    thr: Seq<u32>,
    res: Option<DistanceRecord>,
) -> bool {
    match res {
        None => forall|l2: int, r2: int| !#[trigger] covers(data, thr, l2, r2),
        Some(b) => {
            &&& exists|l: int, r: int| #[trigger] record_matches(data, thr, l, r, b)
            &&& b.end_time >= b.start_time
            &&& b.time == b.end_time - b.start_time
            &&& b.end_distance > target
        },
    }
}

/// Two-pointer sweep for the shortest-time window whose distance gain
/// exceeds the target: advance the end while the threshold of the start is
/// not exceeded, record a candidate, advance the start; the best candidate
/// is replaced only by a strictly faster one, so the earliest start wins
/// ties.
pub fn calculate_distance_record(
    data: &Vec<IntervalDatum>,
    target: u32,
    thresholds: &Vec<u32>,
) -> (res: Option<DistanceRecord>)
    requires
        distances_sorted(data@),
        times_sorted(data@),
        thresholds_ok(data@, target, thresholds@),
    ensures
        record_result_ok(data@, target, thresholds@, res),
{
    let n: usize = data.len();
    let mut left: usize = 0;
    let mut right: usize = 0;
    let mut bests: Option<DistanceRecord> = None;
    let ghost mut best_l: int = 0;
    let ghost mut best_r: int = 0;
    while right < n
        invariant
            n == data@.len(),
            n == thresholds@.len(),
            distances_sorted(data@),
            times_sorted(data@),
            thresholds_ok(data@, target, thresholds@),
            left <= right <= n,
            n > 0 ==> left < n,
            forall|j: int|
                0 <= j < right ==> #[trigger] data@[j].distance <= thresholds@[left as int],
            match bests {
                None => forall|l2: int, r2: int|
                    #[trigger] covers(data@, thresholds@, l2, r2) ==> l2 >= left,
                Some(b) => {
                    &&& 0 <= best_l < left
                    &&& covers(data@, thresholds@, best_l, best_r)
                    &&& forall|j: int|
                        0 <= j < best_r ==> #[trigger] data@[j].distance <= thresholds@[best_l]
                    &&& b.start_time == data@[best_l].time
                    &&& b.end_time == data@[best_r].time
                    &&& b.start_distance == data@[best_l].distance
                    &&& b.end_distance == data@[best_r].distance
                    &&& b.time == data@[best_r].time - data@[best_l].time
                    &&& forall|l2: int, r2: int|
                        #[trigger] covers(data@, thresholds@, l2, r2) && l2 < left
                            ==> window_time(data@, l2, r2) >= b.time
                    &&& forall|l2: int, r2: int|
                        #[trigger] covers(data@, thresholds@, l2, r2) && l2 < best_l
                            ==> window_time(data@, l2, r2) > b.time
                },
            },
        decreases 2 * n - left - right,
    {
        if data[right].distance <= thresholds[left] {
            right = right + 1;
        } else {
            proof {
                assert(covers(data@, thresholds@, left as int, right as int));
                if right <= left {
                    assert(data@[right as int].distance <= data@[left as int].distance);
                    assert(thresholds@[left as int] >= data@[left as int].distance);
                }
                assert(left < right);
                assert(data@[left as int].time <= data@[right as int].time);
            }
            let cand = DistanceRecord {
                start_time: data[left].time,
                end_time: data[right].time,
                start_distance: data[left].distance,
                end_distance: data[right].distance,
                time: data[right].time - data[left].time,
            };
            proof {
                assert forall|r2: int| #[trigger] covers(
                    data@,
                    thresholds@,
                    left as int,
                    r2,
                ) implies window_time(data@, left as int, r2) >= cand.time by {
                    assert(data@[r2].distance > thresholds@[left as int]);
                    if r2 < right {
                        assert(data@[r2].distance <= thresholds@[left as int]);
                    }
                    assert(right <= r2 < data@.len());
                    assert(data@[right as int].time <= data@[r2].time);
                };
            }
            let replace: bool = match &bests {
                None => true,
                Some(b) => cand.time < b.time,
            };
            if replace {
                proof {
                    match bests {
                        None => {},
                        Some(b) => {
                            assert forall|l2: int, r2: int|
                                #[trigger] covers(data@, thresholds@, l2, r2) && l2 < left
                                    implies window_time(data@, l2, r2) > cand.time by {};
                        },
                    }
                    best_l = left as int;
                    best_r = right as int;
                }
                bests = Some(cand);
            }
            left = left + 1;
            proof {
                assert(thresholds@[(left - 1) as int] <= thresholds@[left as int]);
                assert forall|j: int|
                    0 <= j < right implies #[trigger] data@[j].distance
                        <= thresholds@[left as int] by {
                    assert(data@[j].distance <= thresholds@[(left - 1) as int]);
                };
            }
        }
    }
    proof {
        if n > 0 {
            assert forall|l2: int, r2: int|
                #[trigger] covers(data@, thresholds@, l2, r2) implies l2 < left by {
                if l2 >= left {
                    assert(thresholds@[left as int] <= thresholds@[l2]);
                    assert(data@[r2].distance <= thresholds@[left as int]);
                }
            };
        }
        match bests {
            None => {},
            Some(b) => {
                assert forall|l2: int, r2: int| #[trigger] covers(
                    data@,
                    thresholds@,
                    l2,
                    r2,
                ) implies window_time(data@, l2, r2) >= b.time by {};
                assert(record_matches(data@, thresholds@, best_l, best_r, b));
                assert(data@[best_l].time <= data@[best_r].time);
                assert(thresholds@[best_l] >= target);
            },
        }
    }
    bests
}

/// Run the record search once per name of the fixed catalogue, against
/// that name's target and precomputed threshold series.
pub fn calculate_distance_records(
    data: &Vec<IntervalDatum>,
    thresholds: &RecordThresholds,
) -> (res: DistanceRecordSet)
    requires
        distances_sorted(data@),
        times_sorted(data@),
        thresholds_ok(data@, TARGET_ONE_MILE, thresholds.one_mile@),
        thresholds_ok(data@, TARGET_TWO_MILES, thresholds.two_miles@),
        thresholds_ok(data@, TARGET_THREE_MILES, thresholds.three_miles@),
        thresholds_ok(data@, TARGET_FOUR_MILES, thresholds.four_miles@),
        thresholds_ok(data@, TARGET_FIVE_MILES, thresholds.five_miles@),
        thresholds_ok(data@, TARGET_HALF_MILE, thresholds.half_mile@),
        thresholds_ok(data@, TARGET_LAP, thresholds.lap@),
        thresholds_ok(data@, TARGET_ONE_KM, thresholds.one_km@),
        thresholds_ok(data@, TARGET_FIVE_KM, thresholds.five_km@),
        thresholds_ok(data@, TARGET_TEN_KM, thresholds.ten_km@),
    ensures
        record_result_ok(data@, TARGET_ONE_MILE, thresholds.one_mile@, res.one_mile),
        record_result_ok(data@, TARGET_TWO_MILES, thresholds.two_miles@, res.two_miles),
        record_result_ok(data@, TARGET_THREE_MILES, thresholds.three_miles@, res.three_miles),
        record_result_ok(data@, TARGET_FOUR_MILES, thresholds.four_miles@, res.four_miles),
        record_result_ok(data@, TARGET_FIVE_MILES, thresholds.five_miles@, res.five_miles),
        record_result_ok(data@, TARGET_HALF_MILE, thresholds.half_mile@, res.half_mile),
        record_result_ok(data@, TARGET_LAP, thresholds.lap@, res.lap),
        record_result_ok(data@, TARGET_ONE_KM, thresholds.one_km@, res.one_km),
        record_result_ok(data@, TARGET_FIVE_KM, thresholds.five_km@, res.five_km),
        record_result_ok(data@, TARGET_TEN_KM, thresholds.ten_km@, res.ten_km),
{
    DistanceRecordSet {
        one_mile: calculate_distance_record(data, TARGET_ONE_MILE, &thresholds.one_mile),
        two_miles: calculate_distance_record(data, TARGET_TWO_MILES, &thresholds.two_miles),
        three_miles: calculate_distance_record(data, TARGET_THREE_MILES, &thresholds.three_miles),
        four_miles: calculate_distance_record(data, TARGET_FOUR_MILES, &thresholds.four_miles),
        five_miles: calculate_distance_record(data, TARGET_FIVE_MILES, &thresholds.five_miles),
        half_mile: calculate_distance_record(data, TARGET_HALF_MILE, &thresholds.half_mile),
        lap: calculate_distance_record(data, TARGET_LAP, &thresholds.lap),
        one_km: calculate_distance_record(data, TARGET_ONE_KM, &thresholds.one_km),
        five_km: calculate_distance_record(data, TARGET_FIVE_KM, &thresholds.five_km),
        ten_km: calculate_distance_record(data, TARGET_TEN_KM, &thresholds.ten_km),
    }
}

/// The record contract pins its result: any two results meeting it for
/// the same data, target and thresholds are equal.  With the stages
/// around it equally pinned, the pipeline is a function of its input
/// alone.
pub proof fn lemma_record_result_unique(
    data: Seq<IntervalDatum>,
    target: u32,
    thr: Seq<u32>,
    res1: Option<DistanceRecord>,
    res2: Option<DistanceRecord>,
)
    requires
        record_result_ok(data, target, thr, res1),
        record_result_ok(data, target, thr, res2),
    ensures
        res1 == res2,
{
    match (res1, res2) {
        (Option::None, Option::None) => {},
        (Option::None, Option::Some(b2)) => {
            let (l2, r2) = choose|l: int, r: int| #[trigger] record_matches(data, thr, l, r, b2);
            assert(covers(data, thr, l2, r2));
        },
        (Option::Some(b1), Option::None) => {
            let (l1, r1) = choose|l: int, r: int| #[trigger] record_matches(data, thr, l, r, b1);
            assert(covers(data, thr, l1, r1));
        },
        (Option::Some(b1), Option::Some(b2)) => {
            let (l1, r1) = choose|l: int, r: int| #[trigger] record_matches(data, thr, l, r, b1);
            let (l2, r2) = choose|l: int, r: int| #[trigger] record_matches(data, thr, l, r, b2);
            assert(covers(data, thr, l1, r1));
            assert(covers(data, thr, l2, r2));
            assert(window_time(data, l2, r2) >= b1.time);
            assert(window_time(data, l1, r1) >= b2.time);
            assert(b1.time == b2.time);
            if l1 < l2 {
                assert(window_time(data, l1, r1) > b2.time);
            }
            if l2 < l1 {
                assert(window_time(data, l2, r2) > b1.time);
            }
            assert(l1 == l2);
            if r1 < r2 {
                assert(data[r1].distance <= thr[l2]);
            }
            if r2 < r1 {
                assert(data[r2].distance <= thr[l1]);
            }
            assert(r1 == r2);
        },
    }
}

/// A record can only be present when the run's final distance strictly
/// exceeds the target (both read as single-precision bit patterns).
pub proof fn lemma_record_needs_distance(
    data: Seq<IntervalDatum>,
    target: u32,
    thr: Seq<u32>,
    res: Option<DistanceRecord>,
)
    requires
        distances_sorted(data),
        thresholds_ok(data, target, thr),
        record_result_ok(data, target, thr, res),
        res is Some,
    ensures
        data.len() > 0,
        data.last().distance > target,
{
    let b = res->Some_0;
    let (l, r) = choose|l: int, r: int| #[trigger] record_matches(data, thr, l, r, b);
    assert(covers(data, thr, l, r));
    assert(data[r].distance <= data[data.len() - 1].distance);
    assert(thr[l] >= target);
}

/// When the run's final distance does not exceed the target, no window
/// covers it and the record is absent.
pub proof fn lemma_no_record_below_target(
    data: Seq<IntervalDatum>,
    target: u32,
    thr: Seq<u32>,
    res: Option<DistanceRecord>,
)
    requires
        distances_sorted(data),
        thresholds_ok(data, target, thr),
        record_result_ok(data, target, thr, res),
        data.len() == 0 || data.last().distance <= target,
    ensures
        res is None,
{
    if res is Some {
        lemma_record_needs_distance(data, target, thr, res);
    }
}

} // verus!
