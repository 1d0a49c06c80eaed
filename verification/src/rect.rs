//! Largest speed-rectangle: over the per-second speed series, the window
//! maximizing `minimum speed x duration`.
//!
//! The classic stack sweep pops bars of the speed histogram and produces
//! one candidate rectangle per pop; which bars are popped depends only on
//! speed comparisons, exact on bit patterns.  The area of a candidate is a
//! single-precision product, so the caller computes the areas of the
//! candidate list and the verified selection picks the first candidate
//! strictly beating every earlier one, seeded with the degenerate width-1
//! rectangle of the first sample, exactly as the summary always has.

use vstd::prelude::*;

use crate::resample::IntervalDatum;

verus! {

/// One bar of the speed histogram: a 1-based second and the bit pattern
/// of the speed sustained through it.
#[derive(Debug, Clone, Copy, PartialEq, Eq, Structural)]
pub struct SpeedPoint {
    pub time: u32,
    pub speed: u32,
}

/// One candidate rectangle of the sweep: a time window and the height
/// (speed bit pattern) sustained across it.
#[derive(Debug, Clone, Copy, PartialEq, Eq, Structural)]
pub struct RectCandidate {
    pub start_time: u32,
    pub end_time: u32,
    pub height: u32,
}

/// The largest rectangle of the run.  `height` and `area` are
/// single-precision bit patterns.
#[derive(Debug, Clone, Copy, PartialEq, Eq, Structural)]
pub struct LargestRect {
    pub start_time: u32,
    pub end_time: u32,
    pub height: u32,
    pub area: u32,
}

/// The speed series of the interval data, as histogram bars.
pub open spec fn samples_of(data: Seq<IntervalDatum>) -> Seq<SpeedPoint> {
    data.map(|i: int, d: IntervalDatum| SpeedPoint { time: d.time, speed: d.speed })
}

/// The pop phase of the sweep at sample `d`: while the top of the stack is
/// at least as fast as `d`, pop it and emit the rectangle spanning from
/// the bar below it (or the run's start) to `d`.
pub open spec fn pop_phase(
    stack: Seq<SpeedPoint>,
    cands: Seq<RectCandidate>,
    d: SpeedPoint,
) -> (Seq<SpeedPoint>, Seq<RectCandidate>)
    decreases stack.len(),
{
    if stack.len() > 0 && stack.last().speed >= d.speed {
        let top = stack.last();
        let rest = stack.drop_last();
        let left_time: u32 = if rest.len() == 0 {
            0u32
        } else {
            rest.last().time
        };
        pop_phase(
            rest,
            cands.push(
                RectCandidate { start_time: left_time, end_time: d.time, height: top.speed },
            ),
            d,
        )
    } else {
        (stack, cands)
    }
}

/// The whole sweep: fold the pop phase over the samples in order, pushing
/// each sample after its pop phase.
pub open spec fn sweep(
    samples: Seq<SpeedPoint>,
    stack: Seq<SpeedPoint>,
    cands: Seq<RectCandidate>,
) -> (Seq<SpeedPoint>, Seq<RectCandidate>)
    decreases samples.len(),
{
    if samples.len() == 0 {
        (stack, cands)
    } else {
        let sc = pop_phase(stack, cands, samples[0]);
        sweep(samples.drop_first(), sc.0.push(samples[0]), sc.1)
    }
}

/// The candidate rectangles the sweep of the speed series emits, in the
/// order it emits them.
pub open spec fn rect_candidates_spec(data: Seq<IntervalDatum>) -> Seq<RectCandidate> {
    sweep(samples_of(data), Seq::empty(), Seq::empty()).1
}

/// Run the stack sweep over the speed series and return every candidate
/// rectangle it emits, in order.
pub fn rect_candidates(data: &Vec<IntervalDatum>) -> (res: Vec<RectCandidate>)
    ensures
        res@ == rect_candidates_spec(data@),
{
    let n: usize = data.len();
    let mut stack: Vec<SpeedPoint> = Vec::new();
    let mut cands: Vec<RectCandidate> = Vec::new();
    let mut i: usize = 0;
    proof {
        assert(samples_of(data@).skip(0) =~= samples_of(data@));
    }
    while i < n
        invariant
            n == data@.len(),
            i <= n,
            sweep(samples_of(data@).skip(i as int), stack@, cands@) == sweep(
                samples_of(data@),
                Seq::empty(),
                Seq::empty(),
            ),
        decreases n - i,
    {
        let d = SpeedPoint { time: data[i].time, speed: data[i].speed };
        let ghost stack0 = stack@;
        let ghost cands0 = cands@;
        proof {
            assert(samples_of(data@)[i as int] == d);
        }
        while stack.len() > 0 && stack[stack.len() - 1].speed >= d.speed
            invariant
                pop_phase(stack@, cands@, d) == pop_phase(stack0, cands0, d),
            decreases stack@.len(),
        {
            let ghost st_before = stack@;
            let ghost cd_before = cands@;
            let top = stack.pop().unwrap();
            let left_time: u32 = if stack.len() == 0 {
                0
            } else {
                stack[stack.len() - 1].time
            };
            cands.push(RectCandidate { start_time: left_time, end_time: d.time, height: top.speed });
            proof {
                assert(st_before.drop_last() =~= stack@);
                assert(pop_phase(st_before, cd_before, d) == pop_phase(stack@, cands@, d));
            }
        }
        stack.push(SpeedPoint { time: d.time, speed: d.speed });
        i = i + 1;
        proof {
            let samples = samples_of(data@);
            assert(samples.skip(i - 1).drop_first() =~= samples.skip(i as int));
            assert(samples.skip(i - 1)[0] == samples[i - 1]);
            assert(pop_phase(stack0, cands0, d) == (stack@.drop_last(), cands@));
            assert(sweep(samples.skip(i - 1), stack0, cands0) == sweep(
                samples.skip(i as int),
                stack@,
                cands@,
            )) by {
                assert(stack@.drop_last().push(samples[i - 1]) =~= stack@);
            }
        }
    }
    proof {
        assert(samples_of(data@).skip(n as int) =~= Seq::<SpeedPoint>::empty());
    }
    cands
}

/// The per-second timestamps strictly increase and start at or above 1
/// (true of the interval series, whose sample `k` carries time `k + 1`).
pub open spec fn times_strict_pos(data: Seq<IntervalDatum>) -> bool {
    &&& forall|i: int, j: int|
        0 <= i < j < data.len() ==> #[trigger] data[i].time < #[trigger] data[j].time
    &&& forall|i: int| 0 <= i < data.len() ==> #[trigger] data[i].time >= 1
}

/// `p` is one of the series' samples.
pub open spec fn is_sample(data: Seq<IntervalDatum>, p: SpeedPoint) -> bool {
    exists|j: int|
        0 <= j < data.len() && p == (SpeedPoint {
            time: (#[trigger] data[j]).time,
            speed: data[j].speed,
        })
}

/// A well-formed candidate: its window runs forward, it ends at one of
/// the series' timestamps, and its height is one of the series' speeds.
pub open spec fn cand_wf(data: Seq<IntervalDatum>, c: RectCandidate) -> bool {
    &&& c.start_time < c.end_time
    &&& exists|j: int| 0 <= j < data.len() && (#[trigger] data[j]).time == c.end_time
    &&& exists|j: int| 0 <= j < data.len() && (#[trigger] data[j]).speed == c.height
}

/// Every element of the stack is a sample, the stack's times strictly
/// increase bottom to top, and all lie below `bound`.
pub open spec fn stack_wf(data: Seq<IntervalDatum>, stack: Seq<SpeedPoint>, bound: int) -> bool {
    &&& forall|i: int| 0 <= i < stack.len() ==> is_sample(data, #[trigger] stack[i])
    &&& forall|i: int, j: int|
        0 <= i < j < stack.len() ==> #[trigger] stack[i].time < #[trigger] stack[j].time
    &&& forall|i: int| 0 <= i < stack.len() ==> #[trigger] stack[i].time < bound
}

/// The pop phase preserves the stack's shape and emits only well-formed
/// candidates.
proof fn lemma_pop_phase_wf(
    data: Seq<IntervalDatum>,
    stack: Seq<SpeedPoint>,
    cands: Seq<RectCandidate>,
    d: SpeedPoint,
)
    requires
        stack_wf(data, stack, d.time as int),
        is_sample(data, d),
        d.time >= 1,
        forall|m: int| 0 <= m < cands.len() ==> cand_wf(data, #[trigger] cands[m]),
    ensures
        stack_wf(data, pop_phase(stack, cands, d).0, d.time as int),
        forall|m: int|
            0 <= m < pop_phase(stack, cands, d).1.len() ==> cand_wf(
                data,
                #[trigger] pop_phase(stack, cands, d).1[m],
            ),
    decreases stack.len(),
{
    if stack.len() > 0 && stack.last().speed >= d.speed {
        let top = stack.last();
        let rest = stack.drop_last();
        let left_time: u32 = if rest.len() == 0 {
            0u32
        } else {
            rest.last().time
        };
        let c = RectCandidate { start_time: left_time, end_time: d.time, height: top.speed };
        assert(is_sample(data, top));
        let jt = choose|j: int|
            0 <= j < data.len() && top == (SpeedPoint {
                time: (#[trigger] data[j]).time,
                speed: data[j].speed,
            });
        let jd = choose|j: int|
            0 <= j < data.len() && d == (SpeedPoint {
                time: (#[trigger] data[j]).time,
                speed: data[j].speed,
            });
        assert(data[jd].time == c.end_time);
        assert(data[jt].speed == c.height);
        if rest.len() > 0 {
            assert(rest.last() == stack[stack.len() - 2]);
            assert(rest.last().time < top.time);
        }
        assert(cand_wf(data, c));
        assert(stack_wf(data, rest, d.time as int));
        lemma_pop_phase_wf(data, rest, cands.push(c), d);
    }
}

/// The whole sweep emits only well-formed candidates, given a stack whose
/// times all precede the samples still to come.
proof fn lemma_sweep_wf(
    data: Seq<IntervalDatum>,
    samples: Seq<SpeedPoint>,
    stack: Seq<SpeedPoint>,
    cands: Seq<RectCandidate>,
)
    requires
        forall|i: int| 0 <= i < samples.len() ==> is_sample(data, #[trigger] samples[i]),
        forall|i: int, j: int|
            0 <= i < j < samples.len() ==> #[trigger] samples[i].time < #[trigger] samples[j].time,
        forall|i: int| 0 <= i < samples.len() ==> #[trigger] samples[i].time >= 1,
        samples.len() > 0 ==> stack_wf(data, stack, samples[0].time as int),
        forall|m: int| 0 <= m < cands.len() ==> cand_wf(data, #[trigger] cands[m]),
    ensures
        forall|m: int|
            0 <= m < sweep(samples, stack, cands).1.len() ==> cand_wf(
                data,
                #[trigger] sweep(samples, stack, cands).1[m],
            ),
    decreases samples.len(),
{
    if samples.len() > 0 {
        let d = samples[0];
        lemma_pop_phase_wf(data, stack, cands, d);
        let s2 = pop_phase(stack, cands, d).0;
        let c2 = pop_phase(stack, cands, d).1;
        let rest = samples.drop_first();
        assert(forall|i: int| 0 <= i < rest.len() ==> is_sample(data, #[trigger] rest[i]));
        if rest.len() > 0 {
            assert(rest[0] == samples[1]);
            assert(d.time < rest[0].time);
            assert forall|i: int, j: int| 0 <= i < j < s2.push(d).len() implies #[trigger] s2.push(
                d,
            )[i].time < #[trigger] s2.push(d)[j].time by {
                if j == s2.len() {
                    assert(s2.push(d)[i] == s2[i]);
                    assert(s2[i].time < d.time);
                } else {
                    assert(s2.push(d)[i] == s2[i]);
                    assert(s2.push(d)[j] == s2[j]);
                }
            }
            assert(stack_wf(data, s2.push(d), rest[0].time as int));
        }
        lemma_sweep_wf(data, rest, s2.push(d), c2);
        assert(sweep(samples, stack, cands) == sweep(rest, s2.push(d), c2));
    }
}

/// Every candidate the sweep of a strictly-ordered series emits is
/// well-formed: its window runs forward, ends at one of the series'
/// timestamps, and its height is one of the series' speeds.
pub proof fn lemma_rect_candidates_wf(data: Seq<IntervalDatum>)
    requires
        times_strict_pos(data),
    ensures
        forall|m: int|
            0 <= m < rect_candidates_spec(data).len() ==> cand_wf(
                data,
                #[trigger] rect_candidates_spec(data)[m],
            ),
{
    let samples = samples_of(data);
    assert(forall|i: int| 0 <= i < samples.len() ==> is_sample(data, #[trigger] samples[i]));
    lemma_sweep_wf(data, samples, Seq::empty(), Seq::empty());
}

/// The degenerate width-1 rectangle of the first sample, the seed of the
/// selection: its area equals its height.
pub open spec fn seed_rect(d0: IntervalDatum) -> LargestRect {
    LargestRect {
        start_time: (d0.time - 1) as u32,
        end_time: d0.time,
        height: d0.speed,
        area: d0.speed,
    }
}

/// `res` is the rectangle of candidate `w`, `w` beats the seed, no
/// candidate's area exceeds `w`'s, and every earlier candidate's area
/// falls strictly below it.
pub open spec fn selection_at(
    seed: LargestRect,
    cands: Seq<RectCandidate>,
    areas: Seq<u32>,
    w: int,
    res: LargestRect,
) -> bool {
    &&& 0 <= w < areas.len()
    &&& areas[w] > seed.area
    &&& res == (LargestRect {
        start_time: cands[w].start_time,
        end_time: cands[w].end_time,
        height: cands[w].height,
        area: areas[w],
    })
    &&& forall|j: int| 0 <= j < areas.len() ==> (#[trigger] areas[j]) <= areas[w]
    &&& forall|j: int| 0 <= j < w ==> (#[trigger] areas[j]) < areas[w]
}

/// What the selection promises: the seed, unless some candidate's area
/// strictly exceeds the seed's, in which case the first candidate whose
/// area no other exceeds.
pub open spec fn rect_selection_ok(
    seed: LargestRect,
    cands: Seq<RectCandidate>,
    areas: Seq<u32>,
    res: LargestRect,
) -> bool {
    if exists|j: int| 0 <= j < areas.len() && (#[trigger] areas[j]) > seed.area {
        exists|w: int| #[trigger] selection_at(seed, cands, areas, w, res)
    } else {
        res == seed
    }
}

/// Pick the largest rectangle: seed with the width-1 rectangle of the
/// first sample, then walk the candidates in sweep order, replacing the
/// best only when an area strictly exceeds it, so the earliest candidate
/// wins ties.  `areas[j]` holds the single-precision product of
/// `candidates[j].height` and the window's width in seconds.  On an empty
/// series the degenerate all-zero rectangle is returned.
pub fn calculate_largest_rect(
    data: &Vec<IntervalDatum>,
    candidates: &Vec<RectCandidate>,
    areas: &Vec<u32>,
) -> (res: LargestRect)
    requires
        candidates@.len() == areas@.len(),
        data@.len() > 0 ==> data@[0].time >= 1,
    ensures
        data@.len() == 0 ==> res == (LargestRect {
            start_time: 0,
            end_time: 0,
            height: 0,
            area: 0,
        }),
        data@.len() > 0 ==> rect_selection_ok(seed_rect(data@[0]), candidates@, areas@, res),
{
    if data.len() == 0 {
        return LargestRect { start_time: 0, end_time: 0, height: 0, area: 0 };
    }
    let first_time: u32 = data[0].time;
    let first_speed: u32 = data[0].speed;
    let seed = LargestRect {
        start_time: first_time - 1,
        end_time: first_time,
        height: first_speed,
        area: first_speed,
    };
    let mut best = seed;
    let ghost mut best_w: int = -1;
    let n: usize = candidates.len();
    let mut j: usize = 0;
    while j < n
        invariant
            n == candidates@.len(),
            n == areas@.len(),
            j <= n,
            seed == seed_rect(data@[0]),
            data@.len() > 0,
            -1 <= best_w,
            best_w == -1 ==> best == seed,
            best_w == -1 ==> forall|k: int| 0 <= k < j ==> (#[trigger] areas@[k]) <= seed.area,
            best_w >= 0 ==> best_w < j,
            best_w >= 0 ==> areas@[best_w] > seed.area,
            best_w >= 0 ==> best == (LargestRect {
                start_time: candidates@[best_w].start_time,
                end_time: candidates@[best_w].end_time,
                height: candidates@[best_w].height,
                area: areas@[best_w],
            }),
            best_w >= 0 ==> forall|k: int| 0 <= k < j ==> (#[trigger] areas@[k]) <= areas@[
                best_w
            ],
            best_w >= 0 ==> forall|k: int| 0 <= k < best_w ==> (#[trigger] areas@[k]) < areas@[
                best_w
            ],
        decreases n - j,
    {
        if areas[j] > best.area {
            best = LargestRect {
                start_time: candidates[j].start_time,
                end_time: candidates[j].end_time,
                height: candidates[j].height,
                area: areas[j],
            };
            proof {
                best_w = j as int;
            }
        }
        j = j + 1;
    }
    proof {
        if best_w >= 0 {
            assert(selection_at(seed_rect(data@[0]), candidates@, areas@, best_w, best));
        }
    }
    best
}

/// The selection contract pins its result: any two rectangles meeting it
/// for the same seed, candidates and areas are equal.  With the stages
/// before it equally pinned, the pipeline is a function of its input
/// alone.
pub proof fn lemma_rect_selection_unique(
    seed: LargestRect,
    cands: Seq<RectCandidate>,
    areas: Seq<u32>,
    res1: LargestRect,
    res2: LargestRect,
)
    requires
        rect_selection_ok(seed, cands, areas, res1),
        rect_selection_ok(seed, cands, areas, res2),
    ensures
        res1 == res2,
{
    if exists|j: int| 0 <= j < areas.len() && (#[trigger] areas[j]) > seed.area {
        let w1 = choose|w: int| #[trigger] selection_at(seed, cands, areas, w, res1);
        let w2 = choose|w: int| #[trigger] selection_at(seed, cands, areas, w, res2);
        assert(areas[w1] <= areas[w2]);
        assert(areas[w2] <= areas[w1]);
        if w1 < w2 {
            assert(areas[w1] < areas[w2]);
        }
        if w2 < w1 {
            assert(areas[w2] < areas[w1]);
        }
    }
}

} // verus!
