//! Raw tick handling: debouncing and total run time.

use vstd::prelude::*;

verus! {

/// Milliseconds-since-device-boot reading of one belt tick.  Monotonic
/// within a run; its zero is arbitrary.
pub type Tickstamp = u32;

/// Gap (in milliseconds) at or below which a tick is taken for sensor
/// bounce and dropped.
pub const DEBOUNCE_TIME: u32 = 20;

/// The raw input of one run: the run's start time (an epoch-milliseconds
/// string, carried through unchanged) and the ordered tick readings.
pub struct RawData {
    pub start_time: String,
    pub tickstamps: Vec<Tickstamp>,
}

/// The one failure mode of the pipeline: fewer than two raw ticks exist,
/// so not even a total time can be derived.
#[derive(Debug, PartialEq, Eq, Structural)]
pub enum InvalidRunError {
    InsufficientData,
}

/// The tick readings never decrease.
pub open spec fn ticks_sorted(s: Seq<u32>) -> bool {
    forall|i: int, j: int| 0 <= i <= j < s.len() ==> s[i] <= s[j]
}

/// Debounce of the suffix `s`, given the first tick of the whole run and
/// the last kept re-based tick `prev`: each tick is re-based to `first`,
/// and kept exactly when its gap to `prev` exceeds `DEBOUNCE_TIME`.
pub open spec fn spec_debounce_from(s: Seq<u32>, first: u32, prev: u32) -> Seq<u32>
    decreases s.len(),
{
    if s.len() == 0 {
        Seq::empty()
    } else {
        let t = (s[0] - first) as u32;
        if t - prev > DEBOUNCE_TIME {
            seq![t] + spec_debounce_from(s.drop_first(), first, t)
        } else {
            spec_debounce_from(s.drop_first(), first, prev)
        }
    }
}

/// The debounced tick sequence: the first tick defines the origin and is
/// not emitted; every later tick is re-based to it and kept exactly when
/// its gap to the previously kept re-based tick exceeds `DEBOUNCE_TIME`
/// (the previously kept value starting at 0).
pub open spec fn spec_debounce(s: Seq<u32>) -> Seq<u32> {
    if s.len() == 0 {
        Seq::empty()
    } else {
        spec_debounce_from(s.drop_first(), s[0], 0)
    }
}

/// Drop ticks that arrive within `DEBOUNCE_TIME` of their previously kept
/// predecessor, re-basing all timestamps to the first tick of the run.
pub fn debounce(raw_data: &RawData) -> (res: Vec<u32>)
    requires
        ticks_sorted(raw_data.tickstamps@),
    ensures
        res@ == spec_debounce(raw_data.tickstamps@),
{
    let mut ticks: Vec<u32> = Vec::new();
    let n: usize = raw_data.tickstamps.len();
    if n == 0 {
        return ticks;
    }
    let first: u32 = raw_data.tickstamps[0];
    let mut prev_tick: u32 = 0;
    let mut k: usize = 1;
    while k < n
        invariant
            1 <= k <= n,
            n == raw_data.tickstamps@.len(),
            ticks_sorted(raw_data.tickstamps@),
            first == raw_data.tickstamps@[0],
            forall|j: int| k <= j < n ==> prev_tick <= raw_data.tickstamps@[j] - first,
            spec_debounce(raw_data.tickstamps@) == ticks@
                + spec_debounce_from(raw_data.tickstamps@.skip(k as int), first, prev_tick),
        decreases n - k,
    {
        let this_tick: u32 = raw_data.tickstamps[k] - first;
        proof {
            let s = raw_data.tickstamps@;
            assert(s.skip(k as int).drop_first() =~= s.skip(k as int + 1));
        }
        if this_tick - prev_tick > DEBOUNCE_TIME {
            ticks.push(this_tick);
            prev_tick = this_tick;
        }
        k = k + 1;
    }
    proof {
        assert(raw_data.tickstamps@.skip(n as int) =~= Seq::<u32>::empty());
    }
    ticks
}

/// Every tick the debounce keeps exceeds the previously kept value by
/// more than `DEBOUNCE_TIME`; the first kept one exceeds `prev` by as
/// much.
proof fn lemma_debounce_from_gaps(s: Seq<u32>, first: u32, prev: u32)
    requires
        ticks_sorted(s),
        forall|j: int| 0 <= j < s.len() ==> first <= #[trigger] s[j],
    ensures
        spec_debounce_from(s, first, prev).len() > 0 ==> (spec_debounce_from(s, first, prev)[0]
            as int) > prev + DEBOUNCE_TIME,
        forall|i: int|
            0 <= i < spec_debounce_from(s, first, prev).len() - 1 ==> (#[trigger] spec_debounce_from(
                s,
                first,
                prev,
            )[i + 1] as int) > spec_debounce_from(s, first, prev)[i] + DEBOUNCE_TIME,
    decreases s.len(),
{
    if s.len() == 0 {
    } else {
        let t = (s[0] - first) as u32;
        let rest = s.drop_first();
        assert(ticks_sorted(rest));
        assert(forall|j: int| 0 <= j < rest.len() ==> first <= #[trigger] rest[j]);
        let d = spec_debounce_from(s, first, prev);
        if t - prev > DEBOUNCE_TIME {
            let dr = spec_debounce_from(rest, first, t);
            lemma_debounce_from_gaps(rest, first, t);
            assert(d =~= seq![t] + dr);
            assert forall|i: int| 0 <= i < d.len() - 1 implies (#[trigger] d[i + 1] as int) > d[i]
                + DEBOUNCE_TIME by {
                if i == 0 {
                    assert(d[1] == dr[0]);
                } else {
                    assert(d[i] == dr[i - 1]);
                    assert(d[i + 1] == dr[i]);
                    assert((dr[(i - 1) + 1] as int) > dr[i - 1] + DEBOUNCE_TIME);
                }
            }
        } else {
            lemma_debounce_from_gaps(rest, first, prev);
        }
    }
}

/// Strict order between two positions follows from strict order between
/// neighbours.
proof fn lemma_adjacent_strict(d: Seq<u32>, i: int, j: int)
    requires
        forall|k: int| 0 <= k < d.len() - 1 ==> (#[trigger] d[k + 1] as int) > d[k]
            + DEBOUNCE_TIME,
        0 <= i < j < d.len(),
    ensures
        d[i] < d[j],
    decreases j - i,
{
    if j == i + 1 {
        assert((d[i + 1] as int) > d[i] + DEBOUNCE_TIME);
    } else {
        lemma_adjacent_strict(d, i, j - 1);
        assert((d[j - 1 + 1] as int) > d[j - 1] + DEBOUNCE_TIME);
    }
}

/// The debounced sequence of any non-decreasing tick stream strictly
/// increases, every element exceeds `DEBOUNCE_TIME`, and consecutive
/// elements are more than `DEBOUNCE_TIME` apart: the resampler's
/// preconditions hold of it, and a window that consumed ticks always
/// spans a positive number of milliseconds.
pub proof fn lemma_debounce_strict(s: Seq<u32>)
    requires
        ticks_sorted(s),
    ensures
        forall|i: int, j: int|
            0 <= i < j < spec_debounce(s).len() ==> #[trigger] spec_debounce(s)[i]
                < #[trigger] spec_debounce(s)[j],
        forall|i: int|
            0 <= i < spec_debounce(s).len() ==> (#[trigger] spec_debounce(s)[i] as int)
                > DEBOUNCE_TIME,
        forall|i: int|
            0 <= i < spec_debounce(s).len() - 1 ==> (#[trigger] spec_debounce(s)[i + 1] as int)
                > spec_debounce(s)[i] + DEBOUNCE_TIME,
{
    let d = spec_debounce(s);
    if s.len() > 0 {
        assert(forall|j: int| 0 <= j < s.drop_first().len() ==> s[0] <= #[trigger] s.drop_first()[j]);
        lemma_debounce_from_gaps(s.drop_first(), s[0], 0);
        assert forall|i: int, j: int| 0 <= i < j < d.len() implies #[trigger] d[i]
            < #[trigger] d[j] by {
            lemma_adjacent_strict(d, i, j);
        }
        assert forall|i: int| 0 <= i < d.len() implies (#[trigger] d[i] as int)
            > DEBOUNCE_TIME by {
            if i > 0 {
                lemma_adjacent_strict(d, 0, i);
            }
        }
    }
}

/// Total elapsed seconds of the run, from the raw (pre-debounce) ticks:
/// `(last - first) / 1000`.  Fails with `InsufficientData` when fewer than
/// two raw ticks exist.
pub fn calculate_total_time(raw_data: &RawData) -> (res: Result<u32, InvalidRunError>)
    requires
        ticks_sorted(raw_data.tickstamps@),
    ensures
        raw_data.tickstamps@.len() < 2 ==> res == Result::<u32, InvalidRunError>::Err(
            InvalidRunError::InsufficientData,
        ),
        raw_data.tickstamps@.len() >= 2 ==> (res matches Ok(t) && t == (
        raw_data.tickstamps@.last() - raw_data.tickstamps@.first()) / 1000),
{
    let n: usize = raw_data.tickstamps.len();
    if n < 2 {
        return Err(InvalidRunError::InsufficientData);
    }
    let first: u32 = raw_data.tickstamps[0];
    let last: u32 = raw_data.tickstamps[n - 1];
    Ok((last - first) / 1000)
}

} // verus!
