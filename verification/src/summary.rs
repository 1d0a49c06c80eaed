//! The run summary: the value the pipeline produces for one finished run.

use vstd::prelude::*;

use crate::records::DistanceRecordSet;
use crate::rect::LargestRect;
use crate::resample::IntervalDatum;
use crate::ticks::{calculate_total_time, ticks_sorted, InvalidRunError, RawData};

verus! {

/// The summary of one run.  `total_calories` and `total_distance` hold
/// single-precision bit patterns; `total_time` is whole seconds.
#[derive(Debug)]
pub struct Summary {
    pub id: String,
    pub start_time: String,
    pub total_time: u32,
    pub total_calories: u32,
    pub total_distance: u32,
    pub distance_records: DistanceRecordSet,
    pub largest_rect: LargestRect,
    pub interval_data: Vec<IntervalDatum>,
}

/// The total distance of the run: the distance of the last interval
/// sample, or zero when the series is empty.
pub fn calculate_total_distance(data: &Vec<IntervalDatum>) -> (res: u32)
    ensures
        res == if data@.len() == 0 {
            0u32
        } else {
            data@.last().distance
        },
{
    if data.len() == 0 {
        0
    } else {
        data[data.len() - 1].distance
    }
}

impl Summary {
    /// Assemble the summary of a run from its raw data and the results of
    /// the derivation stages.  The total time is computed here, from the
    /// raw ticks, and its failure is the summary's: with fewer than two
    /// raw ticks no summary exists and `InsufficientData` is returned.
    /// The total distance is read off the interval series; `id` and
    /// `start_time` pass through unchanged.
    pub fn new(
        id: String,
        raw_data: RawData,
        interval_data: Vec<IntervalDatum>,
        distance_records: DistanceRecordSet,
        largest_rect: LargestRect,
        total_calories: u32,
    ) -> (res: Result<Summary, InvalidRunError>)
        requires
            ticks_sorted(raw_data.tickstamps@),
        ensures
            raw_data.tickstamps@.len() < 2 ==> (res matches Err(e) && e
                == InvalidRunError::InsufficientData),
            raw_data.tickstamps@.len() >= 2 ==> (res matches Ok(s) && {
                &&& s.id@ == id@
                &&& s.start_time@ == raw_data.start_time@
                &&& s.total_time == (raw_data.tickstamps@.last() - raw_data.tickstamps@.first())
                    / 1000
                &&& s.total_calories == total_calories
                &&& s.total_distance == (if interval_data@.len() == 0 {
                    0u32
                } else {
                    interval_data@.last().distance
                })
                &&& s.distance_records == distance_records
                &&& s.largest_rect == largest_rect
                &&& s.interval_data@ == interval_data@
            }),
    {
        let total_time: u32 = match calculate_total_time(&raw_data) {
            Ok(t) => t,
            Err(e) => {
                return Err(e);
            },
        };
        let total_distance: u32 = calculate_total_distance(&interval_data);
        Ok(
            Summary {
                id,
                start_time: raw_data.start_time,
                total_time,
                total_calories,
                total_distance,
                distance_records,
                largest_rect,
                interval_data,
            },
        )
    }
}

} // verus!
