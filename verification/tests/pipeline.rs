//! End-to-end and per-stage tests of the summary pipeline.  The verified
//! core carries single-precision values as bit patterns; these tests
//! perform the single-precision arithmetic around it exactly as the
//! summary defines it and check the recorded scenario values bit for bit.

use treadmill_summary::records;
use treadmill_summary::records::{calculate_distance_record, calculate_distance_records};
use treadmill_summary::rect::{calculate_largest_rect, rect_candidates};
use treadmill_summary::resample::{interval_windows, make_interval_data};
use treadmill_summary::summary::Summary;
use treadmill_summary::ticks::{calculate_total_time, debounce};
use treadmill_summary::{
    DistanceRecord, IntervalDatum, IntervalWindow, InvalidRunError, LargestRect, RawData,
    RecordThresholds, INTERVAL_SIZE,
};

const TICKS_PER_MILE: f32 = 5280.0 * (6.0 / 3.12);
const MILLIS_PER_HOUR: u32 = 60 * 60 * 1000;
const KILOMETERS_PER_MILE: f32 = 1.60934;
const SPEED_SMOOTHING: f32 = 0.5;

/// The per-second single-precision series: smoothed speed, calories and
/// distance-to-date of each window, as bit patterns.
fn series_of(windows: &[IntervalWindow]) -> (Vec<u32>, Vec<u32>, Vec<u32>) {
    let mut speeds = Vec::new();
    let mut calories = Vec::new();
    let mut distances = Vec::new();
    let mut speed: f32 = 0.0;
    for w in windows {
        let ticks_per_millis = (w.count as f32) / (w.span as f32);
        let immediate_speed = ticks_per_millis * MILLIS_PER_HOUR as f32 / TICKS_PER_MILE;
        speed = immediate_speed * (1. - SPEED_SMOOTHING) + SPEED_SMOOTHING * speed;
        let incline = 1.0;
        let weight = 192.0;
        let cal =
            (1.0 / 60 as f32) * (weight / 26400.) * (speed * (322. + 14.5 * incline) + 210.);
        speeds.push(speed.to_bits());
        calories.push(cal.to_bits());
        distances.push((w.cumulative as f32 / TICKS_PER_MILE).to_bits());
    }
    (speeds, calories, distances)
}

/// One threshold series: `data[l].distance + target`, in single precision.
fn thresholds_for(distances: &[u32], target: f32) -> Vec<u32> {
    distances
        .iter()
        .map(|d| (f32::from_bits(*d) + target).to_bits())
        .collect()
}

fn all_thresholds(distances: &[u32]) -> RecordThresholds {
    RecordThresholds {
        one_mile: thresholds_for(distances, 1.),
        two_miles: thresholds_for(distances, 2.),
        three_miles: thresholds_for(distances, 3.),
        four_miles: thresholds_for(distances, 4.),
        five_miles: thresholds_for(distances, 5.),
        half_mile: thresholds_for(distances, 0.5),
        lap: thresholds_for(distances, 0.25),
        one_km: thresholds_for(distances, KILOMETERS_PER_MILE),
        five_km: thresholds_for(distances, 5. * KILOMETERS_PER_MILE),
        ten_km: thresholds_for(distances, 10. * KILOMETERS_PER_MILE),
    }
}

/// The single-precision area of each candidate rectangle.
fn areas_of(cands: &[treadmill_summary::RectCandidate]) -> Vec<u32> {
    cands
        .iter()
        .map(|c| (f32::from_bits(c.height) * (c.end_time - c.start_time) as f32).to_bits())
        .collect()
}

/// The interval series of a run, from its raw ticks.
fn interval_data_of(raw: &RawData, interval_length: u32) -> Vec<IntervalDatum> {
    let debounced = debounce(raw);
    let windows = interval_windows(&debounced, interval_length);
    let (speeds, calories, distances) = series_of(&windows);
    make_interval_data(&speeds, &calories, &distances)
}

/// The whole pipeline: raw ticks in, summary out.
fn summarize(id: &str, start_time: &str, ticks: Vec<u32>) -> Result<Summary, InvalidRunError> {
    let raw = RawData { start_time: start_time.to_string(), tickstamps: ticks };
    let data = interval_data_of(&raw, INTERVAL_SIZE);
    let distances: Vec<u32> = data.iter().map(|d| d.distance).collect();
    let records = calculate_distance_records(&data, &all_thresholds(&distances));
    let cands = rect_candidates(&data);
    let areas = areas_of(&cands);
    let rect = calculate_largest_rect(&data, &cands, &areas);
    let mut total_calories: f32 = 0.0;
    for d in &data {
        total_calories += f32::from_bits(d.calories);
    }
    Summary::new(id.to_string(), raw, data, records, rect, total_calories.to_bits())
}

fn datum(time: u32, speed: f32, calories: f32, distance: f32) -> IntervalDatum {
    IntervalDatum {
        time,
        speed: speed.to_bits(),
        calories: calories.to_bits(),
        distance: distance.to_bits(),
    }
}

#[test]
fn catalogue_targets_match_single_precision_values() {
    assert_eq!(records::TARGET_ONE_MILE, (1.0f32).to_bits());
    assert_eq!(records::TARGET_TWO_MILES, (2.0f32).to_bits());
    assert_eq!(records::TARGET_THREE_MILES, (3.0f32).to_bits());
    assert_eq!(records::TARGET_FOUR_MILES, (4.0f32).to_bits());
    assert_eq!(records::TARGET_FIVE_MILES, (5.0f32).to_bits());
    assert_eq!(records::TARGET_HALF_MILE, (0.5f32).to_bits());
    assert_eq!(records::TARGET_LAP, (0.25f32).to_bits());
    assert_eq!(records::TARGET_ONE_KM, KILOMETERS_PER_MILE.to_bits());
    assert_eq!(records::TARGET_FIVE_KM, (5. * KILOMETERS_PER_MILE).to_bits());
    assert_eq!(records::TARGET_TEN_KM, (10. * KILOMETERS_PER_MILE).to_bits());
}

#[test]
fn debouce_ticks_success() {
    let rd = RawData { start_time: "123456".to_string(), tickstamps: vec![6, 19, 40, 100] };
    let db = debounce(&rd);
    assert_eq!(db, vec![34, 94]);
}

#[test]
fn calculate_total_time_success() {
    let rd = RawData { start_time: "123456".to_string(), tickstamps: vec![12123, 19456] };
    let tt = calculate_total_time(&rd);
    assert_eq!(tt.unwrap(), 7);
}

#[test]
fn calculate_total_time_fail() {
    let rd = RawData { start_time: "123456".to_string(), tickstamps: vec![] };
    let tt = calculate_total_time(&rd);
    assert_eq!(tt.unwrap_err(), InvalidRunError::InsufficientData);
}

#[test]
fn calculate_total_time_one_tick_fails() {
    let rd = RawData { start_time: "123456".to_string(), tickstamps: vec![5] };
    let tt = calculate_total_time(&rd);
    assert_eq!(tt.unwrap_err(), InvalidRunError::InsufficientData);
}

#[test]
fn calculate_interval_data_success() {
    let rd = RawData {
        start_time: "123456".to_string(),
        tickstamps: (1..100).map(|e| 40 * e).collect(),
    };
    let id = interval_data_of(&rd, 1000);
    assert_eq!(id.len(), 3);
    assert_eq!(id[0], datum(1, 4.431818, 0.20621902, 0.0023636362));
}

#[test]
fn interval_windows_report_the_advance() {
    // Ticks every 40 ms: the first second's boundary falls on the 25th
    // kept tick, so its window consumed 24 ticks over 960 ms.
    let rd = RawData {
        start_time: "123456".to_string(),
        tickstamps: (1..100).map(|e| 40 * e).collect(),
    };
    let debounced = debounce(&rd);
    assert_eq!(debounced.len(), 98);
    assert_eq!(debounced[0], 40);
    assert_eq!(*debounced.last().unwrap(), 3920);
    let windows = interval_windows(&debounced, 1000);
    assert_eq!(windows.len(), 3);
    assert_eq!(
        windows[0],
        IntervalWindow { second: 1, count: 24, span: 960, cumulative: 24 }
    );
    assert_eq!(windows[1].second, 2);
    assert_eq!(windows[2].second, 3);
}

#[test]
fn calculate_largest_rect_success() {
    let data = vec![
        datum(1, 1.0, 0., 1.),
        datum(2, 2.0, 0., 1.),
        datum(3, 3.0, 0., 1.),
        datum(4, 4.0, 0., 1.),
        datum(5, 5.0, 0., 1.),
        datum(5, 0.0, 0., 1.),
    ];
    let cands = rect_candidates(&data);
    let areas = areas_of(&cands);
    let lr = calculate_largest_rect(&data, &cands, &areas);
    assert_eq!(
        lr,
        LargestRect {
            start_time: 2,
            end_time: 5,
            height: (3.0f32).to_bits(),
            area: (9.0f32).to_bits(),
        }
    );
}

#[test]
fn largest_rect_empty_series_is_degenerate() {
    let data: Vec<IntervalDatum> = vec![];
    let cands = rect_candidates(&data);
    let areas = areas_of(&cands);
    let lr = calculate_largest_rect(&data, &cands, &areas);
    assert_eq!(lr, LargestRect { start_time: 0, end_time: 0, height: 0, area: 0 });
}

#[test]
fn summarize_empty_ticks_insufficient() {
    let res = summarize("run", "123456", vec![]);
    assert_eq!(res.unwrap_err(), InvalidRunError::InsufficientData);
}

#[test]
fn summarize_single_tick_insufficient() {
    let res = summarize("run", "123456", vec![5]);
    assert_eq!(res.unwrap_err(), InvalidRunError::InsufficientData);
}

#[test]
fn distance_record_none_when_distance_never_covered() {
    // Constant distance: no window ever gains the lap target.
    let data = vec![datum(1, 1.0, 0., 0.1), datum(2, 1.0, 0., 0.1), datum(3, 1.0, 0., 0.1)];
    let distances: Vec<u32> = data.iter().map(|d| d.distance).collect();
    let thr = thresholds_for(&distances, 0.25);
    let rec = calculate_distance_record(&data, (0.25f32).to_bits(), &thr);
    assert!(rec.is_none());
}

#[test]
fn distance_record_earliest_fastest_window_wins() {
    // Two windows gain 1.0: [t1, t3] and [t2, t4]; both take two seconds,
    // so the earlier one is the record.
    let data = vec![
        datum(1, 1.0, 0., 0.0),
        datum(2, 1.0, 0., 0.5),
        datum(3, 1.0, 0., 1.5),
        datum(4, 1.0, 0., 2.0),
    ];
    let distances: Vec<u32> = data.iter().map(|d| d.distance).collect();
    let thr = thresholds_for(&distances, 1.0);
    let rec = calculate_distance_record(&data, (1.0f32).to_bits(), &thr).unwrap();
    assert_eq!(
        rec,
        DistanceRecord {
            start_time: 1,
            end_time: 3,
            start_distance: (0.0f32).to_bits(),
            end_distance: (1.5f32).to_bits(),
            time: 2,
        }
    );
}

#[test]
fn interval_data_times_are_dense_and_distance_monotone() {
    let rd = RawData {
        start_time: "0".to_string(),
        tickstamps: (0..10000u32).map(|i| 30 * i).collect(),
    };
    let data = interval_data_of(&rd, INTERVAL_SIZE);
    assert!(!data.is_empty());
    for (k, d) in data.iter().enumerate() {
        assert_eq!(d.time, k as u32 + 1);
        assert!(f32::from_bits(d.speed) >= 0.0);
        if k > 0 {
            assert!(f32::from_bits(data[k - 1].distance) <= f32::from_bits(d.distance));
        }
    }
}

#[test]
fn empty_and_short_streams_yield_empty_series() {
    let rd = RawData { start_time: "0".to_string(), tickstamps: vec![] };
    assert!(debounce(&rd).is_empty());
    let windows = interval_windows(&vec![], INTERVAL_SIZE);
    assert!(windows.is_empty());
    // Two ticks 500 ms apart: no whole second completes.
    let rd = RawData { start_time: "0".to_string(), tickstamps: vec![100, 600] };
    let data = interval_data_of(&rd, INTERVAL_SIZE);
    assert!(data.is_empty());
    let s = summarize("short", "0", vec![100, 600]).expect("summary");
    assert_eq!(s.total_time, 0);
    assert_eq!(f32::from_bits(s.total_distance), 0.0);
    assert!(s.distance_records.lap.is_none());
}

#[test]
fn summarize_full_run_recorded_values() {
    // A steady run: one tick every 30 ms for five minutes.
    let ticks: Vec<u32> = (0..10000u32).map(|i| 30 * i).collect();
    let s = summarize("10ef491c-426c-406c-a885-15fbf1e0e9e0", "1656202584971", ticks)
        .expect("summary");
    assert_eq!(s.id, "10ef491c-426c-406c-a885-15fbf1e0e9e0");
    assert_eq!(s.start_time, "1656202584971");
    assert_eq!(s.total_time, 299);
    assert_eq!(f32::from_bits(s.total_calories), 151.2582);
    assert_eq!(f32::from_bits(s.total_distance), 0.98149997);
    assert_eq!(
        s.largest_rect,
        LargestRect {
            start_time: 24,
            end_time: 299,
            height: (11.818182f32).to_bits(),
            area: (3250.0f32).to_bits(),
        }
    );
    let half = s.distance_records.half_mile.unwrap();
    assert_eq!(half.start_time, 1);
    assert_eq!(half.end_time, 154);
    assert_eq!(f32::from_bits(half.start_distance), 0.0032499998);
    assert_eq!(f32::from_bits(half.end_distance), 0.5055227);
    assert_eq!(half.time, 153);
    let lap = s.distance_records.lap.unwrap();
    assert_eq!(lap.start_time, 1);
    assert_eq!(lap.end_time, 78);
    assert_eq!(f32::from_bits(lap.start_distance), 0.0032499998);
    assert_eq!(f32::from_bits(lap.end_distance), 0.2559621);
    assert_eq!(lap.time, 77);
    assert!(s.distance_records.one_mile.is_none());
    assert!(s.distance_records.two_miles.is_none());
    assert!(s.distance_records.three_miles.is_none());
    assert!(s.distance_records.four_miles.is_none());
    assert!(s.distance_records.five_miles.is_none());
    assert!(s.distance_records.one_km.is_none());
    assert!(s.distance_records.five_km.is_none());
    assert!(s.distance_records.ten_km.is_none());
    // A present record covers its target in the time its window spans.
    assert_eq!(half.time, half.end_time - half.start_time);
    assert!(
        f32::from_bits(half.end_distance) - f32::from_bits(half.start_distance) >= 0.5
    );
    // The rectangle's area is its height times its width.
    assert_eq!(
        f32::from_bits(s.largest_rect.area),
        f32::from_bits(s.largest_rect.height)
            * (s.largest_rect.end_time - s.largest_rect.start_time) as f32
    );
    // The totals restate the interval series.
    assert_eq!(s.total_distance, s.interval_data.last().unwrap().distance);
    let mut cal_sum: f32 = 0.0;
    for d in &s.interval_data {
        cal_sum += f32::from_bits(d.calories);
    }
    assert_eq!(s.total_calories, cal_sum.to_bits());
}
