//! Verified core of a treadmill run summarizer.
//!
//! A treadmill emits one *tick* per fixed fraction of belt travel, stamped
//! with a millisecond reading of the device clock.  At the end of a run the
//! raw tick stream is turned into a summary: total time, a per-second series
//! of speed / distance / calories, best-effort records for a fixed catalogue
//! of distances, and the largest speed-rectangle sustained over the run.
//!
//! Speeds, distances, calories and areas are IEEE-754 single-precision
//! values.  The verified core carries each such value as its bit pattern in
//! a `u32`.  Every value the pipeline produces is finite and non-negative,
//! and on non-negative finite single-precision values the unsigned order of
//! bit patterns coincides with the numeric order, so every comparison the
//! algorithms make is exact integer logic and is verified here.  The
//! floating-point arithmetic itself (a handful of straight-line formulas)
//! is performed by the caller, which hands the resulting bit patterns back
//! to the verified pipeline.

pub mod cache;
pub mod records;
pub mod rect;
pub mod resample;
pub mod summary;
pub mod ticks;

pub use cache::CacheError;
pub use records::{DistanceRecord, DistanceRecordSet, RecordThresholds};
pub use rect::{LargestRect, RectCandidate, SpeedPoint};
pub use resample::{IntervalDatum, IntervalWindow, INTERVAL_SIZE};
pub use summary::Summary;
pub use ticks::{InvalidRunError, RawData, Tickstamp, DEBOUNCE_TIME};
