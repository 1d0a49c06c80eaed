//! Smoke tests of the tick-buffer operations.  No store runs during the
//! tests, so each operation is expected to come back with an error
//! carrying the underlying connection message rather than panicking.

use treadmill_summary::cache;

#[test]
fn cache_get_without_store_reports_error() {
    match cache::get("some-run-id".to_string()) {
        Ok(_) => {}
        Err(e) => assert!(!e.msg.is_empty()),
    }
}

#[test]
fn cache_set_without_store_reports_error() {
    match cache::set("start_time-x".to_string(), "123".to_string()) {
        Ok(_) => {}
        Err(e) => assert!(!e.msg.is_empty()),
    }
}

#[test]
fn cache_zadd_and_range_without_store_report_errors() {
    match cache::zadd_multiple("run", vec![("30", 30u64), ("60", 60u64)]) {
        Ok(_) => {}
        Err(e) => assert!(!e.msg.is_empty()),
    }
    match cache::fullzrange("run") {
        Ok(_) => {}
        Err(e) => assert!(!e.msg.is_empty()),
    }
    match cache::zrem("run") {
        Ok(_) => {}
        Err(e) => assert!(!e.msg.is_empty()),
    }
    match cache::del("run") {
        Ok(_) => {}
        Err(e) => assert!(!e.msg.is_empty()),
    }
}
