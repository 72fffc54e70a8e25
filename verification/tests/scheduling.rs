use flycheap::session::{midnight, Session, Trip};

fn watcher(requests_per_day: usize, dates: &[&str]) -> Session {
    Session {
        email: None,
        google_api_key: "api_key".to_string(),
        requests_per_day,
        sale_country: "DE".to_string(),
        request_name: "watch".to_string(),
        trips: vec![Trip {
            from: "OTP".to_string(),
            to: "TXL".to_string(),
            dates: dates.iter().map(|d| d.to_string()).collect(),
        }],
    }
}

// An arbitrary whole epoch day, as the midnight anchor of the scenario.
const DAY: i64 = 16888 * 86400;

#[test]
fn four_rounds_a_day_fire_every_six_hours() {
    // Budget 8, round size 2: four rounds per day, a six-hour interval;
    // at 07:00 the next round is at 12:00 the same day.
    let s = watcher(8, &["2016-03-28", "2016-04-03"]);
    assert_eq!(s.total_calls(), 2);
    assert_eq!(s.request_sets_per_day(), 4);
    let now = DAY + 7 * 3600;
    assert_eq!(s.next_run_at(now, 0).unwrap(), DAY + 12 * 3600);
    assert_eq!(s.next_run_seconds(now, 0).unwrap(), 5 * 3600);
}

#[test]
fn next_run_is_idempotent_and_monotonic() {
    let s = watcher(8, &["2016-03-28", "2016-04-03"]);
    let noon = s.next_run_at(DAY + 7 * 3600, 0).unwrap();
    // Asked exactly at a scheduled instant, the scheduler answers that
    // same instant.
    assert_eq!(s.next_run_at(noon, 0).unwrap(), noon);
    assert_eq!(s.next_run_seconds(noon, 0).unwrap(), 0);
    // Later calls never schedule earlier.
    let mut prev = s.next_run_at(DAY, 0).unwrap();
    for m in 0..48 {
        let next = s.next_run_at(DAY + m * 1800, 0).unwrap();
        assert!(next >= prev);
        prev = next;
    }
}

#[test]
fn schedule_anchors_at_local_midnight() {
    // Under a +02:00 zone, local midnight lies two hours before the
    // whole epoch day.
    let off: i32 = 7200;
    let now = DAY + 7 * 3600;
    assert_eq!(midnight(now, off), DAY - off as i64);
    assert_eq!(midnight(DAY - off as i64, off), DAY - off as i64);
    let s = watcher(8, &["2016-03-28", "2016-04-03"]);
    assert_eq!(s.next_run_at(now, off).unwrap(), DAY - off as i64 + 12 * 3600);
}

#[test]
fn midnight_crosses_epoch_day_under_negative_offset() {
    // Shortly after midnight UTC, a zone two hours behind is still on
    // the previous local day: its midnight lies at 02:00 UTC of the
    // day before... i.e. 22 hours back.
    let off: i32 = -7200;
    let now = DAY + 3600;
    let m = midnight(now, off);
    assert_eq!(m, DAY - 86400 + 7200);
    assert!(m <= now && now - m < 86400);
    // The local wall-clock reading of the result is a whole day.
    assert_eq!((m + off as i64) % 86400, 0);
}

#[test]
fn infeasible_budget_is_rejected() {
    // A round of two requests does not fit a budget of one per day.
    let s = watcher(1, &["2016-03-28", "2016-04-03"]);
    assert_eq!(s.request_sets_per_day(), 0);
    assert!(s.next_run_at(DAY, 0).is_err());
    assert!(s.next_run_seconds(DAY, 0).is_err());
    assert!(s.next_run_duration(DAY, 0).is_err());
    // So is an empty round.
    let empty = watcher(8, &[]);
    assert!(empty.next_run_at(DAY, 0).is_err());
}

#[test]
fn wait_duration_is_never_negative() {
    let s = watcher(8, &["2016-03-28", "2016-04-03"]);
    for m in 0..100 {
        let now = DAY + m * 997;
        let wait = s.next_run_seconds(now, 0).unwrap();
        assert_eq!(s.next_run_at(now, 0).unwrap() - now, wait as i64);
        let d = s.next_run_duration(now, 0).unwrap();
        assert_eq!(d.as_secs(), wait);
    }
}

#[test]
fn uneven_budget_keeps_exact_rational_interval() {
    // Seven rounds per day: 86400/7 is not a whole number of seconds;
    // the lattice instants are floor(k * 86400 / 7).
    let s = watcher(7, &["2016-03-28"]);
    assert_eq!(s.request_sets_per_day(), 7);
    assert_eq!(s.next_run_at(DAY + 1, 0).unwrap(), DAY + 86400 / 7);
    assert_eq!(s.next_run_at(DAY + 86400 / 7 + 1, 0).unwrap(), DAY + 2 * 86400 / 7);
    // Restarting anywhere in the day stays on the same lattice.
    assert_eq!(s.next_run_at(DAY + 50000, 0).unwrap(), DAY + 5 * 86400 / 7);
}
