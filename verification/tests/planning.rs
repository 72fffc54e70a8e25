use flycheap::session::{Session, Trip};

fn trip(from: &str, to: &str, dates: &[&str]) -> Trip {
    Trip {
        from: from.to_string(),
        to: to.to_string(),
        dates: dates.iter().map(|d| d.to_string()).collect(),
    }
}

fn session(requests_per_day: usize, trips: Vec<Trip>) -> Session {
    Session {
        email: None,
        google_api_key: "api_key".to_string(),
        requests_per_day,
        sale_country: "DE".to_string(),
        request_name: "watch".to_string(),
        trips,
    }
}

#[test]
fn plan_roundtrip_fixture() {
    // One date per trip: exactly one request with two return-direction
    // slices.
    let s = session(
        8,
        vec![trip("OTP", "TXL", &["2016-03-28"]), trip("TXL", "OTP", &["2016-04-03"])],
    );
    assert_eq!(s.total_calls(), 1);
    let requests = s.requests();
    assert_eq!(requests.len(), 1);
    let r = &requests[0];
    assert_eq!(r.name, "watch");
    assert_eq!(r.sale_country, "DE");
    assert_eq!(r.passengers.adult_count, 1);
    assert_eq!(r.passengers.child_count, 0);
    assert_eq!(r.passengers.infant_in_lap_count, 0);
    assert_eq!(r.passengers.senior_count, 0);
    assert_eq!(r.slice.len(), 2);
    // Slices search the configured trips' return direction.
    assert_eq!(r.slice[0].origin, "TXL");
    assert_eq!(r.slice[0].destination, "OTP");
    assert_eq!(r.slice[0].date, "2016-03-28");
    assert_eq!(r.slice[0].max_stops, 0);
    assert_eq!(r.slice[1].origin, "OTP");
    assert_eq!(r.slice[1].destination, "TXL");
    assert_eq!(r.slice[1].date, "2016-04-03");
    assert_eq!(r.slice[1].max_stops, 0);
}

#[test]
fn plan_length_is_product_of_date_counts() {
    let s = session(
        100,
        vec![
            trip("AAA", "BBB", &["d1", "d2"]),
            trip("CCC", "DDD", &["e1", "e2", "e3"]),
        ],
    );
    assert_eq!(s.total_calls(), 6);
    let requests = s.requests();
    assert_eq!(requests.len(), 6);
    // Dates cycle independently per trip: request i takes date i % len.
    for (i, r) in requests.iter().enumerate() {
        assert_eq!(r.slice.len(), 2);
        assert_eq!(r.slice[0].date, ["d1", "d2"][i % 2]);
        assert_eq!(r.slice[1].date, ["e1", "e2", "e3"][i % 3]);
    }
}

#[test]
fn plan_without_trips_is_empty() {
    let s = session(8, vec![]);
    assert_eq!(s.total_calls(), 0);
    assert_eq!(s.requests().len(), 0);
}

#[test]
fn trip_without_dates_suppresses_whole_plan() {
    let s = session(
        8,
        vec![trip("AAA", "BBB", &["d1", "d2"]), trip("CCC", "DDD", &[])],
    );
    assert_eq!(s.total_calls(), 0);
    assert_eq!(s.requests().len(), 0);
}

#[test]
fn fits_budget_accepts_and_rejects() {
    let small = vec![trip("AAA", "BBB", &["d1", "d2"])];
    assert!(Session::fits_budget(&small));
    let huge_dates: Vec<String> = (0..100000).map(|i| format!("d{i}")).collect();
    let huge = vec![
        Trip { from: "AAA".into(), to: "BBB".into(), dates: huge_dates.clone() },
        Trip { from: "CCC".into(), to: "DDD".into(), dates: huge_dates.clone() },
        Trip { from: "EEE".into(), to: "FFF".into(), dates: huge_dates.clone() },
        Trip { from: "GGG".into(), to: "HHH".into(), dates: huge_dates },
    ];
    assert!(!Session::fits_budget(&huge));
}
