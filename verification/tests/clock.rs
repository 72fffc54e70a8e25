use flycheap::clock::{format_time, parse_time};
use flycheap::Error;

#[test]
fn parse_time_with_colon_offset() {
    let t = parse_time("2016-03-28T21:35+02:00").unwrap();
    assert_eq!(t.year, 2016);
    assert_eq!(t.month, 3);
    assert_eq!(t.day, 28);
    assert_eq!(t.hour, 21);
    assert_eq!(t.minute, 35);
    assert_eq!(t.offset_seconds, 7200);
    assert_eq!(t.epoch_seconds, 1459193700);
}

#[test]
fn parse_time_without_colon_offset() {
    let t = parse_time("2016-01-20T17:48-0500").unwrap();
    assert_eq!(t.offset_seconds, -18000);
    assert_eq!(t.epoch_seconds, 1453330080);
    assert_eq!(parse_time("2016-01-20T17:48-05:00").unwrap(), t);
}

#[test]
fn parse_time_epoch_origin() {
    let t = parse_time("1970-01-01T00:00+0000").unwrap();
    assert_eq!(t.epoch_seconds, 0);
    assert_eq!(t.offset_seconds, 0);
}

#[test]
fn parse_time_leap_day() {
    let t = parse_time("2016-02-29T12:00+0000").unwrap();
    // 2016-02-29 is day 16860 of the epoch.
    assert_eq!(t.epoch_seconds, 16860 * 86400 + 12 * 3600);
    assert!(parse_time("2015-02-29T12:00+0000").is_err());
}

#[test]
fn parse_time_rejects_malformed() {
    assert!(matches!(
        parse_time("garbage"),
        Err(Error::ParsingTime(s)) if s == "garbage"
    ));
    assert!(parse_time("").is_err());
    assert!(parse_time("2016-03-28 21:35+02:00").is_err());
    assert!(parse_time("2016-03-28T21:35").is_err());
    assert!(parse_time("2016-13-01T00:00+0000").is_err());
    assert!(parse_time("2016-00-01T00:00+0000").is_err());
    assert!(parse_time("2016-02-30T00:00+0000").is_err());
    assert!(parse_time("2016-02-10T24:00+0000").is_err());
    assert!(parse_time("2016-02-10T10:60+0000").is_err());
    assert!(parse_time("2016-02-10T10:00+0099").is_err());
    // A minus sign on a zero offset is not a valid offset.
    assert!(parse_time("2016-02-10T10:00-0000").is_err());
}

#[test]
fn format_time_round_trips_canonical_form() {
    for s in [
        "2016-03-28T21:35+0200",
        "2016-01-20T17:48-0500",
        "1970-01-01T00:00+0000",
        "9999-12-31T23:59+2359",
        "0001-01-01T00:00+0000",
    ] {
        let t = parse_time(s).unwrap();
        assert_eq!(format_time(&t), s);
    }
}

#[test]
fn format_time_normalizes_colon_form() {
    let t = parse_time("2016-03-28T21:35+02:00").unwrap();
    assert_eq!(format_time(&t), "2016-03-28T21:35+0200");
    let u = parse_time("2016-01-20T17:48-05:00").unwrap();
    assert_eq!(format_time(&u), "2016-01-20T17:48-0500");
}

#[test]
fn instants_order_by_epoch() {
    let a = parse_time("2016-03-28T21:35+02:00").unwrap();
    let b = parse_time("2016-03-29T00:45+03:00").unwrap();
    // Same calendar day distance, different offsets: the epoch values
    // are directly comparable.
    assert!(a.epoch_seconds < b.epoch_seconds);
    assert_eq!(b.epoch_seconds - a.epoch_seconds, 7800);
}

#[test]
fn format_time_uses_recorded_offset() {
    // Two instants at the same absolute time but under different
    // offsets render differently.
    let utc = parse_time("2016-03-28T19:35+0000").unwrap();
    let local = parse_time("2016-03-28T21:35+0200").unwrap();
    assert_eq!(utc.epoch_seconds, local.epoch_seconds);
    assert_ne!(format_time(&utc), format_time(&local));
}
