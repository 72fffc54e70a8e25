use flycheap::response::{
    Aircraft, Airport, Carrier, City, Flight, Leg, Pricing, SearchResponse, Segment, Slice,
    TripOption, Trips, TripsData,
};
use flycheap::Error;

fn leg(origin: &str, destination: &str, departs: &str, arrives: &str, duration: i64) -> Leg {
    Leg {
        id: "L1".to_string(),
        aircraft: "319".to_string(),
        arrival_time: arrives.to_string(),
        departure_time: departs.to_string(),
        origin: origin.to_string(),
        destination: destination.to_string(),
        duration,
        mileage: 278,
        meal: None,
    }
}

fn segment(carrier: &str, number: &str, cabin: &str, legs: Vec<Leg>) -> Segment {
    Segment {
        duration: legs.iter().map(|l| l.duration).sum(),
        flight: Flight { carrier: carrier.to_string(), number: number.to_string() },
        id: "S1".to_string(),
        cabin: cabin.to_string(),
        booking_code: "W".to_string(),
        booking_code_count: 4,
        leg: legs,
        connection_duration: None,
    }
}

fn pricing(base: &str, sale: &str, tax: &str, total: &str, ticketing: &str) -> Pricing {
    Pricing {
        base_fare_total: base.to_string(),
        sale_fare_total: sale.to_string(),
        sale_tax_total: tax.to_string(),
        sale_total: total.to_string(),
        fare_calculation: "FARE".to_string(),
        latest_ticketing_time: ticketing.to_string(),
        ptc: "ADT".to_string(),
        refundable: None,
    }
}

fn roundtrip_option() -> TripOption {
    TripOption {
        sale_total: "EUR194.56".to_string(),
        id: "OPT1".to_string(),
        slice: vec![
            Slice {
                duration: 130,
                segment: vec![segment(
                    "AB",
                    "8272",
                    "COACH",
                    vec![leg("TXL", "OTP", "2016-03-28T21:35+02:00", "2016-03-29T00:45+03:00", 130)],
                )],
            },
            Slice {
                duration: 125,
                segment: vec![segment(
                    "AB",
                    "8273",
                    "COACH",
                    vec![leg("OTP", "TXL", "2016-04-03T06:30+03:00", "2016-04-03T07:35+02:00", 125)],
                )],
            },
        ],
        pricing: vec![pricing(
            "EUR72.00",
            "EUR72.00",
            "EUR122.56",
            "EUR194.56",
            "2016-01-20T17:48-05:00",
        )],
    }
}

fn response(options: Vec<TripOption>) -> SearchResponse {
    SearchResponse {
        trips: Trips {
            request_id: "bwrfa5nntkafbK6iE0NcY4".to_string(),
            data: TripsData {
                airport: vec![
                    Airport {
                        code: "OTP".to_string(),
                        city: "OTP".to_string(),
                        name: "Bucharest Henri Coanda".to_string(),
                    },
                    Airport {
                        code: "TXL".to_string(),
                        city: "TXL".to_string(),
                        name: "Berlin Tegel".to_string(),
                    },
                ],
                city: vec![
                    City { code: "OTP".to_string(), name: "Bucharest".to_string() },
                    City { code: "TXL".to_string(), name: "Berlin".to_string() },
                ],
                aircraft: vec![Aircraft {
                    code: "319".to_string(),
                    name: "Airbus A319".to_string(),
                }],
                tax: vec![],
                carrier: vec![Carrier {
                    code: "AB".to_string(),
                    name: "Air Berlin".to_string(),
                }],
            },
            trip_option: options,
        },
    }
}

#[test]
fn normalize_roundtrip_fixture() {
    let (offers, skipped) = response(vec![roundtrip_option()]).to_offers(Some(7));
    assert_eq!(skipped.len(), 0);
    assert_eq!(offers.len(), 1);
    let o = &offers[0];
    assert_eq!(o.id, None);
    assert_eq!(o.request_id, Some(7));
    assert_eq!(o.currency, "EUR");
    assert_eq!(o.base_price.scaled, 7200);
    assert_eq!(o.sale_price.scaled, 7200);
    assert_eq!(o.tax_price.scaled, 12256);
    assert_eq!(o.total_price.scaled, 19456);
    assert_eq!(o.total_price.scale, 2);
    assert_eq!(o.latest_ticketing_time.epoch_seconds, 1453330080);
    assert_eq!(o.latest_ticketing_time.offset_seconds, -18000);
    assert!(!o.refundable);
    assert_eq!(o.flights.len(), 2);

    let f0 = &o.flights[0];
    assert_eq!(f0.origin, "TXL");
    assert_eq!(f0.destination, "OTP");
    assert_eq!(f0.departure_time.epoch_seconds, 1459193700);
    assert_eq!(f0.departure_time.offset_seconds, 7200);
    assert_eq!(f0.arrival_time.epoch_seconds, 1459201500);
    assert_eq!(f0.arrival_time.offset_seconds, 10800);
    assert_eq!(f0.duration, 130);
    assert_eq!(f0.mileage, 278);
    assert_eq!(f0.seat, "COACH");
    assert_eq!(f0.aircraft, "319");
    assert_eq!(f0.carrier, "AB");
    assert_eq!(f0.number, "8272");

    let f1 = &o.flights[1];
    assert_eq!(f1.origin, "OTP");
    assert_eq!(f1.destination, "TXL");
    assert_eq!(f1.departure_time.epoch_seconds, 1459654200);
    assert_eq!(f1.departure_time.offset_seconds, 10800);
    assert_eq!(f1.arrival_time.epoch_seconds, 1459661700);
    assert_eq!(f1.arrival_time.offset_seconds, 7200);
    assert_eq!(f1.number, "8273");
}

#[test]
fn normalize_drops_option_without_pricing() {
    // Four options; the second has an empty pricing list: exactly three
    // offers come back, in order, and the drop is reported.
    let mut bad = roundtrip_option();
    bad.pricing = vec![];
    bad.id = "OPT2".to_string();
    let (offers, skipped) = response(vec![
        roundtrip_option(),
        bad,
        roundtrip_option(),
        roundtrip_option(),
    ])
    .to_offers(None);
    assert_eq!(offers.len(), 3);
    assert_eq!(skipped.len(), 1);
    assert!(matches!(skipped[0], Error::NoPricing));
    for o in &offers {
        assert_eq!(o.request_id, None);
        assert_eq!(o.flights.len(), 2);
        assert_eq!(o.flights[0].origin, "TXL");
        assert_eq!(o.flights[1].origin, "OTP");
    }
}

#[test]
fn normalize_reports_bad_money_and_time() {
    let mut bad_money = roundtrip_option();
    bad_money.pricing[0].sale_total = "oops".to_string();
    let (offers, skipped) = response(vec![bad_money]).to_offers(None);
    assert_eq!(offers.len(), 0);
    assert!(matches!(&skipped[0], Error::ParsingMoney(s) if s == "oops"));

    let mut bad_time = roundtrip_option();
    bad_time.slice[1].segment[0].leg[0].arrival_time = "not-a-time".to_string();
    let (offers, skipped) = response(vec![bad_time]).to_offers(None);
    assert_eq!(offers.len(), 0);
    assert!(matches!(&skipped[0], Error::ParsingTime(s) if s == "not-a-time"));
}

#[test]
fn normalize_flattens_in_slice_segment_leg_order() {
    let mut opt = roundtrip_option();
    // Give the first slice a second segment with two legs.
    opt.slice[0].segment.push(segment(
        "XX",
        "100",
        "COACH",
        vec![
            leg("OTP", "VIE", "2016-03-29T08:00+03:00", "2016-03-29T09:00+02:00", 120),
            leg("VIE", "ZRH", "2016-03-29T10:00+02:00", "2016-03-29T11:00+02:00", 60),
        ],
    ));
    let (offers, skipped) = response(vec![opt]).to_offers(None);
    assert_eq!(skipped.len(), 0);
    let o = &offers[0];
    let route: Vec<&str> = o.flights.iter().map(|f| f.origin.as_str()).collect();
    assert_eq!(route, ["TXL", "OTP", "VIE", "OTP"]);
    // The second segment's carrier and number broadcast to its legs.
    assert_eq!(o.flights[1].carrier, "XX");
    assert_eq!(o.flights[2].carrier, "XX");
    assert_eq!(o.flights[2].number, "100");
    assert_eq!(o.flights[3].carrier, "AB");
}

#[test]
fn normalize_keeps_refundable_flag() {
    let mut opt = roundtrip_option();
    opt.pricing[0].refundable = Some(true);
    let (offers, _) = response(vec![opt]).to_offers(None);
    assert!(offers[0].refundable);
}

#[test]
fn normalize_of_empty_response_is_empty() {
    let (offers, skipped) = response(vec![]).to_offers(None);
    assert_eq!(offers.len(), 0);
    assert_eq!(skipped.len(), 0);
}

#[test]
fn to_offer_fails_on_bad_base_fare() {
    let mut opt = roundtrip_option();
    opt.pricing[0].base_fare_total = "EUR".to_string();
    let e = opt.to_offer(Some(1)).unwrap_err();
    assert!(matches!(e, Error::ParsingMoney(s) if s == "EUR"));
}
