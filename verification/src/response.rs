//! The raw search response and its normalization into [`Offer`]s.
//!
//! A response nests trip options, slices, segments and legs, with money
//! and timestamps as strings.  Normalization flattens each option's
//! legs in slice/segment/leg order (broadcasting the segment's carrier,
//! number and cabin to its legs), parses the first pricing entry, and
//! builds one offer per option.  An option that cannot be normalized is
//! skipped, never fatal: its error is reported beside the offers.

use crate::clock::{parse_time, parse_time_spec};
use crate::money;
use crate::money::{money_amount, money_currency, money_ok};
use crate::offer::{Flight as OfferFlight, FlightView, Offer, OfferView};
use crate::{Error, ErrorView};
use vstd::prelude::*;
use vstd::string::StringExecFns;

verus! {

/// A whole search response document.
#[derive(Debug)]
pub struct SearchResponse {
    pub trips: Trips,
}

/// The response's top-level object: request echo, reference data and
/// the priced trip options.
#[derive(Debug)]
pub struct Trips {
    pub request_id: String,
    pub data: TripsData,
    pub trip_option: Vec<TripOption>,
}

/// Reference data carried beside the options.
#[derive(Debug)]
pub struct TripsData {
    pub airport: Vec<Airport>,
    pub city: Vec<City>,
    pub aircraft: Vec<Aircraft>,
    pub tax: Vec<Tax>,
    pub carrier: Vec<Carrier>,
}

#[derive(Debug)]
pub struct Airport {
    pub code: String,
    pub city: String,
    pub name: String,
}

#[derive(Debug)]
pub struct City {
    pub code: String,
    pub name: String,
}

#[derive(Debug)]
pub struct Aircraft {
    pub code: String,
    pub name: String,
}

#[derive(Debug)]
pub struct Tax {
    pub id: String,
    pub name: String,
}

#[derive(Debug)]
pub struct Carrier {
    pub code: String,
    pub name: String,
}

/// One priced trip option: slices of flying plus pricing entries.
#[derive(Debug)]
pub struct TripOption {
    pub sale_total: String,
    pub id: String,
    pub slice: Vec<Slice>,
    pub pricing: Vec<Pricing>,
}

/// One slice of an option: a sequence of segments flown in order.
#[derive(Debug)]
pub struct Slice {
    pub duration: i64,
    pub segment: Vec<Segment>,
}

/// One marketed segment: carrier-level data shared by its legs.
#[derive(Debug)]
pub struct Segment {
    pub duration: i64,
    pub flight: Flight,
    pub id: String,
    pub cabin: String,
    pub booking_code: String,
    pub booking_code_count: i64,
    pub leg: Vec<Leg>,
    pub connection_duration: Option<i64>,
}

/// The marketing carrier and flight number of a segment.
#[derive(Debug)]
pub struct Flight {
    pub carrier: String,
    pub number: String,
}

/// One physical leg of a segment.
#[derive(Debug)]
pub struct Leg {
    pub id: String,
    pub aircraft: String,
    pub arrival_time: String,
    pub departure_time: String,
    pub origin: String,
    pub destination: String,
    pub duration: i64,
    pub mileage: i64,
    pub meal: Option<String>,
}

/// One fare breakdown of an option.
#[derive(Debug)]
pub struct Pricing {
    pub base_fare_total: String,
    pub sale_fare_total: String,
    pub sale_tax_total: String,
    pub sale_total: String,
    pub fare_calculation: String,
    pub latest_ticketing_time: String,
    pub ptc: String,
    pub refundable: Option<bool>,
}

/// The flight record a leg normalizes to, under its segment's carrier,
/// number and cabin: both timestamps must parse.
pub open spec fn spec_leg_flight(
    carrier: Seq<char>,
    number: Seq<char>,
    seat: Seq<char>,
    leg: Leg,
) -> Result<FlightView, ErrorView> {
    match parse_time_spec(leg.departure_time@) {
        Option::None => Err(ErrorView::ParsingTime(leg.departure_time@)),
        Option::Some(dep) => match parse_time_spec(leg.arrival_time@) {
            Option::None => Err(ErrorView::ParsingTime(leg.arrival_time@)),
            Option::Some(arr) => Ok(
                FlightView {
                    id: None,
                    offer_id: None,
                    origin: leg.origin@,
                    destination: leg.destination@,
                    departure_time: dep,
                    arrival_time: arr,
                    duration: leg.duration as int,
                    mileage: leg.mileage as int,
                    seat: seat,
                    aircraft: leg.aircraft@,
                    carrier: carrier,
                    number: number,
                },
            ),
        },
    }
}

/// Normalize `legs` in order; the first failing leg's error wins.
pub open spec fn spec_flatten_legs(
    carrier: Seq<char>,
    number: Seq<char>,
    seat: Seq<char>,
    legs: Seq<Leg>,
) -> Result<Seq<FlightView>, ErrorView>
    decreases legs.len(),
{
    if legs.len() == 0 {
        Ok(Seq::empty())
    } else {
        match spec_leg_flight(carrier, number, seat, legs[0]) {
            Err(e) => Err(e),
            Ok(f) => match spec_flatten_legs(carrier, number, seat, legs.skip(1)) {
                Err(e) => Err(e),
                Ok(rest) => Ok(seq![f] + rest),
            },
        }
    }
}

/// All flights of one segment, in leg order.
pub open spec fn spec_segment_flights(seg: Segment) -> Result<Seq<FlightView>, ErrorView> {
    spec_flatten_legs(seg.flight.carrier@, seg.flight.number@, seg.cabin@, seg.leg@)
}

/// All flights of the segments in order; the first error wins.
pub open spec fn spec_flatten_segments(segs: Seq<Segment>) -> Result<Seq<FlightView>, ErrorView>
    decreases segs.len(),
{
    if segs.len() == 0 {
        Ok(Seq::empty())
    } else {
        match spec_segment_flights(segs[0]) {
            Err(e) => Err(e),
            Ok(fs) => match spec_flatten_segments(segs.skip(1)) {
                Err(e) => Err(e),
                Ok(rest) => Ok(fs + rest),
            },
        }
    }
}

/// All flights of the slices in slice/segment/leg order; the first
/// error wins.
pub open spec fn spec_flatten_slices(slices: Seq<Slice>) -> Result<Seq<FlightView>, ErrorView>
    decreases slices.len(),
{
    if slices.len() == 0 {
        Ok(Seq::empty())
    } else {
        match spec_flatten_segments(slices[0].segment@) {
            Err(e) => Err(e),
            Ok(fs) => match spec_flatten_slices(slices.skip(1)) {
                Err(e) => Err(e),
                Ok(rest) => Ok(fs + rest),
            },
        }
    }
}

/// The offer one trip option normalizes to: flattened flights, the
/// first pricing entry's four money fields (currency taken from the
/// sale total), its latest ticketing time, and refundability
/// defaulting to false.  The first failure, in evaluation order,
/// decides the error.
pub open spec fn spec_offer_of_option(opt: TripOption, request_id: Option<i64>) -> Result<
    OfferView,
    ErrorView,
> {
    match spec_flatten_slices(opt.slice@) {
        Err(e) => Err(e),
        Ok(flights) => {
            if opt.pricing@.len() == 0 {
                Err(ErrorView::NoPricing)
            } else {
                let p = opt.pricing@[0];
                if !money_ok(p.base_fare_total@) {
                    Err(ErrorView::ParsingMoney(p.base_fare_total@))
                } else if !money_ok(p.sale_fare_total@) {
                    Err(ErrorView::ParsingMoney(p.sale_fare_total@))
                } else if !money_ok(p.sale_tax_total@) {
                    Err(ErrorView::ParsingMoney(p.sale_tax_total@))
                } else if !money_ok(p.sale_total@) {
                    Err(ErrorView::ParsingMoney(p.sale_total@))
                } else {
                    match parse_time_spec(p.latest_ticketing_time@) {
                        Option::None => Err(ErrorView::ParsingTime(p.latest_ticketing_time@)),
                        Option::Some(ltt) => Ok(
                            OfferView {
                                id: None,
                                request_id: request_id,
                                currency: money_currency(p.sale_total@),
                                base_price: money_amount(p.base_fare_total@),
                                sale_price: money_amount(p.sale_fare_total@),
                                tax_price: money_amount(p.sale_tax_total@),
                                total_price: money_amount(p.sale_total@),
                                latest_ticketing_time: ltt,
                                refundable: match p.refundable {
                                    Option::Some(b) => b,
                                    Option::None => false,
                                },
                                flights: flights,
                            },
                        ),
                    }
                }
            }
        },
    }
}

/// The offers of the well-formed options, in option order.
pub open spec fn spec_offers(opts: Seq<TripOption>, request_id: Option<i64>) -> Seq<OfferView>
    decreases opts.len(),
{
    if opts.len() == 0 {
        Seq::empty()
    } else {
        match spec_offer_of_option(opts.last(), request_id) {
            Ok(o) => spec_offers(opts.drop_last(), request_id).push(o),
            Err(_) => spec_offers(opts.drop_last(), request_id),
        }
    }
}

/// The errors of the skipped options, in option order.
pub open spec fn spec_skipped(opts: Seq<TripOption>, request_id: Option<i64>) -> Seq<ErrorView>
    decreases opts.len(),
{
    if opts.len() == 0 {
        Seq::empty()
    } else {
        match spec_offer_of_option(opts.last(), request_id) {
            Ok(_) => spec_skipped(opts.drop_last(), request_id),
            Err(e) => spec_skipped(opts.drop_last(), request_id).push(e),
        }
    }
}

/// Normalize one leg under its segment's carrier, number and cabin.
fn leg_to_flight(carrier: &String, number: &String, seat: &String, leg: &Leg) -> (result: Result<
    OfferFlight,
    Error,
>)
    ensures
        match result {
            Ok(f) => spec_leg_flight(carrier@, number@, seat@, *leg) == Ok::<_, ErrorView>(f.deep_view()),
            Err(e) => spec_leg_flight(carrier@, number@, seat@, *leg) == Err::<FlightView, _>(e@),
        },
{
    let departure_time = match parse_time(leg.departure_time.as_str()) {
        Ok(t) => t,
        Err(e) => {
            return Err(e);
        },
    };
    let arrival_time = match parse_time(leg.arrival_time.as_str()) {
        Ok(t) => t,
        Err(e) => {
            return Err(e);
        },
    };
    let f = OfferFlight {
        id: None,
        offer_id: None,
        origin: leg.origin.clone(),
        destination: leg.destination.clone(),
        departure_time,
        arrival_time,
        duration: leg.duration,
        mileage: leg.mileage,
        seat: seat.clone(),
        aircraft: leg.aircraft.clone(),
        carrier: carrier.clone(),
        number: number.clone(),
    };
    proof {
        assert(spec_leg_flight(carrier@, number@, seat@, *leg) =~~= Ok::<_, ErrorView>(
            f.deep_view(),
        ));
    }
    Ok(f)
}

/// Normalize the legs from index `i` on, in order.
fn flatten_legs(
    carrier: &String,
    number: &String,
    seat: &String,
    legs: &Vec<Leg>,
    i: usize,
) -> (result: Result<Vec<OfferFlight>, Error>)
    requires
        i <= legs@.len(),
    ensures
        match result {
            Ok(v) => spec_flatten_legs(carrier@, number@, seat@, legs@.skip(i as int)) == Ok::<_, ErrorView>(
                v.deep_view(),
            ),
            Err(e) => spec_flatten_legs(carrier@, number@, seat@, legs@.skip(i as int)) == Err::<Seq<FlightView>, _>(e@),
        },
    decreases legs@.len() - i,
{
    let ghost tail = legs@.skip(i as int);
    if i == legs.len() {
        let v: Vec<OfferFlight> = Vec::new();
        proof {
            assert(tail.len() == 0);
            assert(v.deep_view() =~~= Seq::<FlightView>::empty());
        }
        return Ok(v);
    }
    proof {
        assert(tail[0] == legs@[i as int]);
        assert(tail.skip(1) =~= legs@.skip(i as int + 1));
    }
    let f = match leg_to_flight(carrier, number, seat, &legs[i]) {
        Ok(f) => f,
        Err(e) => {
            return Err(e);
        },
    };
    let mut rest = match flatten_legs(carrier, number, seat, legs, i + 1) {
        Ok(v) => v,
        Err(e) => {
            return Err(e);
        },
    };
    let ghost rest_view = rest.deep_view();
    let mut out: Vec<OfferFlight> = Vec::new();
    out.push(f);
    out.append(&mut rest);
    proof {
        assert(out.deep_view() =~~= seq![f.deep_view()] + rest_view);
        assert(spec_flatten_legs(carrier@, number@, seat@, tail) == Ok::<_, ErrorView>(
            out.deep_view(),
        ));
    }
    Ok(out)
}

/// Normalize the segments from index `i` on, in order.
fn flatten_segments(segs: &Vec<Segment>, i: usize) -> (result: Result<Vec<OfferFlight>, Error>)
    requires
        i <= segs@.len(),
    ensures
        match result {
            Ok(v) => spec_flatten_segments(segs@.skip(i as int)) == Ok::<_, ErrorView>(v.deep_view()),
            Err(e) => spec_flatten_segments(segs@.skip(i as int)) == Err::<Seq<FlightView>, _>(e@),
        },
    decreases segs@.len() - i,
{
    let ghost tail = segs@.skip(i as int);
    if i == segs.len() {
        let v: Vec<OfferFlight> = Vec::new();
        proof {
            assert(tail.len() == 0);
            assert(v.deep_view() =~~= Seq::<FlightView>::empty());
        }
        return Ok(v);
    }
    proof {
        assert(tail[0] == segs@[i as int]);
        assert(tail.skip(1) =~= segs@.skip(i as int + 1));
    }
    let seg = &segs[i];
    let mut first = match flatten_legs(&seg.flight.carrier, &seg.flight.number, &seg.cabin,
        &seg.leg, 0) {
        Ok(v) => v,
        Err(e) => {
            proof {
                assert(seg.leg@.skip(0) =~= seg.leg@);
            }
            return Err(e);
        },
    };
    proof {
        assert(seg.leg@.skip(0) =~= seg.leg@);
    }
    let mut rest = match flatten_segments(segs, i + 1) {
        Ok(v) => v,
        Err(e) => {
            return Err(e);
        },
    };
    let ghost first_view = first.deep_view();
    let ghost rest_view = rest.deep_view();
    first.append(&mut rest);
    proof {
        assert(first.deep_view() =~~= first_view + rest_view);
        assert(spec_flatten_segments(tail) == Ok::<_, ErrorView>(first.deep_view()));
    }
    Ok(first)
}

/// Normalize the slices from index `i` on, in order.
fn flatten_slices(slices: &Vec<Slice>, i: usize) -> (result: Result<Vec<OfferFlight>, Error>)
    requires
        i <= slices@.len(),
    ensures
        match result {
            Ok(v) => spec_flatten_slices(slices@.skip(i as int)) == Ok::<_, ErrorView>(v.deep_view()),
            Err(e) => spec_flatten_slices(slices@.skip(i as int)) == Err::<Seq<FlightView>, _>(e@),
        },
    decreases slices@.len() - i,
{
    let ghost tail = slices@.skip(i as int);
    if i == slices.len() {
        let v: Vec<OfferFlight> = Vec::new();
        proof {
            assert(tail.len() == 0);
            assert(v.deep_view() =~~= Seq::<FlightView>::empty());
        }
        return Ok(v);
    }
    proof {
        assert(tail[0] == slices@[i as int]);
        assert(tail.skip(1) =~= slices@.skip(i as int + 1));
    }
    let mut first = match flatten_segments(&slices[i].segment, 0) {
        Ok(v) => v,
        Err(e) => {
            proof {
                assert(slices@[i as int].segment@.skip(0) =~= slices@[i as int].segment@);
            }
            return Err(e);
        },
    };
    proof {
        assert(slices@[i as int].segment@.skip(0) =~= slices@[i as int].segment@);
    }
    let mut rest = match flatten_slices(slices, i + 1) {
        Ok(v) => v,
        Err(e) => {
            return Err(e);
        },
    };
    let ghost first_view = first.deep_view();
    let ghost rest_view = rest.deep_view();
    first.append(&mut rest);
    proof {
        assert(first.deep_view() =~~= first_view + rest_view);
        assert(spec_flatten_slices(tail) == Ok::<_, ErrorView>(first.deep_view()));
    }
    Ok(first)
}

impl TripOption {
    /// Normalize this option into one offer: flatten its legs in
    /// slice/segment/leg order and take the first pricing entry as
    /// authoritative.
    pub fn to_offer(&self, request_id: Option<i64>) -> (result: Result<Offer, Error>)
        ensures
            match result {
                Ok(o) => spec_offer_of_option(*self, request_id) == Ok::<_, ErrorView>(o.deep_view()),
                Err(e) => spec_offer_of_option(*self, request_id) == Err::<OfferView, _>(e@),
            },
    {
        let flights = match flatten_slices(&self.slice, 0) {
            Ok(v) => v,
            Err(e) => {
                proof {
                    assert(self.slice@.skip(0) =~= self.slice@);
                }
                return Err(e);
            },
        };
        proof {
            assert(self.slice@.skip(0) =~= self.slice@);
        }
        if self.pricing.len() == 0 {
            return Err(Error::NoPricing);
        }
        let p = &self.pricing[0];
        let base = match money::parse(p.base_fare_total.as_str()) {
            Ok(m) => m,
            Err(e) => {
                return Err(e);
            },
        };
        let sale = match money::parse(p.sale_fare_total.as_str()) {
            Ok(m) => m,
            Err(e) => {
                return Err(e);
            },
        };
        let tax = match money::parse(p.sale_tax_total.as_str()) {
            Ok(m) => m,
            Err(e) => {
                return Err(e);
            },
        };
        let total = match money::parse(p.sale_total.as_str()) {
            Ok(m) => m,
            Err(e) => {
                return Err(e);
            },
        };
        let latest_ticketing_time = match parse_time(p.latest_ticketing_time.as_str()) {
            Ok(t) => t,
            Err(e) => {
                return Err(e);
            },
        };
        let refundable = match p.refundable {
            Some(b) => b,
            None => false,
        };
        let o = Offer {
            id: None,
            request_id,
            currency: total.currency,
            base_price: base.amount,
            sale_price: sale.amount,
            tax_price: tax.amount,
            total_price: total.amount,
            latest_ticketing_time,
            refundable,
            flights,
        };
        proof {
            assert(spec_offer_of_option(*self, request_id) =~~= Ok::<_, ErrorView>(
                o.deep_view(),
            ));
        }
        Ok(o)
    }
}

impl SearchResponse {
    /// Normalize every trip option independently: the offers of the
    /// well-formed options, in order, beside the errors of the skipped
    /// ones.  A response whose options all fail still yields an empty
    /// offer list, not an error.
    pub fn to_offers(&self, request_id: Option<i64>) -> (result: (Vec<Offer>, Vec<Error>))
        ensures
            result.0.deep_view() == spec_offers(self.trips.trip_option@, request_id),
            result.1.deep_view() == spec_skipped(self.trips.trip_option@, request_id),
    {
        let ghost opts = self.trips.trip_option@;
        let ghost rid = request_id;
        let mut offers: Vec<Offer> = Vec::new();
        let mut skipped: Vec<Error> = Vec::new();
        let mut i: usize = 0;
        proof {
            assert(opts.subrange(0, 0) =~= Seq::<TripOption>::empty());
            assert(offers.deep_view() =~= spec_offers(opts.subrange(0, 0), rid));
            assert(skipped.deep_view() =~= spec_skipped(opts.subrange(0, 0), rid));
        }
        while i < self.trips.trip_option.len()
            invariant
                0 <= i <= opts.len(),
                opts == self.trips.trip_option@,
                rid == request_id,
                offers.deep_view() == spec_offers(opts.subrange(0, i as int), rid),
                skipped.deep_view() == spec_skipped(opts.subrange(0, i as int), rid),
            decreases opts.len() - i,
        {
            let ghost pre = opts.subrange(0, i as int);
            let ghost cur = opts.subrange(0, i as int + 1);
            proof {
                assert(cur.drop_last() =~= pre);
                assert(cur.last() == opts[i as int]);
            }
            match self.trips.trip_option[i].to_offer(request_id) {
                Ok(o) => {
                    offers.push(o);
                    proof {
                        assert(offers.deep_view() =~= spec_offers(cur, rid));
                        assert(skipped.deep_view() =~= spec_skipped(cur, rid));
                    }
                },
                Err(e) => {
                    skipped.push(e);
                    proof {
                        assert(offers.deep_view() =~= spec_offers(cur, rid));
                        assert(skipped.deep_view() =~= spec_skipped(cur, rid));
                    }
                },
            }
            i = i + 1;
        }
        proof {
            assert(opts.subrange(0, opts.len() as int) =~= opts);
        }
        (offers, skipped)
    }
}

} // verus!
