//! Normalized records: one priced, bookable itinerary ([`Offer`]) and
//! its point-to-point legs ([`Flight`]).
//!
//! These are the durable output of the pipeline: created once by the
//! response normalizer, written once by the storage gateway, never
//! mutated afterwards.

use crate::clock::Instant;
use crate::money::Amount;
use vstd::prelude::*;

verus! {

/// One point-to-point flight leg, flattened out of the response's
/// slice/segment/leg nesting and annotated with its segment's carrier,
/// flight number and cabin.
#[derive(Debug)]
pub struct Flight {
    pub id: Option<i64>,
    pub offer_id: Option<i64>,
    pub origin: String,
    pub destination: String,
    pub departure_time: Instant,
    pub arrival_time: Instant,
    pub duration: i64,
    pub mileage: i64,
    pub seat: String,
    pub aircraft: String,
    pub carrier: String,
    pub number: String,
}

/// Mathematical image of a [`Flight`].
#[verifier::ext_equal]
pub struct FlightView {
    pub id: Option<i64>,
    pub offer_id: Option<i64>,
    pub origin: Seq<char>,
    pub destination: Seq<char>,
    pub departure_time: Instant,
    pub arrival_time: Instant,
    pub duration: int,
    pub mileage: int,
    pub seat: Seq<char>,
    pub aircraft: Seq<char>,
    pub carrier: Seq<char>,
    pub number: Seq<char>,
}

impl DeepView for Flight {
    type V = FlightView;

    open spec fn deep_view(&self) -> FlightView {
        FlightView {
            id: self.id.deep_view(),
            offer_id: self.offer_id.deep_view(),
            origin: self.origin@,
            destination: self.destination@,
            departure_time: self.departure_time,
            arrival_time: self.arrival_time,
            duration: self.duration as int,
            mileage: self.mileage as int,
            seat: self.seat@,
            aircraft: self.aircraft@,
            carrier: self.carrier@,
            number: self.number@,
        }
    }
}

/// One priced itinerary: the four money components (sharing one
/// currency), the latest ticketing instant, the refundability flag and
/// the ordered flights.
#[derive(Debug)]
pub struct Offer {
    pub id: Option<i64>,
    pub request_id: Option<i64>,
    pub currency: String,
    pub base_price: Amount,
    pub sale_price: Amount,
    pub tax_price: Amount,
    pub total_price: Amount,
    pub latest_ticketing_time: Instant,
    pub refundable: bool,
    pub flights: Vec<Flight>,
}

/// Mathematical image of an [`Offer`].
#[verifier::ext_equal]
pub struct OfferView {
    pub id: Option<i64>,
    pub request_id: Option<i64>,
    pub currency: Seq<char>,
    pub base_price: Amount,
    pub sale_price: Amount,
    pub tax_price: Amount,
    pub total_price: Amount,
    pub latest_ticketing_time: Instant,
    pub refundable: bool,
    pub flights: Seq<FlightView>,
}

impl DeepView for Offer {
    type V = OfferView;

    open spec fn deep_view(&self) -> OfferView {
        OfferView {
            id: self.id.deep_view(),
            request_id: self.request_id.deep_view(),
            currency: self.currency@,
            base_price: self.base_price,
            sale_price: self.sale_price,
            tax_price: self.tax_price,
            total_price: self.total_price,
            latest_ticketing_time: self.latest_ticketing_time,
            refundable: self.refundable,
            flights: self.flights.deep_view(),
        }
    }
}

} // verus!
