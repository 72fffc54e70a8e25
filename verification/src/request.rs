//! Search requests: the unit the planner builds and the dispatcher sends.
//!
//! A request carries the fixed one-adult passenger composition and an
//! ordered list of slices (one leg per configured trip).

use vstd::prelude::*;
use vstd::string::StrSliceExecFns;

verus! {

/// Passenger composition of a search; the planner always uses exactly
/// one adult.
#[derive(Clone, Copy, Debug, PartialEq, Eq, Structural)]
pub struct Passengers {
    pub adult_count: u8,
    pub child_count: u8,
    pub infant_in_lap_count: u8,
    pub senior_count: u8,
}

/// The fixed composition: one adult, nobody else.
pub open spec fn one_adult() -> Passengers {
    Passengers { adult_count: 1, child_count: 0, infant_in_lap_count: 0, senior_count: 0 }
}

/// One leg of a search: fly from `origin` to `destination` on `date`,
/// with at most `max_stops` stops.
#[derive(Debug)]
pub struct Slice {
    pub origin: String,
    pub destination: String,
    pub date: String,
    pub max_stops: u8,
}

/// Mathematical image of a [`Slice`].
#[verifier::ext_equal]
pub struct SliceView {
    pub origin: Seq<char>,
    pub destination: Seq<char>,
    pub date: Seq<char>,
    pub max_stops: int,
}

impl DeepView for Slice {
    type V = SliceView;

    open spec fn deep_view(&self) -> SliceView {
        SliceView {
            origin: self.origin@,
            destination: self.destination@,
            date: self.date@,
            max_stops: self.max_stops as int,
        }
    }
}

/// One search request: a name and sale country from the configuration,
/// the fixed passenger composition, and one slice per configured trip.
#[derive(Debug)]
pub struct SearchRequest {
    pub name: String,
    pub sale_country: String,
    pub passengers: Passengers,
    pub slice: Vec<Slice>,
}

/// Mathematical image of a [`SearchRequest`].
#[verifier::ext_equal]
pub struct SearchRequestView {
    pub name: Seq<char>,
    pub sale_country: Seq<char>,
    pub passengers: Passengers,
    pub slice: Seq<SliceView>,
}

impl DeepView for SearchRequest {
    type V = SearchRequestView;

    open spec fn deep_view(&self) -> SearchRequestView {
        SearchRequestView {
            name: self.name@,
            sale_country: self.sale_country@,
            passengers: self.passengers,
            slice: self.slice.deep_view(),
        }
    }
}

impl SearchRequest {
    /// A fresh request with the fixed one-adult composition and no
    /// slices yet.
    pub fn new(name: &str, sale_country: &str) -> (r: SearchRequest)
        ensures
            r.deep_view() == (SearchRequestView {
                name: name@,
                sale_country: sale_country@,
                passengers: one_adult(),
                slice: Seq::empty(),
            }),
    {
        let r = SearchRequest {
            name: name.to_owned(),
            sale_country: sale_country.to_owned(),
            passengers: Passengers {
                adult_count: 1,
                child_count: 0,
                infant_in_lap_count: 0,
                senior_count: 0,
            },
            slice: Vec::new(),
        };
        proof {
            assert(r.deep_view() =~~= (SearchRequestView {
                name: name@,
                sale_country: sale_country@,
                passengers: one_adult(),
                slice: Seq::empty(),
            }));
        }
        r
    }

    /// Append one slice: a leg from `origin` to `destination` on
    /// `date`.
    pub fn add_trip(&mut self, origin: &str, destination: &str, date: &str, max_stops: u8)
        ensures
            final(self).deep_view() == (SearchRequestView {
                slice: old(self).deep_view().slice.push(
                    SliceView {
                        origin: origin@,
                        destination: destination@,
                        date: date@,
                        max_stops: max_stops as int,
                    },
                ),
                ..old(self).deep_view()
            }),
    {
        let s = Slice {
            origin: origin.to_owned(),
            destination: destination.to_owned(),
            date: date.to_owned(),
            max_stops,
        };
        self.slice.push(s);
        proof {
            assert(self.deep_view() =~~= (SearchRequestView {
                slice: old(self).deep_view().slice.push(
                    SliceView {
                        origin: origin@,
                        destination: destination@,
                        date: date@,
                        max_stops: max_stops as int,
                    },
                ),
                ..old(self).deep_view()
            }));
        }
    }
}

} // verus!
