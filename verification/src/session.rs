//! The session: configuration inputs, the request planner, and the
//! daily schedule derived from the request budget.
//!
//! Planning expands the configured trips into the Cartesian product of
//! their date lists: one request per combination, holding one
//! return-direction slice per trip, with dates cycling independently
//! per trip.

use crate::request::{one_adult, SearchRequest, SearchRequestView, SliceView};
use crate::schedule::{midnight_spec, next_run_spec};
use crate::{Error, ErrorView};
use vstd::arithmetic::div_mod::{
    lemma_div_is_ordered_by_denominator, lemma_fundamental_div_mod,
    lemma_fundamental_div_mod_converse, lemma_mod_bound,
};
use vstd::arithmetic::mul::lemma_mul_inequality;
use vstd::prelude::*;
use vstd::string::StrSliceExecFns;

verus! {

/// A configured trip: an origin/destination pair and the candidate
/// departure dates.
#[derive(Debug)]
pub struct Trip {
    pub from: String,
    pub to: String,
    pub dates: Vec<String>,
}

/// Mathematical image of a [`Trip`].
#[verifier::ext_equal]
pub struct TripView {
    pub from: Seq<char>,
    pub to: Seq<char>,
    pub dates: Seq<Seq<char>>,
}

impl DeepView for Trip {
    type V = TripView;

    open spec fn deep_view(&self) -> TripView {
        TripView { from: self.from@, to: self.to@, dates: self.dates.deep_view() }
    }
}

/// The run configuration: the API credential, the daily request budget,
/// naming, and the trips to watch.
#[derive(Debug)]
pub struct Session {
    pub email: Option<String>,
    pub google_api_key: String,
    pub requests_per_day: usize,
    pub sale_country: String,
    pub request_name: String,
    pub trips: Vec<Trip>,
}

/// Product of the date-list lengths of the first `k` trips.
pub open spec fn product_prefix(trips: Seq<TripView>, k: int) -> int
    decreases k,
{
    if k <= 0 {
        1
    } else {
        product_prefix(trips, k - 1) * trips[k - 1].dates.len()
    }
}

/// Number of requests one planning round needs: the product of all
/// date-list lengths, or zero when no trip is configured.
pub open spec fn total_calls_spec(trips: Seq<TripView>) -> int {
    if trips.len() == 0 {
        0
    } else {
        product_prefix(trips, trips.len() as int)
    }
}

/// Every prefix product stays within the machine word, so the plan can
/// be counted and allocated.
pub open spec fn products_bounded(trips: Seq<TripView>) -> bool {
    forall|k: int| 0 <= k <= trips.len() ==> product_prefix(trips, k) <= usize::MAX as int
}

/// Prefix products are never negative.
proof fn lemma_product_prefix_nonneg(trips: Seq<TripView>, k: int)
    ensures
        product_prefix(trips, k) >= 0,
    decreases k,
{
    if k > 0 {
        lemma_product_prefix_nonneg(trips, k - 1);
        vstd::arithmetic::mul::lemma_mul_nonnegative(
            product_prefix(trips, k - 1),
            trips[k - 1].dates.len() as int,
        );
    }
}

/// A date-less trip makes every later prefix product zero.
proof fn lemma_zero_propagates(trips: Seq<TripView>, j: int, k: int)
    requires
        0 <= j < k <= trips.len(),
        trips[j].dates.len() == 0,
    ensures
        product_prefix(trips, k) == 0,
    decreases k,
{
    if k - 1 > j {
        lemma_zero_propagates(trips, j, k - 1);
    }
}

/// A non-zero total means every trip has at least one date.
proof fn lemma_total_nonzero_dates(trips: Seq<TripView>, j: int)
    requires
        0 <= j < trips.len(),
        total_calls_spec(trips) != 0,
    ensures
        trips[j].dates.len() > 0,
{
    if trips[j].dates.len() == 0 {
        lemma_zero_propagates(trips, j, trips.len() as int);
    }
}

/// The full plan: request `i` carries, for each trip `j`, a slice in
/// the trip's return direction dated by the `i`-th entry of the trip's
/// date cycle.
pub open spec fn planned_requests(
    trips: Seq<TripView>,
    name: Seq<char>,
    sale_country: Seq<char>,
) -> Seq<SearchRequestView> {
    Seq::new(
        total_calls_spec(trips) as nat,
        |i: int|
            SearchRequestView {
                name: name,
                sale_country: sale_country,
                passengers: one_adult(),
                slice: Seq::new(
                    trips.len(),
                    |j: int|
                        SliceView {
                            origin: trips[j].to,
                            destination: trips[j].from,
                            date: trips[j].dates[i % (trips[j].dates.len() as int)],
                            max_stops: 0,
                        },
                ),
            },
    )
}

/// The number of whole seconds a `core::time::Duration` holds; the
/// type is opaque here, so its value gets a name.
pub uninterp spec fn duration_secs(d: core::time::Duration) -> int;

/// Relies on `core::time::Duration::from_secs`: the returned duration
/// holds exactly the given number of whole seconds.
pub assume_specification[ core::time::Duration::from_secs ](secs: u64) -> (d: core::time::Duration)
    ensures
        duration_secs(d) == secs as int,
;

impl Session {
    /// The prefix products of the trips' date counts all fit the
    /// machine word; planning and counting stay free of overflow.
    pub open spec fn wf(self) -> bool {
        products_bounded(self.trips.deep_view())
    }

    /// Whether a trip list can be planned on this machine: every prefix
    /// product of date counts fits a `usize`.
    pub fn fits_budget(trips: &Vec<Trip>) -> (b: bool)
        ensures
            b == products_bounded(trips.deep_view()),
    {
        let ghost tv = trips.deep_view();
        let mut acc: usize = 1;
        let mut i: usize = 0;
        loop
            invariant
                0 <= i <= trips@.len(),
                tv == trips.deep_view(),
                tv.len() == trips@.len(),
                acc == product_prefix(tv, i as int),
                forall|k: int| 0 <= k <= i ==> product_prefix(tv, k) <= usize::MAX as int,
            ensures
                i == trips@.len() || !products_bounded(tv),
                i == trips@.len() ==> forall|k: int|
                    0 <= k <= i ==> product_prefix(tv, k) <= usize::MAX as int,
            decreases trips@.len() - i,
        {
            if i == trips.len() {
                break ;
            }
            let len = trips[i].dates.len();
            if len == 0 {
                acc = 0;
            } else {
                if acc > usize::MAX / len {
                    proof {
                        let l = len as int;
                        let q = (usize::MAX as int) / l;
                        lemma_fundamental_div_mod(usize::MAX as int, l);
                        lemma_mod_bound(usize::MAX as int, l);
                        assert(acc as int >= q + 1);
                        assert(acc as int * l >= (q + 1) * l) by {
                            lemma_mul_inequality(q + 1, acc as int, l);
                        }
                        assert((q + 1) * l == l * q + l) by (nonlinear_arith);
                        assert(l * q + l > usize::MAX as int);
                        assert(product_prefix(tv, i + 1) == acc as int * tv[i as int].dates.len());
                        assert(tv[i as int].dates.len() == l);
                        assert(product_prefix(tv, i + 1) > usize::MAX as int);
                        assert(!products_bounded(tv));
                    }
                    return false;
                }
                proof {
                    let l = len as int;
                    let q = (usize::MAX as int) / l;
                    lemma_fundamental_div_mod(usize::MAX as int, l);
                    lemma_mod_bound(usize::MAX as int, l);
                    assert(acc as int * l <= q * l) by {
                        lemma_mul_inequality(acc as int, q, l);
                    }
                    assert(q * l == l * q) by (nonlinear_arith);
                    assert(q * l <= usize::MAX as int);
                }
                acc = acc * len;
            }
            i = i + 1;
        }
        i == trips.len()
    }

    /// Number of requests one planning round needs.
    pub fn total_calls(&self) -> (r: usize)
        requires
            self.wf(),
        ensures
            r == total_calls_spec(self.trips.deep_view()),
    {
        let ghost tv = self.trips.deep_view();
        if self.trips.len() == 0 {
            return 0;
        }
        let mut acc: usize = 1;
        let mut i: usize = 0;
        while i < self.trips.len()
            invariant
                0 <= i <= self.trips@.len(),
                tv == self.trips.deep_view(),
                tv.len() == self.trips@.len(),
                products_bounded(tv),
                acc == product_prefix(tv, i as int),
            decreases self.trips@.len() - i,
        {
            let len = self.trips[i].dates.len();
            proof {
                assert(product_prefix(tv, i + 1) == acc as int * tv[i as int].dates.len());
                assert(product_prefix(tv, i + 1) <= usize::MAX as int);
            }
            acc = acc * len;
            i = i + 1;
        }
        acc
    }

    /// How many full rounds the daily budget affords: zero means the
    /// schedule is infeasible.
    pub fn request_sets_per_day(&self) -> (r: usize)
        requires
            self.wf(),
        ensures
            r == self.request_sets_spec(),
    {
        let total = self.total_calls();
        if total == 0 {
            return 0;
        }
        self.requests_per_day / total
    }

    /// Rounds per day: the budget divided by the round size, zero when
    /// the round is empty or over budget.
    pub open spec fn request_sets_spec(self) -> int {
        let t = total_calls_spec(self.trips.deep_view());
        if t == 0 {
            0
        } else {
            (self.requests_per_day as int) / t
        }
    }

    /// Build the round's search requests: the Cartesian product of the
    /// trips' date lists, one request per combination, each holding one
    /// return-direction slice per trip.
    pub fn requests(&self) -> (r: Vec<SearchRequest>)
        requires
            self.wf(),
        ensures
            r.deep_view() == planned_requests(
                self.trips.deep_view(),
                self.request_name@,
                self.sale_country@,
            ),
            r@.len() == total_calls_spec(self.trips.deep_view()),
    {
        let ghost tv = self.trips.deep_view();
        let ghost plan = planned_requests(tv, self.request_name@, self.sale_country@);
        let total = self.total_calls();
        let mut out: Vec<SearchRequest> = Vec::new();
        let mut i: usize = 0;
        while i < total
            invariant
                0 <= i <= total,
                total == total_calls_spec(tv),
                tv == self.trips.deep_view(),
                tv.len() == self.trips@.len(),
                self.wf(),
                plan == planned_requests(tv, self.request_name@, self.sale_country@),
                out@.len() == i,
                forall|x: int| 0 <= x < i ==> out.deep_view()[x] == plan[x],
            decreases total - i,
        {
            let mut req = SearchRequest::new(self.request_name.as_str(), self.sale_country.as_str());
            let mut j: usize = 0;
            while j < self.trips.len()
                invariant
                    0 <= j <= self.trips@.len(),
                    0 <= i < total,
                    total == total_calls_spec(tv),
                    tv == self.trips.deep_view(),
                    tv.len() == self.trips@.len(),
                    req.deep_view().name == self.request_name@,
                    req.deep_view().sale_country == self.sale_country@,
                    req.deep_view().passengers == one_adult(),
                    req.deep_view().slice.len() == j,
                    forall|y: int| 0 <= y < j ==> req.deep_view().slice[y] == (SliceView {
                        origin: tv[y].to,
                        destination: tv[y].from,
                        date: tv[y].dates[i as int % (tv[y].dates.len() as int)],
                        max_stops: 0,
                    }),
                decreases self.trips@.len() - j,
            {
                proof {
                    lemma_total_nonzero_dates(tv, j as int);
                }
                let dates_len = self.trips[j].dates.len();
                let idx = i % dates_len;
                req.add_trip(
                    self.trips[j].to.as_str(),
                    self.trips[j].from.as_str(),
                    self.trips[j].dates[idx].as_str(),
                    0,
                );
                j = j + 1;
            }
            proof {
                assert(req.deep_view() =~~= plan[i as int]);
            }
            out.push(req);
            i = i + 1;
        }
        proof {
            assert(out.deep_view() =~~= plan);
        }
        out
    }

    /// The epoch instant of the next scheduled round at or after `now`:
    /// the daily lattice is anchored at the most recent local midnight
    /// and divided evenly by the affordable number of rounds.
    ///
    /// Fails exactly when the budget affords no round at all.
    pub fn next_run_at(&self, now: i64, utc_offset: i32) -> (result: Result<i64, Error>)
        requires
            self.wf(),
            self.requests_per_day <= 0x8000_0000,
            -8_000_000_000_000 < now < 8_000_000_000_000,
        ensures
            match result {
                Ok(t) => {
                    &&& self.request_sets_spec() > 0
                    &&& t == next_run_spec(
                        midnight_spec(now as int, utc_offset as int),
                        self.request_sets_spec(),
                        now as int,
                    )
                    &&& now <= t <= now + 2 * 86400
                },
                Err(e) => {
                    &&& self.request_sets_spec() == 0
                    &&& e@ == ErrorView::ScheduleInfeasible
                },
            },
    {
        let rounds = self.request_sets_per_day();
        if rounds == 0 {
            return Err(Error::ScheduleInfeasible);
        }
        proof {
            let t = total_calls_spec(self.trips.deep_view());
            lemma_product_prefix_nonneg(self.trips.deep_view(), self.trips.deep_view().len() as int);
            assert(t >= 1);
            lemma_div_is_ordered_by_denominator(self.requests_per_day as int, 1, t);
            assert((self.requests_per_day as int) / 1 == self.requests_per_day as int) by {
                lemma_fundamental_div_mod_converse(
                    self.requests_per_day as int,
                    1,
                    self.requests_per_day as int,
                    0,
                );
            }
        }
        let mid = crate::schedule::midnight_before(now, utc_offset);
        Ok(crate::schedule::next_run_epoch(mid, rounds as u64, now))
    }

    /// Seconds to sleep until the next round: the distance to
    /// [`Session::next_run_at`], clamped at zero, so it is never
    /// negative.
    pub fn next_run_seconds(&self, now: i64, utc_offset: i32) -> (result: Result<u64, Error>)
        requires
            self.wf(),
            self.requests_per_day <= 0x8000_0000,
            -8_000_000_000_000 < now < 8_000_000_000_000,
        ensures
            match result {
                Ok(w) => {
                    &&& self.request_sets_spec() > 0
                    &&& w == self.wait_secs_spec(now as int, utc_offset as int)
                },
                Err(e) => {
                    &&& self.request_sets_spec() == 0
                    &&& e@ == ErrorView::ScheduleInfeasible
                },
            },
    {
        let next = match self.next_run_at(now, utc_offset) {
            Ok(t) => t,
            Err(e) => {
                return Err(e);
            },
        };
        if next > now {
            Ok((next - now) as u64)
        } else {
            Ok(0)
        }
    }

    /// The wait before the next round, in seconds, never negative.
    pub open spec fn wait_secs_spec(self, now: int, utc_offset: int) -> int {
        let nr = next_run_spec(midnight_spec(now, utc_offset), self.request_sets_spec(), now);
        if nr >= now {
            nr - now
        } else {
            0
        }
    }

    /// The wait before the next round, as a [`core::time::Duration`]
    /// holding exactly the clamped wait of
    /// [`Session::next_run_seconds`].
    ///
    /// Fails exactly when the budget affords no round at all.
    pub fn next_run_duration(&self, now: i64, utc_offset: i32) -> (result: Result<
        core::time::Duration,
        Error,
    >)
        requires
            self.wf(),
            self.requests_per_day <= 0x8000_0000,
            -8_000_000_000_000 < now < 8_000_000_000_000,
        ensures
            match result {
                Ok(d) => {
                    &&& self.request_sets_spec() > 0
                    &&& duration_secs(d) == self.wait_secs_spec(now as int, utc_offset as int)
                },
                Err(e) => {
                    &&& self.request_sets_spec() == 0
                    &&& e@ == ErrorView::ScheduleInfeasible
                },
            },
    {
        let secs = match self.next_run_seconds(now, utc_offset) {
            Ok(w) => w,
            Err(e) => {
                return Err(e);
            },
        };
        Ok(core::time::Duration::from_secs(secs))
    }
}

/// The epoch instant of the most recent local midnight at or before
/// `now`, under the signed UTC offset `utc_offset`.
pub fn midnight(now: i64, utc_offset: i32) -> (m: i64)
    requires
        -8_000_000_000_000 < now < 8_000_000_000_000,
    ensures
        m == midnight_spec(now as int, utc_offset as int),
        m <= now,
        now - m < 86400,
{
    crate::schedule::midnight_before(now, utc_offset)
}

} // verus!
