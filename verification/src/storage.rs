//! Storage gateway: persist requests, offers and flights through
//! SQLite, each batch as one all-or-nothing transaction.
//!
//! The database is modelled by uninterpreted views of the three
//! tables' committed and pending rows; the trusted wrappers around
//! rusqlite state how `BEGIN`/`COMMIT`/`ROLLBACK` and the inserts move
//! rows between them.  Everything above the wrappers is verified: in
//! particular, after a failed persist call the committed tables are
//! exactly what they were before it.

use crate::money::{amount_dec_str, amount_to_string, Amount};
use crate::offer::{Flight, FlightView, Offer, OfferView};
use crate::{Error, ErrorView};
use vstd::prelude::*;
use vstd::string::StringExecFns;

verus! {

#[verifier::external_type_specification]
#[verifier::external_body]
pub struct ExConnection(rusqlite::Connection);

/// A row of the `requests` table.
#[verifier::ext_equal]
pub struct RequestRow {
    pub id: i64,
    pub name: Seq<char>,
    pub created_at: i64,
}

/// A row of the `offers` table; prices are stored in their canonical
/// decimal rendering, the ticketing instant as epoch seconds.
#[verifier::ext_equal]
pub struct OfferRow {
    pub id: i64,
    pub request_id: Option<i64>,
    pub currency: Seq<char>,
    pub base_price: Seq<char>,
    pub sale_price: Seq<char>,
    pub tax_price: Seq<char>,
    pub total_price: Seq<char>,
    pub latest_ticketing_at: i64,
    pub refundable: bool,
}

/// A row of the `flights` table; instants are stored as epoch seconds
/// beside their signed offsets.
#[verifier::ext_equal]
pub struct FlightRow {
    pub id: i64,
    pub offer_id: Option<i64>,
    pub origin: Seq<char>,
    pub destination: Seq<char>,
    pub departs_at: i64,
    pub departs_at_offset: i64,
    pub arrives_at: i64,
    pub arrives_at_offset: i64,
    pub duration: i64,
    pub mileage: i64,
    pub seat: Seq<char>,
    pub aircraft: Seq<char>,
    pub carrier: Seq<char>,
    pub number: Seq<char>,
}

/// The committed rows of the `requests` table of the database behind a
/// connection.
pub uninterp spec fn committed_requests(conn: rusqlite::Connection) -> Seq<RequestRow>;

/// The committed rows of the `offers` table.
pub uninterp spec fn committed_offers(conn: rusqlite::Connection) -> Seq<OfferRow>;

/// The committed rows of the `flights` table.
pub uninterp spec fn committed_flights(conn: rusqlite::Connection) -> Seq<FlightRow>;

/// Rows inserted into `requests` by the open transaction, not yet
/// committed.
pub uninterp spec fn pending_requests(conn: rusqlite::Connection) -> Seq<RequestRow>;

/// Rows inserted into `offers` by the open transaction.
pub uninterp spec fn pending_offers(conn: rusqlite::Connection) -> Seq<OfferRow>;

/// Rows inserted into `flights` by the open transaction.
pub uninterp spec fn pending_flights(conn: rusqlite::Connection) -> Seq<FlightRow>;

/// Whether the connection has an open transaction.
pub uninterp spec fn in_transaction(conn: rusqlite::Connection) -> bool;

/// The committed tables are unchanged between two connection states.
pub open spec fn committed_unchanged(old_c: rusqlite::Connection, new_c: rusqlite::Connection) -> bool {
    &&& committed_requests(new_c) == committed_requests(old_c)
    &&& committed_offers(new_c) == committed_offers(old_c)
    &&& committed_flights(new_c) == committed_flights(old_c)
}

/// Relies on rusqlite's `Connection::execute_batch` running `BEGIN
/// DEFERRED`: on success a transaction is open with nothing pending;
/// SQLite refuses a nested `BEGIN`, and a refused `BEGIN` opens
/// nothing, changing no table and leaving the transaction state as it
/// was.
#[verifier::external_body]
fn begin(conn: &mut rusqlite::Connection) -> (r: Result<(), Error>)
    ensures
        committed_unchanged(*old(conn), *final(conn)),
        match r {
            Ok(_) => {
                &&& in_transaction(*final(conn))
                &&& pending_requests(*final(conn)) == Seq::<RequestRow>::empty()
                &&& pending_offers(*final(conn)) == Seq::<OfferRow>::empty()
                &&& pending_flights(*final(conn)) == Seq::<FlightRow>::empty()
            },
            Err(e) => {
                &&& in_transaction(*final(conn)) == in_transaction(*old(conn))
                &&& e@ matches ErrorView::CreatingTransaction(_)
            },
        },
{
    conn.execute_batch("BEGIN DEFERRED").map_err(
        |err| Error::CreatingTransaction(err.to_string()),
    )?;
    Ok(())
}

/// Relies on rusqlite's `Connection::execute_batch` running `COMMIT`:
/// on success the pending rows become committed, atomically; on
/// failure the committed tables are unchanged.
#[verifier::external_body]
fn commit(conn: &mut rusqlite::Connection) -> (r: Result<(), Error>)
    requires
        in_transaction(*old(conn)),
    ensures
        match r {
            Ok(_) => {
                &&& !in_transaction(*final(conn))
                &&& committed_requests(*final(conn)) == committed_requests(*old(conn))
                    + pending_requests(*old(conn))
                &&& committed_offers(*final(conn)) == committed_offers(*old(conn))
                    + pending_offers(*old(conn))
                &&& committed_flights(*final(conn)) == committed_flights(*old(conn))
                    + pending_flights(*old(conn))
            },
            Err(e) => {
                &&& committed_unchanged(*old(conn), *final(conn))
                &&& e@ matches ErrorView::CommitingTransaction(_)
            },
        },
{
    conn.execute_batch("COMMIT").map_err(|err| Error::CommitingTransaction(err.to_string()))?;
    Ok(())
}

/// Relies on rusqlite's `Connection::execute_batch` running
/// `ROLLBACK`, and on SQLite's transaction semantics: `ROLLBACK`
/// closes the open transaction, discarding its pending rows, and fails
/// only when no transaction is open (as after one of SQLite's
/// automatic rollbacks) — so afterwards none is open either way, and
/// the committed tables are never changed by it.
#[verifier::external_body]
fn rollback(conn: &mut rusqlite::Connection) -> (r: Result<(), Error>)
    ensures
        committed_unchanged(*old(conn), *final(conn)),
        !in_transaction(*final(conn)),
        r matches Err(e) ==> e@ matches ErrorView::ExecutingDbQuery(_),
{
    conn.execute_batch("ROLLBACK").map_err(|err| Error::ExecutingDbQuery(err.to_string()))?;
    Ok(())
}

/// Relies on rusqlite's `Connection::execute` (a single `INSERT INTO
/// requests`) and `Connection::last_insert_rowid`: on success exactly
/// one row with the returned rowid is added to the open transaction's
/// pending rows.  A failed statement commits nothing; on some errors
/// SQLite rolls the whole transaction back, so nothing is promised of
/// the pending rows then.
#[verifier::external_body]
fn insert_request_row(conn: &mut rusqlite::Connection, name: &str, created_at: i64) -> (r: Result<
    i64,
    Error,
>)
    requires
        in_transaction(*old(conn)),
    ensures
        committed_unchanged(*old(conn), *final(conn)),
        match r {
            Ok(id) => {
                &&& in_transaction(*final(conn))
                &&& pending_offers(*final(conn)) == pending_offers(*old(conn))
                &&& pending_flights(*final(conn)) == pending_flights(*old(conn))
                &&& pending_requests(*final(conn)) == pending_requests(*old(conn)).push(
                    (RequestRow { id, name: name@, created_at }),
                )
            },
            Err(e) => e@ matches ErrorView::ExecutingDbQuery(_),
        },
{
    let res = conn.execute(
        "INSERT INTO requests (name, created_at) VALUES (?1, ?2)",
        (name, created_at),
    );
    match res {
        Ok(_) => Ok(conn.last_insert_rowid()),
        Err(err) => Err(Error::ExecutingDbQuery(err.to_string())),
    }
}

/// Relies on rusqlite's `Connection::execute` (a single `INSERT INTO
/// offers`) and `Connection::last_insert_rowid`: on success exactly
/// one row with the returned rowid is added to the open transaction's
/// pending rows.  A failed statement commits nothing; on some errors
/// SQLite rolls the whole transaction back, so nothing is promised of
/// the pending rows then.
#[verifier::external_body]
fn insert_offer_row(
    conn: &mut rusqlite::Connection,
    request_id: Option<i64>,
    currency: &str,
    base_price: &str,
    sale_price: &str,
    tax_price: &str,
    total_price: &str,
    latest_ticketing_at: i64,
    refundable: bool,
) -> (r: Result<i64, Error>)
    requires
        in_transaction(*old(conn)),
    ensures
        committed_unchanged(*old(conn), *final(conn)),
        match r {
            Ok(id) => {
                &&& in_transaction(*final(conn))
                &&& pending_requests(*final(conn)) == pending_requests(*old(conn))
                &&& pending_flights(*final(conn)) == pending_flights(*old(conn))
                &&& pending_offers(*final(conn)) == pending_offers(*old(conn)).push(
                (OfferRow {
                    id,
                    request_id,
                    currency: currency@,
                    base_price: base_price@,
                    sale_price: sale_price@,
                    tax_price: tax_price@,
                    total_price: total_price@,
                    latest_ticketing_at,
                    refundable,
                }),
            )
            },
            Err(e) => e@ matches ErrorView::ExecutingDbQuery(_),
        },
{
    let res = conn.execute(
        "INSERT INTO offers (request_id, currency, base_price, sale_price, tax_price, total_price, latest_ticketing_at, refundable) VALUES (?1, ?2, ?3, ?4, ?5, ?6, ?7, ?8)",
        (request_id, currency, base_price, sale_price, tax_price, total_price, latest_ticketing_at, refundable),
    );
    match res {
        Ok(_) => Ok(conn.last_insert_rowid()),
        Err(err) => Err(Error::ExecutingDbQuery(err.to_string())),
    }
}

/// Relies on rusqlite's `Connection::execute` (a single `INSERT INTO
/// flights`) and `Connection::last_insert_rowid`: on success exactly
/// one row with the returned rowid is added to the open transaction's
/// pending rows.  A failed statement commits nothing; on some errors
/// SQLite rolls the whole transaction back, so nothing is promised of
/// the pending rows then.
#[verifier::external_body]
fn insert_flight_row(
    conn: &mut rusqlite::Connection,
    offer_id: Option<i64>,
    origin: &str,
    destination: &str,
    departs_at: i64,
    departs_at_offset: i64,
    arrives_at: i64,
    arrives_at_offset: i64,
    duration: i64,
    mileage: i64,
    seat: &str,
    aircraft: &str,
    carrier: &str,
    number: &str,
) -> (r: Result<i64, Error>)
    requires
        in_transaction(*old(conn)),
    ensures
        committed_unchanged(*old(conn), *final(conn)),
        match r {
            Ok(id) => {
                &&& in_transaction(*final(conn))
                &&& pending_requests(*final(conn)) == pending_requests(*old(conn))
                &&& pending_offers(*final(conn)) == pending_offers(*old(conn))
                &&& pending_flights(*final(conn)) == pending_flights(*old(conn)).push(
                (FlightRow {
                    id,
                    offer_id,
                    origin: origin@,
                    destination: destination@,
                    departs_at,
                    departs_at_offset,
                    arrives_at,
                    arrives_at_offset,
                    duration,
                    mileage,
                    seat: seat@,
                    aircraft: aircraft@,
                    carrier: carrier@,
                    number: number@,
                }),
            )
            },
            Err(e) => e@ matches ErrorView::ExecutingDbQuery(_),
        },
{
    let res = conn.execute(
        "INSERT INTO flights (offer_id, origin, destination, departs_at, departs_at_offset, arrives_at, arrives_at_offset, duration, mileage, seat, aircraft, carrier, number) VALUES (?1, ?2, ?3, ?4, ?5, ?6, ?7, ?8, ?9, ?10, ?11, ?12, ?13)",
        (offer_id, origin, destination, departs_at, departs_at_offset, arrives_at, arrives_at_offset, duration, mileage, seat, aircraft, carrier, number),
    );
    match res {
        Ok(_) => Ok(conn.last_insert_rowid()),
        Err(err) => Err(Error::ExecutingDbQuery(err.to_string())),
    }
}

/// The `flights` row a flight maps to.
pub open spec fn flight_row_of(f: FlightView) -> FlightRow {
    FlightRow {
        id: match f.id {
            Option::Some(id) => id,
            Option::None => 0,
        },
        offer_id: f.offer_id,
        origin: f.origin,
        destination: f.destination,
        departs_at: f.departure_time.epoch_seconds,
        departs_at_offset: f.departure_time.offset_seconds as i64,
        arrives_at: f.arrival_time.epoch_seconds,
        arrives_at_offset: f.arrival_time.offset_seconds as i64,
        duration: f.duration as i64,
        mileage: f.mileage as i64,
        seat: f.seat,
        aircraft: f.aircraft,
        carrier: f.carrier,
        number: f.number,
    }
}

/// The `offers` row an offer maps to.
pub open spec fn offer_row_of(o: OfferView) -> OfferRow {
    OfferRow {
        id: match o.id {
            Option::Some(id) => id,
            Option::None => 0,
        },
        request_id: o.request_id,
        currency: o.currency,
        base_price: amount_dec_str(o.base_price),
        sale_price: amount_dec_str(o.sale_price),
        tax_price: amount_dec_str(o.tax_price),
        total_price: amount_dec_str(o.total_price),
        latest_ticketing_at: o.latest_ticketing_time.epoch_seconds,
        refundable: o.refundable,
    }
}

/// The offer rows of a sequence of offers, in order.
pub open spec fn offer_rows_of(offers: Seq<OfferView>) -> Seq<OfferRow> {
    offers.map_values(|o: OfferView| offer_row_of(o))
}

/// The flight rows of one offer, in flight order.
pub open spec fn flight_rows_of(o: OfferView) -> Seq<FlightRow> {
    o.flights.map_values(|f: FlightView| flight_row_of(f))
}

/// The flight rows of a sequence of offers, offer by offer.
pub open spec fn all_flight_rows_of(offers: Seq<OfferView>) -> Seq<FlightRow>
    decreases offers.len(),
{
    if offers.len() == 0 {
        Seq::empty()
    } else {
        all_flight_rows_of(offers.drop_last()) + flight_rows_of(offers.last())
    }
}

/// An offer's amounts can all be rendered for storage.
pub open spec fn offer_storable(o: OfferView) -> bool {
    o.base_price.wf() && o.sale_price.wf() && o.tax_price.wf() && o.total_price.wf()
}

/// The persisted copy of `o`: the generated identifiers written in,
/// every flight linked to the offer's row, everything else unchanged.
pub open spec fn written_offer(o: OfferView, n: OfferView, request_id: Option<i64>) -> bool {
    &&& n.id is Some
    &&& n.request_id == request_id
    &&& n.currency == o.currency
    &&& n.base_price == o.base_price
    &&& n.sale_price == o.sale_price
    &&& n.tax_price == o.tax_price
    &&& n.total_price == o.total_price
    &&& n.latest_ticketing_time == o.latest_ticketing_time
    &&& n.refundable == o.refundable
    &&& n.flights.len() == o.flights.len()
    &&& forall|j: int|
        0 <= j < o.flights.len() ==> {
            let nf = #[trigger] n.flights[j];
            let of = o.flights[j];
            &&& nf.id is Some
            &&& nf.offer_id == n.id
            &&& nf.origin == of.origin
            &&& nf.destination == of.destination
            &&& nf.departure_time == of.departure_time
            &&& nf.arrival_time == of.arrival_time
            &&& nf.duration == of.duration
            &&& nf.mileage == of.mileage
            &&& nf.seat == of.seat
            &&& nf.aircraft == of.aircraft
            &&& nf.carrier == of.carrier
            &&& nf.number == of.number
        }
}

/// Every offer written back, in order.
pub open spec fn written_offers(
    olds: Seq<OfferView>,
    news: Seq<OfferView>,
    request_id: Option<i64>,
) -> bool {
    &&& news.len() == olds.len()
    &&& forall|i: int|
        0 <= i < olds.len() ==> written_offer(olds[i], #[trigger] news[i], request_id)
}

/// Write one offer and its flights into the open transaction,
/// returning the persisted copy with its generated identifiers.
fn persist_one(conn: &mut rusqlite::Connection, o: &Offer, request_id: Option<i64>) -> (r: Result<
    Offer,
    Error,
>)
    requires
        in_transaction(*old(conn)),
        offer_storable(o.deep_view()),
    ensures
        committed_unchanged(*old(conn), *final(conn)),
        match r {
            Ok(n) => {
                &&& in_transaction(*final(conn))
                &&& pending_requests(*final(conn)) == pending_requests(*old(conn))
                &&& written_offer(o.deep_view(), n.deep_view(), request_id)
                &&& pending_offers(*final(conn)) == pending_offers(*old(conn)).push(
                    offer_row_of(n.deep_view()),
                )
                &&& pending_flights(*final(conn)) == pending_flights(*old(conn))
                    + flight_rows_of(n.deep_view())
            },
            Err(e) => e@ matches ErrorView::ExecutingDbQuery(_),
        },
{
    let base = amount_to_string(&o.base_price);
    let sale = amount_to_string(&o.sale_price);
    let tax = amount_to_string(&o.tax_price);
    let total = amount_to_string(&o.total_price);
    let offer_id = match insert_offer_row(
        conn,
        request_id,
        o.currency.as_str(),
        base.as_str(),
        sale.as_str(),
        tax.as_str(),
        total.as_str(),
        o.latest_ticketing_time.epoch_seconds,
        o.refundable,
    ) {
        Ok(id) => id,
        Err(e) => {
            return Err(e);
        },
    };
    let mut flights: Vec<Flight> = Vec::new();
    let mut j: usize = 0;
    while j < o.flights.len()
        invariant
            0 <= j <= o.flights@.len(),
            in_transaction(*conn),
            committed_unchanged(*old(conn), *conn),
            pending_requests(*conn) == pending_requests(*old(conn)),
            pending_offers(*conn) == pending_offers(*old(conn)).push(
                (OfferRow {
                    id: offer_id,
                    request_id,
                    currency: o.currency@,
                    base_price: amount_dec_str(o.base_price),
                    sale_price: amount_dec_str(o.sale_price),
                    tax_price: amount_dec_str(o.tax_price),
                    total_price: amount_dec_str(o.total_price),
                    latest_ticketing_at: o.latest_ticketing_time.epoch_seconds,
                    refundable: o.refundable,
                }),
            ),
            flights@.len() == j,
            pending_flights(*conn) == pending_flights(*old(conn)) + flights.deep_view().map_values(
                |f: FlightView| flight_row_of(f),
            ),
            forall|x: int|
                0 <= x < j ==> {
                    let nf = #[trigger] flights.deep_view()[x];
                    let of = o.flights.deep_view()[x];
                    &&& nf.id is Some
                    &&& nf.offer_id == Some(offer_id)
                    &&& nf.origin == of.origin
                    &&& nf.destination == of.destination
                    &&& nf.departure_time == of.departure_time
                    &&& nf.arrival_time == of.arrival_time
                    &&& nf.duration == of.duration
                    &&& nf.mileage == of.mileage
                    &&& nf.seat == of.seat
                    &&& nf.aircraft == of.aircraft
                    &&& nf.carrier == of.carrier
                    &&& nf.number == of.number
                },
        decreases o.flights@.len() - j,
    {
        let f = &o.flights[j];
        let ghost flights_pre = flights.deep_view();
        let ghost flights_rows_pre = flights.deep_view().map_values(
            |fv: FlightView| flight_row_of(fv),
        );
        let fid = match insert_flight_row(
            conn,
            Some(offer_id),
            f.origin.as_str(),
            f.destination.as_str(),
            f.departure_time.epoch_seconds,
            f.departure_time.offset_seconds as i64,
            f.arrival_time.epoch_seconds,
            f.arrival_time.offset_seconds as i64,
            f.duration,
            f.mileage,
            f.seat.as_str(),
            f.aircraft.as_str(),
            f.carrier.as_str(),
            f.number.as_str(),
        ) {
            Ok(id) => id,
            Err(e) => {
                return Err(e);
            },
        };
        let nf = Flight {
            id: Some(fid),
            offer_id: Some(offer_id),
            origin: f.origin.clone(),
            destination: f.destination.clone(),
            departure_time: f.departure_time,
            arrival_time: f.arrival_time,
            duration: f.duration,
            mileage: f.mileage,
            seat: f.seat.clone(),
            aircraft: f.aircraft.clone(),
            carrier: f.carrier.clone(),
            number: f.number.clone(),
        };
        flights.push(nf);
        proof {
            assert(flights.deep_view() =~= flights_pre.push(flights.deep_view().last()));
            assert(flights.deep_view().map_values(|fv: FlightView| flight_row_of(fv))
                =~= flights_rows_pre.push(flight_row_of(flights.deep_view().last())));
            assert(flights.deep_view().last().origin == o.flights.deep_view()[j as int].origin);
        }
        j = j + 1;
    }
    let n = Offer {
        id: Some(offer_id),
        request_id,
        currency: o.currency.clone(),
        base_price: o.base_price,
        sale_price: o.sale_price,
        tax_price: o.tax_price,
        total_price: o.total_price,
        latest_ticketing_time: o.latest_ticketing_time,
        refundable: o.refundable,
        flights,
    };
    proof {
        assert(offer_row_of(n.deep_view()) =~= (OfferRow {
            id: offer_id,
            request_id,
            currency: o.currency@,
            base_price: amount_dec_str(o.base_price),
            sale_price: amount_dec_str(o.sale_price),
            tax_price: amount_dec_str(o.tax_price),
            total_price: amount_dec_str(o.total_price),
            latest_ticketing_at: o.latest_ticketing_time.epoch_seconds,
            refundable: o.refundable,
        }));
        assert(flight_rows_of(n.deep_view()) =~= n.flights.deep_view().map_values(
            |fv: FlightView| flight_row_of(fv),
        ));
    }
    Ok(n)
}

/// Persist a round's offers as one transaction: every offer row (with
/// its `request_id` foreign key) and every nested flight row (linked
/// by the generated `offer_id`), all or nothing.
///
/// On success all generated identifiers are written back into
/// `offers`; on any failure the transaction is rolled back, and the
/// committed tables are exactly what they were before the call.  No
/// transaction is left open in either outcome.
pub fn persist(
    conn: &mut rusqlite::Connection,
    offers: &mut Vec<Offer>,
    request_id: Option<i64>,
) -> (r: Result<(), Error>)
    requires
        forall|i: int|
            0 <= i < old(offers)@.len() ==> offer_storable(
                #[trigger] old(offers).deep_view()[i],
            ),
    ensures
        match r {
            Ok(_) => {
                &&& written_offers(old(offers).deep_view(), final(offers).deep_view(), request_id)
                &&& committed_offers(*final(conn)) == committed_offers(*old(conn)) + offer_rows_of(
                    final(offers).deep_view(),
                )
                &&& committed_flights(*final(conn)) == committed_flights(*old(conn))
                    + all_flight_rows_of(final(offers).deep_view())
                &&& committed_requests(*final(conn)) == committed_requests(*old(conn))
            },
            Err(_) => {
                &&& committed_unchanged(*old(conn), *final(conn))
                &&& *final(offers) == *old(offers)
            },
        },
        !in_transaction(*final(conn)),
{
    match begin(conn) {
        Ok(_) => {},
        Err(e) => {
            let _ = rollback(conn);
            return Err(e);
        },
    }
    let mut done: Vec<Offer> = Vec::new();
    let mut i: usize = 0;
    proof {
        assert(offer_rows_of(done.deep_view()) =~= Seq::<OfferRow>::empty());
        assert(all_flight_rows_of(done.deep_view()) =~= Seq::<FlightRow>::empty());
    }
    while i < offers.len()
        invariant
            0 <= i <= offers@.len(),
            offers == old(offers),
            forall|x: int|
                0 <= x < offers@.len() ==> offer_storable(#[trigger] offers.deep_view()[x]),
            in_transaction(*conn),
            committed_unchanged(*old(conn), *conn),
            done@.len() == i,
            written_offers(
                offers.deep_view().subrange(0, i as int),
                done.deep_view(),
                request_id,
            ),
            pending_requests(*conn) == Seq::<RequestRow>::empty(),
            pending_offers(*conn) == offer_rows_of(done.deep_view()),
            pending_flights(*conn) == all_flight_rows_of(done.deep_view()),
        decreases offers@.len() - i,
    {
        let ghost done_pre = done.deep_view();
        proof {
            assert(offer_storable(offers.deep_view()[i as int]));
        }
        let n = match persist_one(conn, &offers[i], request_id) {
            Ok(n) => n,
            Err(e) => {
                let _ = rollback(conn);
                return Err(e);
            },
        };
        done.push(n);
        proof {
            assert(done.deep_view().drop_last() =~= done_pre);
            let pre_sub = offers.deep_view().subrange(0, i as int);
            let cur_sub = offers.deep_view().subrange(0, i + 1);
            assert(cur_sub.drop_last() =~= pre_sub);
            assert(done.deep_view().last() == n.deep_view());
            assert(forall|x: int|
                0 <= x < i ==> #[trigger] done.deep_view()[x] == done_pre[x]);
            assert forall|x: int| 0 <= x < cur_sub.len() implies written_offer(
                cur_sub[x],
                #[trigger] done.deep_view()[x],
                request_id,
            ) by {
                if x < i as int {
                    assert(cur_sub[x] == pre_sub[x]);
                    assert(written_offer(pre_sub[x], done_pre[x], request_id));
                } else {
                    assert(cur_sub[x] == offers.deep_view()[i as int]);
                    assert(done.deep_view()[x] == n.deep_view());
                }
            }
            assert(all_flight_rows_of(done.deep_view()) == all_flight_rows_of(
                done.deep_view().drop_last(),
            ) + flight_rows_of(done.deep_view().last()));
            assert(offer_rows_of(done.deep_view()) =~= offer_rows_of(done_pre).push(
                offer_row_of(done.deep_view().last()),
            ));
            assert(offers.deep_view().subrange(0, i as int) =~= offers.deep_view().subrange(
                0,
                i + 1,
            ).drop_last());
        }
        i = i + 1;
    }
    match commit(conn) {
        Ok(_) => {},
        Err(e) => {
            let _ = rollback(conn);
            return Err(e);
        },
    }
    proof {
        assert(offers.deep_view().subrange(0, offers@.len() as int) =~= offers.deep_view());
        assert(committed_requests(*conn) =~= committed_requests(*old(conn)));
    }
    *offers = done;
    Ok(())
}

/// Record one dispatched request in the `requests` table, in a small
/// transaction of its own, and return its generated identifier.  On
/// failure the committed tables are unchanged; no transaction is left
/// open in either outcome.
pub fn create_request(conn: &mut rusqlite::Connection, name: &str, created_at: i64) -> (r: Result<
    i64,
    Error,
>)
    ensures
        match r {
            Ok(id) => {
                &&& committed_requests(*final(conn)) == committed_requests(*old(conn)).push(
                    (RequestRow { id, name: name@, created_at }),
                )
                &&& committed_offers(*final(conn)) == committed_offers(*old(conn))
                &&& committed_flights(*final(conn)) == committed_flights(*old(conn))
            },
            Err(_) => committed_unchanged(*old(conn), *final(conn)),
        },
        !in_transaction(*final(conn)),
{
    match begin(conn) {
        Ok(_) => {},
        Err(e) => {
            let _ = rollback(conn);
            return Err(e);
        },
    }
    let id = match insert_request_row(conn, name, created_at) {
        Ok(id) => id,
        Err(e) => {
            let _ = rollback(conn);
            return Err(e);
        },
    };
    match commit(conn) {
        Ok(_) => {},
        Err(e) => {
            let _ = rollback(conn);
            return Err(e);
        },
    }
    Ok(id)
}

impl Flight {
    /// Persist this flight as one small transaction of its own, bound
    /// to its already-assigned `offer_id`, writing the generated
    /// identifier back into it.
    ///
    /// On failure nothing is kept and the flight is unchanged; no
    /// transaction is left open in either outcome.
    pub fn create(&mut self, conn: &mut rusqlite::Connection) -> (r: Result<(), Error>)
        ensures
            committed_requests(*final(conn)) == committed_requests(*old(conn)),
            committed_offers(*final(conn)) == committed_offers(*old(conn)),
            !in_transaction(*final(conn)),
            match r {
                Ok(_) => {
                    &&& final(self).deep_view().id is Some
                    &&& final(self).deep_view() == (FlightView {
                        id: final(self).deep_view().id,
                        ..old(self).deep_view()
                    })
                    &&& committed_flights(*final(conn)) == committed_flights(*old(conn)).push(
                        flight_row_of(final(self).deep_view()),
                    )
                },
                Err(_) => {
                    &&& *final(self) == *old(self)
                    &&& committed_flights(*final(conn)) == committed_flights(*old(conn))
                },
            },
    {
        match begin(conn) {
            Ok(_) => {},
            Err(e) => {
                let _ = rollback(conn);
                return Err(e);
            },
        }
        let id = match insert_flight_row(
            conn,
            self.offer_id,
            self.origin.as_str(),
            self.destination.as_str(),
            self.departure_time.epoch_seconds,
            self.departure_time.offset_seconds as i64,
            self.arrival_time.epoch_seconds,
            self.arrival_time.offset_seconds as i64,
            self.duration,
            self.mileage,
            self.seat.as_str(),
            self.aircraft.as_str(),
            self.carrier.as_str(),
            self.number.as_str(),
        ) {
            Ok(id) => id,
            Err(e) => {
                let _ = rollback(conn);
                return Err(e);
            },
        };
        match commit(conn) {
            Ok(_) => {},
            Err(e) => {
                let _ = rollback(conn);
                return Err(e);
            },
        }
        self.id = Some(id);
        proof {
            assert(self.deep_view() =~~= (FlightView {
                id: self.deep_view().id,
                ..old(self).deep_view()
            }));
            assert(flight_row_of(self.deep_view()) =~= (FlightRow {
                id,
                offer_id: old(self).offer_id,
                origin: old(self).origin@,
                destination: old(self).destination@,
                departs_at: old(self).departure_time.epoch_seconds,
                departs_at_offset: old(self).departure_time.offset_seconds as i64,
                arrives_at: old(self).arrival_time.epoch_seconds,
                arrives_at_offset: old(self).arrival_time.offset_seconds as i64,
                duration: old(self).duration,
                mileage: old(self).mileage,
                seat: old(self).seat@,
                aircraft: old(self).aircraft@,
                carrier: old(self).carrier@,
                number: old(self).number@,
            }));
            assert(committed_requests(*conn) =~= committed_requests(*old(conn)));
            assert(committed_offers(*conn) =~= committed_offers(*old(conn)));
            assert(committed_flights(*conn) =~= committed_flights(*old(conn)).push(
                flight_row_of(self.deep_view()),
            ));
        }
        Ok(())
    }
}

impl Offer {
    /// Persist this offer and its flights as one transaction of its
    /// own, writing the generated identifiers back into it.  On
    /// failure nothing is kept and the offer is unchanged; no
    /// transaction is left open in either outcome.
    pub fn create(&mut self, conn: &mut rusqlite::Connection) -> (r: Result<(), Error>)
        requires
            offer_storable(old(self).deep_view()),
        ensures
            match r {
                Ok(_) => {
                    &&& written_offer(
                        old(self).deep_view(),
                        final(self).deep_view(),
                        old(self).request_id,
                    )
                    &&& committed_offers(*final(conn)) == committed_offers(*old(conn)).push(
                        offer_row_of(final(self).deep_view()),
                    )
                    &&& committed_flights(*final(conn)) == committed_flights(*old(conn))
                        + flight_rows_of(final(self).deep_view())
                    &&& committed_requests(*final(conn)) == committed_requests(*old(conn))
                },
                Err(_) => {
                    &&& committed_unchanged(*old(conn), *final(conn))
                    &&& *final(self) == *old(self)
                },
            },
            !in_transaction(*final(conn)),
    {
        match begin(conn) {
            Ok(_) => {},
            Err(e) => {
                let _ = rollback(conn);
                return Err(e);
            },
        }
        let request_id = self.request_id;
        let n = match persist_one(conn, self, request_id) {
            Ok(n) => n,
            Err(e) => {
                let _ = rollback(conn);
                return Err(e);
            },
        };
        match commit(conn) {
            Ok(_) => {},
            Err(e) => {
                let _ = rollback(conn);
                return Err(e);
            },
        }
        *self = n;
        Ok(())
    }
}

} // verus!
