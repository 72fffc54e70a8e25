use flycheap::clock::parse_time;
use flycheap::money::Amount;
use flycheap::offer::{Flight, Offer};
use flycheap::storage::{create_request, persist};
use rusqlite::Connection;

fn open_db() -> Connection {
    let conn = Connection::open_in_memory().unwrap();
    conn.execute_batch(
        "CREATE TABLE requests (
             id INTEGER PRIMARY KEY,
             name TEXT NOT NULL,
             created_at INTEGER NOT NULL
         );
         CREATE TABLE offers (
             id INTEGER PRIMARY KEY,
             request_id INTEGER,
             currency TEXT NOT NULL,
             base_price REAL NOT NULL,
             sale_price REAL NOT NULL,
             tax_price REAL NOT NULL,
             total_price REAL NOT NULL,
             latest_ticketing_at INTEGER NOT NULL,
             refundable INTEGER NOT NULL
         );
         CREATE TABLE flights (
             id INTEGER PRIMARY KEY,
             offer_id INTEGER,
             origin TEXT NOT NULL,
             destination TEXT NOT NULL,
             departs_at INTEGER NOT NULL,
             departs_at_offset INTEGER NOT NULL,
             arrives_at INTEGER NOT NULL,
             arrives_at_offset INTEGER NOT NULL,
             duration INTEGER NOT NULL,
             mileage INTEGER NOT NULL,
             seat TEXT NOT NULL,
             aircraft TEXT NOT NULL,
             carrier TEXT NOT NULL,
             number TEXT NOT NULL CHECK (number <> 'FAIL')
         );",
    )
    .unwrap();
    conn
}

fn flight(origin: &str, destination: &str, number: &str) -> Flight {
    Flight {
        id: None,
        offer_id: None,
        origin: origin.to_string(),
        destination: destination.to_string(),
        departure_time: parse_time("2016-03-28T21:35+02:00").unwrap(),
        arrival_time: parse_time("2016-03-29T00:45+03:00").unwrap(),
        duration: 130,
        mileage: 278,
        seat: "COACH".to_string(),
        aircraft: "319".to_string(),
        carrier: "AB".to_string(),
        number: number.to_string(),
    }
}

fn offer(flights: Vec<Flight>) -> Offer {
    Offer {
        id: None,
        request_id: None,
        currency: "EUR".to_string(),
        base_price: Amount { scaled: 7200, scale: 2 },
        sale_price: Amount { scaled: 7200, scale: 2 },
        tax_price: Amount { scaled: 12256, scale: 2 },
        total_price: Amount { scaled: 19456, scale: 2 },
        latest_ticketing_time: parse_time("2016-01-20T17:48-05:00").unwrap(),
        refundable: false,
        flights,
    }
}

fn count(conn: &Connection, table: &str) -> i64 {
    conn.query_row(&format!("SELECT COUNT(*) FROM {table}"), (), |row| row.get(0)).unwrap()
}

#[test]
fn persist_links_offers_and_flights() {
    let mut conn = open_db();
    let request_id = create_request(&mut conn, "watch", 1459193700).unwrap();
    let mut offers = vec![
        offer(vec![flight("TXL", "OTP", "8272"), flight("OTP", "TXL", "8273")]),
        offer(vec![flight("TXL", "OTP", "8274")]),
    ];
    persist(&mut conn, &mut offers, Some(request_id)).unwrap();

    // Generated identifiers are written back, and every flight points
    // at its offer's row.
    for o in &offers {
        let oid = o.id.unwrap();
        assert_eq!(o.request_id, Some(request_id));
        for f in &o.flights {
            assert!(f.id.is_some());
            assert_eq!(f.offer_id, Some(oid));
        }
    }
    assert_ne!(offers[0].id, offers[1].id);

    assert_eq!(count(&conn, "requests"), 1);
    assert_eq!(count(&conn, "offers"), 2);
    assert_eq!(count(&conn, "flights"), 3);

    // Prices land as REAL values; instants as epoch seconds with their
    // offsets beside them.
    let (base, total): (f64, f64) = conn
        .query_row(
            "SELECT base_price, total_price FROM offers WHERE id = ?1",
            (offers[0].id.unwrap(),),
            |row| Ok((row.get(0)?, row.get(1)?)),
        )
        .unwrap();
    assert_eq!(base, 72.00);
    assert_eq!(total, 194.56);
    let (departs, offset): (i64, i64) = conn
        .query_row(
            "SELECT departs_at, departs_at_offset FROM flights WHERE id = ?1",
            (offers[0].flights[0].id.unwrap(),),
            |row| Ok((row.get(0)?, row.get(1)?)),
        )
        .unwrap();
    assert_eq!(departs, 1459193700);
    assert_eq!(offset, 7200);
}

#[test]
fn persist_rolls_back_whole_batch_on_failed_flight_insert() {
    let mut conn = open_db();
    // The second flight of the offer violates the table constraint, so
    // its insert fails after the offer row and the first flight row
    // already went in: nothing may remain visible.
    let mut offers = vec![offer(vec![flight("TXL", "OTP", "8272"), flight("OTP", "TXL", "FAIL")])];
    let r = persist(&mut conn, &mut offers, None);
    assert!(r.is_err());
    assert_eq!(count(&conn, "offers"), 0);
    assert_eq!(count(&conn, "flights"), 0);
    // The connection is reusable afterwards: a good batch goes through.
    let mut good = vec![offer(vec![flight("TXL", "OTP", "8272")])];
    persist(&mut conn, &mut good, None).unwrap();
    assert_eq!(count(&conn, "offers"), 1);
    assert_eq!(count(&conn, "flights"), 1);
}

#[test]
fn persist_keeps_earlier_offers_out_on_late_failure() {
    let mut conn = open_db();
    // The failure sits in the second offer; the first, healthy one must
    // not survive either.
    let mut offers = vec![
        offer(vec![flight("TXL", "OTP", "8272")]),
        offer(vec![flight("OTP", "TXL", "FAIL")]),
    ];
    assert!(persist(&mut conn, &mut offers, None).is_err());
    assert_eq!(count(&conn, "offers"), 0);
    assert_eq!(count(&conn, "flights"), 0);
}

#[test]
fn offer_create_writes_one_transaction() {
    let mut conn = open_db();
    let mut o = offer(vec![flight("TXL", "OTP", "8272")]);
    o.request_id = Some(42);
    o.create(&mut conn).unwrap();
    assert!(o.id.is_some());
    assert_eq!(o.flights[0].offer_id, o.id);
    let stored: i64 = conn
        .query_row("SELECT request_id FROM offers WHERE id = ?1", (o.id.unwrap(),), |row| {
            row.get(0)
        })
        .unwrap();
    assert_eq!(stored, 42);
}

#[test]
fn flight_create_appends_one_row() {
    let mut conn = open_db();
    let mut o = offer(vec![flight("TXL", "OTP", "8272")]);
    o.create(&mut conn).unwrap();

    let mut extra = flight("OTP", "TXL", "8273");
    extra.offer_id = o.id;
    extra.create(&mut conn).unwrap();
    assert!(extra.id.is_some());
    assert_eq!(count(&conn, "flights"), 2);
    let stored: i64 = conn
        .query_row("SELECT offer_id FROM flights WHERE id = ?1", (extra.id.unwrap(),), |row| {
            row.get(0)
        })
        .unwrap();
    assert_eq!(stored, o.id.unwrap());

    // A refused flight leaves the table as it was and the flight
    // untouched.
    let mut bad = flight("AAA", "BBB", "FAIL");
    bad.offer_id = o.id;
    assert!(bad.create(&mut conn).is_err());
    assert_eq!(bad.id, None);
    assert_eq!(count(&conn, "flights"), 2);
}

#[test]
fn create_request_records_name_and_time() {
    let mut conn = open_db();
    let id = create_request(&mut conn, "watch", 1459193700).unwrap();
    let (name, created): (String, i64) = conn
        .query_row("SELECT name, created_at FROM requests WHERE id = ?1", (id,), |row| {
            Ok((row.get(0)?, row.get(1)?))
        })
        .unwrap();
    assert_eq!(name, "watch");
    assert_eq!(created, 1459193700);
}
