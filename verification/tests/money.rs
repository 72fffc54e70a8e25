use flycheap::money::{parse, Amount, Money};
use flycheap::Error;

#[test]
fn parse_money_euro_total() {
    let m: Money = parse("EUR194.56").unwrap();
    assert_eq!(m.currency, "EUR");
    assert_eq!(m.amount.scaled, 19456);
    assert_eq!(m.amount.scale, 2);
    // The represented value is 194.56.
    assert_eq!(m.amount.scaled as f64 / 100.0, 194.56);
}

#[test]
fn parse_money_negative() {
    let m = parse("USD-12.00").unwrap();
    assert_eq!(m.currency, "USD");
    assert_eq!(m.amount.scaled, -1200);
    assert_eq!(m.amount.scale, 2);
    assert_eq!(m.amount.scaled as f64 / 100.0, -12.00);
}

#[test]
fn parse_money_bogus_fails() {
    let e = parse("bogus").unwrap_err();
    assert!(matches!(e, Error::ParsingMoney(s) if s == "bogus"));
}

#[test]
fn parse_money_base_fare() {
    let m = parse("EUR72.00").unwrap();
    assert_eq!(m.currency, "EUR");
    assert_eq!(m.amount.scaled, 7200);
    assert_eq!(m.amount.scale, 2);
}

#[test]
fn parse_money_integer_amount() {
    let m = parse("GBP5").unwrap();
    assert_eq!(m.currency, "GBP");
    assert_eq!(m.amount.scaled, 5);
    assert_eq!(m.amount.scale, 0);
}

#[test]
fn parse_money_rejects_malformed() {
    assert!(parse("").is_err());
    assert!(parse("EU1.50").is_err());
    assert!(parse("EUR").is_err());
    assert!(parse("EUR.50").is_err());
    assert!(parse("EUR1.").is_err());
    assert!(parse("EUR1.5x").is_err());
    assert!(parse("EUR 1.50").is_err());
    assert!(parse("1234.56").is_err());
}

#[test]
fn parse_money_rejects_too_many_digits() {
    // Nineteen digit positions do not fit the fixed-decimal range.
    assert!(parse("EUR1234567890123456789").is_err());
    assert!(parse("EUR12345678901234567.89").is_err());
    // Eighteen do.
    let m = parse("EUR123456789012345678").unwrap();
    assert_eq!(m.amount.scaled, 123456789012345678);
    assert_eq!(m.amount.scale, 0);
}

#[test]
fn amount_renders_as_decimal_string() {
    let m = parse("EUR194.56").unwrap();
    assert_eq!(flycheap::money::amount_to_string(&m.amount), "194.56");
    let neg = parse("USD-12.00").unwrap();
    assert_eq!(flycheap::money::amount_to_string(&neg.amount), "-12.00");
    let plain = Amount { scaled: 7, scale: 0 };
    assert_eq!(flycheap::money::amount_to_string(&plain), "7");
    let padded = Amount { scaled: 5, scale: 3 };
    assert_eq!(flycheap::money::amount_to_string(&padded), "0.005");
}
