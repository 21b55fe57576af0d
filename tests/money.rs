use degiro_tax_report::money::Error;
use degiro_tax_report::{Decimal, Money};

fn dec(coefficient: i128, exponent: i32) -> Decimal {
    Decimal::new(coefficient, exponent).unwrap()
}

fn parts(m: &Money) -> (i128, i32) {
    (m.amount().coefficient(), m.amount().exponent())
}

#[test]
fn add_aligns_to_the_smaller_exponent() {
    let mut a = Money::new(dec(125, -2));
    a.add(&Money::new(dec(3, 0))).unwrap();
    assert_eq!(parts(&a), (425, -2));
}

#[test]
fn subtract_then_add_gives_back_the_amount() {
    let a = Money::with_currency(dec(12345, -3), "EUR".to_string());
    let b = Money::with_currency(dec(7, 1), "eur".to_string());
    let mut d = a.clone();
    d.sub(&b).unwrap();
    assert_eq!(parts(&d), (12345 - 70000, -3));
    d.add(&b).unwrap();
    assert_eq!(d.truncate_trailing_zeros(), a.truncate_trailing_zeros());
    assert_eq!(parts(&d.truncate_trailing_zeros()), (12345, -3));
}

#[test]
fn differing_currencies_fail() {
    let mut a = Money::with_currency(dec(1, 0), "eur".to_string());
    let b = Money::with_currency(dec(1, 0), "usd".to_string());
    match a.add(&b) {
        Err(Error::CurrencyMismatch(l, r)) => {
            assert_eq!(l.as_deref(), Some("eur"));
            assert_eq!(r.as_deref(), Some("usd"));
        }
        other => panic!("unexpected: {:?}", other),
    }
    assert!(matches!(a.sub(&b), Err(Error::CurrencyMismatch(_, _))));
    let mut plain = Money::new(dec(1, 0));
    assert!(matches!(plain.add(&b), Err(Error::CurrencyMismatch(None, Some(_)))));
    assert_eq!(parts(&a), (1, 0));
}

#[test]
fn currency_is_compared_in_lower_case() {
    let mut a = Money::with_currency(dec(1, 0), "EUR".to_string());
    assert_eq!(a.currency().as_deref(), Some("eur"));
    a.add(&Money::with_currency(dec(2, 0), "Eur".to_string())).unwrap();
    assert_eq!(parts(&a), (3, 0));
}

#[test]
fn normalize_strips_trailing_zeros_and_is_idempotent() {
    let x = Money::new(dec(-50000, -2));
    let once = x.truncate_trailing_zeros();
    assert_eq!(parts(&once), (-5, 2));
    assert_eq!(parts(&once.truncate_trailing_zeros()), (-5, 2));
    assert_eq!(parts(&Money::new(dec(0, -7)).truncate_trailing_zeros()), (0, 0));
    assert_eq!(parts(&Money::new(dec(1203, 0)).truncate_trailing_zeros()), (1203, 0));
}

#[test]
fn equality_ignores_trailing_zeros() {
    assert_eq!(Money::new(dec(-100, 0)), Money::new(dec(-1, 2)));
    assert_ne!(Money::new(dec(-100, 0)), Money::new(dec(-1, 1)));
    assert_ne!(
        Money::new(dec(1, 0)),
        Money::with_currency(dec(1, 0), "eur".to_string())
    );
}

#[test]
fn multiply_and_divide_by_an_integer() {
    let mut a = Money::new(dec(1250, -2));
    a.mul(-3).unwrap();
    assert_eq!(parts(&a), (-3750, -2));
    let mut b = Money::new(dec(1000, 0));
    b.div(4).unwrap();
    assert_eq!(b, Money::new(dec(250, 0)));
    let mut c = Money::new(dec(1000, 0));
    c.div(3).unwrap();
    assert_eq!(parts(&c), (3333333333333333333333333333333333, -31));
}

#[test]
fn division_by_zero_fails() {
    let mut a = Money::new(dec(1000, 0));
    assert!(matches!(a.div(0), Err(Error::DivisionByZero)));
    assert_eq!(parts(&a), (1000, 0));
}

#[test]
fn overflow_is_reported() {
    let mut a = Money::new(dec(i128::MAX, 0));
    assert!(matches!(a.add(&Money::new(dec(1, 0))), Err(Error::Overflow)));
    assert!(matches!(a.mul(2), Err(Error::Overflow)));
    let mut b = Money::new(dec(1, 10));
    assert!(matches!(b.sub(&Money::new(dec(1, -40))), Err(Error::Overflow)));
    assert_eq!(parts(&a), (i128::MAX, 0));
}

#[test]
fn abs_and_is_negative() {
    let a = Money::new(dec(-1234, -2));
    assert!(a.is_negative());
    assert_eq!(parts(&a.abs()), (1234, -2));
    assert!(!a.abs().is_negative());
    assert!(!Money::new(dec(0, 0)).is_negative());
}

#[test]
fn default_is_zero_without_currency() {
    let z = Money::default();
    assert_eq!(parts(&z), (0, 0));
    assert_eq!(z.currency(), None);
}

#[test]
fn decimal_text_is_read_exactly() {
    assert_eq!(Decimal::parse("12.50").map(|d| (d.coefficient(), d.exponent())), Some((1250, -2)));
    assert_eq!(Decimal::parse("-0.001").map(|d| (d.coefficient(), d.exponent())), Some((-1, -3)));
    assert_eq!(Decimal::parse("5E+2").map(|d| (d.coefficient(), d.exponent())), Some((5, 2)));
    assert_eq!(Decimal::parse("1.5e-3").map(|d| (d.coefficient(), d.exponent())), Some((15, -4)));
    assert_eq!(Decimal::parse(".5").map(|d| (d.coefficient(), d.exponent())), Some((5, -1)));
    assert_eq!(Decimal::parse("+7.").map(|d| (d.coefficient(), d.exponent())), Some((7, 0)));
    assert!(Decimal::parse("").is_none());
    assert!(Decimal::parse("-").is_none());
    assert!(Decimal::parse("1,000").is_none());
    assert!(Decimal::parse("1.2.3").is_none());
    assert!(Decimal::parse("1E").is_none());
    assert!(Decimal::parse("999999999999999999999999999999999999999999").is_none());
}

#[test]
fn money_text_with_currency_before_or_after() {
    let m = Money::parse("EUR 12.50").unwrap();
    assert_eq!(parts(&m), (1250, -2));
    assert_eq!(m.currency().as_deref(), Some("eur"));
    let m = Money::parse("-3.2USD ").unwrap();
    assert_eq!(parts(&m), (-32, -1));
    assert_eq!(m.currency().as_deref(), Some("usd"));
    let m = Money::parse("-500.00").unwrap();
    assert_eq!(parts(&m), (-50000, -2));
    assert_eq!(m.currency(), None);
    let m = Money::parse("1E3").unwrap();
    assert_eq!(parts(&m), (1, 3));
    assert!(Money::parse("EUR").is_none());
    assert!(Money::parse("EUR 1,5").is_none());
    assert!(Money::parse("12 EUR USD").is_none());
}
