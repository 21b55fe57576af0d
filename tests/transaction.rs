use degiro_tax_report::{Date, Decimal, Money, Transaction, TransactionError, TransactionType};

fn money(n: i64) -> Money {
    Money::new(Decimal::from_int(n))
}

fn day() -> Date {
    Date::from_ymd(2021, 3, 4).unwrap()
}

#[test]
fn sale_with_negative_proceeds_is_refused() {
    match Transaction::new(day(), "1".to_string(), -1, money(-10), "o1".to_string()) {
        Err(TransactionError::SellWithNegPrice { order_id }) => assert_eq!(order_id, "o1"),
        other => panic!("unexpected: {:?}", other),
    }
}

#[test]
fn purchase_with_positive_proceeds_is_refused() {
    match Transaction::new(day(), "1".to_string(), 2, money(10), "o2".to_string()) {
        Err(TransactionError::BuyingWithNegPrice { order_id }) => assert_eq!(order_id, "o2"),
        other => panic!("unexpected: {:?}", other),
    }
}

#[test]
fn consistent_transactions_are_accepted() {
    let buy = Transaction::new(day(), "NL1".to_string(), 2, money(-10), "o3".to_string()).unwrap();
    assert_eq!(buy.quantity(), 2);
    assert_eq!(buy.isin(), "NL1");
    assert_eq!(buy.order_id(), "o3");
    assert_eq!(buy.date().year(), 2021);
    assert_eq!(buy.transaction_type(), TransactionType::Buy);
    let sell = Transaction::new(day(), "NL1".to_string(), -2, money(10), "o4".to_string()).unwrap();
    assert_eq!(sell.transaction_type(), TransactionType::Sell);
    assert_eq!(sell.value(), &money(10));
    let zero = Transaction::new(day(), "NL1".to_string(), 0, money(0), "o5".to_string()).unwrap();
    assert_eq!(zero.transaction_type(), TransactionType::Sell);
}

#[test]
fn dates_are_checked() {
    assert!(Date::from_ymd(2020, 2, 29).is_some());
    assert!(Date::from_ymd(2021, 2, 29).is_none());
    assert!(Date::from_ymd(1900, 2, 29).is_none());
    assert!(Date::from_ymd(2000, 2, 29).is_some());
    assert!(Date::from_ymd(2021, 4, 31).is_none());
    assert!(Date::from_ymd(2021, 13, 1).is_none());
    assert!(Date::from_ymd(2021, 1, 0).is_none());
    let a = Date::from_ymd(2020, 12, 31).unwrap();
    let b = Date::from_ymd(2021, 1, 1).unwrap();
    assert!(a.is_on_or_before(&b));
    assert!(!b.is_on_or_before(&a));
    assert!(a.is_on_or_before(&a));
}
