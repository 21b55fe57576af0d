use degiro_tax_report::money::Error;
use degiro_tax_report::portfolio::{Portfolio, ReportError};
use degiro_tax_report::{Date, Decimal, Money, Transaction};

fn money(n: i64) -> Money {
    Money::new(Decimal::from_int(n))
}

fn day(year: i32, month: u32, d: u32) -> Date {
    Date::from_ymd(year, month, d).unwrap()
}

fn tr(date: Date, isin: &str, quantity: isize, value: i64) -> Transaction {
    Transaction::new_unchecked(date, isin.to_string(), quantity, money(value), "id".to_string())
}

#[test]
fn losses_carry_over() {
    let from = day(2020, 1, 1);
    let to = day(2021, 1, 1);

    let transactions = vec![tr(from, "1", 1, -500), tr(to, "1", -1, 400)];

    let portfolio = Portfolio::with_carry_losses(1);
    let report = portfolio.report(2021, &transactions).unwrap();

    assert_eq!(report.adjusted_profit().unwrap(), money(-100))
}

#[test]
fn losses_carry_over_different_isin() {
    let from = day(2020, 1, 1);
    let to = day(2021, 1, 1);

    let transactions = vec![
        tr(from, "2", 1, -500),
        tr(from, "1", 1, -500),
        tr(to, "1", -1, 400),
        tr(to, "2", -1, 500),
    ];

    let portfolio = Portfolio::with_carry_losses(1);
    let report = portfolio.report(2021, &transactions).unwrap();

    assert_eq!(report.adjusted_profit().unwrap(), money(-100))
}

#[test]
fn losses_carry_over_different_isin_multiple_years() {
    let from = day(2020, 1, 1);
    let to = day(2021, 1, 1);

    let transactions = vec![
        tr(from, "2", 1, -500),
        tr(from, "1", 2, -1000),
        tr(from, "1", -1, 400),
        tr(to, "1", -1, 400),
        tr(to, "2", -1, 400),
    ];

    let portfolio = Portfolio::with_carry_losses(2);
    let report = portfolio.report(2021, &transactions).unwrap();

    assert_eq!(report.adjusted_profit().unwrap(), money(-300))
}

#[test]
fn adjusted_profit_is_normalized() {
    let transactions = vec![tr(day(2020, 1, 1), "1", 1, -500), tr(day(2021, 1, 1), "1", -1, 400)];
    let report = Portfolio::with_carry_losses(1).report(2021, &transactions).unwrap();
    let adjusted = report.adjusted_profit().unwrap();
    assert_eq!(adjusted.amount().coefficient(), -1);
    assert_eq!(adjusted.amount().exponent(), 2);
}

#[test]
fn profit_without_sales_in_the_year_is_missing_year_data() {
    let transactions = vec![tr(day(2020, 1, 1), "1", 1, -500), tr(day(2020, 6, 1), "1", -1, 600)];
    let report = Portfolio::new().report(2021, &transactions).unwrap();
    match report.profit() {
        Err(ReportError::MissingYearData { year }) => assert_eq!(year, 2021),
        other => panic!("unexpected: {:?}", other),
    }
}

#[test]
fn profit_sums_gains_and_losses_of_the_year() {
    let d = day(2021, 3, 1);
    let transactions = vec![
        tr(d, "a", 1, -500),
        tr(d, "b", 1, -500),
        tr(d, "a", -1, 700),
        tr(d, "b", -1, 450),
    ];
    let report = Portfolio::new().report(2021, &transactions).unwrap();
    assert_eq!(report.profit().unwrap(), money(150));
}

#[test]
fn loss_outside_the_window_is_not_carried() {
    let transactions = vec![
        tr(day(2019, 1, 1), "1", 1, -500),
        tr(day(2019, 2, 1), "1", -1, 100),
        tr(day(2021, 1, 1), "2", 1, -100),
        tr(day(2021, 2, 1), "2", -1, 300),
    ];
    let report = Portfolio::with_carry_losses(1).report(2021, &transactions).unwrap();
    assert_eq!(report.adjusted_profit().unwrap(), money(200));
    let report = Portfolio::with_carry_losses(2).report(2021, &transactions).unwrap();
    assert_eq!(report.adjusted_profit().unwrap(), money(-200));
}

#[test]
fn carried_loss_absorbed_by_a_later_gain_closes() {
    let transactions = vec![
        tr(day(2019, 1, 1), "1", 1, -500),
        tr(day(2019, 2, 1), "1", -1, 400),
        tr(day(2020, 1, 1), "2", 1, -100),
        tr(day(2020, 2, 1), "2", -1, 300),
        tr(day(2021, 1, 1), "3", 1, -100),
        tr(day(2021, 2, 1), "3", -1, 150),
    ];
    let report = Portfolio::with_carry_losses(2).report(2021, &transactions).unwrap();
    assert_eq!(report.adjusted_profit().unwrap(), money(50));
}

#[test]
fn out_of_order_input_is_refused() {
    let transactions = vec![tr(day(2021, 2, 1), "1", 1, -500), tr(day(2021, 1, 1), "1", -1, 400)];
    match Portfolio::new().report(2021, &transactions) {
        Err(ReportError::OutOfOrderInput { order_id }) => assert_eq!(order_id, "id"),
        other => panic!("unexpected: {:?}", other),
    }
}

#[test]
fn sell_without_position_is_refused() {
    let transactions = vec![tr(day(2021, 1, 1), "1", -1, 400)];
    match Portfolio::new().report(2021, &transactions) {
        Err(ReportError::SellWithoutPriorPosition { isin }) => assert_eq!(isin, "1"),
        other => panic!("unexpected: {:?}", other),
    }
}

#[test]
fn zero_quantity_sale_is_refused() {
    let transactions = vec![tr(day(2021, 1, 1), "1", 1, -400), tr(day(2021, 1, 2), "1", 0, 10)];
    match Portfolio::new().report(2021, &transactions) {
        Err(ReportError::DegenerateTransaction { order_id }) => assert_eq!(order_id, "id"),
        other => panic!("unexpected: {:?}", other),
    }
}

#[test]
fn buying_back_to_zero_units_is_a_division_by_zero() {
    let d = day(2021, 1, 1);
    let transactions = vec![tr(d, "1", 1, -100), tr(d, "1", -2, 50), tr(d, "1", 1, -100)];
    match Portfolio::new().report(2021, &transactions) {
        Err(ReportError::Money(Error::DivisionByZero)) => {}
        other => panic!("unexpected: {:?}", other),
    }
}

#[test]
fn pass_stops_after_the_target_year() {
    let transactions = vec![
        tr(day(2020, 1, 1), "1", 1, -500),
        tr(day(2020, 2, 1), "1", -1, 400),
        tr(day(2022, 1, 1), "2", -1, 400),
    ];
    // the 2022 sale of an instrument never bought is never reached
    let report = Portfolio::new().report(2021, &transactions).unwrap();
    assert!(report.profit().is_err());
    let report = Portfolio::new().report(2020, &transactions).unwrap();
    assert_eq!(report.profit().unwrap(), money(-100));
}

#[test]
fn average_cost_after_buys() {
    let d = day(2021, 1, 1);
    let portfolio = Portfolio::new();
    let mut ledger = portfolio.ledger(2021);
    let buys = vec![tr(d, "1", 1, -100), tr(d, "1", 2, -200)];
    assert!(ledger.step(&buys[0], Some(&buys[1])).unwrap());
    assert!(ledger.step(&buys[1], None).unwrap());
    // sell one unit for 150: average cost is 300 / 3 = 100, so 50 is gained
    let sale = tr(d, "1", -1, 150);
    assert!(ledger.step(&sale, None).unwrap());
    let report = ledger.finish();
    assert_eq!(report.profit().unwrap(), money(50));
}

#[test]
fn average_cost_with_a_non_terminating_quotient() {
    let d = day(2021, 1, 1);
    let transactions = vec![tr(d, "1", 3, -1000), tr(d, "1", -3, 1000)];
    let report = Portfolio::new().report(2021, &transactions).unwrap();
    let p = report.profit().unwrap();
    // 1000/3 has 34 significant digits in d128; three of them times 3 fall short of 1000
    // by 1E-31
    assert_eq!(p, Money::new(Decimal::new(1, -31).unwrap()));
}

#[test]
fn step_reports_when_the_pass_is_over() {
    let portfolio = Portfolio::with_carry_losses(1);
    let mut ledger = portfolio.ledger(2020);
    let first = tr(day(2020, 5, 1), "1", 1, -10);
    let later = tr(day(2021, 1, 1), "1", -1, 20);
    assert!(!ledger.step(&first, Some(&later)).unwrap());
    let earlier = tr(day(2020, 1, 1), "1", -1, 20);
    match ledger.step(&later, Some(&earlier)) {
        Err(ReportError::OutOfOrderInput { order_id }) => assert_eq!(order_id, "id"),
        other => panic!("unexpected: {:?}", other),
    }
    let report = ledger.finish();
    assert_eq!(report.year(), 2020);
    assert_eq!(report.years_carry_losses(), 1);
    assert!(matches!(report.profit(), Err(ReportError::MissingYearData { year: 2020 })));
}
