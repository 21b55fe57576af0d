//! Buy and sell events, checked for a consistent sign of quantity and proceeds.

use crate::money::{Money, MoneyView};
use vstd::prelude::*;

verus! {

pub open spec fn is_leap_year(y: int) -> bool {
    (y % 4 == 0 && y % 100 != 0) || y % 400 == 0
}

pub open spec fn days_in_month(y: int, m: int) -> int {
    if m == 2 {
        if is_leap_year(y) {
            29
        } else {
            28
        }
    } else if m == 4 || m == 6 || m == 9 || m == 11 {
        30
    } else {
        31
    }
}

/// `(year, month, day)` names a day of the proleptic Gregorian calendar.
pub open spec fn is_valid_date(y: int, m: int, d: int) -> bool {
    1 <= m <= 12 && 1 <= d <= days_in_month(y, m)
}

/// `a` is the same day as `b` or comes before it.
pub open spec fn date_le(a: (int, int, int), b: (int, int, int)) -> bool {
    a.0 < b.0 || (a.0 == b.0 && (a.1 < b.1 || (a.1 == b.1 && a.2 <= b.2)))
}

/// A calendar day.
#[derive(Clone, Copy, Debug)]
pub struct Date {
    year: i32,
    month: u32,
    day: u32,
}

impl View for Date {
    type V = (int, int, int);

    closed spec fn view(&self) -> (int, int, int) {
        (self.year as int, self.month as int, self.day as int)
    }
}

impl Date {
    #[verifier::type_invariant]
    spec fn is_valid(self) -> bool {
        is_valid_date(self.year as int, self.month as int, self.day as int)
    }

    /// The day `year-month-day`; `None` where there is no such day.
    pub fn from_ymd(year: i32, month: u32, day: u32) -> (r: Option<Date>)
        ensures
            r is Some <==> is_valid_date(year as int, month as int, day as int),
            r matches Some(d) ==> d@ == (year as int, month as int, day as int),
    {
        if month < 1 || month > 12 || day < 1 {
            return None;
        }
        let leap = (year % 4 == 0 && year % 100 != 0) || year % 400 == 0;
        let days: u32 = if month == 2 {
            if leap {
                29
            } else {
                28
            }
        } else if month == 4 || month == 6 || month == 9 || month == 11 {
            30
        } else {
            31
        };
        if day > days {
            return None;
        }
        Some(Date { year, month, day })
    }

    pub fn year(&self) -> (r: i32)
        ensures
            r as int == self@.0,
    {
        self.year
    }

    pub fn month(&self) -> (r: u32)
        ensures
            r as int == self@.1,
    {
        self.month
    }

    pub fn day(&self) -> (r: u32)
        ensures
            r as int == self@.2,
    {
        self.day
    }

    /// Whether `self` is the same day as `other` or comes before it.
    pub fn is_on_or_before(&self, other: &Date) -> (r: bool)
        ensures
            r == date_le(self@, other@),
    {
        self.year < other.year || (self.year == other.year && (self.month < other.month || (
        self.month == other.month && self.day <= other.day)))
    }
}

/// Whether a transaction buys or sells, as the sign of its proceeds tells.
#[derive(Clone, Copy, Debug, PartialEq, Eq, Structural)]
pub enum TransactionType {
    Buy,
    Sell,
}

/// Why a transaction was refused.
#[derive(Debug, Clone)]
pub enum TransactionError {
    /// A sale (negative quantity) with negative proceeds.
    SellWithNegPrice { order_id: String },
    /// A purchase (positive quantity) with positive proceeds.
    BuyingWithNegPrice { order_id: String },
}

/// The mathematical content of a `Transaction`.
pub struct TransactionView {
    pub date: (int, int, int),
    pub isin: Seq<char>,
    pub quantity: int,
    pub value: MoneyView,
    pub order_id: Seq<char>,
}

/// A sale must not come with negative proceeds, a purchase not with positive ones.
pub open spec fn signs_agree(quantity: int, value: MoneyView) -> bool {
    !(quantity < 0 && value.amount.0 < 0) && !(quantity > 0 && value.amount.0 > 0)
}

/// A buy or a sell of `quantity` units of the instrument `isin` on `date`, for the proceeds
/// `value` (a cost is negative).
#[derive(Debug, Clone)]
pub struct Transaction {
    date: Date,
    isin: String,
    quantity: isize,
    value: Money,
    order_id: String,
}

impl View for Transaction {
    type V = TransactionView;

    closed spec fn view(&self) -> TransactionView {
        TransactionView {
            date: self.date@,
            isin: self.isin@,
            quantity: self.quantity as int,
            value: self.value@,
            order_id: self.order_id@,
        }
    }
}

impl Transaction {
    /// A transaction; fails where the signs of `quantity` and of the proceeds `value`
    /// contradict each other.
    pub fn new(date: Date, isin: String, quantity: isize, value: Money, order_id: String) -> (r:
        Result<Transaction, TransactionError>)
        ensures
            r is Ok <==> signs_agree(quantity as int, value@),
            r matches Ok(t) ==> t@ == (TransactionView {
                date: date@,
                isin: isin@,
                quantity: quantity as int,
                value: value@,
                order_id: order_id@,
            }),
            r matches Err(TransactionError::SellWithNegPrice { order_id: o }) ==> quantity < 0
                && value@.amount.0 < 0 && o@ == order_id@,
            r matches Err(TransactionError::BuyingWithNegPrice { order_id: o }) ==> quantity > 0
                && value@.amount.0 > 0 && o@ == order_id@,
    {
        if quantity < 0 && value.is_negative() {
            return Err(TransactionError::SellWithNegPrice { order_id });
        }
        if quantity > 0 && value.amount().coefficient() > 0 {
            return Err(TransactionError::BuyingWithNegPrice { order_id });
        }
        Ok(Transaction { date, isin, quantity, value, order_id })
    }

    /// `Transaction::new` for arguments whose signs are known to agree.
    pub fn new_unchecked(date: Date, isin: String, quantity: isize, value: Money, order_id: String) -> (r:
        Transaction)
        requires
            signs_agree(quantity as int, value@),
        ensures
            r@ == (TransactionView {
                date: date@,
                isin: isin@,
                quantity: quantity as int,
                value: value@,
                order_id: order_id@,
            }),
    {
        Transaction { date, isin, quantity, value, order_id }
    }

    pub fn date(&self) -> (r: &Date)
        ensures
            r@ == self@.date,
    {
        &self.date
    }

    pub fn isin(&self) -> (r: &String)
        ensures
            r@ == self@.isin,
    {
        &self.isin
    }

    pub fn quantity(&self) -> (r: isize)
        ensures
            r as int == self@.quantity,
    {
        self.quantity
    }

    pub fn value(&self) -> (r: &Money)
        ensures
            r@ == self@.value,
    {
        &self.value
    }

    pub fn order_id(&self) -> (r: &String)
        ensures
            r@ == self@.order_id,
    {
        &self.order_id
    }

    /// `Buy` where the proceeds are negative (a cost), else `Sell`.
    pub fn transaction_type(&self) -> (r: TransactionType)
        ensures
            r == (if self@.value.amount.0 < 0 {
                TransactionType::Buy
            } else {
                TransactionType::Sell
            }),
    {
        if self.value.is_negative() {
            TransactionType::Buy
        } else {
            TransactionType::Sell
        }
    }
}

} // verus!
