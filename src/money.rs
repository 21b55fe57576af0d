//! Amounts of money: an exact decimal with an optional currency tag. Two amounts combine
//! only where their currencies agree.

use crate::decimal::{
    chars_of, difference_fits, difference_of, in_range, is_digit, lemma_normal_form_idempotent,
    lemma_normal_form_rescaled, magnitude, min_exponent, normal_form, parsed, pow10,
    quotient_of, rescaled, scaled_by, slice_of, sum_fits, sum_of, Decimal,
};
use vstd::prelude::*;

verus! {

/// The lower-case form of a currency code, as `str::to_lowercase` gives it.
pub uninterp spec fn lower_of(s: Seq<char>) -> Seq<char>;

/// Relies on `str::to_lowercase` (on the string the characters make up): its result
/// depends on the characters alone.
#[verifier::external_body]
fn lowercase(s: &Vec<char>) -> (r: String)
    ensures
        r@ == lower_of(s@),
{
    s.iter().collect::<String>().to_lowercase()
}

/// What an operation on money can fail with.
#[derive(Debug, Clone)]
#[non_exhaustive]
pub enum Error {
    /// The two currencies differ: the left one and the right one, lower-cased.
    CurrencyMismatch(Option<String>, Option<String>),
    /// A coefficient or exponent would not fit.
    Overflow,
    /// A division by zero.
    DivisionByZero,
}

/// The mathematical content of an `Error`.
pub enum ErrorView {
    CurrencyMismatch(Option<Seq<char>>, Option<Seq<char>>),
    Overflow,
    DivisionByZero,
}

pub open spec fn tag_view(t: Option<String>) -> Option<Seq<char>> {
    match t {
        Some(s) => Some(s@),
        None => None,
    }
}

impl View for Error {
    type V = ErrorView;

    open spec fn view(&self) -> ErrorView {
        match self {
            Error::CurrencyMismatch(l, r) => ErrorView::CurrencyMismatch(tag_view(*l), tag_view(*r)),
            Error::Overflow => ErrorView::Overflow,
            Error::DivisionByZero => ErrorView::DivisionByZero,
        }
    }
}

/// The mathematical content of a `Money`: `amount` as `(coefficient, exponent)`.
pub struct MoneyView {
    pub amount: (int, int),
    pub currency: Option<Seq<char>>,
}

/// A currency tag in lower case.
pub open spec fn lowered(t: Option<Seq<char>>) -> Option<Seq<char>> {
    match t {
        Some(s) => Some(lower_of(s)),
        None => None,
    }
}

/// `a` and `b` may be combined: the tag of `a` equals the lower-cased tag of `b`.
pub open spec fn currencies_match(a: MoneyView, b: MoneyView) -> bool {
    a.currency == lowered(b.currency)
}

pub open spec fn mismatch(a: MoneyView, b: MoneyView) -> ErrorView {
    ErrorView::CurrencyMismatch(a.currency, lowered(b.currency))
}

/// The outcome of `a + b`.
pub open spec fn money_sum(a: MoneyView, b: MoneyView) -> Result<MoneyView, ErrorView> {
    if !currencies_match(a, b) {
        Err(mismatch(a, b))
    } else if !sum_fits(a.amount, b.amount) {
        Err(ErrorView::Overflow)
    } else {
        Ok(MoneyView { amount: sum_of(a.amount, b.amount), currency: a.currency })
    }
}

/// The outcome of `a - b`.
pub open spec fn money_difference(a: MoneyView, b: MoneyView) -> Result<MoneyView, ErrorView> {
    if !currencies_match(a, b) {
        Err(mismatch(a, b))
    } else if !difference_fits(a.amount, b.amount) {
        Err(ErrorView::Overflow)
    } else {
        Ok(MoneyView { amount: difference_of(a.amount, b.amount), currency: a.currency })
    }
}

/// The outcome of `a × q`.
pub open spec fn money_product(a: MoneyView, q: int) -> Result<MoneyView, ErrorView> {
    if !in_range(scaled_by(a.amount, q).0) {
        Err(ErrorView::Overflow)
    } else {
        Ok(MoneyView { amount: scaled_by(a.amount, q), currency: a.currency })
    }
}

/// The outcome of `a / q`.
pub open spec fn money_quotient(a: MoneyView, q: int) -> Result<MoneyView, ErrorView> {
    if q == 0 {
        Err(ErrorView::DivisionByZero)
    } else {
        match quotient_of(a.amount, q) {
            Some(v) => Ok(MoneyView { amount: v, currency: a.currency }),
            None => Err(ErrorView::Overflow),
        }
    }
}

/// The same amount without trailing zero digits.
pub open spec fn normalize(a: MoneyView) -> MoneyView {
    MoneyView { amount: normal_form(a.amount), currency: a.currency }
}

/// The outcome of an operation on `*self`, as it is seen from outside.
pub open spec fn outcome(r: Result<(), Error>, after: MoneyView) -> Result<MoneyView, ErrorView> {
    match r {
        Ok(_) => Ok(after),
        Err(e) => Err(e@),
    }
}

/// What a `Money` value can hold: a coefficient in range and an `i32` exponent.
pub open spec fn valid_money(a: MoneyView) -> bool {
    in_range(a.amount.0) && i32::MIN <= a.amount.1 <= i32::MAX
}

/// Subtracting `b` from `a` and adding `b` back gives `a` again, up to trailing zeros,
/// wherever the currencies agree and the subtraction can be held; the addition then
/// cannot fail.
pub proof fn lemma_subtract_then_add(a: MoneyView, b: MoneyView)
    requires
        valid_money(a),
        valid_money(b),
        currencies_match(a, b),
        money_difference(a, b) is Ok,
    ensures
        money_sum(money_difference(a, b)->Ok_0, b) is Ok,
        normalize(money_sum(money_difference(a, b)->Ok_0, b)->Ok_0) == normalize(a),
{
    let d = money_difference(a, b)->Ok_0;
    let m = min_exponent(a.amount, b.amount);
    let k = (a.amount.1 - m) as nat;
    assert(pow10(0) == 1);
    assert(rescaled(d.amount.0, m, m) == d.amount.0);
    assert(min_exponent(d.amount, b.amount) == m);
    lemma_normal_form_rescaled(a.amount.0, a.amount.1, k);
    assert(sum_of(d.amount, b.amount) == (a.amount.0 * pow10(k), a.amount.1 - k));
}

/// `add` and `subtract` fail with `CurrencyMismatch` whenever the currencies differ.
pub proof fn lemma_mismatched_currencies_fail(a: MoneyView, b: MoneyView)
    requires
        !currencies_match(a, b),
    ensures
        money_sum(a, b) == Err::<MoneyView, ErrorView>(mismatch(a, b)),
        money_difference(a, b) == Err::<MoneyView, ErrorView>(mismatch(a, b)),
{
}

/// Normalizing twice is normalizing once.
pub proof fn lemma_normalize_idempotent(x: MoneyView)
    ensures
        normalize(normalize(x)) == normalize(x),
{
    lemma_normal_form_idempotent(x.amount);
}

/// The kinds of character that the written forms of money are made of.
pub enum CharClass {
    /// An ASCII letter, of a currency code.
    Letter,
    /// ASCII white space.
    Space,
    /// A digit, `,` or `.`, of an amount.
    Number,
}

pub open spec fn in_class(c: char, k: CharClass) -> bool {
    match k {
        CharClass::Letter => ('a' <= c && c <= 'z') || ('A' <= c && c <= 'Z'),
        CharClass::Space => c == ' ' || c == '\t' || c == '\n' || c == '\r' || c == '\x0B' || c
            == '\x0C',
        CharClass::Number => is_digit(c) || c == ',' || c == '.',
    }
}

/// The end of the run of characters of class `k` that starts at `i`.
pub open spec fn run_end(s: Seq<char>, i: int, k: CharClass) -> int
    decreases s.len() - i,
{
    if i < 0 || i >= s.len() || !in_class(s[i], k) {
        i
    } else {
        run_end(s, i + 1, k)
    }
}

/// Where the digits of an amount written at `b` start: after its `-`, if it has one.
pub open spec fn amount_digits(s: Seq<char>, b: int) -> int {
    if 0 <= b < s.len() && s[b] == '-' {
        b + 1
    } else {
        b
    }
}

/// The end of the amount written at `b`: an optional `-`, then digits, `,` and `.`.
pub open spec fn amount_end(s: Seq<char>, b: int) -> int {
    run_end(s, amount_digits(s, b), CharClass::Number)
}

/// `s` is a currency code, optional space, an amount, optional space.
pub open spec fn is_prefix_form(s: Seq<char>) -> bool {
    let a = run_end(s, 0, CharClass::Letter);
    let b = run_end(s, a, CharClass::Space);
    let c = amount_end(s, b);
    a > 0 && c > amount_digits(s, b) && run_end(s, c, CharClass::Space) == s.len()
}

/// `s` is an amount, optional space, a currency code, optional space.
pub open spec fn is_suffix_form(s: Seq<char>) -> bool {
    let c = amount_end(s, 0);
    let d = run_end(s, c, CharClass::Space);
    let e = run_end(s, d, CharClass::Letter);
    c > amount_digits(s, 0) && e > d && run_end(s, e, CharClass::Space) == s.len()
}

/// The money that `s` spells: a currency code before or after the amount, kept in lower
/// case, with the amount read by `Decimal::parse`; else the whole text as a number without
/// a currency. `None` where the amount is not a number that a `Decimal` holds.
pub open spec fn money_text(s: Seq<char>) -> Option<MoneyView> {
    if is_prefix_form(s) {
        let a = run_end(s, 0, CharClass::Letter);
        let b = run_end(s, a, CharClass::Space);
        let amount = parsed(s.subrange(b, amount_end(s, b)));
        if amount is Some {
            Some(MoneyView { amount: amount->0, currency: Some(lower_of(s.subrange(0, a))) })
        } else {
            None
        }
    } else if is_suffix_form(s) {
        let c = amount_end(s, 0);
        let d = run_end(s, c, CharClass::Space);
        let e = run_end(s, d, CharClass::Letter);
        let amount = parsed(s.subrange(0, c));
        if amount is Some {
            Some(MoneyView { amount: amount->0, currency: Some(lower_of(s.subrange(d, e))) })
        } else {
            None
        }
    } else {
        let amount = parsed(s);
        if amount is Some {
            Some(MoneyView { amount: amount->0, currency: None })
        } else {
            None
        }
    }
}

fn in_class_exec(c: char, k: &CharClass) -> (r: bool)
    ensures
        r == in_class(c, *k),
{
    match k {
        CharClass::Letter => ('a' <= c && c <= 'z') || ('A' <= c && c <= 'Z'),
        CharClass::Space => c == ' ' || c == '\t' || c == '\n' || c == '\r' || c == '\x0B' || c
            == '\x0C',
        CharClass::Number => ('0' <= c && c <= '9') || c == ',' || c == '.',
    }
}

fn skip_run(s: &Vec<char>, i: usize, k: CharClass) -> (r: usize)
    requires
        i <= s.len(),
    ensures
        r as int == run_end(s@, i as int, k),
        i <= r <= s.len(),
{
    let mut j = i;
    while j < s.len() && in_class_exec(s[j], &k)
        invariant
            i <= j <= s.len(),
            run_end(s@, i as int, k) == run_end(s@, j as int, k),
        decreases s.len() - j,
    {
        j = j + 1;
    }
    j
}

fn amount_digits_exec(s: &Vec<char>, b: usize) -> (r: usize)
    requires
        b <= s.len(),
    ensures
        r as int == amount_digits(s@, b as int),
        r <= s.len(),
{
    if b < s.len() && s[b] == '-' {
        b + 1
    } else {
        b
    }
}

/// An amount of money with an optional currency tag, kept in lower case.
#[derive(Debug, Clone)]
pub struct Money {
    amount: Decimal,
    currency: Option<String>,
}

impl View for Money {
    type V = MoneyView;

    closed spec fn view(&self) -> MoneyView {
        MoneyView { amount: self.amount@, currency: tag_view(self.currency) }
    }
}

fn copy_tag(t: &Option<String>) -> (r: Option<String>)
    ensures
        tag_view(r) == tag_view(*t),
{
    match t {
        Some(s) => Some(s.clone()),
        None => None,
    }
}

fn same_tag(a: &Option<String>, b: &Option<String>) -> (r: bool)
    ensures
        r == (tag_view(*a) == tag_view(*b)),
{
    match a {
        Some(x) => match b {
            Some(y) => x.eq(y),
            None => false,
        },
        None => b.is_none(),
    }
}

impl Default for Money {
    /// Zero, without a currency.
    fn default() -> (r: Money)
        ensures
            r@ == (MoneyView { amount: (0int, 0int), currency: None }),
    {
        Money { amount: Decimal::zero(), currency: None }
    }
}

impl PartialEq for Money {
    fn eq(&self, other: &Money) -> (r: bool) {
        same_tag(&self.currency, &other.currency) && self.amount.same_value(&other.amount)
    }
}

impl vstd::std_specs::cmp::PartialEqSpecImpl for Money {
    open spec fn obeys_eq_spec() -> bool {
        true
    }

    open spec fn eq_spec(&self, other: &Money) -> bool {
        normalize(self@) == normalize(other@)
    }
}

impl Money {
    /// `amount`, without a currency.
    pub fn new(amount: Decimal) -> (r: Money)
        ensures
            r@ == (MoneyView { amount: amount@, currency: None }),
    {
        Money { amount, currency: None }
    }

    /// `amount` in `currency`, which is kept in lower case.
    pub fn with_currency(amount: Decimal, currency: String) -> (r: Money)
        ensures
            r@ == (MoneyView { amount: amount@, currency: Some(lower_of(currency@)) }),
    {
        Money { amount, currency: Some(lowercase(&chars_of(currency.as_str()))) }
    }

    /// Reads money from text: a currency code before or after the amount (`EUR 12.50`,
    /// `12.50 eur`), or a plain number without a currency (see `money_text`).
    pub fn parse(text: &str) -> (r: Option<Money>)
        ensures
            r is Some <==> money_text(text@) is Some,
            r matches Some(m) ==> m@ == money_text(text@)->0,
    {
        let s = chars_of(text);
        let n = s.len();
        let a = skip_run(&s, 0, CharClass::Letter);
        let b = skip_run(&s, a, CharClass::Space);
        let b_digits = amount_digits_exec(&s, b);
        let c = skip_run(&s, b_digits, CharClass::Number);
        if a > 0 && c > b_digits && skip_run(&s, c, CharClass::Space) == n {
            let currency = lowercase(&slice_of(&s, 0, a));
            return match Decimal::parse_chars(&slice_of(&s, b, c)) {
                Some(amount) => Some(Money { amount, currency: Some(currency) }),
                None => None,
            };
        }
        let digits = amount_digits_exec(&s, 0);
        let c = skip_run(&s, digits, CharClass::Number);
        let d = skip_run(&s, c, CharClass::Space);
        let e = skip_run(&s, d, CharClass::Letter);
        if c > digits && e > d && skip_run(&s, e, CharClass::Space) == n {
            let currency = lowercase(&slice_of(&s, d, e));
            return match Decimal::parse_chars(&slice_of(&s, 0, c)) {
                Some(amount) => Some(Money { amount, currency: Some(currency) }),
                None => None,
            };
        }
        match Decimal::parse_chars(&s) {
            Some(amount) => Some(Money { amount, currency: None }),
            None => None,
        }
    }

    pub fn amount(&self) -> (r: Decimal)
        ensures
            r@ == self@.amount,
    {
        self.amount
    }

    pub fn currency(&self) -> (r: Option<String>)
        ensures
            tag_view(r) == self@.currency,
    {
        copy_tag(&self.currency)
    }

    /// A copy, with the same view.
    pub fn duplicate(&self) -> (r: Money)
        ensures
            r@ == self@,
    {
        Money { amount: self.amount, currency: copy_tag(&self.currency) }
    }

    /// Fails with `CurrencyMismatch` unless the currency of `self` equals the lower-cased
    /// currency of `rhs`.
    fn validate(&self, rhs: &Money) -> (r: Result<(), Error>)
        ensures
            r is Ok <==> currencies_match(self@, rhs@),
            r matches Err(e) ==> e@ == mismatch(self@, rhs@),
    {
        let currency = match &rhs.currency {
            Some(c) => Some(lowercase(&chars_of(c.as_str()))),
            None => None,
        };
        if !same_tag(&self.currency, &currency) {
            return Err(Error::CurrencyMismatch(copy_tag(&self.currency), currency));
        }
        Ok(())
    }

    /// Adds `rhs` exactly; on failure `self` is left as it was.
    pub fn add(&mut self, rhs: &Money) -> (r: Result<(), Error>)
        ensures
            outcome(r, final(self)@) == money_sum(old(self)@, rhs@),
            r is Err ==> final(self)@ == old(self)@,
    {
        self.validate(rhs)?;
        match self.amount.checked_add(&rhs.amount) {
            Some(s) => {
                self.amount = s;
                Ok(())
            },
            None => Err(Error::Overflow),
        }
    }

    /// Subtracts `rhs` exactly; on failure `self` is left as it was.
    pub fn sub(&mut self, rhs: &Money) -> (r: Result<(), Error>)
        ensures
            outcome(r, final(self)@) == money_difference(old(self)@, rhs@),
            r is Err ==> final(self)@ == old(self)@,
    {
        self.validate(rhs)?;
        match self.amount.checked_sub(&rhs.amount) {
            Some(s) => {
                self.amount = s;
                Ok(())
            },
            None => Err(Error::Overflow),
        }
    }

    /// Divides by the integer `rhs` as decimal's `d128` does; fails with `DivisionByZero`
    /// where `rhs` is zero. On failure `self` is left as it was.
    pub fn div(&mut self, rhs: isize) -> (r: Result<(), Error>)
        ensures
            outcome(r, final(self)@) == money_quotient(old(self)@, rhs as int),
            r is Err ==> final(self)@ == old(self)@,
    {
        if rhs == 0 {
            return Err(Error::DivisionByZero);
        }
        match self.amount.checked_div_int(rhs as i64) {
            Some(q) => {
                self.amount = q;
                Ok(())
            },
            None => Err(Error::Overflow),
        }
    }

    /// Multiplies by the integer `rhs` exactly. On failure `self` is left as it was.
    pub fn mul(&mut self, rhs: isize) -> (r: Result<(), Error>)
        ensures
            outcome(r, final(self)@) == money_product(old(self)@, rhs as int),
            r is Err ==> final(self)@ == old(self)@,
    {
        match self.amount.checked_mul_int(rhs as i64) {
            Some(p) => {
                self.amount = p;
                Ok(())
            },
            None => Err(Error::Overflow),
        }
    }

    /// The same amount without trailing zero digits.
    pub fn truncate_trailing_zeros(&self) -> (r: Money)
        ensures
            r@ == normalize(self@),
    {
        Money { amount: self.amount.reduce(), currency: copy_tag(&self.currency) }
    }

    /// The absolute value.
    pub fn abs(&self) -> (r: Money)
        ensures
            r@ == (MoneyView { amount: magnitude(self@.amount), currency: self@.currency }),
    {
        Money { amount: self.amount.abs(), currency: copy_tag(&self.currency) }
    }

    /// Whether the amount is below zero.
    pub fn is_negative(&self) -> (r: bool)
        ensures
            r == (self@.amount.0 < 0),
    {
        self.amount.is_negative()
    }
}

} // verus!
