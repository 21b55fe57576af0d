//! The cost-basis ledger, the per-year buckets of realized results, and the report that
//! resolves carried losses.

use crate::decimal::magnitude;
use crate::money::{
    money_difference, money_product, money_quotient, money_sum, normalize, Error, ErrorView,
    Money, MoneyView,
};
use crate::transaction::{date_le, Transaction, TransactionView};
use vstd::prelude::*;

verus! {

/// Zero without a currency, where every running sum starts.
pub open spec fn zero_money() -> MoneyView {
    MoneyView { amount: (0, 0), currency: None }
}

pub open spec fn isize_fits(x: int) -> bool {
    isize::MIN <= x <= isize::MAX
}

/// The running state of one instrument: what was paid for it, less what sales brought in;
/// the average cost of a unit; the units held.
pub struct PositionView {
    pub total: MoneyView,
    pub avg: MoneyView,
    pub qty: int,
}

/// The gains and the losses realized in one calendar year, kept apart.
pub struct BucketView {
    pub year: int,
    pub gains: MoneyView,
    pub losses: MoneyView,
}

/// The state of a pass over the transactions.
pub struct LedgerView {
    pub positions: Seq<(Seq<char>, PositionView)>,
    pub buckets: Seq<BucketView>,
    pub year: int,
    pub carry: int,
}

/// A finished pass: the buckets, the target year and the carry window in years.
pub struct ReportView {
    pub buckets: Seq<BucketView>,
    pub year: int,
    pub carry: int,
}

/// Why a pass or a report query failed.
#[derive(Debug, Clone)]
pub enum ReportError {
    /// The transaction with this order id is dated after the one that follows it.
    OutOfOrderInput { order_id: String },
    /// A sale of an instrument that was never bought.
    SellWithoutPriorPosition { isin: String },
    /// A sale of zero units.
    DegenerateTransaction { order_id: String },
    /// The units held of an instrument would not fit in an `isize`.
    QuantityOverflow { order_id: String },
    /// No sale was recorded in this year.
    MissingYearData { year: i32 },
    /// An operation on money failed.
    Money(Error),
}

pub enum ReportErrorView {
    OutOfOrderInput(Seq<char>),
    SellWithoutPriorPosition(Seq<char>),
    DegenerateTransaction(Seq<char>),
    QuantityOverflow(Seq<char>),
    MissingYearData(int),
    Money(ErrorView),
}

impl View for ReportError {
    type V = ReportErrorView;

    open spec fn view(&self) -> ReportErrorView {
        match self {
            ReportError::OutOfOrderInput { order_id } => ReportErrorView::OutOfOrderInput(
                order_id@,
            ),
            ReportError::SellWithoutPriorPosition { isin } =>
                ReportErrorView::SellWithoutPriorPosition(isin@),
            ReportError::DegenerateTransaction { order_id } =>
                ReportErrorView::DegenerateTransaction(order_id@),
            ReportError::QuantityOverflow { order_id } => ReportErrorView::QuantityOverflow(
                order_id@,
            ),
            ReportError::MissingYearData { year } => ReportErrorView::MissingYearData(
                *year as int,
            ),
            ReportError::Money(e) => ReportErrorView::Money(e@),
        }
    }
}

/// The index of the first position of `isin`, or `ps.len()` where there is none.
pub open spec fn position_index(ps: Seq<(Seq<char>, PositionView)>, isin: Seq<char>) -> int
    decreases ps.len(),
{
    if ps.len() == 0 {
        0
    } else if ps[0].0 == isin {
        0
    } else {
        1 + position_index(ps.drop_first(), isin)
    }
}

/// The index of the first bucket of `year`, or `bs.len()` where there is none.
pub open spec fn bucket_index(bs: Seq<BucketView>, year: int) -> int
    decreases bs.len(),
{
    if bs.len() == 0 {
        0
    } else if bs[0].year == year {
        0
    } else {
        1 + bucket_index(bs.drop_first(), year)
    }
}

proof fn lemma_position_index(ps: Seq<(Seq<char>, PositionView)>, isin: Seq<char>, i: int)
    requires
        0 <= i <= ps.len(),
        forall|j: int| 0 <= j < i ==> ps[j].0 != isin,
        i == ps.len() || ps[i].0 == isin,
    ensures
        position_index(ps, isin) == i,
    decreases ps.len(),
{
    if ps.len() > 0 && i > 0 {
        lemma_position_index(ps.drop_first(), isin, i - 1);
    }
}

proof fn lemma_bucket_index(bs: Seq<BucketView>, year: int, i: int)
    requires
        0 <= i <= bs.len(),
        forall|j: int| 0 <= j < i ==> bs[j].year != year,
        i == bs.len() || bs[i].year == year,
    ensures
        bucket_index(bs, year) == i,
    decreases bs.len(),
{
    if bs.len() > 0 && i > 0 {
        lemma_bucket_index(bs.drop_first(), year, i - 1);
    }
}

pub open spec fn money_error(r: Result<MoneyView, ErrorView>) -> ReportErrorView {
    ReportErrorView::Money(r->Err_0)
}

/// The absolute value of the proceeds of `t`.
pub open spec fn cost_of(t: TransactionView) -> MoneyView {
    MoneyView { amount: magnitude(t.value.amount), currency: t.value.currency }
}

/// The position of `isin` in `ps`, or an empty one.
pub open spec fn position_or_empty(ps: Seq<(Seq<char>, PositionView)>, isin: Seq<char>) -> PositionView {
    let i = position_index(ps, isin);
    if i < ps.len() {
        ps[i].1
    } else {
        PositionView { total: zero_money(), avg: zero_money(), qty: 0 }
    }
}

/// `ps` with the position of `isin` set to `p`: replaced where it exists, else appended.
pub open spec fn set_position(ps: Seq<(Seq<char>, PositionView)>, isin: Seq<char>, p: PositionView) -> Seq<(Seq<char>, PositionView)> {
    let i = position_index(ps, isin);
    if i < ps.len() {
        ps.update(i, (isin, p))
    } else {
        ps.push((isin, p))
    }
}

/// A purchase: the cost joins the instrument's total, the quantity its units, and the
/// average cost becomes total / units.
pub open spec fn buy_outcome(ps: Seq<(Seq<char>, PositionView)>, t: TransactionView) -> Result<Seq<(Seq<char>, PositionView)>, ReportErrorView> {
    let p = position_or_empty(ps, t.isin);
    let total = money_sum(p.total, cost_of(t));
    let qty = p.qty + t.quantity;
    if total is Err {
        Err(money_error(total))
    } else if !isize_fits(qty) {
        Err(ReportErrorView::QuantityOverflow(t.order_id))
    } else {
        let avg = money_quotient(total->Ok_0, qty);
        if avg is Err {
            Err(money_error(avg))
        } else {
            Ok(set_position(ps, t.isin, PositionView { total: total->Ok_0, avg: avg->Ok_0, qty }))
        }
    }
}

/// What a sale realizes: its proceeds less the absolute value of average cost × quantity.
pub open spec fn realized(p: PositionView, t: TransactionView) -> Result<MoneyView, ErrorView> {
    let basis = money_product(p.avg, t.quantity);
    if basis is Err {
        Err(basis->Err_0)
    } else {
        let b = basis->Ok_0;
        money_difference(t.value, MoneyView { amount: magnitude(b.amount), currency: b.currency })
    }
}

/// The bucket of `year` in `bs`, or an empty one.
pub open spec fn bucket_or_empty(bs: Seq<BucketView>, year: int) -> BucketView {
    let j = bucket_index(bs, year);
    if j < bs.len() {
        bs[j]
    } else {
        BucketView { year, gains: zero_money(), losses: zero_money() }
    }
}

/// The bucket with the realized result `v` added: to the losses where it is negative,
/// else to the gains.
pub open spec fn booked(b: BucketView, v: MoneyView) -> Result<BucketView, ErrorView> {
    if v.amount.0 < 0 {
        let l = money_sum(b.losses, v);
        if l is Err {
            Err(l->Err_0)
        } else {
            Ok(BucketView { losses: l->Ok_0, ..b })
        }
    } else {
        let g = money_sum(b.gains, v);
        if g is Err {
            Err(g->Err_0)
        } else {
            Ok(BucketView { gains: g->Ok_0, ..b })
        }
    }
}

/// `bs` with the bucket of `b.year` set to `b`: replaced where it exists, else appended.
pub open spec fn set_bucket(bs: Seq<BucketView>, b: BucketView) -> Seq<BucketView> {
    let j = bucket_index(bs, b.year);
    if j < bs.len() {
        bs.update(j, b)
    } else {
        bs.push(b)
    }
}

/// A sale: its realized result goes into the bucket of its year; the instrument's total
/// then drops by the proceeds, and its units by the quantity sold.
pub open spec fn sell_outcome(l: LedgerView, t: TransactionView) -> Result<LedgerView, ReportErrorView> {
    let i = position_index(l.positions, t.isin);
    if t.quantity == 0 {
        Err(ReportErrorView::DegenerateTransaction(t.order_id))
    } else if i >= l.positions.len() {
        Err(ReportErrorView::SellWithoutPriorPosition(t.isin))
    } else {
        let p = l.positions[i].1;
        let v = realized(p, t);
        if v is Err {
            Err(ReportErrorView::Money(v->Err_0))
        } else {
            let b = booked(bucket_or_empty(l.buckets, t.date.0), v->Ok_0);
            if b is Err {
                Err(ReportErrorView::Money(b->Err_0))
            } else {
                let total = money_difference(p.total, t.value);
                let qty = p.qty + t.quantity;
                if total is Err {
                    Err(money_error(total))
                } else if !isize_fits(qty) {
                    Err(ReportErrorView::QuantityOverflow(t.order_id))
                } else {
                    Ok(
                        LedgerView {
                            positions: l.positions.update(
                                i,
                                (t.isin, PositionView { total: total->Ok_0, avg: p.avg, qty }),
                            ),
                            buckets: set_bucket(l.buckets, b->Ok_0),
                            ..l
                        },
                    )
                }
            }
        }
    }
}

/// One transaction applied to the ledger: a purchase where its proceeds are negative,
/// else a sale.
pub open spec fn apply_outcome(l: LedgerView, t: TransactionView) -> Result<LedgerView, ReportErrorView> {
    if t.value.amount.0 < 0 {
        let ps = buy_outcome(l.positions, t);
        if ps is Err {
            Err(ps->Err_0)
        } else {
            Ok(LedgerView { positions: ps->Ok_0, ..l })
        }
    } else {
        sell_outcome(l, t)
    }
}

pub open spec fn next_view(next: Option<&Transaction>) -> Option<TransactionView> {
    match next {
        Some(n) => Some(n@),
        None => None,
    }
}

/// One step of a pass, given the transaction that follows `t`, if any: a later `t` fails
/// with `OutOfOrderInput`; else `t` is applied, and the pass goes on unless the next
/// transaction lies after the target year.
pub open spec fn step_outcome(l: LedgerView, t: TransactionView, next: Option<TransactionView>) -> Result<(LedgerView, bool), ReportErrorView> {
    if next is Some && !date_le(t.date, next->0.date) {
        Err(ReportErrorView::OutOfOrderInput(t.order_id))
    } else {
        let a = apply_outcome(l, t);
        if a is Err {
            Err(a->Err_0)
        } else {
            Ok((a->Ok_0, !(next is Some && next->0.date.0 > l.year)))
        }
    }
}

/// Where the loss resolver stands: no loss carried, or a negative balance carried.
pub enum CarryState {
    Idle,
    Carrying(MoneyView),
}

/// The resolver after a year whose net result is `v`, before the target year: a loss opens
/// a carry episode; within one, each result joins the balance, which closes the episode
/// once it is no longer negative.
pub open spec fn carry_step(state: CarryState, v: MoneyView) -> Result<CarryState, ErrorView> {
    match state {
        CarryState::Idle => if v.amount.0 < 0 {
            Ok(CarryState::Carrying(v))
        } else {
            Ok(CarryState::Idle)
        },
        CarryState::Carrying(t) => {
            let s = money_sum(t, v);
            if s is Err {
                Err(s->Err_0)
            } else if s->Ok_0.amount.0 < 0 {
                Ok(CarryState::Carrying(s->Ok_0))
            } else {
                Ok(CarryState::Idle)
            }
        },
    }
}

/// The scan over the years `y..=target` in ascending order, from `state`: the net result
/// of the target year (zero where it has no bucket) and the resolver state reached.
pub open spec fn scan(bs: Seq<BucketView>, y: int, target: int, state: CarryState) -> Result<
    (MoneyView, CarryState),
    ErrorView,
>
    decreases target + 1 - y,
{
    if y > target {
        Ok((zero_money(), state))
    } else {
        let j = bucket_index(bs, y);
        if j >= bs.len() {
            scan(bs, y + 1, target, state)
        } else {
            let v = money_sum(bs[j].gains, bs[j].losses);
            if v is Err {
                Err(v->Err_0)
            } else if y == target {
                Ok((v->Ok_0, state))
            } else {
                let next = carry_step(state, v->Ok_0);
                if next is Err {
                    Err(next->Err_0)
                } else {
                    scan(bs, y + 1, target, next->Ok_0)
                }
            }
        }
    }
}

/// The target year's net result, less the balance still carried when the scan over the
/// window reaches it, normalized.
pub open spec fn adjusted_outcome(r: ReportView) -> Result<MoneyView, ErrorView> {
    let s = scan(r.buckets, r.year - r.carry, r.year, CarryState::Idle);
    if s is Err {
        Err(s->Err_0)
    } else {
        match s->Ok_0.1 {
            CarryState::Idle => Ok(normalize(s->Ok_0.0)),
            CarryState::Carrying(t) => {
                let f = money_sum(s->Ok_0.0, t);
                if f is Err {
                    Err(f->Err_0)
                } else {
                    Ok(normalize(f->Ok_0))
                }
            },
        }
    }
}

/// The target year's gains plus its losses; `MissingYearData` where it has no bucket.
pub open spec fn profit_outcome(r: ReportView) -> Result<MoneyView, ReportErrorView> {
    let j = bucket_index(r.buckets, r.year);
    if j >= r.buckets.len() {
        Err(ReportErrorView::MissingYearData(r.year))
    } else {
        let s = money_sum(r.buckets[j].gains, r.buckets[j].losses);
        if s is Err {
            Err(money_error(s))
        } else {
            Ok(s->Ok_0)
        }
    }
}

/// The ledger after the transactions from index `i` on, each with the one after it as
/// lookahead, up to the first failure or the first step that stops the pass.
pub open spec fn run(l: LedgerView, ts: Seq<TransactionView>, i: int) -> Result<
    LedgerView,
    ReportErrorView,
>
    decreases ts.len() - i,
{
    if i < 0 || i >= ts.len() {
        Ok(l)
    } else {
        let next = if i + 1 < ts.len() {
            Some(ts[i + 1])
        } else {
            None
        };
        let s = step_outcome(l, ts[i], next);
        if s is Err {
            Err(s->Err_0)
        } else if s->Ok_0.1 {
            run(s->Ok_0.0, ts, i + 1)
        } else {
            Ok(s->Ok_0.0)
        }
    }
}

pub open spec fn empty_ledger(year: int, carry: int) -> LedgerView {
    LedgerView { positions: Seq::empty(), buckets: Seq::empty(), year, carry }
}

/// The report of `year` over the transactions `ts`, with a carry window of `carry` years.
pub open spec fn report_outcome(year: int, carry: int, ts: Seq<TransactionView>) -> Result<
    ReportView,
    ReportErrorView,
> {
    let r = run(empty_ledger(year, carry), ts, 0);
    if r is Err {
        Err(r->Err_0)
    } else {
        Ok(ReportView { buckets: r->Ok_0.buckets, year, carry })
    }
}

pub open spec fn money_outcome(r: Result<Money, Error>) -> Result<MoneyView, ErrorView> {
    match r {
        Ok(m) => Ok(m@),
        Err(e) => Err(e@),
    }
}

pub open spec fn carry_state(carrying: bool, total: MoneyView) -> CarryState {
    if carrying {
        CarryState::Carrying(total)
    } else {
        CarryState::Idle
    }
}

pub open spec fn views_of(ts: Seq<Transaction>) -> Seq<TransactionView> {
    ts.map_values(|t: Transaction| t@)
}

proof fn lemma_position_index_facts(ps: Seq<(Seq<char>, PositionView)>, isin: Seq<char>)
    ensures
        0 <= position_index(ps, isin) <= ps.len(),
        forall|j: int| 0 <= j < position_index(ps, isin) ==> ps[j].0 != isin,
        position_index(ps, isin) < ps.len() ==> ps[position_index(ps, isin)].0 == isin,
    decreases ps.len(),
{
    if ps.len() > 0 && ps[0].0 != isin {
        lemma_position_index_facts(ps.drop_first(), isin);
        assert forall|j: int| 0 <= j < position_index(ps, isin) implies ps[j].0 != isin by {
            if j > 0 {
                assert(ps[j] == ps.drop_first()[j - 1]);
            }
        }
    }
}

/// After `set_position`, the position of `isin` is `p`.
proof fn lemma_set_position(ps: Seq<(Seq<char>, PositionView)>, isin: Seq<char>, p: PositionView)
    ensures
        position_or_empty(set_position(ps, isin, p), isin) == p,
        position_index(set_position(ps, isin, p), isin) < set_position(ps, isin, p).len(),
{
    lemma_position_index_facts(ps, isin);
    let i = position_index(ps, isin);
    let qs = set_position(ps, isin, p);
    assert(forall|j: int| 0 <= j < i ==> qs[j] == ps[j]);
    lemma_position_index(qs, isin, i);
}

/// Σ |c_i| as the ledger adds the costs up: from zero, in order.
pub open spec fn cost_sum(ts: Seq<TransactionView>) -> Result<MoneyView, ErrorView>
    decreases ts.len(),
{
    if ts.len() == 0 {
        Ok(zero_money())
    } else {
        let s = cost_sum(ts.drop_last());
        if s is Err {
            s
        } else {
            money_sum(s->Ok_0, cost_of(ts.last()))
        }
    }
}

/// Σ q_i.
pub open spec fn quantity_sum(ts: Seq<TransactionView>) -> int
    decreases ts.len(),
{
    if ts.len() == 0 {
        0
    } else {
        quantity_sum(ts.drop_last()) + ts.last().quantity
    }
}

/// The ledger after applying `ts` in order, up to the first failure.
pub open spec fn apply_all(l: LedgerView, ts: Seq<TransactionView>) -> Result<
    LedgerView,
    ReportErrorView,
>
    decreases ts.len(),
{
    if ts.len() == 0 {
        Ok(l)
    } else {
        let a = apply_all(l, ts.drop_last());
        if a is Err {
            a
        } else {
            apply_outcome(a->Ok_0, ts.last())
        }
    }
}

/// After purchases of quantities `q_1..q_n` at costs `c_1..c_n` of an instrument the ledger
/// did not hold, with no sale between them, the instrument's total is `Σ|c_i|`, its units
/// `Σq_i`, and its average unit cost is that total divided by those units.
pub proof fn lemma_average_cost(l: LedgerView, isin: Seq<char>, ts: Seq<TransactionView>)
    requires
        position_index(l.positions, isin) == l.positions.len(),
        forall|k: int| 0 <= k < ts.len() ==> (#[trigger] ts[k]).isin == isin && ts[k].value.amount.0 < 0,
        apply_all(l, ts) is Ok,
    ensures
        cost_sum(ts) is Ok,
        position_or_empty(apply_all(l, ts)->Ok_0.positions, isin).total == cost_sum(ts)->Ok_0,
        position_or_empty(apply_all(l, ts)->Ok_0.positions, isin).qty == quantity_sum(ts),
        ts.len() > 0 ==> money_quotient(cost_sum(ts)->Ok_0, quantity_sum(ts)) == Ok::<MoneyView, ErrorView>(
            position_or_empty(apply_all(l, ts)->Ok_0.positions, isin).avg,
        ),
    decreases ts.len(),
{
    if ts.len() > 0 {
        let init = ts.drop_last();
        assert forall|k: int| 0 <= k < init.len() implies (#[trigger] init[k]).isin == isin
            && init[k].value.amount.0 < 0 by {
            assert(init[k] == ts[k]);
        }
        lemma_average_cost(l, isin, init);
        let before = apply_all(l, init)->Ok_0;
        let t = ts.last();
        assert(t == ts[ts.len() - 1]);
        let ps = buy_outcome(before.positions, t)->Ok_0;
        let p = position_or_empty(before.positions, isin);
        let total = money_sum(p.total, cost_of(t))->Ok_0;
        let qty = p.qty + t.quantity;
        lemma_set_position(
            before.positions,
            isin,
            PositionView { total, avg: money_quotient(total, qty)->Ok_0, qty },
        );
    } else {
        lemma_position_index_facts(l.positions, isin);
    }
}

/// The running state of one instrument.
#[derive(Debug, Clone)]
struct Position {
    total: Money,
    avg: Money,
    qty: isize,
}

impl View for Position {
    type V = PositionView;

    closed spec fn view(&self) -> PositionView {
        PositionView { total: self.total@, avg: self.avg@, qty: self.qty as int }
    }
}

/// The position held in one instrument.
#[derive(Debug, Clone)]
struct Holding {
    isin: String,
    position: Position,
}

impl View for Holding {
    type V = (Seq<char>, PositionView);

    closed spec fn view(&self) -> (Seq<char>, PositionView) {
        (self.isin@, self.position@)
    }
}

/// The results realized in one year.
#[derive(Debug, Clone)]
struct YearProfit {
    year: i32,
    gains: Money,
    losses: Money,
}

impl View for YearProfit {
    type V = BucketView;

    closed spec fn view(&self) -> BucketView {
        BucketView { year: self.year as int, gains: self.gains@, losses: self.losses@ }
    }
}

fn find_position(hs: &Vec<Holding>, isin: &String) -> (r: usize)
    ensures
        r as int == position_index(hs@.map_values(|h: Holding| h@), isin@),
        r <= hs.len(),
        r < hs.len() ==> hs@[r as int]@.0 == isin@,
{
    let ghost ps = hs@.map_values(|h: Holding| h@);
    let mut i: usize = 0;
    while i < hs.len() && !hs[i].isin.eq(isin)
        invariant
            i <= hs.len(),
            ps == hs@.map_values(|h: Holding| h@),
            forall|j: int| 0 <= j < i ==> ps[j].0 != isin@,
        decreases hs.len() - i,
    {
        i = i + 1;
    }
    proof {
        lemma_position_index(ps, isin@, i as int);
    }
    i
}

fn find_bucket(bs: &Vec<YearProfit>, year: i32) -> (r: usize)
    ensures
        r as int == bucket_index(bs@.map_values(|b: YearProfit| b@), year as int),
        r <= bs.len(),
        r < bs.len() ==> bs@[r as int]@.year == year,
{
    let ghost vs = bs@.map_values(|b: YearProfit| b@);
    let mut i: usize = 0;
    while i < bs.len() && bs[i].year != year
        invariant
            i <= bs.len(),
            vs == bs@.map_values(|b: YearProfit| b@),
            forall|j: int| 0 <= j < i ==> vs[j].year != year,
        decreases bs.len() - i,
    {
        i = i + 1;
    }
    proof {
        lemma_bucket_index(vs, year as int, i as int);
    }
    i
}

/// What the sale `tr` realizes against `entry`: its proceeds less the absolute value of
/// average cost × quantity.
fn calc_trans_profit(tr: &Transaction, entry: &Position) -> (r: Result<Money, Error>)
    ensures
        money_outcome(r) == realized(entry@, tr@),
{
    let mut avg_price = entry.avg.duplicate();
    match avg_price.mul(tr.quantity()) {
        Ok(()) => {},
        Err(e) => return Err(e),
    }
    let mut local_profit = tr.value().duplicate();
    match local_profit.sub(&avg_price.abs()) {
        Ok(()) => Ok(local_profit),
        Err(e) => Err(e),
    }
}

/// The state of one pass over the transactions towards the report of `year`.
#[derive(Debug, Clone)]
pub struct Ledger {
    positions: Vec<Holding>,
    profits: Vec<YearProfit>,
    year: i32,
    years_carry_losses: u8,
}

impl View for Ledger {
    type V = LedgerView;

    closed spec fn view(&self) -> LedgerView {
        LedgerView {
            positions: self.positions@.map_values(|h: Holding| h@),
            buckets: self.profits@.map_values(|b: YearProfit| b@),
            year: self.year as int,
            carry: self.years_carry_losses as int,
        }
    }
}

impl Ledger {
    /// An empty ledger for the report of `year` with a carry window of `years_carry_losses`.
    pub fn new(year: i32, years_carry_losses: u8) -> (r: Ledger)
        ensures
            r@ == (LedgerView {
                positions: Seq::empty(),
                buckets: Seq::empty(),
                year: year as int,
                carry: years_carry_losses as int,
            }),
    {
        let r = Ledger { positions: Vec::new(), profits: Vec::new(), year, years_carry_losses };
        assert(r@.positions =~= Seq::empty());
        assert(r@.buckets =~= Seq::empty());
        r
    }

    fn buy(&mut self, tr: &Transaction) -> (r: Result<(), ReportError>)
        ensures
            match buy_outcome(old(self)@.positions, tr@) {
                Ok(ps) => r is Ok && final(self)@ == (LedgerView { positions: ps, ..old(self)@ }),
                Err(e) => r matches Err(x) && x@ == e && final(self)@ == old(self)@,
            },
    {
        let ghost ps = self@.positions;
        let i = find_position(&self.positions, tr.isin());
        let mut total = if i < self.positions.len() {
            self.positions[i].position.total.duplicate()
        } else {
            Money::default()
        };
        let qty0 = if i < self.positions.len() {
            self.positions[i].position.qty
        } else {
            0
        };
        let cost = tr.value().abs();
        match total.add(&cost) {
            Ok(()) => {},
            Err(e) => return Err(ReportError::Money(e)),
        }
        let qty = match qty0.checked_add(tr.quantity()) {
            Some(q) => q,
            None => return Err(ReportError::QuantityOverflow { order_id: tr.order_id().clone() }),
        };
        let mut avg = total.duplicate();
        match avg.div(qty) {
            Ok(()) => {},
            Err(e) => return Err(ReportError::Money(e)),
        }
        let h = Holding { isin: tr.isin().clone(), position: Position { total, avg, qty } };
        if i < self.positions.len() {
            self.positions.set(i, h);
        } else {
            self.positions.push(h);
        }
        assert(self@.positions =~= set_position(ps, tr@.isin, h.position@));
        Ok(())
    }

    fn sell(&mut self, tr: &Transaction) -> (r: Result<(), ReportError>)
        requires
            tr@.value.amount.0 >= 0,
        ensures
            match sell_outcome(old(self)@, tr@) {
                Ok(l) => r is Ok && final(self)@ == l,
                Err(e) => r matches Err(x) && x@ == e && final(self)@ == old(self)@,
            },
    {
        let ghost l = self@;
        if tr.quantity() == 0 {
            return Err(ReportError::DegenerateTransaction { order_id: tr.order_id().clone() });
        }
        let i = find_position(&self.positions, tr.isin());
        if i >= self.positions.len() {
            return Err(ReportError::SellWithoutPriorPosition { isin: tr.isin().clone() });
        }
        let profit = match calc_trans_profit(tr, &self.positions[i].position) {
            Ok(p) => p,
            Err(e) => return Err(ReportError::Money(e)),
        };
        let year = tr.date().year();
        let j = find_bucket(&self.profits, year);
        let (mut gains, mut losses) = if j < self.profits.len() {
            (self.profits[j].gains.duplicate(), self.profits[j].losses.duplicate())
        } else {
            (Money::default(), Money::default())
        };
        let booked = if profit.is_negative() {
            losses.add(&profit)
        } else {
            gains.add(&profit)
        };
        match booked {
            Ok(()) => {},
            Err(e) => return Err(ReportError::Money(e)),
        }
        let mut total = self.positions[i].position.total.duplicate();
        match total.sub(tr.value()) {
            Ok(()) => {},
            Err(e) => return Err(ReportError::Money(e)),
        }
        let qty = match self.positions[i].position.qty.checked_add(tr.quantity()) {
            Some(q) => q,
            None => return Err(ReportError::QuantityOverflow { order_id: tr.order_id().clone() }),
        };
        let avg = self.positions[i].position.avg.duplicate();
        let h = Holding { isin: tr.isin().clone(), position: Position { total, avg, qty } };
        self.positions.set(i, h);
        let b = YearProfit { year, gains, losses };
        if j < self.profits.len() {
            self.profits.set(j, b);
        } else {
            self.profits.push(b);
        }
        assert(self@.positions =~= l.positions.update(i as int, h@));
        assert(self@.buckets =~= set_bucket(l.buckets, b@));
        Ok(())
    }

    /// Applies `tr`, the transaction at hand, given the one that follows it (`None` at the
    /// end of the input). Returns whether the pass goes on: it stops once the next
    /// transaction lies after the target year. On failure the ledger is left as it was.
    pub fn step(&mut self, tr: &Transaction, next: Option<&Transaction>) -> (r: Result<bool, ReportError>)
        ensures
            match step_outcome(old(self)@, tr@, next_view(next)) {
                Ok((l, go_on)) => r == Ok::<bool, ReportError>(go_on) && final(self)@ == l,
                Err(e) => r matches Err(x) && x@ == e && final(self)@ == old(self)@,
            },
    {
        if let Some(n) = next {
            if !tr.date().is_on_or_before(n.date()) {
                return Err(ReportError::OutOfOrderInput { order_id: tr.order_id().clone() });
            }
        }
        if tr.value().is_negative() {
            self.buy(tr)?;
        } else {
            self.sell(tr)?;
        }
        let go_on = match next {
            Some(n) => n.date().year() <= self.year,
            None => true,
        };
        Ok(go_on)
    }
    /// The report of this pass: the buckets it filled, for its target year and window.
    pub fn finish(self) -> (r: Report)
        ensures
            r@ == (ReportView { buckets: self@.buckets, year: self@.year, carry: self@.carry }),
    {
        Report { profits: self.profits, years_carry_losses: self.years_carry_losses, year: self.year }
    }
}

/// The realized results per year, for a target year and a carry window; it does not change.
#[derive(Debug, Clone)]
pub struct Report {
    profits: Vec<YearProfit>,
    years_carry_losses: u8,
    year: i32,
}

impl View for Report {
    type V = ReportView;

    closed spec fn view(&self) -> ReportView {
        ReportView {
            buckets: self.profits@.map_values(|b: YearProfit| b@),
            year: self.year as int,
            carry: self.years_carry_losses as int,
        }
    }
}

impl Report {
    pub fn year(&self) -> (r: i32)
        ensures
            r as int == self@.year,
    {
        self.year
    }

    pub fn years_carry_losses(&self) -> (r: u8)
        ensures
            r as int == self@.carry,
    {
        self.years_carry_losses
    }

    /// The target year's gains plus its losses.
    pub fn profit(&self) -> (r: Result<Money, ReportError>)
        ensures
            match r {
                Ok(m) => profit_outcome(self@) == Ok::<MoneyView, ReportErrorView>(m@),
                Err(e) => profit_outcome(self@) == Err::<MoneyView, ReportErrorView>(e@),
            },
    {
        let j = find_bucket(&self.profits, self.year);
        if j >= self.profits.len() {
            return Err(ReportError::MissingYearData { year: self.year });
        }
        let mut res = self.profits[j].gains.duplicate();
        match res.add(&self.profits[j].losses) {
            Ok(()) => Ok(res),
            Err(e) => Err(ReportError::Money(e)),
        }
    }

    /// The target year's net result less the losses carried into it from the years of the
    /// window before it, normalized.
    pub fn adjusted_profit(&self) -> (r: Result<Money, Error>)
        ensures
            money_outcome(r) == adjusted_outcome(self@),
    {
        let ghost bs = self@.buckets;
        let target: i64 = self.year as i64;
        let lo: i64 = target - self.years_carry_losses as i64;
        let mut y: i64 = lo;
        let mut carrying = false;
        let mut total = Money::default();
        while y <= target
            invariant
                lo <= y <= target + 1,
                target == self.year as int,
                lo == self@.year - self@.carry,
                bs == self@.buckets,
                scan(bs, lo as int, target as int, CarryState::Idle) == scan(
                    bs,
                    y as int,
                    target as int,
                    carry_state(carrying, total@),
                ),
            decreases target + 1 - y,
        {
            let j = if y < i32::MIN as i64 {
                proof {
                    assert forall|k: int| 0 <= k < bs.len() implies bs[k].year != y by {
                        assert(bs[k] == self.profits@[k]@);
                    }
                    lemma_bucket_index(bs, y as int, bs.len() as int);
                }
                self.profits.len()
            } else {
                find_bucket(&self.profits, y as i32)
            };
            if j < self.profits.len() {
                let mut v = self.profits[j].gains.duplicate();
                match v.add(&self.profits[j].losses) {
                    Ok(()) => {},
                    Err(e) => return Err(e),
                }
                if y == target {
                    if carrying {
                        match v.add(&total) {
                            Ok(()) => {},
                            Err(e) => return Err(e),
                        }
                    }
                    return Ok(v.truncate_trailing_zeros());
                }
                if carrying {
                    match total.add(&v) {
                        Ok(()) => {},
                        Err(e) => return Err(e),
                    }
                    if !total.is_negative() {
                        carrying = false;
                        total = Money::default();
                    }
                } else if v.is_negative() {
                    carrying = true;
                    total = v;
                }
            }
            y = y + 1;
        }
        let mut profit = Money::default();
        if carrying {
            match profit.add(&total) {
                Ok(()) => {},
                Err(e) => return Err(e),
            }
        }
        Ok(profit.truncate_trailing_zeros())
    }
}

/// Produces reports over a time-ordered sequence of transactions, with a carry window of
/// `years_carry_losses` years.
#[derive(Debug, Clone, Copy)]
pub struct Portfolio {
    years_carry_losses: u8,
}

/// A portfolio is seen as the length of its carry window in years.
impl View for Portfolio {
    type V = int;

    closed spec fn view(&self) -> int {
        self.years_carry_losses as int
    }
}

impl Portfolio {
    /// A portfolio whose reports carry no losses from earlier years.
    pub fn new() -> (r: Portfolio)
        ensures
            r@ == 0,
    {
        Portfolio { years_carry_losses: 0 }
    }

    /// A portfolio whose reports carry losses from up to `years_carry_losses` earlier years.
    pub fn with_carry_losses(years_carry_losses: u8) -> (r: Portfolio)
        ensures
            r@ == years_carry_losses as int,
    {
        Portfolio { years_carry_losses }
    }

    pub fn years_carry_losses(&self) -> (r: u8)
        ensures
            r as int == self@,
    {
        self.years_carry_losses
    }

    /// An empty ledger for a pass towards the report of `year`, to be fed one transaction
    /// at a time with `Ledger::step`.
    pub fn ledger(&self, year: i32) -> (r: Ledger)
        ensures
            r@ == empty_ledger(year as int, self@),
    {
        Ledger::new(year, self.years_carry_losses)
    }

    /// The report of `year` over `transactions`, taken in order: each is checked against
    /// the next and applied, and the pass ends after the last one or once the next lies
    /// after `year`.
    pub fn report(&self, year: i32, transactions: &Vec<Transaction>) -> (r: Result<
        Report,
        ReportError,
    >)
        ensures
            match r {
                Ok(rep) => report_outcome(
                    year as int,
                    self@,
                    views_of(transactions@),
                ) == Ok::<ReportView, ReportErrorView>(rep@),
                Err(e) => report_outcome(
                    year as int,
                    self@,
                    views_of(transactions@),
                ) == Err::<ReportView, ReportErrorView>(e@),
            },
    {
        let ghost ts = views_of(transactions@);
        let mut ledger = self.ledger(year);
        let ghost start = ledger@;
        let n = transactions.len();
        let mut i: usize = 0;
        while i < n
            invariant
                n == transactions.len(),
                ts == views_of(transactions@),
                i <= n,
                run(start, ts, 0) == run(ledger@, ts, i as int),
                ledger@.year == year as int,
                ledger@.carry == self@,
                start == empty_ledger(year as int, self@),
            decreases n - i,
        {
            let next = if i + 1 < n {
                Some(&transactions[i + 1])
            } else {
                None
            };
            match ledger.step(&transactions[i], next) {
                Ok(go_on) => {
                    if !go_on {
                        return Ok(ledger.finish());
                    }
                },
                Err(e) => return Err(e),
            }
            i = i + 1;
        }
        Ok(ledger.finish())
    }
}

} // verus!
