//! Realized capital gains per tax year, with average-cost-basis bookkeeping
//! and a bounded carry-forward of losses.
//!
//! - `decimal`: exact base-10 numbers; division goes through decimal's `d128`.
//! - `money`: an amount with an optional currency tag, and its written forms.
//! - `transaction`: calendar days and buy/sell events with consistent signs.
//! - `portfolio`: the cost-basis ledger, fed one transaction at a time with the next one
//!   as lookahead (`Ledger::step`), or over a whole sequence (`Portfolio::report`), and the
//!   report that resolves losses carried from earlier years.

pub mod decimal;
pub mod money;
pub mod portfolio;
pub mod transaction;

pub use decimal::Decimal;
pub use money::Money;
pub use transaction::{Date, Transaction, TransactionError, TransactionType};
