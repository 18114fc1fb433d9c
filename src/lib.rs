//! A fungible token ledger whose price follows a polynomial bonding curve.
//!
//! `curve` evaluates the curve's integral in checked integer arithmetic,
//! `sum` holds the facts about summing balances that the supply invariant
//! rests on, `ledger` keeps balances, allowances, supply and reserve, and
//! `market` prices and settles buys and sells against the reserve.
pub mod error;
pub mod curve;
pub mod sum;
pub mod ledger;
pub mod market;
