//! Sweet Bananza game engine: weighted random symbols, cascading "pay
//! anywhere" wins with bomb multipliers and scatter free spins, and the
//! account rules behind the HTTP API, with their behaviour stated in Verus
//! contracts.
//!
//! Module layout:
//! - [`amount`]: decimal money amounts, computed by `rust_decimal`;
//! - [`random`]: the random sources (`rand`, `uuid`);
//! - [`symbols`]: the symbol table and random cells;
//! - [`payout`]: counting symbols and paying winners;
//! - [`gravity`]: removing winners and refilling the grid;
//! - [`round`]: a full round of cascades;
//! - [`spin`]: a spin request, with or without a bought bonus;
//! - [`account`]: player identity, new accounts and the data answer;
//! - [`laws`]: properties that span several functions.
use vstd::prelude::*;

pub mod amount;
pub mod random;
pub mod symbols;
pub mod payout;
pub mod gravity;
pub mod round;
pub mod laws;
pub mod spin;
pub mod account;

verus! {

} // verus!
