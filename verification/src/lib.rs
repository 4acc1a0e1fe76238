//! Inventory consistency and order-validation engine.
//!
//! Per-warehouse stock quantities are driven by typed order events.  The
//! engine models the persisted inventory store, validates order
//! feasibility, commits quantity deltas, and can reconstruct the whole
//! inventory deterministically by replaying the order history.

use vstd::prelude::*;

pub mod check;
pub mod error;
pub mod events;
pub mod guest;
pub mod inventory;
pub mod laws;
pub mod lifecycle;
pub mod mutate;
pub mod order;
pub mod overlay;
pub mod pagination;
pub mod recalc;
pub mod sku;
pub mod user;

verus! {

/// Largest identifier value the engine hands out; one below `i64::MAX` so
/// that callers can always form an exclusive upper bound.
pub fn i64_safe_max() -> (r: i64)
    ensures
        r == i64::MAX - 1,
{
    i64::MAX - 1
}

} // verus!
