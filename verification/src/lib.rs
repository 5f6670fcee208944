//! Verified core of a single-site restaurant billing backend.
//!
//! The engine keeps the catalog, bills, settings and backup snapshots in an
//! in-memory store with proved invariants; bill numbering, item-number
//! allocation, money arithmetic, receipt layout and the raw printer byte
//! stream are all specified and verified. Persistence, JSON transport and
//! process spawning live outside the library.

use vstd::prelude::*;

pub mod backup;
pub mod bills;
pub mod calendar;
pub mod inventory;
pub mod printing;
pub mod query;
pub mod receipt;
pub mod router;
pub mod store;
pub mod text;

verus! {

/// A bill line quantity is clamped to the closed range `[1, 1000]`.
pub open spec fn spec_clamp_qty(q: int) -> int {
    if q < 1 {
        1
    } else if q > 1000 {
        1000
    } else {
        q
    }
}

/// Clamp a requested quantity into the accepted range.
pub fn clamp_qty(q: i64) -> (r: i64)
    ensures
        r as int == spec_clamp_qty(q as int),
{
    if q < 1 {
        1
    } else if q > 1000 {
        1000
    } else {
        q
    }
}

} // verus!


