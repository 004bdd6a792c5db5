//! A one-function library: tax on an amount in cents.
use vstd::prelude::*;

verus! {

/// 8% tax on an amount in integer cents, rounded down.
pub fn tax(cents: u64) -> (t: u64)
    requires
        cents * 8 <= u64::MAX,
    ensures
        t == cents * 8 / 100,
{
    cents * 8 / 100
}

} // verus!
