//! Rate limiting: the budget of requests per second a limiter is built with.
//! (The limiter itself, governor's, keeps its budget against the clock.)

use vstd::prelude::*;

verus! {

/// The rate a limiter is built with: a rate of zero counts as one.
pub open spec fn spec_effective_rate(requests_per_second: u32) -> u32 {
    if requests_per_second == 0 {
        1
    } else {
        requests_per_second
    }
}

/// The number of requests per second a limiter built for
/// `requests_per_second` allows (zero counts as one, as a quota cannot be
/// empty).
pub fn effective_rate(requests_per_second: u32) -> (r: u32)
    ensures
        r == spec_effective_rate(requests_per_second),
        r > 0,
{
    if requests_per_second == 0 {
        1
    } else {
        requests_per_second
    }
}


} // verus!
