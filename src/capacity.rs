//! `Vec` capacity methods that vstd gives no contract; each is trusted for
//! what its documentation promises.
use std::collections::TryReserveError;
use vstd::prelude::*;

verus! {

/// Relies on `Vec::capacity`: a vector can always hold its own elements.
#[verifier::external_body]
pub(crate) fn vec_capacity<U>(v: &Vec<U>) -> (r: usize)
    ensures
        r >= v@.len(),
{
    v.capacity()
}

/// Relies on `Vec::try_reserve_exact`: it changes no element, and reports a
/// request that cannot be met as an error instead of panicking.
#[verifier::external_body]
pub(crate) fn vec_try_reserve_exact<U>(v: &mut Vec<U>, additional: usize) -> (r: Result<
    (),
    TryReserveError,
>)
    ensures
        final(v)@ == old(v)@,
{
    v.try_reserve_exact(additional)
}

/// Relies on `Vec::shrink_to_fit`: it changes no element.
#[verifier::external_body]
pub(crate) fn vec_shrink_to_fit<U>(v: &mut Vec<U>)
    ensures
        final(v)@ == old(v)@,
{
    v.shrink_to_fit()
}

/// Relies on `Vec::shrink_to`: it changes no element.
#[verifier::external_body]
pub(crate) fn vec_shrink_to<U>(v: &mut Vec<U>, min_capacity: usize)
    ensures
        final(v)@ == old(v)@,
{
    v.shrink_to(min_capacity)
}

} // verus!
