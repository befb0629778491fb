//! Shared vocabulary for contracts: deep views of collections and the relation
//! between an executable outcome and its mathematical counterpart.
use vstd::prelude::*;

use crate::error::{Error, Failure};

verus! {

/// The views of the elements of a sequence, in order.
pub open spec fn views<T: View>(items: Seq<T>) -> Seq<T::V> {
    Seq::new(items.len(), |i: int| items[i]@)
}

/// The view of what an option holds.
pub open spec fn opt_view<T: View>(item: Option<T>) -> Option<T::V> {
    match item {
        Some(value) => Some(value@),
        None => None,
    }
}

/// The executable outcome `result` is the outcome `expected`: the same success
/// value, or the same failure.
pub open spec fn agrees<T: View>(result: Result<T, Error>, expected: Result<T::V, Failure>) -> bool {
    match (result, expected) {
        (Ok(value), Ok(model)) => value@ == model,
        (Err(error), Err(failure)) => error@ == failure,
        _ => false,
    }
}

/// The executable outcome `result` of a check is the outcome `expected`.
pub open spec fn accepts(result: Result<(), Error>, expected: Result<(), Failure>) -> bool {
    match (result, expected) {
        (Ok(_), Ok(_)) => true,
        (Err(error), Err(failure)) => error@ == failure,
        _ => false,
    }
}

/// The first failure of two checks made one after the other.
pub open spec fn both(first: Result<(), Failure>, second: Result<(), Failure>) -> Result<(), Failure> {
    match first {
        Ok(_) => second,
        Err(failure) => Err(failure),
    }
}

/// The view of a sequence that grew by one element.
pub broadcast proof fn views_push<T: View>(items: Seq<T>, item: T)
    ensures
        #[trigger] views(items.push(item)) == views(items).push(item@),
{
    assert(views(items.push(item)) =~= views(items).push(item@));
}

/// The number of blocks of `size` units that `amount` units occupy.
pub open spec fn ceil_div(amount: int, size: int) -> int {
    (amount + size - 1) / size
}

/// Rounds a 32-bit quotient up.
pub fn ceil_div_u32(amount: u32, size: u32) -> (result: u32)
    requires
        size > 0,
    ensures
        result == ceil_div(amount as int, size as int),
{
    let wide: u64 = (amount as u64 + (size as u64 - 1)) / size as u64;
    proof {
        let n: int = amount + size - 1;
        vstd::arithmetic::div_mod::lemma_div_is_ordered(n, u32::MAX + size - 1, size as int);
        assert((u32::MAX + size - 1) / (size as int) <= u32::MAX) by (nonlinear_arith)
            requires
                size > 0,
        ;
        assert(n / (size as int) >= 0) by (nonlinear_arith)
            requires
                n >= 0,
                size > 0,
        ;
    }
    wide as u32
}

/// Rounds a 64-bit quotient by the logical block size up.
pub fn ceil_div_u64(amount: u64, size: u64) -> (result: u64)
    requires
        size > 0,
    ensures
        result == ceil_div(amount as int, size as int),
{
    let wide: u128 = (amount as u128 + (size as u128 - 1)) / size as u128;
    proof {
        let n: int = amount + size - 1;
        vstd::arithmetic::div_mod::lemma_div_is_ordered(n, u64::MAX + size - 1, size as int);
        assert((u64::MAX + size - 1) / (size as int) <= u64::MAX) by (nonlinear_arith)
            requires
                size > 0,
        ;
        assert(n / (size as int) >= 0) by (nonlinear_arith)
            requires
                n >= 0,
                size > 0,
        ;
    }
    wide as u64
}

/// The first failure of the checks from `index` to `count`.
pub open spec fn first_failure(
    check: spec_fn(int) -> Result<(), Failure>,
    index: int,
    count: int,
) -> Result<(), Failure>
    decreases count - index,
{
    if index >= count {
        Ok(())
    } else {
        both(check(index), first_failure(check, index + 1, count))
    }
}

/// The checks all pass exactly when no one of them fails.
pub proof fn first_failure_ok(check: spec_fn(int) -> Result<(), Failure>, index: int, count: int)
    ensures
        first_failure(check, index, count) is Ok <==> forall|i: int|
            index <= i < count ==> (#[trigger] check(i)) is Ok,
    decreases count - index,
{
    if index < count {
        first_failure_ok(check, index + 1, count);
    }
}

} // verus!
