//! The atomic counters of the library.
//!
//! Every operation borrows the cell exclusively: while it runs, nobody else can reach the cell, so
//! what the cell holds is the value that the last operation left in it.
use crossbeam_utils::atomic::AtomicCell;
use vstd::prelude::*;

verus! {

/// The atomic cell of `crossbeam_utils`.
#[verifier::external_type_specification]
#[verifier::external_body]
#[verifier::reject_recursive_types(T)]
pub struct ExAtomicCell<T>(crossbeam_utils::atomic::AtomicCell<T>);

/// The number that an atomic cell holds.
pub uninterp spec fn counter_value(cell: AtomicCell<usize>) -> usize;

/// `AtomicCell::new`: the new cell holds `value`.
#[verifier::external_body]
pub(crate) fn counter_new(value: usize) -> (cell: AtomicCell<usize>)
    ensures
        counter_value(cell) == value,
{
    AtomicCell::new(value)
}

/// `AtomicCell::load`: returns what the cell holds, and leaves it as it is.
#[verifier::external_body]
pub(crate) fn counter_load(cell: &mut AtomicCell<usize>) -> (value: usize)
    ensures
        value == counter_value(*old(cell)),
        counter_value(*final(cell)) == counter_value(*old(cell)),
{
    cell.load()
}

/// `AtomicCell::fetch_add`: adds `n` to what the cell holds, wrapping around on overflow, and
/// returns what it held before.
#[verifier::external_body]
pub(crate) fn counter_fetch_add(cell: &mut AtomicCell<usize>, n: usize) -> (previous: usize)
    ensures
        previous == counter_value(*old(cell)),
        counter_value(*final(cell)) == incremented(counter_value(*old(cell)), n),
{
    cell.fetch_add(n)
}

/// `AtomicCell::fetch_sub`: takes `n` from what the cell holds, wrapping around on overflow, and
/// returns what it held before.
#[verifier::external_body]
pub(crate) fn counter_fetch_sub(cell: &mut AtomicCell<usize>, n: usize) -> (previous: usize)
    ensures
        previous == counter_value(*old(cell)),
        counter_value(*final(cell)) == decremented(counter_value(*old(cell)), n),
{
    cell.fetch_sub(n)
}

/// `value + n`, wrapped around at the end of `usize`.
pub open spec fn incremented(value: usize, n: usize) -> usize {
    if value + n <= usize::MAX {
        (value + n) as usize
    } else {
        (value + n - usize::MAX - 1) as usize
    }
}

/// `value - n`, wrapped around at the start of `usize`.
pub open spec fn decremented(value: usize, n: usize) -> usize {
    if value >= n {
        (value - n) as usize
    } else {
        (value - n + usize::MAX + 1) as usize
    }
}

} // verus!
