//! Volatile memory cells, memory barriers and task wakers: the calls that
//! leave the verified code.

use core::task::Waker;
use volatile::Volatile;
use vstd::prelude::*;

verus! {

/// The `Volatile` cell of the `volatile` crate.
#[verifier::external_type_specification]
#[verifier::external_body]
#[verifier::reject_recursive_types(T)]
pub struct ExVolatile<T: Copy>(volatile::Volatile<T>);

/// The `Waker` of the standard library.
#[verifier::external_type_specification]
#[verifier::external_body]
pub struct ExWaker(core::task::Waker);

/// The value that a 16-bit cell holds.
pub uninterp spec fn held_u16(cell: Volatile<u16>) -> u16;

/// The value that a 32-bit cell holds.
pub uninterp spec fn held_u32(cell: Volatile<u32>) -> u32;

/// The value that a 64-bit cell holds.
pub uninterp spec fn held_u64(cell: Volatile<u64>) -> u64;

/// `Volatile::read`: returns the value that the cell holds. It is called on
/// cells that only the driver writes.
#[verifier::external_body]
pub(crate) fn read_u16(cell: &Volatile<u16>) -> (value: u16)
    ensures
        value == held_u16(*cell),
{
    cell.read()
}

/// `Volatile::write` on a 16-bit cell: afterwards the cell holds `value`.
#[verifier::external_body]
pub(crate) fn write_u16(cell: &mut Volatile<u16>, value: u16)
    ensures
        held_u16(*final(cell)) == value,
{
    cell.write(value)
}

/// `Volatile::write` on a 32-bit cell: afterwards the cell holds `value`.
#[verifier::external_body]
pub(crate) fn write_u32(cell: &mut Volatile<u32>, value: u32)
    ensures
        held_u32(*final(cell)) == value,
{
    cell.write(value)
}

/// `Volatile::write` on a 64-bit cell: afterwards the cell holds `value`.
#[verifier::external_body]
pub(crate) fn write_u64(cell: &mut Volatile<u64>, value: u64)
    ensures
        held_u64(*final(cell)) == value,
{
    cell.write(value)
}

/// A read of the 16-bit cell may give `value`. The device writes the cell at any
/// time, so two reads of one cell may give different values.
pub uninterp spec fn may_read_u16(cell: Volatile<u16>, value: u16) -> bool;

/// A read of the 32-bit cell may give `value`. The device writes the cell at any
/// time, so two reads of one cell may give different values.
pub uninterp spec fn may_read_u32(cell: Volatile<u32>, value: u32) -> bool;

/// `Volatile::read` on a 16-bit cell that the device writes: the value is one that
/// a read of this cell gave. Which one is up to the device.
#[verifier::external_body]
pub(crate) fn read_device_u16(cell: &Volatile<u16>) -> (value: u16)
    ensures
        may_read_u16(*cell, value),
{
    cell.read()
}

/// `Volatile::read` on a 32-bit cell that the device writes: the value is one that
/// a read of this cell gave. Which one is up to the device.
#[verifier::external_body]
pub(crate) fn read_device_u32(cell: &Volatile<u32>) -> (value: u32)
    ensures
        may_read_u32(*cell, value),
{
    cell.read()
}

/// `core::sync::atomic::fence` with sequentially consistent ordering. What it
/// orders is between this processor and the device, and no value here shows it.
#[verifier::external_body]
pub(crate) fn full_fence() {
    core::sync::atomic::fence(core::sync::atomic::Ordering::SeqCst)
}

/// A wake-up of the task behind `waker` was asked for, and the call that asked returned
/// `done`.
pub uninterp spec fn woken(waker: Waker, done: ()) -> bool;

/// `Waker::wake_by_ref`: asks for the task behind `waker` to be woken, and returns. When
/// the task runs is up to its executor and is left unsaid.
#[verifier::external_body]
pub(crate) fn wake_by_ref(waker: &Waker) -> (done: ())
    ensures
        woken(*waker, done),
{
    waker.wake_by_ref()
}

} // verus!
