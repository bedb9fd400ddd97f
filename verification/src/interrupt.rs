//! Interrupt handling.

use crate::error::HandleIntrError;
use vstd::prelude::*;

verus! {

/// Interrupt handler, Driver should implement it.
pub trait InterruptHandler {
    /// The driver is in a state in which it can handle an interrupt. Unless a driver
    /// says otherwise, it always is.
    open spec fn can_handle(&self) -> bool {
        true
    }

    /// `r` is an answer that the driver may give to an interrupt. Unless a driver says
    /// otherwise, it may give any.
    open spec fn handles_as(&self, r: Result<(), HandleIntrError>) -> bool {
        true
    }

    /// handler interrupt
    fn handle_interrupt(&self) -> (r: Result<(), HandleIntrError>)
        requires
            self.can_handle(),
        ensures
            self.handles_as(r),
    ;
}

/// Handle virtio interrupts.
/// `driver_fetcher` is a function that accepts a device id
/// and returns the corresponding driver.
/// Returned driver must implement the `InterruptHandler` trait.
/// `handle_interrupt_fn` returns a function for handling virtio device interrupts.
/// Returned function needs to pass in a device id.
///
/// The returned function may be called with every device id for which the fetcher
/// gives a driver that can handle an interrupt, and answers what that driver does.
pub fn handle_interrupt_fn<'a, D: InterruptHandler + ?Sized + 'a, F: Fn(usize) -> &'a D>(
    driver_fetcher: F,
) -> (handler: impl Fn(usize) -> Result<(), HandleIntrError>)
    ensures
        forall|dev_id: usize|
            dispatchable(driver_fetcher, dev_id) ==> #[trigger] call_requires(handler, (dev_id,)),
        forall|dev_id: usize, r: Result<(), HandleIntrError>| #[trigger]
            call_ensures(handler, (dev_id,), r) ==> dispatches(driver_fetcher, dev_id, r),
{
    move |dev_id: usize| -> (r: Result<(), HandleIntrError>)
        requires
            dispatchable(driver_fetcher, dev_id),
        ensures
            dispatches(driver_fetcher, dev_id, r),
        {
            let driver = driver_fetcher(dev_id);
            driver.handle_interrupt()
        }
}

/// The fetcher can be asked for this device, and every driver that it gives can
/// handle an interrupt.
pub open spec fn dispatchable<
    'a,
    D: InterruptHandler + ?Sized + 'a,
    F: Fn(usize) -> &'a D,
>(driver_fetcher: F, dev_id: usize) -> bool {
    &&& call_requires(driver_fetcher, (dev_id,))
    &&& forall|driver: &'a D| #[trigger]
        call_ensures(driver_fetcher, (dev_id,), driver) ==> driver.can_handle()
}

/// `r` is an answer of the driver that the fetcher gives for this device.
pub open spec fn dispatches<
    'a,
    D: InterruptHandler + ?Sized + 'a,
    F: Fn(usize) -> &'a D,
>(driver_fetcher: F, dev_id: usize, r: Result<(), HandleIntrError>) -> bool {
    exists|driver: &'a D| #[trigger]
        call_ensures(driver_fetcher, (dev_id,), driver) && driver.handles_as(r)
}

/// The answer is passed on unchanged: where the fetcher gives the driver `driver` for the
/// device, and that driver answers `answer`, this is the answer of the whole.
pub proof fn law_answer_is_passed_on<
    'a,
    D: InterruptHandler + ?Sized + 'a,
    F: Fn(usize) -> &'a D,
>(
    driver_fetcher: F,
    dev_id: usize,
    driver: &'a D,
    answer: Result<(), HandleIntrError>,
    r: Result<(), HandleIntrError>,
)
    requires
        forall|d: &'a D| #[trigger]
            call_ensures(driver_fetcher, (dev_id,), d) ==> d == driver,
        forall|x: Result<(), HandleIntrError>| #[trigger]
            driver.handles_as(x) ==> x == answer,
        dispatches(driver_fetcher, dev_id, r),
    ensures
        r == answer,
{
}

/// The returned function may be called wherever the fetcher may, and gives a driver that
/// can handle an interrupt.
pub proof fn law_interrupt_can_be_dispatched<
    'a,
    D: InterruptHandler + ?Sized + 'a,
    F: Fn(usize) -> &'a D,
>(driver_fetcher: F, dev_id: usize)
    requires
        call_requires(driver_fetcher, (dev_id,)),
        forall|driver: &'a D| #[trigger]
            call_ensures(driver_fetcher, (dev_id,), driver) ==> driver.can_handle(),
    ensures
        dispatchable(driver_fetcher, dev_id),
{
}

/// An answer comes from a driver that the fetcher gave for this device. Returns the
/// driver.
pub proof fn law_answer_is_the_drivers<
    'a,
    D: InterruptHandler + ?Sized + 'a,
    F: Fn(usize) -> &'a D,
>(driver_fetcher: F, dev_id: usize, r: Result<(), HandleIntrError>) -> (driver: &'a D)
    requires
        dispatches(driver_fetcher, dev_id, r),
    ensures
        call_ensures(driver_fetcher, (dev_id,), driver),
        driver.handles_as(r),
{
    choose|driver: &'a D| #[trigger]
        call_ensures(driver_fetcher, (dev_id,), driver) && driver.handles_as(r)
}

} // verus!
