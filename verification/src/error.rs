//! Errors of drivers and of interrupt handling.

use vstd::prelude::*;

verus! {

/// The error type of VirtIO drivers.
#[derive(Clone, Copy, Debug, PartialEq, Eq, Structural)]
pub enum Error {
    /// The buffer is too small.
    BufferTooSmall,
    /// The device is not ready.
    NotReady,
    /// The queue is already in use.
    AlreadyUsed,
    /// Invalid parameter.
    InvalidParam,
    /// Failed to alloc DMA memory.
    DmaError,
    /// I/O Error
    IoError,
}

/// The error type of interrupt handling.
#[derive(Clone, Copy, Debug, PartialEq, Eq, Structural)]
pub enum HandleIntrError {
    /// The device is not ready.
    QueueNotReady,
    /// Corresponding waker does not exist. (id)
    WakerNotExist(u16),
}

/// What a device did against the rules.
#[derive(Clone, Copy, Debug, PartialEq, Eq, Structural)]
pub enum DeviceFault {
    /// It returned a chain that does not exist. (token)
    BadToken(u16),
    /// It returned a receive buffer with nothing in it.
    EmptyReply,
    /// It returned more receive buffers than it was given.
    ExtraReply,
}

} // verus!
