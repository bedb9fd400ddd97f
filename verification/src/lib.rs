//! VirtIO guest drivers.

pub mod blk;
pub mod cell;
pub mod console;
pub mod effects;
pub mod error;
pub mod feature;
pub mod flight;
pub mod inner;
pub mod interrupt;
pub mod layout;
pub mod page;
pub mod queue;
pub mod ring;
pub mod state;

pub use crate::blk::VirtIOBlk;
pub use crate::console::VirtIOConsole;
pub use crate::error::{DeviceFault, Error, HandleIntrError};
pub use crate::interrupt::{handle_interrupt_fn, InterruptHandler};
pub use crate::page::{PageSize, Size4KiB};
pub use crate::queue::{VirtFuture, VirtQueue};
