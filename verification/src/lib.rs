//! The core of a multi-way channel selection facility: a thread registers
//! interest in a dynamic set of channel operations over arbitrary channel
//! flavors, waits until at least one is executable, and executes exactly one,
//! atomically with respect to competing selectors on the same channels.
//!
//! The selection driver, the waiter context with its selection slot, the
//! handle contract and the completion token live here; concrete channel
//! flavors implement [`handle::SelectHandle`] and the completion endpoints.

pub mod context;
pub mod driver;
pub mod handle;
pub mod ops;
pub mod select;
pub mod shuffle;
pub mod timing;
