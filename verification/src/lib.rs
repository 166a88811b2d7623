//! A moving average over a ring of the latest samples.
//!
//! [`MovingAverage`] keeps the last `N` samples that were fed to it and, on
//! every feed, returns their mean. Slots that no sample has reached yet hold
//! the additive identity and count towards the mean, so the average is drawn
//! towards zero until the window has filled.
//!
//! An averager is exclusively owned state: share one between threads only
//! behind a lock that is held for the whole of each call.

pub mod arith;
pub mod average;
pub mod laws;
pub mod model;

pub use average::{InvalidSize, MovingAverage};
pub use model::Window;
