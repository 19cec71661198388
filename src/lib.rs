//! Interrupt-safe sharing of state between a foreground loop and an
//! interrupt handler on a single-core microcontroller, with a non-blocking
//! countdown timer and an allocation-free fixed-point decimal formatter
//! built on top of it.

pub mod critical;
pub mod fixed;
pub mod gated;
pub mod once;
pub mod shared;
pub mod timer;
