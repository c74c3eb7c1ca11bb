//! Physical-frame allocation and four-level page-table management for an
//! x86-64 kernel in its earliest boot phase.
//!
//! Page tables live in a tracked model of physical memory, so every operation
//! is an ordinary function from state to state and can be exercised without
//! hardware.  Software that drives a real processor copies the tables out to
//! their frames and then loads the page-table base register.

pub mod boot;
pub mod memory;
