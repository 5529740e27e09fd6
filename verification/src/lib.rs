//! Reversible migration runner: a catalog of "motions" (paired forward and
//! backward scripts) is reconciled against the records a driver reports as
//! applied, and an accelerator moves the boundary between applied and pending
//! motions forward or backward a bounded number of steps at a time.

pub mod accelerator;
pub mod catalog;
pub mod driver;
pub mod drivers;
pub mod error;
pub mod motion;
pub mod motions;
pub mod operation;
pub mod pattern;
pub mod text;

pub use operation::Operation;
