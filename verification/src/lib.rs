//! Scheduling of a bulk sequential read of one file through a kernel
//! submission/completion ring.
//!
//! The crate holds the decisions of such a run and proves them: how a file
//! extent is cut into chunks, which request is submitted next, and how each
//! completion is judged. The caller owns the ring and the file; it performs
//! each [`protocol::Action`] and reports back an [`protocol::Event`].
//!
//! - [`extent`]: a file size cut into chunks of one size.
//! - [`pool`]: the zeroed buffers that the reads fill.
//! - [`protocol`]: the values that pass between scheduler and driver.
//! - [`model`]: the run as a state machine over mathematical values.
//! - [`scheduler`]: the executable scheduler, which follows the model.
//! - [`runs`]: what holds of every state that a sequence of events leads to.
//! - [`outcomes`]: how runs end.

pub mod extent;
pub mod model;
pub mod outcomes;
pub mod pool;
pub mod protocol;
pub mod runs;
pub mod scheduler;
