//! The core of a single-threaded asynchronous runtime over a kernel
//! completion ring, without the ring itself.
//!
//! The crate holds the bookkeeping of such a runtime: the run queue of
//! ready tasks, the table of in-flight operations with its life cycle, and
//! the decisions of the worker loop. The embedding program owns the ring and
//! the thread-local context; every system call happens there.

pub mod io;
pub mod sys;
pub mod task;

pub use sys::spawn;
