//! The parts of the runtime that the worker thread drives.

use crate::sys::rt::Spawner;
use crate::sys::task::Task;
use vstd::prelude::*;

pub mod dense;
pub mod driver;
pub mod rt;
pub mod scheduler;
pub mod task;
pub mod waker;

verus! {

/// Hands `task` to the worker that owns `spawner`: the task waits at the end
/// of the inbox until the worker's next tick takes it in.
pub fn spawn(spawner: &mut Spawner, task: Task)
    ensures
        final(spawner)@ == old(spawner)@.push(task),
{
    spawner.spawn(task);
}

} // verus!
