pub mod schedule;
pub mod thread;

use vstd::prelude::*;
use crate::thread::schedule::Scheduler;

verus! {

/// Starts scheduling with `init_thread` as the running thread.
pub fn init<T: Copy>(init_thread: T) -> (r: Scheduler<T>)
    ensures
        r.current() == init_thread,
        r.queued() == Seq::<T>::empty(),
{
    schedule::start(init_thread)
}

} // verus!
