//! Round-robin scheduling: the running thread goes to the back of the
//! queue and the thread at the front runs next.
use vstd::prelude::*;
use std::collections::VecDeque;

verus! {

/// The running thread and the threads waiting to run, in turn order.
pub struct Scheduler<T> {
    current_thread: T,
    queue: VecDeque<T>,
}

/// One turn of the round: the first thread of the order moves to the back.
pub open spec fn rotate<T>(order: Seq<T>) -> Seq<T> {
    if order.len() == 0 {
        order
    } else {
        order.subrange(1, order.len() as int).push(order[0])
    }
}

/// `k` turns of the round.
pub open spec fn rotate_n<T>(order: Seq<T>, k: nat) -> Seq<T>
    decreases k,
{
    if k == 0 {
        order
    } else {
        rotate(rotate_n(order, (k - 1) as nat))
    }
}

impl<T> Scheduler<T> {
    /// The running thread.
    pub closed spec fn current(&self) -> T {
        self.current_thread
    }

    /// The waiting threads, front first.
    pub closed spec fn queued(&self) -> Seq<T> {
        self.queue@
    }

    /// The running thread followed by the waiting ones: the order in which
    /// they run.
    pub open spec fn run_order(&self) -> Seq<T> {
        seq![self.current()] + self.queued()
    }
}

impl<T: Copy> Scheduler<T> {
    /// A scheduler where `current` runs and nothing waits.
    pub fn new(current: T) -> (r: Self)
        ensures
            r.current() == current,
            r.queued() == Seq::<T>::empty(),
    {
        Scheduler { current_thread: current, queue: VecDeque::new() }
    }

    /// The running thread.
    pub fn current_thread(&self) -> (r: T)
        ensures
            r == self.current(),
    {
        self.current_thread
    }

    /// Number of waiting threads.
    pub fn queue_len(&self) -> (r: usize)
        ensures
            r == self.queued().len(),
    {
        self.queue.len()
    }

    /// Passes the processor on: when a thread waits, the running thread
    /// goes to the back of the queue and the front thread becomes the
    /// running one. Returns the switch to perform, from the thread that ran
    /// to the thread that runs now; `None` (and nothing changes) when no
    /// thread waits.
    pub fn schedule(&mut self) -> (r: Option<(T, T)>)
        ensures
            old(self).queued().len() == 0 ==> r.is_none() && final(self).current() == old(
                self,
            ).current() && final(self).queued() == old(self).queued(),
            old(self).queued().len() > 0 ==> {
                &&& r == Some((old(self).current(), old(self).queued()[0]))
                &&& final(self).current() == old(self).queued()[0]
                &&& final(self).queued() == old(self).queued().subrange(
                    1,
                    old(self).queued().len() as int,
                ).push(old(self).current())
            },
            final(self).run_order() == rotate(old(self).run_order()),
    {
        let ghost order = self.run_order();
        if self.queue.len() == 0 {
            assert(rotate(order) =~= order);
            return None;
        }
        let prev = self.current_thread;
        match self.queue.pop_front() {
            Some(next) => {
                self.queue.push_back(prev);
                self.current_thread = next;
                assert(self.run_order() =~= rotate(order));
                Some((prev, next))
            },
            None => None,
        }
    }

    /// Puts a thread at the back of the queue.
    pub fn push(&mut self, thread: T)
        ensures
            final(self).current() == old(self).current(),
            final(self).queued() == old(self).queued().push(thread),
            final(self).run_order() == old(self).run_order().push(thread),
    {
        self.queue.push_back(thread);
        assert(self.run_order() =~= old(self).run_order().push(thread));
    }
}

/// A scheduler where the boot thread runs and nothing waits yet.
pub fn start<T: Copy>(init_thread: T) -> (r: Scheduler<T>)
    ensures
        r.current() == init_thread,
        r.queued() == Seq::<T>::empty(),
{
    Scheduler::new(init_thread)
}

/// Puts a thread at the back of the scheduler's queue.
pub fn push<T: Copy>(scheduler: &mut Scheduler<T>, thread: T)
    ensures
        final(scheduler).current() == old(scheduler).current(),
        final(scheduler).queued() == old(scheduler).queued().push(thread),
{
    scheduler.push(thread);
}

/// Passes the processor to the next waiting thread, if any; returns the
/// switch to perform.
pub fn schedule<T: Copy>(scheduler: &mut Scheduler<T>) -> (r: Option<(T, T)>)
    ensures
        old(scheduler).queued().len() == 0 ==> r.is_none() && final(scheduler).current() == old(
            scheduler,
        ).current() && final(scheduler).queued() == old(scheduler).queued(),
        old(scheduler).queued().len() > 0 ==> r == Some(
            (old(scheduler).current(), old(scheduler).queued()[0]),
        ),
        final(scheduler).run_order() == rotate(old(scheduler).run_order()),
{
    scheduler.schedule()
}

/// Scheduling neither loses nor duplicates a thread: one turn keeps the
/// same threads, each as often as before.
pub proof fn lemma_rotate_keeps_threads<T>(order: Seq<T>)
    ensures
        rotate(order).to_multiset() == order.to_multiset(),
        rotate(order).len() == order.len(),
{
    broadcast use vstd::seq_lib::group_seq_properties;
    if order.len() > 0 {
        let rest = order.subrange(1, order.len() as int);
        assert(order =~= seq![order[0]] + rest);
        vstd::seq_lib::lemma_multiset_commutative(seq![order[0]], rest);
        assert(rest.push(order[0]) =~= rest + seq![order[0]]);
    }
}

/// After `k` turns of a round of `n` threads, with `k <= n`, the order is
/// the old one with its first `k` threads moved to the back.
pub proof fn lemma_rotate_n<T>(order: Seq<T>, k: nat)
    requires
        k <= order.len(),
    ensures
        rotate_n(order, k) =~= order.subrange(k as int, order.len() as int) + order.subrange(
            0,
            k as int,
        ),
    decreases k,
{
    if k > 0 {
        lemma_rotate_n(order, (k - 1) as nat);
        let prev = rotate_n(order, (k - 1) as nat);
        assert(prev[0] == order[k - 1]);
    }
}

/// Round robin: every thread runs once per round, in queue order, and a
/// full round of as many turns as there are threads brings back the
/// starting order.
pub proof fn lemma_round_robin<T>(order: Seq<T>)
    ensures
        forall|k: nat| k < order.len() ==> #[trigger] rotate_n(order, k)[0] == order[k as int],
        rotate_n(order, order.len()) == order,
{
    assert forall|k: nat| k < order.len() implies #[trigger] rotate_n(order, k)[0] == order[k as int] by {
        lemma_rotate_n(order, k);
    }
    lemma_rotate_n(order, order.len());
    assert(order.subrange(order.len() as int, order.len() as int) + order.subrange(0, order.len() as int) =~= order);
}

} // verus!
