//! Threads: their identities and the registers saved across a switch.
use vstd::prelude::*;
use crate::memory::addr::{
    canonicalize, virt_addr_accepted, virt_addr_accepts, virt_addr_new, virt_addr_sub,
};

verus! {

/// Registers saved during a context switch, in the order the switch
/// routine stores them.
#[derive(Debug)]
pub struct Context {
    pub rsp: u64,
    pub rbp: u64,
    pub rbx: u64,
    pub r12: u64,
    pub r13: u64,
    pub r14: u64,
    pub r15: u64,
}

impl Context {
    pub open spec fn is_zero(&self) -> bool {
        &&& self.rsp == 0
        &&& self.rbp == 0
        &&& self.rbx == 0
        &&& self.r12 == 0
        &&& self.r13 == 0
        &&& self.r14 == 0
        &&& self.r15 == 0
    }
}

impl Default for Context {
    /// All registers zero.
    fn default() -> (r: Self)
        ensures
            r.is_zero(),
    {
        Context { rsp: 0, rbp: 0, rbx: 0, r12: 0, r13: 0, r14: 0, r15: 0 }
    }
}

/// Identity of a thread.
#[derive(Debug, Clone, Copy, PartialEq, Eq, PartialOrd, Ord)]
pub struct ThreadId(u64);

impl View for ThreadId {
    type V = u64;

    closed spec fn view(&self) -> u64 {
        self.0
    }
}

/// The identity of the thread that boots the kernel.
pub const INIT_THREAD_ID: u64 = 1;

/// The identity given to the first thread created after boot.
pub const FIRST_THREAD_ID: u64 = 2;

/// Source of fresh thread identities: the next one to give out.
pub struct ThreadIdCounter {
    next: u64,
}

impl View for ThreadIdCounter {
    type V = u64;

    closed spec fn view(&self) -> u64 {
        self.next
    }
}

impl ThreadIdCounter {
    /// A counter that starts right after the boot thread's identity.
    pub fn new() -> (r: Self)
        ensures
            r@ == FIRST_THREAD_ID,
    {
        ThreadIdCounter { next: FIRST_THREAD_ID }
    }
}

/// The identity that the `i`-th call gives out on a counter at `next`
/// (the counter wraps around like an atomic `fetch_add`).
pub open spec fn issued_id(next: u64, i: nat) -> u64 {
    ((next + i) % 0x1_0000_0000_0000_0000) as u64
}

impl ThreadId {
    /// The identity as a number.
    pub fn as_u64(&self) -> (r: u64)
        ensures
            r == self@,
    {
        self.0
    }

    /// Takes the next identity from the counter.
    pub fn new(counter: &mut ThreadIdCounter) -> (r: Self)
        ensures
            r@ == old(counter)@,
            final(counter)@ == issued_id(old(counter)@, 1),
    {
        let id = counter.next;
        counter.next = counter.next.wrapping_add(1);
        ThreadId(id)
    }
}

/// Identities are never given out twice within one turn of the counter:
/// the `i`-th and `j`-th calls on a counter give different identities, and
/// none gives the boot thread's identity while the counter has not wrapped
/// past it.
pub proof fn lemma_issued_ids_distinct(next: u64, i: nat, j: nat)
    requires
        i < j < 0x1_0000_0000_0000_0000,
    ensures
        issued_id(next, i) != issued_id(next, j),
        FIRST_THREAD_ID <= next && next + j < 0x1_0000_0000_0000_0000 ==> issued_id(next, j)
            != INIT_THREAD_ID,
{
}

/// Two threads created one after the other by `Thread::new` (or two calls of
/// `ThreadId::new`), with no other identity taken in between, get
/// consecutive identities, both above the boot thread's, whenever the
/// counter is at 2 or more and below its maximum.
pub proof fn lemma_consecutive_ids(next: u64)
    requires
        FIRST_THREAD_ID <= next < u64::MAX,
    ensures
        issued_id(next, 0) == next,
        issued_id(issued_id(next, 1), 0) == next + 1,
        issued_id(next, 0) != INIT_THREAD_ID,
        issued_id(issued_id(next, 1), 0) != INIT_THREAD_ID,
{
}

/// A counter made by `ThreadIdCounter::new` gives out 2, 3, 4, ... in
/// turn: its `i`-th identity is `2 + i`, so identities are strictly
/// increasing, pairwise distinct and never the boot thread's, until the
/// counter wraps after 2^64 - 2 identities.
pub proof fn lemma_fresh_counter_ids(i: nat, j: nat)
    requires
        i < j,
        FIRST_THREAD_ID + j < 0x1_0000_0000_0000_0000,
    ensures
        issued_id(FIRST_THREAD_ID, i) == FIRST_THREAD_ID + i,
        issued_id(FIRST_THREAD_ID, i) < issued_id(FIRST_THREAD_ID, j),
        issued_id(FIRST_THREAD_ID, i) != INIT_THREAD_ID,
        issued_id(FIRST_THREAD_ID, j) != INIT_THREAD_ID,
{
}

/// One call moves the counter on by one identity.
pub proof fn lemma_issued_id_step(next: u64, i: nat)
    ensures
        issued_id(issued_id(next, 1), i) == issued_id(next, i + 1),
{
}

/// The stack tops from which `Thread::new` can set up a stack: two 8-byte
/// steps down stay accepted by `VirtAddr::new`.
pub open spec fn stack_top_accepted(top: int) -> bool {
    &&& 8 <= top
    &&& virt_addr_accepts(top - 8)
    &&& 8 <= canonicalize(top - 8)
    &&& virt_addr_accepts(canonicalize(top - 8) - 8)
}

/// Whether `Thread::new` can set up a stack that ends at `top`.
pub fn stack_top_is_accepted(top: u64) -> (r: bool)
    ensures
        r == stack_top_accepted(top as int),
{
    if top < 8 || !virt_addr_accepted(top - 8) {
        return false;
    }
    let slot = virt_addr_new(top - 8);
    slot >= 8 && virt_addr_accepted(slot - 8)
}

/// Where a new thread's entry point is stored: 8 bytes below the stack top.
pub open spec fn entry_slot(top: int) -> int {
    canonicalize(top - 8)
}

/// The stack pointer a new thread starts with: below its entry slot.
pub open spec fn initial_stack_pointer(top: int) -> int {
    canonicalize(entry_slot(top) - 8)
}

/// The layout of a new thread's stack: for every accepted stack top the
/// saved stack pointer lies exactly 8 bytes below the entry slot, which
/// lies 8 bytes below the top (after sign extension); for a top in the
/// lower half the slot is `top - 8` and the stack pointer `top - 16`.
pub proof fn lemma_stack_layout(top: u64)
    requires
        stack_top_accepted(top as int),
    ensures
        initial_stack_pointer(top as int) == entry_slot(top as int) - 8,
        entry_slot(top as int) == canonicalize(top - 8),
        top <= 0x8000_0000_0000 ==> entry_slot(top as int) == top - 8
            && initial_stack_pointer(top as int) == top - 16,
{
}

/// A thread: its identity and the registers saved when it is not running.
#[derive(Debug)]
pub struct Thread {
    id: ThreadId,
    context: Context,
}

impl Thread {
    pub closed spec fn thread_id(&self) -> ThreadId {
        self.id
    }

    pub closed spec fn saved_context(&self) -> Context {
        self.context
    }

    /// The thread that boots the kernel, with all registers zero.
    pub fn new_init() -> (r: Self)
        ensures
            r.thread_id()@ == INIT_THREAD_ID,
            r.saved_context().is_zero(),
    {
        Thread { id: ThreadId(INIT_THREAD_ID), context: Context::default() }
    }

    /// A new thread, with a fresh identity from `counter`, whose stack ends
    /// at `stack_top`. Returns the thread and the address where its entry
    /// point must be stored; its saved stack pointer lies 8 bytes below that
    /// slot.
    pub fn new(counter: &mut ThreadIdCounter, stack_top: u64) -> (r: (Thread, u64))
        requires
            stack_top_accepted(stack_top as int),
        ensures
            r.0.thread_id()@ == old(counter)@,
            final(counter)@ == issued_id(old(counter)@, 1),
            r.0.saved_context().rsp as int == r.1 as int - 8,
            stack_top <= 0x8000_0000_0000 ==> r.1 == stack_top - 8
                && r.0.saved_context().rsp == stack_top - 16,
            r.1 as int == entry_slot(stack_top as int),
            r.0.saved_context().rsp as int == initial_stack_pointer(stack_top as int),
            r.0.saved_context().rbp == 0,
            r.0.saved_context().rbx == 0,
            r.0.saved_context().r12 == 0,
            r.0.saved_context().r13 == 0,
            r.0.saved_context().r14 == 0,
            r.0.saved_context().r15 == 0,
    {
        let mut stack_pointer = stack_top;
        stack_pointer = virt_addr_sub(stack_pointer, 8);
        let entry = stack_pointer;
        stack_pointer = virt_addr_sub(stack_pointer, 8);
        let id = ThreadId::new(counter);
        let mut thread = Thread { id, context: Context::default() };
        thread.context.rsp = stack_pointer;
        (thread, entry)
    }

    /// The thread's identity.
    pub fn id(&self) -> (r: ThreadId)
        ensures
            r == self.thread_id(),
    {
        self.id
    }

    /// The registers saved for the thread.
    pub fn context(&self) -> (r: &Context)
        ensures
            *r == self.saved_context(),
    {
        &self.context
    }

    /// The registers saved for the thread, for the switch routine to fill.
    pub fn context_mut(&mut self) -> (r: &mut Context)
        ensures
            *r == old(self).saved_context(),
            final(self).thread_id() == old(self).thread_id(),
            final(self).saved_context() == *final(r),
    {
        &mut self.context
    }
}

} // verus!
