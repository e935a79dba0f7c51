use rust_os::common::once::UnsafeOnceCell;
use rust_os::thread::init;
use rust_os::thread::schedule::{push, schedule, start, Scheduler};
use rust_os::thread::thread::{stack_top_is_accepted, Context, Thread, ThreadId, ThreadIdCounter, INIT_THREAD_ID};

#[test]
fn boot_thread_has_identity_one_and_zero_registers() {
    let t = Thread::new_init();
    assert_eq!(t.id().as_u64(), INIT_THREAD_ID);
    assert_eq!(t.context().rsp, 0);
    assert_eq!(t.context().r15, 0);
}

#[test]
fn thread_ids_count_up_from_two() {
    let mut counter = ThreadIdCounter::new();
    let a = ThreadId::new(&mut counter);
    let b = ThreadId::new(&mut counter);
    let c = ThreadId::new(&mut counter);
    assert_eq!((a.as_u64(), b.as_u64(), c.as_u64()), (2, 3, 4));
    assert!(a < b && b < c);
}

#[test]
fn new_thread_stack_layout() {
    let mut counter = ThreadIdCounter::new();
    let (thread, entry) = Thread::new(&mut counter, 0x2000_0000_2000);
    assert_eq!(entry, 0x2000_0000_1ff8);
    assert_eq!(thread.context().rsp, 0x2000_0000_1ff0);
    assert_eq!(thread.context().rbp, 0);
    assert_eq!(thread.id().as_u64(), 2);
    assert_eq!(ThreadId::new(&mut counter).as_u64(), 3);
}

#[test]
fn new_thread_stack_in_the_upper_half() {
    let (thread, entry) = Thread::new(&mut ThreadIdCounter::new(), 0xffff_8000_0000_1000);
    assert_eq!(entry, 0xffff_8000_0000_0ff8);
    assert_eq!(thread.context().rsp, 0xffff_8000_0000_0ff0);
}

#[test]
fn context_mut_updates_the_saved_registers() {
    let mut t = Thread::new_init();
    t.context_mut().rbx = 7;
    assert_eq!(t.context().rbx, 7);
    let c = Context::default();
    assert_eq!(c.rsp + c.rbp + c.r12 + c.r13 + c.r14, 0);
}

#[test]
fn schedule_with_empty_queue_does_nothing() {
    let mut s: Scheduler<u64> = start(1);
    assert_eq!(schedule(&mut s), None);
    assert_eq!(s.current_thread(), 1);
    assert_eq!(s.queue_len(), 0);
}

#[test]
fn schedule_is_round_robin() {
    let mut s: Scheduler<u64> = init(1);
    push(&mut s, 2);
    push(&mut s, 3);
    assert_eq!(s.current_thread(), 1);
    assert_eq!(schedule(&mut s), Some((1, 2)));
    assert_eq!(s.current_thread(), 2);
    assert_eq!(schedule(&mut s), Some((2, 3)));
    assert_eq!(schedule(&mut s), Some((3, 1)));
    assert_eq!(s.current_thread(), 1);
    assert_eq!(s.queue_len(), 2);
    assert_eq!(s.schedule(), Some((1, 2)));
}

#[test]
fn pushed_thread_runs_after_the_waiting_ones() {
    let mut s = Scheduler::new(Thread::new_init().id());
    let mut counter = ThreadIdCounter::new();
    let a = ThreadId::new(&mut counter);
    let b = ThreadId::new(&mut counter);
    s.push(a);
    assert_eq!(s.schedule().map(|(prev, next)| (prev.as_u64(), next.as_u64())), Some((1, 2)));
    s.push(b);
    assert_eq!(s.schedule().map(|(prev, next)| (prev.as_u64(), next.as_u64())), Some((2, 1)));
    assert_eq!(s.schedule().map(|(prev, next)| (prev.as_u64(), next.as_u64())), Some((1, 3)));
}

#[test]
fn once_cell_read_gives_back_the_written_value() {
    let mut cell = UnsafeOnceCell::new();
    assert!(!cell.is_initialized());
    cell.init(41u32);
    assert!(cell.is_initialized());
    assert_eq!(*cell.get(), 41);
    cell.init(42);
    assert_eq!(*cell.get(), 42);
}

#[test]
fn stack_top_acceptance() {
    assert!(stack_top_is_accepted(0x2000_0000_2000));
    assert!(stack_top_is_accepted(0xffff_8000_0000_1000));
    assert!(!stack_top_is_accepted(0));
    assert!(!stack_top_is_accepted(0xffff_8000_0000_0000));
    assert!(!stack_top_is_accepted(0x1_0000_0000_0008));
}

#[test]
fn once_cell_never_drops_its_value() {
    let value = std::rc::Rc::new(5);
    let mut cell = UnsafeOnceCell::new();
    cell.init(value.clone());
    cell.init(value.clone());
    assert_eq!(std::rc::Rc::strong_count(&value), 3);
    assert_eq!(**cell.get(), 5);
    drop(cell);
    assert_eq!(std::rc::Rc::strong_count(&value), 3);
}

#[test]
fn threads_created_in_turn_get_consecutive_fresh_ids() {
    let mut counter = ThreadIdCounter::new();
    let (t1, _) = Thread::new(&mut counter, 0x2000_0000_2000);
    let (t2, _) = Thread::new(&mut counter, 0x2000_0000_4000);
    assert_ne!(t1.id(), t2.id());
    assert_eq!(t2.id().as_u64(), t1.id().as_u64() + 1);
    assert_ne!(t1.id(), Thread::new_init().id());
    assert_ne!(t2.id(), Thread::new_init().id());
}
