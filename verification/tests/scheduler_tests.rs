use pangea_kernel::scheduler::{initial_frame, Scheduler, Thread, INITIAL_FRAME_WORDS, STACK_SIZE};

#[test]
fn initial_frame_layout() {
    let f = initial_frame(0x9000, 0x1234);
    assert_eq!(f.len(), INITIAL_FRAME_WORDS);
    assert!(f[..15].iter().all(|&w| w == 0));
    assert_eq!(&f[15..], &[0x1234, 0x08, 0x202, 0x9000, 0]);
}

#[test]
fn new_thread_stack_pointer() {
    let t = Thread::new(7, 0x10_0000 + STACK_SIZE as u64);
    assert_eq!(t.id, 7);
    assert_eq!(t.rsp, 0x10_0000 + STACK_SIZE as u64 - 160);
    assert!(t.is_active);
}

#[test]
fn empty_scheduler_keeps_context() {
    let mut s = Scheduler::new();
    assert_eq!(s.next_task_rsp(0xabc), 0xabc);
    assert_eq!(s.current_idx, 0);
}

#[test]
fn single_thread_resumes_itself() {
    let mut s = Scheduler::new();
    s.spawn(Thread::new(1, 0x2000));
    assert_eq!(s.next_task_rsp(0x1500), 0x1500);
    assert_eq!(s.threads[0].rsp, 0x1500);
}

#[test]
fn round_robin_order_and_saved_contexts() {
    let mut s = Scheduler::new();
    s.spawn(Thread::new(1, 0x1000));
    s.spawn(Thread::new(2, 0x2000));
    s.spawn(Thread::new(3, 0x3000));
    // current is thread 0; switching saves into it and resumes thread 1
    assert_eq!(s.next_task_rsp(0xa0), 0x2000 - 160);
    assert_eq!(s.current_idx, 1);
    assert_eq!(s.next_task_rsp(0xb0), 0x3000 - 160);
    assert_eq!(s.current_idx, 2);
    // a full rotation later thread 0 resumes where it was saved
    assert_eq!(s.next_task_rsp(0xc0), 0xa0);
    assert_eq!(s.current_idx, 0);
    assert_eq!(s.next_task_rsp(0xd0), 0xb0);
    assert_eq!(s.threads[2].rsp, 0xc0);
    let ids: Vec<u64> = s.threads.iter().map(|t| t.id).collect();
    assert_eq!(ids, vec![1, 2, 3]);
}
