use lib::green_threads::{Scheduler, ThreadState, STACK_SIZE};

const TRAMPOLINE: usize = 0x8000_1000;

fn states(s: &Scheduler<&'static str>) -> Vec<ThreadState> {
    (0..s.thread_count()).map(|i| s.state(i)).collect()
}

#[test]
fn new_scheduler_has_only_the_running_main_thread() {
    let s: Scheduler<&'static str> = Scheduler::new();
    assert_eq!(s.thread_count(), 1);
    assert_eq!(s.current(), 0);
    assert_eq!(s.state(0), ThreadState::Running);
    assert_eq!(s.context(0).sp, 0);
    assert_eq!(s.context(0).ra, 0);
    assert!(s.all_finished());
}

#[test]
fn spawn_adds_a_ready_thread_with_its_stack_and_trampoline() {
    let mut s = Scheduler::new();
    s.spawn("a", TRAMPOLINE);
    s.spawn("b", TRAMPOLINE + 4);
    assert_eq!(s.thread_count(), 3);
    assert_eq!(states(&s), vec![ThreadState::Running, ThreadState::Ready, ThreadState::Ready]);
    assert_eq!(s.current(), 0);
    let c1 = s.context(1);
    assert_eq!(c1.ra, TRAMPOLINE as u64);
    assert_eq!(c1.sp % 16, 0);
    assert!(c1.sp != 0);
    assert_eq!(c1.s0, 0);
    assert_eq!(s.context(2).ra, (TRAMPOLINE + 4) as u64);
    // The two stacks are distinct buffers of STACK_SIZE bytes.
    let (a, b) = (s.context(1).sp, s.context(2).sp);
    assert!(a.abs_diff(b) >= STACK_SIZE as u64 - 16);
    assert!(!s.all_finished());
}

#[test]
fn lone_main_thread_is_never_switched() {
    let mut s: Scheduler<&'static str> = Scheduler::new();
    assert!(s.schedule_next().is_none());
    assert_eq!(s.current(), 0);
    assert_eq!(s.state(0), ThreadState::Running);
}

#[test]
fn round_robin_visits_threads_in_order_and_hands_out_entries_once() {
    let mut s = Scheduler::new();
    s.spawn("a", TRAMPOLINE);
    s.spawn("b", TRAMPOLINE);

    let d = s.schedule_next().unwrap();
    assert_eq!((d.from, d.to, d.entry), (0, 1, Some("a")));
    assert_eq!(s.current(), 1);
    assert_eq!(states(&s), vec![ThreadState::Ready, ThreadState::Running, ThreadState::Ready]);

    let d = s.schedule_next().unwrap();
    assert_eq!((d.from, d.to, d.entry), (1, 2, Some("b")));
    assert_eq!(states(&s), vec![ThreadState::Ready, ThreadState::Ready, ThreadState::Running]);

    let d = s.schedule_next().unwrap();
    assert_eq!((d.from, d.to, d.entry), (2, 0, None));
    assert_eq!(states(&s), vec![ThreadState::Running, ThreadState::Ready, ThreadState::Ready]);

    // Thread 1 runs again: its entry was handed out the first time.
    let d = s.schedule_next().unwrap();
    assert_eq!((d.from, d.to, d.entry), (0, 1, None));
}

#[test]
fn finished_threads_are_skipped() {
    let mut s = Scheduler::new();
    s.spawn("a", TRAMPOLINE);
    s.spawn("b", TRAMPOLINE);
    s.spawn("c", TRAMPOLINE);
    let d = s.schedule_next().unwrap();
    assert_eq!(d.to, 1);
    // Thread 1 finishes: the next ready thread after it is 2.
    let d = s.thread_finished().unwrap();
    assert_eq!((d.from, d.to, d.entry), (1, 2, Some("b")));
    assert_eq!(s.state(1), ThreadState::Finished);
    let d = s.schedule_next().unwrap();
    assert_eq!((d.from, d.to, d.entry), (2, 3, Some("c")));
    // From 3 the walk goes 0 (ready), skipping nothing; then from 0 it skips 1.
    let d = s.schedule_next().unwrap();
    assert_eq!(d.to, 0);
    let d = s.schedule_next().unwrap();
    assert_eq!((d.from, d.to), (0, 2));
    assert_eq!(s.state(1), ThreadState::Finished);
}

#[test]
fn nothing_ready_means_no_switch() {
    let mut s = Scheduler::new();
    s.spawn("a", TRAMPOLINE);
    let d = s.schedule_next().unwrap();
    assert_eq!(d.to, 1);
    // The main thread is ready; thread 1 finishes and control goes back to it.
    let d = s.thread_finished().unwrap();
    assert_eq!((d.from, d.to, d.entry), (1, 0, None));
    assert!(s.all_finished());
    // Only the running main thread is left: no thread is ready.
    assert!(s.schedule_next().is_none());
    assert_eq!(states(&s), vec![ThreadState::Running, ThreadState::Finished]);
}

#[test]
fn current_thread_is_picked_again_only_when_ready() {
    let mut s = Scheduler::new();
    s.spawn("a", TRAMPOLINE);
    s.schedule_next().unwrap();
    // With the main thread finished too, thread 1 runs and nothing else is ready.
    let d = s.schedule_next().unwrap();
    assert_eq!(d.to, 0);
    let d = s.thread_finished().unwrap();
    assert_eq!((d.from, d.to), (0, 1));
    assert!(s.schedule_next().is_none());
    assert_eq!(s.current(), 1);
}

// The decisions taken for two tasks that yield, the first twice and the second once, as the
// run loop takes them: the main thread dispatches until every spawned thread has finished.
#[test]
fn run_loop_decisions_for_two_yielding_tasks() {
    let mut s = Scheduler::new();
    s.spawn("a", TRAMPOLINE);
    s.spawn("b", TRAMPOLINE);
    let mut order = Vec::new();
    // Each run of a task up to its next yield adds to a counter as the tasks of the original
    // test do: a adds 1, 10, 100 and b adds 1, 10; the total is 122. A dispatch back to the
    // main thread ends the inner walk, and the main thread's loop dispatches again.
    let mut exec_order = 0;
    let mut a_steps = 0;
    let mut b_steps = 0;
    let mut guard = 0;
    while !s.all_finished() {
        guard += 1;
        assert!(guard < 100);
        let d = s.schedule_next().unwrap();
        let mut running = d.to;
        loop {
            order.push(running);
            let next = match running {
                1 => {
                    exec_order += [1, 10, 100][a_steps];
                    a_steps += 1;
                    if a_steps == 3 { s.thread_finished() } else { s.schedule_next() }
                }
                2 => {
                    exec_order += [1, 10][b_steps];
                    b_steps += 1;
                    if b_steps == 2 { s.thread_finished() } else { s.schedule_next() }
                }
                _ => None,
            };
            match next {
                Some(d) if d.to != 0 => running = d.to,
                _ => break,
            }
        }
    }
    assert_eq!(a_steps, 3);
    assert_eq!(b_steps, 2);
    assert_eq!(order, vec![1, 2, 1, 2, 1]);
    assert_eq!(exec_order, 122);
    assert!(s.all_finished());
}

#[test]
fn context_mut_writes_the_saved_registers() {
    let mut s = Scheduler::new();
    s.spawn("a", TRAMPOLINE);
    {
        let c = s.context_mut(1);
        c.s3 = 33;
        c.sp = 0x100;
    }
    assert_eq!(s.context(1).s3, 33);
    assert_eq!(s.context(1).sp, 0x100);
    assert_eq!(s.context(1).ra, TRAMPOLINE as u64);
    assert_eq!(s.context(0).s3, 0);
}

#[test]
fn a_waiting_thread_runs_within_n_minus_one_dispatches() {
    let mut s = Scheduler::new();
    for name in ["a", "b", "c", "d"] {
        s.spawn(name, TRAMPOLINE);
    }
    // Five threads; thread 4 waits ready while 1, 2 and 3 are dispatched before it.
    let mut picked = Vec::new();
    for _ in 0..4 {
        picked.push(s.schedule_next().unwrap().to);
    }
    assert_eq!(picked, vec![1, 2, 3, 4]);
}
