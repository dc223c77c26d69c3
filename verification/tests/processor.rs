use rcore_thread::processor::{Processor, RunAction};
use rcore_thread::thread_pool::{Status, ThreadPool};

fn cpu(id: usize) -> Processor<&'static str> {
    let mut cpu = Processor::new();
    cpu.init(id, "loop");
    cpu
}

#[test]
fn run_takes_the_next_thread_or_idles() {
    let mut pool: ThreadPool<&'static str> = ThreadPool::new(5);
    let mut cpu = cpu(0);
    assert_eq!(cpu.id(), 0);
    assert_eq!(cpu.current(), None);
    assert_eq!(cpu.run(&mut pool), RunAction::Idle);
    let a = pool.add("a");
    assert_eq!(cpu.run(&mut pool), RunAction::Switch(a));
    assert_eq!(cpu.tid(), a);
    assert_eq!(cpu.current(), Some(a));
    assert_eq!(*cpu.context(), "a");
    assert_eq!(pool.get_status(a), Some(Status::Running(0)));
}

#[test]
fn run_hands_the_thread_that_yielded_back() {
    let mut pool: ThreadPool<&'static str> = ThreadPool::new(5);
    let mut cpu = cpu(0);
    let a = pool.add("a");
    let b = pool.add("b");
    assert_eq!(cpu.run(&mut pool), RunAction::Switch(a));
    cpu.yield_now();
    assert_eq!(cpu.run(&mut pool), RunAction::Switch(b));
    assert_eq!(pool.get_status(a), Some(Status::Ready));
    cpu.yield_now();
    assert_eq!(cpu.run(&mut pool), RunAction::Switch(a));
}

#[test]
fn a_thread_alone_is_taken_again_at_once() {
    let mut pool: ThreadPool<&'static str> = ThreadPool::new(5);
    let mut cpu = cpu(3);
    let a = pool.add("a");
    assert_eq!(cpu.run(&mut pool), RunAction::Switch(a));
    cpu.yield_now();
    assert_eq!(cpu.run(&mut pool), RunAction::Switch(a));
    assert_eq!(pool.get_status(a), Some(Status::Running(3)));
}

#[test]
fn tick_on_an_idle_processor_does_nothing() {
    let mut pool: ThreadPool<&'static str> = ThreadPool::new(1);
    let mut cpu = cpu(0);
    assert!(!cpu.tick(&mut pool));
    assert_eq!(cpu.run(&mut pool), RunAction::Idle);
}

#[test]
fn tick_preempts_when_the_slice_is_used_up() {
    let mut pool: ThreadPool<&'static str> = ThreadPool::new(2);
    let mut cpu = cpu(0);
    let a = pool.add("a");
    let b = pool.add("b");
    assert_eq!(cpu.run(&mut pool), RunAction::Switch(a));
    assert!(!cpu.tick(&mut pool));
    assert!(cpu.tick(&mut pool));
    // the thread has given up the cpu: the loop takes it back and goes on
    assert_eq!(cpu.run(&mut pool), RunAction::Switch(b));
    assert_eq!(pool.get_status(a), Some(Status::Ready));
}

#[test]
fn two_processors_never_hold_the_same_thread() {
    let mut pool: ThreadPool<&'static str> = ThreadPool::new(2);
    let mut cpu0 = cpu(0);
    let mut cpu1 = cpu(1);
    pool.add("a");
    pool.add("b");
    pool.add("c");
    for round in 0..20 {
        if round % 3 != 0 {
            cpu0.run(&mut pool);
        }
        if round % 2 == 0 {
            cpu1.run(&mut pool);
        }
        match (cpu0.current(), cpu1.current()) {
            (Some(x), Some(y)) => assert_ne!(x, y),
            _ => {}
        }
        if let Some(x) = cpu0.current() {
            assert_eq!(pool.get_status(x), Some(Status::Running(0)));
        }
        if let Some(y) = cpu1.current() {
            assert_eq!(pool.get_status(y), Some(Status::Running(1)));
        }
        cpu0.tick(&mut pool);
        cpu1.tick(&mut pool);
    }
}

#[test]
fn replace_context_keeps_the_thread_id() {
    let mut pool: ThreadPool<&'static str> = ThreadPool::new(2);
    let mut cpu = cpu(0);
    let a = pool.add("old");
    cpu.run(&mut pool);
    assert_eq!(cpu.replace_context("new"), "old");
    assert_eq!(cpu.tid(), a);
    assert_eq!(*cpu.context(), "new");
    cpu.yield_now();
    pool.add("other");
    cpu.run(&mut pool);
    cpu.yield_now();
    assert_eq!(cpu.run(&mut pool), RunAction::Switch(a));
    assert_eq!(*cpu.context(), "new");
}

#[test]
fn round_robin_reaches_every_thread_within_n_slices() {
    let slice = 4;
    let n = 5;
    let mut pool: ThreadPool<&'static str> = ThreadPool::new(slice);
    let mut cpu = cpu(0);
    let mut seen = vec![false; n];
    for _ in 0..n {
        pool.add("t");
    }
    let mut ticks = 0;
    loop {
        if let RunAction::Switch(tid) = cpu.run(&mut pool) {
            seen[tid] = true;
        }
        if seen.iter().all(|s| *s) {
            break;
        }
        while !cpu.tick(&mut pool) {
            ticks += 1;
        }
        ticks += 1;
    }
    assert!(ticks <= n * slice);
    assert_eq!(ticks, (n - 1) * slice);
}

#[test]
fn a_yield_on_top_of_a_preemption_is_harmless() {
    let mut pool: ThreadPool<&'static str> = ThreadPool::new(1);
    let mut cpu = cpu(0);
    let a = pool.add("a");
    let b = pool.add("b");
    assert_eq!(cpu.run(&mut pool), RunAction::Switch(a));
    assert!(cpu.tick(&mut pool));
    assert!(!cpu.is_on_thread());
    cpu.yield_now();
    cpu.yield_now();
    assert_eq!(cpu.run(&mut pool), RunAction::Switch(b));
    assert_eq!(pool.get_status(a), Some(Status::Ready));
    assert_eq!(pool.ready_count(), 1);
    cpu.yield_now();
    assert_eq!(cpu.run(&mut pool), RunAction::Switch(a));
    assert!(cpu.is_on_thread());
    assert!(cpu.initialized());
    assert!(!Processor::<u8>::new().initialized());
}

#[test]
fn the_switch_sees_both_contexts() {
    let mut pool: ThreadPool<u32> = ThreadPool::new(1);
    let mut cpu: Processor<u32> = Processor::new();
    cpu.init(2, 1000);
    let a = pool.add(7);
    assert_eq!(cpu.run(&mut pool), RunAction::Switch(a));
    {
        let (loop_context, context) = cpu.contexts_mut();
        assert_eq!((*loop_context, *context), (1000, 7));
        *loop_context += 1;
        *context += 1;
    }
    assert_eq!(*cpu.context(), 8);
    cpu.yield_now();
    assert_eq!(cpu.run(&mut pool), RunAction::Switch(a));
    assert_eq!(*cpu.context(), 8);
    assert_eq!(cpu.id(), 2);
}
