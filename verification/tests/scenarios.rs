use rcore_thread::condvar::{Condvar, WaitAction};
use rcore_thread::ipi::{IpiBus, IpiWait};
use rcore_thread::process::Kernel;
use rcore_thread::processor::{Processor, RunAction};
use rcore_thread::semaphore::{Acquire, Semaphore};
use rcore_thread::spin::{LockKind, SpinLock};
use rcore_thread::syscall::{sys_exit, sys_fork, sys_nanosleep, sys_wait4, Wait4};
use rcore_thread::thread_pool::{Status, ThreadPool};

fn processor<C>(id: usize, loop_context: C) -> Processor<C> {
    let mut cpu = Processor::new();
    cpu.init(id, loop_context);
    cpu
}

#[test]
fn four_threads_count_to_four_thousand_under_a_lock() {
    // the context of a thread is the number of increments it has made
    let mut pool: ThreadPool<u32> = ThreadPool::new(5);
    let mut cpu = processor(0, 0);
    let mut lock = SpinLock::new(LockKind::SpinNoIrq);
    let mut counter = 0;
    let mut handles = Vec::new();
    for _ in 0..4 {
        let tid = pool.add(0);
        handles.push(pool.acquire(tid).unwrap());
    }
    let mut switches = 0;
    while let RunAction::Switch(tid) = cpu.run(&mut pool) {
        switches += 1;
        let mut made = *cpu.context();
        loop {
            if made == 1000 {
                pool.exit(tid, 0);
                cpu.yield_now();
                break;
            }
            assert!(lock.try_lock(0x200));
            counter += 1;
            assert_eq!(lock.unlock(), Some(0x200));
            made += 1;
            cpu.replace_context(made);
            if cpu.tick(&mut pool) {
                break;
            }
        }
    }
    assert_eq!(counter, 4000);
    // every thread was preempted when its slice of 5 ticks was used up
    assert_eq!(switches, 4 * (200 + 1));
    for handle in handles {
        assert_eq!(pool.get_status(handle.id()), Some(Status::Exited(0)));
        pool.release(handle);
    }
    assert_eq!(pool.get_status(0), None);
}

struct Channel {
    slot: Option<u32>,
    mutex: SpinLock,
    not_empty: Condvar,
    not_full: Condvar,
}

#[test]
fn producer_and_consumer_pass_ten_thousand_items_in_order() {
    const ITEMS: u32 = 10_000;
    let mut pool: ThreadPool<u32> = ThreadPool::new(3);
    let mut cpu = processor(0, 0);
    let producer = pool.add(0);
    let consumer = pool.add(0);
    let mut channel = Channel {
        slot: None,
        mutex: SpinLock::new(LockKind::Spin),
        not_empty: Condvar::new(),
        not_full: Condvar::new(),
    };
    let mut sent = 0;
    let mut received = Vec::new();
    let mut consumer_was_parked = false;
    let mut finished = 0;
    loop {
        let tid = match cpu.run(&mut pool) {
            RunAction::Switch(tid) => tid,
            RunAction::Idle => break,
        };
        loop {
            // on every path the mutex is free when a thread leaves the cpu
            assert!(channel.mutex.try_lock(0));
            if tid == producer {
                if sent == ITEMS {
                    channel.mutex.unlock();
                    pool.exit(tid, 0);
                    finished += 1;
                    cpu.yield_now();
                    break;
                }
                if channel.slot.is_some() {
                    let action = channel.not_full.wait(&mut pool, tid, &mut channel.mutex);
                    assert_eq!(action, WaitAction::Park(None));
                    cpu.yield_now();
                    break;
                }
                channel.slot = Some(sent);
                sent += 1;
                channel.not_empty.notify_one(&mut pool);
            } else {
                if received.len() as u32 == ITEMS {
                    channel.mutex.unlock();
                    pool.exit(tid, 0);
                    finished += 1;
                    cpu.yield_now();
                    break;
                }
                match channel.slot.take() {
                    Some(item) => {
                        received.push(item);
                        consumer_was_parked = false;
                        channel.not_full.notify_one(&mut pool);
                    }
                    None => {
                        // the consumer never spins: it finds the slot empty
                        // only when it has not just been woken for an item
                        assert!(!consumer_was_parked);
                        let action = channel.not_empty.wait(&mut pool, tid, &mut channel.mutex);
                        assert_eq!(action, WaitAction::Park(None));
                        consumer_was_parked = true;
                        cpu.yield_now();
                        break;
                    }
                }
            }
            channel.mutex.unlock();
            if cpu.tick(&mut pool) {
                break;
            }
        }
    }
    assert_eq!(finished, 2);
    assert_eq!(received.len() as u32, ITEMS);
    assert!(received.iter().enumerate().all(|(i, item)| *item == i as u32));
    assert_eq!(pool.get_status(consumer), None);
    assert_eq!(pool.get_status(producer), None);
}

#[test]
fn parent_waits_for_a_child_that_exits_with_42() {
    let mut kernel: Kernel<u8> = Kernel::new(5);
    let (_, parent) = kernel.spawn(0);
    let child = sys_fork(&mut kernel, parent, 0).unwrap();
    assert_eq!(sys_exit(&mut kernel, child, 42), Ok(0));
    assert_eq!(sys_wait4(&mut kernel, parent, -1, Ok(())), Ok(Wait4::Exited(child, 42)));
}

#[test]
fn a_sleep_of_100_ms_ends_after_10_to_12_ticks() {
    let mut kernel: Kernel<u8> = Kernel::new(5);
    let (_, tid) = kernel.spawn(0);
    let mut cpu = processor(0, 0);
    assert_eq!(cpu.run(&mut kernel.pool), RunAction::Switch(tid));
    assert_eq!(sys_nanosleep(&mut kernel, tid, Ok(()), 0, 100_000_000), Ok(0));
    cpu.yield_now();
    assert_eq!(cpu.run(&mut kernel.pool), RunAction::Idle);
    let mut ticks = 0;
    while kernel.pool.get_status(tid) != Some(Status::Ready) {
        assert_eq!(kernel.pool.get_status(tid), Some(Status::Sleeping));
        cpu.tick(&mut kernel.pool);
        ticks += 1;
        assert!(ticks <= 12);
    }
    assert!(ticks >= 10);
    assert_eq!(ticks, 10);
    assert_eq!(cpu.run(&mut kernel.pool), RunAction::Switch(tid));
}

#[derive(Clone, Copy, PartialEq, Debug)]
enum Worker {
    Outside,
    Inside(u32),
}

#[test]
fn a_semaphore_of_three_lets_at_most_three_in() {
    let mut pool: ThreadPool<Worker> = ThreadPool::new(2);
    let mut cpus: Vec<Processor<Worker>> = (0..4).map(|id| processor(id, Worker::Outside)).collect();
    let mut sem = Semaphore::new(3);
    let mut inside = 0;
    let mut most = 0;
    let mut completed = 0;
    for _ in 0..100 {
        pool.add(Worker::Outside);
    }
    let mut idle_rounds = 0;
    while completed < 100 {
        let mut idle = 0;
        for cpu in cpus.iter_mut() {
            if cpu.current().is_none() || !pool_thread_runs(cpu) {
                if cpu.run(&mut pool) == RunAction::Idle {
                    idle += 1;
                    continue;
                }
            }
            let tid = cpu.tid();
            match *cpu.context() {
                Worker::Outside => match sem.acquire(&mut pool, tid) {
                    Acquire::Acquired => {
                        inside += 1;
                        most = most.max(inside);
                        assert!(inside <= 3);
                        cpu.replace_context(Worker::Inside(3));
                    }
                    Acquire::Parked => {
                        cpu.yield_now();
                        continue;
                    }
                    Acquire::Retry => panic!("the caller is a thread of the pool"),
                },
                Worker::Inside(0) => {
                    inside -= 1;
                    sem.release(&mut pool);
                    pool.exit(tid, 0);
                    completed += 1;
                    cpu.yield_now();
                    continue;
                }
                Worker::Inside(n) => {
                    cpu.replace_context(Worker::Inside(n - 1));
                }
            }
            cpu.tick(&mut pool);
        }
        idle_rounds = if idle == 4 { idle_rounds + 1 } else { 0 };
        assert!(idle_rounds < 3, "all cpus idle while threads are left");
    }
    assert_eq!(completed, 100);
    assert_eq!(most, 3);
    assert_eq!(inside, 0);
    assert_eq!(sem.permits(), 3);
}

fn pool_thread_runs<C>(cpu: &Processor<C>) -> bool {
    cpu.is_on_thread()
}

#[test]
fn a_broadcast_to_four_cpus_returns_after_all_four_calls() {
    let mut pool: ThreadPool<u8> = ThreadPool::new(5);
    let caller = pool.add(0);
    let mut cpus: Vec<Processor<u8>> = (0..4).map(|id| processor(id, 0)).collect();
    assert_eq!(cpus[0].run(&mut pool), RunAction::Switch(caller));
    let mut bus: IpiBus<&'static str> = IpiBus::new(4);
    let id = bus.invoke_on_allcpu("flush", true);
    let mut invoked = 0;
    let mut returned = false;
    // the caller asks, is parked, and its cpu goes on to serve interrupts
    for cpu in [2, 0, 3, 1] {
        match bus.wait(&mut pool, caller, id) {
            IpiWait::Done => returned = true,
            IpiWait::Parked => {
                if cpus[0].is_on_thread() {
                    cpus[0].yield_now();
                }
                assert_eq!(cpus[0].run(&mut pool), RunAction::Idle);
            }
            IpiWait::Retry => panic!("the caller is a thread of the pool"),
        }
        assert!(!returned);
        let event = bus.next_event(cpu).unwrap();
        assert_eq!(event.event, "flush");
        invoked += 1;
        bus.done(&mut pool, event.broadcast);
        assert_eq!(cpus[0].run(&mut pool), RunAction::Switch(caller));
    }
    assert_eq!(bus.wait(&mut pool, caller, id), IpiWait::Done);
    assert_eq!(invoked, 4);
}
