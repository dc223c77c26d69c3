use rcore_thread::scheduler::Scheduler;
use rcore_thread::thread_pool::{Status, ThreadPool};

#[test]
fn add_gives_the_lowest_free_id() {
    let mut pool: ThreadPool<u32> = ThreadPool::new(5);
    assert_eq!(pool.add(10), 0);
    assert_eq!(pool.add(11), 1);
    assert_eq!(pool.add(12), 2);
    assert_eq!(pool.get_status(1), Some(Status::Ready));
    pool.exit(1, 0);
    assert_eq!(pool.get_status(1), None);
    assert_eq!(pool.add(13), 1);
    assert_eq!(pool.add(14), 3);
}

#[test]
fn run_hands_out_the_context_and_stop_takes_it_back() {
    let mut pool: ThreadPool<u32> = ThreadPool::new(5);
    let a = pool.add(100);
    let b = pool.add(200);
    assert_eq!(pool.run(0), Some((a, 100)));
    assert_eq!(pool.get_status(a), Some(Status::Running(0)));
    assert_eq!(pool.run(1), Some((b, 200)));
    assert_eq!(pool.run(2), None);
    pool.stop(a, 101);
    assert_eq!(pool.get_status(a), Some(Status::Ready));
    assert_eq!(pool.run(3), Some((a, 101)));
}

#[test]
fn ready_queue_is_first_in_first_out() {
    let mut pool: ThreadPool<u8> = ThreadPool::new(5);
    let a = pool.add(1);
    let b = pool.add(2);
    let c = pool.add(3);
    assert_eq!(pool.ready_count(), 3);
    assert_eq!(pool.run(0).map(|p| p.0), Some(a));
    pool.stop(a, 1);
    assert_eq!(pool.run(0).map(|p| p.0), Some(b));
    assert_eq!(pool.run(0).map(|p| p.0), Some(c));
    assert_eq!(pool.run(0).map(|p| p.0), Some(a));
    assert_eq!(pool.ready_count(), 0);
}

#[test]
fn higher_priority_is_served_first() {
    let mut pool: ThreadPool<u8> = ThreadPool::new(5);
    let low = pool.add(1);
    let high = pool.add(2);
    let mid = pool.add(3);
    pool.set_priority(high, 9);
    pool.set_priority(mid, 4);
    assert_eq!(pool.priority(high), Some(9));
    assert_eq!(pool.priority(low), Some(0));
    assert_eq!(pool.priority(77), None);
    assert_eq!(pool.run(0).map(|p| p.0), Some(high));
    assert_eq!(pool.run(0).map(|p| p.0), Some(mid));
    assert_eq!(pool.run(0).map(|p| p.0), Some(low));
}

#[test]
fn affinity_binds_a_thread_to_its_cpu() {
    let mut pool: ThreadPool<u8> = ThreadPool::new(5);
    let bound = pool.add(1);
    let free = pool.add(2);
    pool.set_affinity(bound, Some(1));
    assert_eq!(pool.run(0).map(|p| p.0), Some(free));
    assert_eq!(pool.run(0), None);
    assert_eq!(pool.run(2), None);
    assert_eq!(pool.run(1).map(|p| p.0), Some(bound));
    pool.stop(bound, 1);
    pool.set_affinity(bound, None);
    assert_eq!(pool.run(0).map(|p| p.0), Some(bound));
}

#[test]
fn sleep_takes_a_ready_thread_out_of_the_queue() {
    let mut pool: ThreadPool<u8> = ThreadPool::new(5);
    let a = pool.add(1);
    pool.sleep(a);
    assert_eq!(pool.get_status(a), Some(Status::Sleeping));
    assert_eq!(pool.run(0), None);
    pool.wakeup(a);
    assert_eq!(pool.get_status(a), Some(Status::Ready));
    assert_eq!(pool.run(0), Some((a, 1)));
}

#[test]
fn sleep_of_a_running_thread_takes_effect_at_stop() {
    let mut pool: ThreadPool<u8> = ThreadPool::new(5);
    let a = pool.add(1);
    assert!(pool.run(0).is_some());
    pool.sleep(a);
    assert_eq!(pool.get_status(a), Some(Status::Running(0)));
    pool.stop(a, 1);
    assert_eq!(pool.get_status(a), Some(Status::Sleeping));
    assert_eq!(pool.run(0), None);
}

#[test]
fn wakeup_before_stop_calls_the_sleep_off() {
    let mut pool: ThreadPool<u8> = ThreadPool::new(5);
    let a = pool.add(1);
    assert!(pool.run(0).is_some());
    pool.sleep(a);
    pool.wakeup(a);
    pool.stop(a, 1);
    assert_eq!(pool.get_status(a), Some(Status::Ready));
    assert_eq!(pool.run(0), Some((a, 1)));
}

#[test]
fn wakeup_is_safe_in_every_state() {
    let mut pool: ThreadPool<u8> = ThreadPool::new(5);
    // unknown id
    pool.wakeup(42);
    let a = pool.add(1);
    // ready
    pool.wakeup(a);
    assert_eq!(pool.get_status(a), Some(Status::Ready));
    assert_eq!(pool.ready_count(), 1);
    // running
    assert!(pool.run(0).is_some());
    pool.wakeup(a);
    assert_eq!(pool.get_status(a), Some(Status::Running(0)));
    // exited, kept alive by a handle
    let handle = pool.acquire(a).unwrap();
    pool.exit(a, 3);
    pool.stop(a, 1);
    pool.wakeup(a);
    assert_eq!(pool.get_status(a), Some(Status::Exited(3)));
    assert_eq!(pool.ready_count(), 0);
    // freed slot
    pool.release(handle);
    pool.wakeup(a);
    assert_eq!(pool.get_status(a), None);
}

#[test]
fn unpark_through_a_handle() {
    let mut pool: ThreadPool<u8> = ThreadPool::new(5);
    let a = pool.add(1);
    let handle = pool.acquire(a).unwrap();
    pool.sleep(a);
    pool.unpark(&handle);
    assert_eq!(pool.get_status(a), Some(Status::Ready));
    pool.unpark(&handle);
    assert_eq!(pool.ready_count(), 1);
    pool.exit(a, 2);
    pool.unpark(&handle);
    assert_eq!(pool.get_status(a), Some(Status::Exited(2)));
    pool.release(handle);
}

#[test]
fn exit_keeps_the_first_code() {
    let mut pool: ThreadPool<u8> = ThreadPool::new(5);
    let a = pool.add(1);
    let handle = pool.acquire(a).unwrap();
    pool.exit(a, 7);
    assert_eq!(pool.get_status(a), Some(Status::Exited(7)));
    pool.exit(a, 8);
    assert_eq!(pool.get_status(a), Some(Status::Exited(7)));
    pool.release(handle);
    assert_eq!(pool.get_status(a), None);
    pool.exit(a, 9);
    assert_eq!(pool.get_status(a), None);
}

#[test]
fn exit_of_a_running_thread_takes_effect_at_stop() {
    let mut pool: ThreadPool<u8> = ThreadPool::new(5);
    let a = pool.add(1);
    let handle = pool.acquire(a).unwrap();
    assert!(pool.run(0).is_some());
    pool.exit(a, 5);
    pool.exit(a, 6);
    assert_eq!(pool.get_status(a), Some(Status::Running(0)));
    pool.stop(a, 1);
    assert_eq!(pool.get_status(a), Some(Status::Exited(5)));
    assert_eq!(handle.id(), a);
    pool.release(handle);
    assert_eq!(pool.get_status(a), None);
}

#[test]
fn stop_of_a_thread_that_does_not_run_changes_nothing() {
    let mut pool: ThreadPool<u8> = ThreadPool::new(5);
    let a = pool.add(1);
    pool.stop(a, 9);
    pool.stop(17, 9);
    assert_eq!(pool.get_status(a), Some(Status::Ready));
    assert_eq!(pool.run(0), Some((a, 1)));
}

#[test]
fn handles_keep_the_slot_of_an_exited_thread() {
    let mut pool: ThreadPool<u8> = ThreadPool::new(5);
    let a = pool.add(1);
    assert!(pool.acquire(99).is_none());
    let h1 = pool.acquire(a).unwrap();
    let h2 = pool.acquire(a).unwrap();
    pool.exit(a, 1);
    pool.release(h1);
    assert_eq!(pool.get_status(a), Some(Status::Exited(1)));
    assert_eq!(pool.add(2), 1);
    pool.release(h2);
    assert_eq!(pool.get_status(a), None);
    assert_eq!(pool.add(3), a);
}

#[test]
fn tick_counts_the_slice_down() {
    let mut pool: ThreadPool<u8> = ThreadPool::new(3);
    let a = pool.add(1);
    assert!(pool.run(1).is_some());
    assert!(!pool.tick(1, Some(a)));
    assert!(!pool.tick(1, Some(a)));
    assert!(pool.tick(1, Some(a)));
    // an exhausted slice asks for preemption at every further tick
    assert!(pool.tick(1, Some(a)));
    pool.stop(a, 1);
    assert!(pool.run(1).is_some());
    // the slice is full again
    assert!(!pool.tick(1, Some(a)));
}

#[test]
fn tick_on_an_idle_cpu_charges_nobody() {
    let mut pool: ThreadPool<u8> = ThreadPool::new(1);
    let a = pool.add(1);
    assert!(!pool.tick(0, None));
    // a thread that does not run on that cpu is charged nothing
    assert!(!pool.tick(0, Some(a)));
    assert!(!pool.tick(0, Some(55)));
    assert!(pool.run(1).is_some());
    assert!(!pool.tick(0, Some(a)));
    assert!(pool.tick(1, Some(a)));
}

#[test]
fn a_waiting_thread_of_higher_priority_preempts_at_the_next_tick() {
    let mut pool: ThreadPool<u8> = ThreadPool::new(10);
    let a = pool.add(1);
    assert!(pool.run(0).is_some());
    assert!(!pool.tick(0, Some(a)));
    let b = pool.add(2);
    pool.set_priority(b, 1);
    assert!(pool.tick(0, Some(a)));
    pool.stop(a, 1);
    assert_eq!(pool.run(0).map(|p| p.0), Some(b));
}

#[test]
fn timed_sleep_ends_after_its_ticks() {
    let mut pool: ThreadPool<u8> = ThreadPool::new(5);
    let a = pool.add(1);
    pool.sleep_for(a, 3);
    assert_eq!(pool.get_status(a), Some(Status::Sleeping));
    // only cpu 0 drives the timers
    pool.tick(1, None);
    pool.tick(1, None);
    pool.tick(1, None);
    assert_eq!(pool.get_status(a), Some(Status::Sleeping));
    pool.tick(0, None);
    pool.tick(0, None);
    assert_eq!(pool.get_status(a), Some(Status::Sleeping));
    pool.tick(0, None);
    assert_eq!(pool.get_status(a), Some(Status::Ready));
}

#[test]
fn sleep_for_zero_ticks_lasts_until_woken() {
    let mut pool: ThreadPool<u8> = ThreadPool::new(5);
    let a = pool.add(1);
    pool.sleep_for(a, 0);
    for _ in 0..50 {
        pool.tick(0, None);
    }
    assert_eq!(pool.get_status(a), Some(Status::Sleeping));
    pool.wakeup(a);
    assert_eq!(pool.get_status(a), Some(Status::Ready));
}

#[test]
fn wakeup_disarms_the_timer() {
    let mut pool: ThreadPool<u8> = ThreadPool::new(5);
    let a = pool.add(1);
    pool.sleep_for(a, 2);
    pool.wakeup(a);
    assert!(pool.run(0).is_some());
    pool.sleep(a);
    pool.stop(a, 1);
    for _ in 0..5 {
        pool.tick(0, None);
    }
    assert_eq!(pool.get_status(a), Some(Status::Sleeping));
}

#[test]
fn timers_that_run_out_together_wake_in_order_of_thread_id() {
    let mut pool: ThreadPool<u8> = ThreadPool::new(5);
    let a = pool.add(1);
    let b = pool.add(2);
    let c = pool.add(3);
    pool.sleep_for(c, 1);
    pool.sleep_for(a, 1);
    pool.sleep_for(b, 2);
    pool.tick(0, None);
    assert_eq!(pool.run(0).map(|p| p.0), Some(a));
    assert_eq!(pool.run(0).map(|p| p.0), Some(c));
    assert_eq!(pool.run(0), None);
    pool.tick(0, None);
    assert_eq!(pool.run(0).map(|p| p.0), Some(b));
}

#[test]
fn scheduler_alone_pops_in_order() {
    let mut sched = Scheduler::new(2);
    sched.insert(0);
    sched.insert(1);
    sched.insert(2);
    sched.push(1);
    sched.push(0);
    sched.push(2);
    assert_eq!(sched.ready_count(), 3);
    sched.remove(0);
    sched.remove(9);
    assert_eq!(sched.pop(0), Some(1));
    sched.set_priority(2, 1);
    sched.set_affinity(2, Some(3));
    assert_eq!(sched.priority(2), Some(1));
    assert_eq!(sched.priority(3), None);
    assert_eq!(sched.pop(0), None);
    // a queued thread is charged nothing
    assert!(!sched.tick(3, 2));
    assert_eq!(sched.pop(3), Some(2));
    assert!(!sched.tick(3, 2));
    assert!(sched.tick(3, 2));
    assert!(!sched.tick(3, 9));
}

#[test]
fn a_kept_slot_is_not_given_to_a_new_thread() {
    let mut pool: ThreadPool<u8> = ThreadPool::new(5);
    let a = pool.add(0);
    let b = pool.add(1);
    assert_eq!((a, b), (0, 1));
    assert_eq!((pool.slots(), pool.next_tid()), (2, 2));
    assert!(!pool.is_kept(a));
    pool.keep(a);
    assert!(pool.is_kept(a));
    pool.keep(9);
    assert!(!pool.is_kept(9));
    pool.exit(a, 4);
    // without the mark the slot would be free now
    assert_eq!(pool.get_status(a), Some(Status::Exited(4)));
    assert_eq!(pool.next_tid(), 2);
    assert_eq!(pool.add(2), 2);
    pool.unkeep(a);
    assert_eq!(pool.get_status(a), None);
    assert_eq!(pool.next_tid(), 0);
    assert_eq!((pool.add(3), pool.slots()), (0, 3));
}

#[test]
fn a_slot_that_is_kept_no_longer_stays_while_the_thread_lives_or_is_held() {
    let mut pool: ThreadPool<u8> = ThreadPool::new(5);
    let a = pool.add(0);
    pool.keep(a);
    pool.unkeep(a);
    assert_eq!(pool.get_status(a), Some(Status::Ready));
    assert!(!pool.is_kept(a));
    pool.keep(a);
    let handle = pool.acquire(a).unwrap();
    pool.exit(a, 1);
    pool.unkeep(a);
    assert_eq!(pool.get_status(a), Some(Status::Exited(1)));
    pool.release(handle);
    assert_eq!(pool.get_status(a), None);
    let b = pool.add(0);
    pool.keep(b);
    let handle = pool.acquire(b).unwrap();
    pool.exit(b, 2);
    pool.release(handle);
    assert_eq!(pool.get_status(b), Some(Status::Exited(2)));
    pool.unkeep(b);
    assert_eq!(pool.get_status(b), None);
}
