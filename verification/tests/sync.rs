use rcore_thread::condvar::{Condvar, WaitAction};
use rcore_thread::futex::{FutexTable, FutexWait};
use rcore_thread::semaphore::{Acquire, Semaphore};
use rcore_thread::spin::{LockKind, SpinLock};
use rcore_thread::thread_pool::{Status, ThreadPool};

fn pool_with(n: usize) -> ThreadPool<u8> {
    let mut pool = ThreadPool::new(5);
    for _ in 0..n {
        pool.add(0);
    }
    pool
}

#[test]
fn spin_lock_is_taken_once() {
    let mut lock = SpinLock::new(LockKind::Spin);
    assert!(!lock.is_locked());
    assert!(lock.try_lock(0x200));
    assert!(lock.is_locked());
    assert!(!lock.try_lock(0x200));
    assert_eq!(lock.unlock(), None);
    assert!(!lock.is_locked());
    assert!(lock.try_lock(0));
}

#[test]
fn interrupt_safe_lock_gives_the_saved_flags_back() {
    let mut lock = SpinLock::new(LockKind::SpinNoIrq);
    assert!(lock.try_lock(0x246));
    // a second taker does not overwrite the flags of the holder
    assert!(!lock.try_lock(0x2));
    assert_eq!(lock.unlock(), Some(0x246));
    assert_eq!(lock.unlock(), None);
    assert!(lock.try_lock(0x2));
    assert_eq!(lock.unlock(), Some(0x2));
}

#[test]
fn condvar_wakes_in_order_of_arrival() {
    let mut pool = pool_with(3);
    let mut cv = Condvar::new();
    assert_eq!(cv.waiters(), 0);
    assert!(cv._wait(&mut pool, 2));
    assert!(cv._wait(&mut pool, 0));
    assert!(cv._wait(&mut pool, 1));
    assert_eq!(cv.waiters(), 3);
    assert_eq!(pool.get_status(0), Some(Status::Sleeping));
    cv.notify_one(&mut pool);
    assert_eq!(pool.get_status(2), Some(Status::Ready));
    assert_eq!(pool.get_status(0), Some(Status::Sleeping));
    cv.notify_one(&mut pool);
    assert_eq!(pool.get_status(0), Some(Status::Ready));
    assert_eq!(pool.get_status(1), Some(Status::Sleeping));
    assert_eq!(cv.waiters(), 1);
    // the woken threads run in the order in which they were woken
    assert_eq!(pool.run(0).map(|p| p.0), Some(2));
    assert_eq!(pool.run(0).map(|p| p.0), Some(0));
}

#[test]
fn notify_without_waiters_is_not_remembered() {
    let mut pool = pool_with(1);
    let mut cv = Condvar::new();
    cv.notify_one(&mut pool);
    cv.notify_all(&mut pool);
    assert_eq!(cv.notify_n(&mut pool, 3), 0);
    assert!(cv._wait(&mut pool, 0));
    assert_eq!(pool.get_status(0), Some(Status::Sleeping));
}

#[test]
fn notify_n_wakes_up_to_n() {
    let mut pool = pool_with(5);
    let mut cv = Condvar::new();
    for tid in 0..5 {
        assert!(cv._wait(&mut pool, tid));
    }
    assert_eq!(cv.notify_n(&mut pool, 0), 0);
    assert_eq!(cv.notify_n(&mut pool, 2), 2);
    assert_eq!(pool.get_status(1), Some(Status::Ready));
    assert_eq!(pool.get_status(2), Some(Status::Sleeping));
    assert_eq!(cv.notify_n(&mut pool, 10), 3);
    assert_eq!(cv.waiters(), 0);
    assert_eq!(pool.get_status(4), Some(Status::Ready));
}

#[test]
fn notify_all_wakes_everybody() {
    let mut pool = pool_with(4);
    let mut cv = Condvar::new();
    for tid in 0..4 {
        assert!(cv._wait(&mut pool, tid));
    }
    cv.notify_all(&mut pool);
    assert_eq!(cv.waiters(), 0);
    for tid in 0..4 {
        assert_eq!(pool.get_status(tid), Some(Status::Ready));
    }
}

#[test]
fn wait_of_an_unknown_thread_queues_nobody() {
    let mut pool = pool_with(1);
    let mut cv = Condvar::new();
    let mut mutex = SpinLock::new(LockKind::Spin);
    assert!(mutex.try_lock(0));
    assert!(!cv._wait(&mut pool, 9));
    assert!(!cv.add_to_wait_queue(&mut pool, 9));
    assert_eq!(cv.wait(&mut pool, 9, &mut mutex), WaitAction::Return);
    assert!(mutex.is_locked());
    assert_eq!(cv.waiters(), 0);
}

#[test]
fn wait_releases_the_mutex_and_parks() {
    let mut pool = pool_with(2);
    let mut cv = Condvar::new();
    let mut mutex = SpinLock::new(LockKind::SpinNoIrq);
    assert_eq!(pool.run(0).map(|p| p.0), Some(0));
    assert!(mutex.try_lock(0x202));
    assert_eq!(cv.wait(&mut pool, 0, &mut mutex), WaitAction::Park(Some(0x202)));
    assert!(!mutex.is_locked());
    assert_eq!(cv.waiters(), 1);
    pool.stop(0, 0);
    assert_eq!(pool.get_status(0), Some(Status::Sleeping));
    cv.notify_one(&mut pool);
    assert_eq!(pool.get_status(0), Some(Status::Ready));
}

#[test]
fn a_notification_between_wait_and_the_switch_is_not_lost() {
    let mut pool = pool_with(1);
    let mut cv = Condvar::new();
    let mut mutex = SpinLock::new(LockKind::Spin);
    assert_eq!(pool.run(0).map(|p| p.0), Some(0));
    assert!(mutex.try_lock(0));
    assert_eq!(cv.wait(&mut pool, 0, &mut mutex), WaitAction::Park(None));
    // the notifier runs on another cpu before the waiter has left its own
    cv.notify_one(&mut pool);
    pool.stop(0, 0);
    assert_eq!(pool.get_status(0), Some(Status::Ready));
    assert_eq!(pool.run(0).map(|p| p.0), Some(0));
}

#[test]
fn notify_of_an_exited_waiter_is_harmless() {
    let mut pool = pool_with(2);
    let mut cv = Condvar::new();
    assert!(cv._wait(&mut pool, 0));
    assert!(cv._wait(&mut pool, 1));
    pool.exit(0, 1);
    // the handle in the queue keeps the slot
    assert_eq!(pool.get_status(0), Some(Status::Exited(1)));
    cv.notify_one(&mut pool);
    assert_eq!(pool.get_status(0), None);
    assert_eq!(pool.get_status(1), Some(Status::Sleeping));
    cv.notify_one(&mut pool);
    assert_eq!(pool.get_status(1), Some(Status::Ready));
}

#[test]
fn wait_any_queues_on_every_condvar_and_parks_once() {
    let mut pool = pool_with(2);
    let mut cvs = vec![Condvar::new(), Condvar::new(), Condvar::new()];
    assert_eq!(Condvar::wait_any(&mut cvs, &mut pool, 1), 3);
    assert_eq!(pool.get_status(1), Some(Status::Sleeping));
    for cv in cvs.iter() {
        assert_eq!(cv.waiters(), 1);
    }
    cvs[1].notify_one(&mut pool);
    assert_eq!(pool.get_status(1), Some(Status::Ready));
    // the stale entries wake nobody else
    cvs[0].notify_one(&mut pool);
    cvs[2].notify_one(&mut pool);
    assert_eq!(pool.get_status(1), Some(Status::Ready));
    assert_eq!(pool.ready_count(), 2);
    assert_eq!(Condvar::wait_any(&mut cvs, &mut pool, 7), 0);
    let mut none: Vec<Condvar> = Vec::new();
    assert_eq!(Condvar::wait_any(&mut none, &mut pool, 0), 0);
    assert_eq!(pool.get_status(0), Some(Status::Ready));
}

#[test]
fn semaphore_counts_permits() {
    let mut pool = pool_with(3);
    let mut sem = Semaphore::new(2);
    assert_eq!(sem.permits(), 2);
    assert_eq!(sem.acquire(&mut pool, 0), Acquire::Acquired);
    assert_eq!(sem.acquire(&mut pool, 1), Acquire::Acquired);
    assert_eq!(sem.permits(), 0);
    assert_eq!(sem.acquire(&mut pool, 2), Acquire::Parked);
    assert_eq!(pool.get_status(2), Some(Status::Sleeping));
    assert_eq!(sem.acquire(&mut pool, 8), Acquire::Retry);
    assert!(!sem.try_acquire());
    sem.release(&mut pool);
    assert_eq!(pool.get_status(2), Some(Status::Ready));
    assert_eq!(sem.permits(), 1);
    assert_eq!(sem.acquire(&mut pool, 2), Acquire::Acquired);
    sem.release(&mut pool);
    assert!(sem.try_acquire());
    assert_eq!(sem.permits(), 0);
}

#[test]
fn semaphore_with_a_negative_count_blocks() {
    let mut pool = pool_with(1);
    let mut sem = Semaphore::new(-1);
    assert!(!sem.try_acquire());
    sem.release(&mut pool);
    assert!(!sem.try_acquire());
    sem.release(&mut pool);
    assert!(sem.try_acquire());
}

#[test]
fn futex_wait_parks_only_on_the_expected_value() {
    let mut pool = pool_with(3);
    let mut table = FutexTable::new();
    assert_eq!(table.futex_wait(&mut pool, 0, 0x1000, 1, 2), FutexWait::Changed);
    assert_eq!(pool.get_status(0), Some(Status::Ready));
    assert_eq!(table.futex_wait(&mut pool, 0, 0x1000, 1, 1), FutexWait::Parked);
    assert_eq!(pool.get_status(0), Some(Status::Sleeping));
    assert_eq!(table.futex_wait(&mut pool, 9, 0x1000, 1, 1), FutexWait::Unqueued);
}

#[test]
fn futex_wake_wakes_waiters_of_that_address_only() {
    let mut pool = pool_with(4);
    let mut table = FutexTable::new();
    assert_eq!(table.futex_wake(&mut pool, 0x1000, 1), 0);
    assert_eq!(table.futex_wait(&mut pool, 0, 0x1000, 0, 0), FutexWait::Parked);
    assert_eq!(table.futex_wait(&mut pool, 1, 0x2000, 0, 0), FutexWait::Parked);
    assert_eq!(table.futex_wait(&mut pool, 2, 0x1000, 0, 0), FutexWait::Parked);
    assert_eq!(table.futex_wait(&mut pool, 3, 0x1000, 0, 0), FutexWait::Parked);
    assert_eq!(table.futex_wake(&mut pool, 0x3000, 5), 0);
    assert_eq!(table.futex_wake(&mut pool, 0x1000, 2), 2);
    assert_eq!(pool.get_status(0), Some(Status::Ready));
    assert_eq!(pool.get_status(2), Some(Status::Ready));
    assert_eq!(pool.get_status(3), Some(Status::Sleeping));
    assert_eq!(pool.get_status(1), Some(Status::Sleeping));
    assert_eq!(table.futex_wake(&mut pool, 0x1000, 2), 1);
    assert_eq!(table.futex_wake(&mut pool, 0x2000, 1), 1);
    assert_eq!(pool.get_status(1), Some(Status::Ready));
}

#[test]
fn release_all_gives_the_handles_back_and_wakes_nobody() {
    let mut pool: ThreadPool<u32> = ThreadPool::new(5);
    let a = pool.add(0);
    let b = pool.add(1);
    let mut waiters = Condvar::new();
    assert!(waiters._wait(&mut pool, a));
    assert!(waiters._wait(&mut pool, b));
    pool.exit(a, 3);
    // the handle in the queue holds the slot of the thread that has exited
    assert_eq!(pool.get_status(a), Some(Status::Exited(3)));
    waiters.release_all(&mut pool);
    assert_eq!(waiters.waiters(), 0);
    assert_eq!(pool.get_status(a), None);
    assert_eq!(pool.get_status(b), Some(Status::Sleeping));
}

#[test]
fn a_futex_table_gives_the_handles_of_all_its_queues_back() {
    let mut pool: ThreadPool<u32> = ThreadPool::new(5);
    let a = pool.add(0);
    let b = pool.add(1);
    let c = pool.add(2);
    let mut table = FutexTable::new();
    assert_eq!(table.futex_wait(&mut pool, a, 0x100, 7, 7), FutexWait::Parked);
    assert_eq!(table.futex_wait(&mut pool, b, 0x200, 7, 7), FutexWait::Parked);
    assert_eq!(table.futex_wait(&mut pool, c, 0x100, 7, 7), FutexWait::Parked);
    pool.exit(a, 1);
    pool.exit(b, 2);
    assert_eq!(pool.get_status(a), Some(Status::Exited(1)));
    assert_eq!(pool.get_status(b), Some(Status::Exited(2)));
    table.release_all(&mut pool);
    assert_eq!(pool.get_status(a), None);
    assert_eq!(pool.get_status(b), None);
    assert_eq!(pool.get_status(c), Some(Status::Sleeping));
    // nobody is left to wake
    assert_eq!(table.futex_wake(&mut pool, 0x100, 5), 0);
    assert_eq!(table.futex_wake(&mut pool, 0x200, 5), 0);
    assert_eq!(pool.get_status(c), Some(Status::Sleeping));
}
