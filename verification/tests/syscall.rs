use rcore_thread::errno::SysError;
use rcore_thread::futex::FutexWait;
use rcore_thread::process::{Kernel, ThreadInfo};
use rcore_thread::processor::Processor;
use rcore_thread::syscall::{
    sys_clone, sys_exec, sys_exit, sys_exit_group, sys_fork, sys_getpid, sys_getppid, sys_gettid,
    sys_kill, sys_nanosleep, sys_set_priority, sys_wait4, sys_yield, Wait4, CLONE_AS_FORK,
    CLONE_AS_THREAD,
};
use rcore_thread::thread_pool::Status;

fn kernel() -> (Kernel<u32>, usize, usize) {
    let mut kernel = Kernel::new(5);
    let (pid, tid) = kernel.spawn(0);
    (kernel, pid, tid)
}

#[test]
fn spawn_starts_a_process_without_parent() {
    let (mut kernel, pid, tid) = kernel();
    assert_eq!((pid, tid), (0, 0));
    assert_eq!(kernel.caller(tid), Some(pid));
    assert_eq!(kernel.parent(pid), None);
    assert_eq!(kernel.info(tid), Some(ThreadInfo { pid, clear_child_tid: 0 }));
    assert_eq!(kernel.info(5), None);
    assert_eq!(kernel.pool.get_status(tid), Some(Status::Ready));
    assert_eq!(kernel.spawn(1), (1, 1));
}

#[test]
fn fork_makes_a_child_process() {
    let (mut kernel, pid, tid) = kernel();
    assert_eq!(sys_fork(&mut kernel, tid, 7), Ok(1));
    assert_eq!(kernel.parent(1), Some(pid));
    assert_eq!(kernel.caller(1), Some(1));
    assert_eq!(kernel.pool.get_status(1), Some(Status::Ready));
    assert_eq!(sys_getppid(&kernel, 1), Ok(pid));
    assert_eq!(sys_fork(&mut kernel, 99, 7), Err(SysError::ESRCH));
}

#[test]
fn getpid_and_gettid() {
    let (mut kernel, pid, tid) = kernel();
    let child = sys_fork(&mut kernel, tid, 1).unwrap();
    assert_eq!(sys_getpid(&kernel, tid), Ok(pid));
    assert_eq!(sys_getpid(&kernel, child), Ok(child));
    assert_eq!(sys_getpid(&kernel, 42), Err(SysError::ESRCH));
    assert_eq!(sys_gettid(tid), Ok(tid));
    assert_eq!(sys_gettid(17), Ok(17));
}

#[test]
fn clone_makes_a_thread_in_the_same_process() {
    let (mut kernel, pid, tid) = kernel();
    let new = sys_clone(&mut kernel, tid, CLONE_AS_THREAD, Ok(()), Ok(()), 0x5000, 3).unwrap();
    assert_eq!(new, 1);
    assert_eq!(sys_getpid(&kernel, new), Ok(pid));
    assert_eq!(kernel.info(new), Some(ThreadInfo { pid, clear_child_tid: 0x5000 }));
    assert_eq!(kernel.pool.get_status(new), Some(Status::Ready));
}

#[test]
fn clone_with_the_flags_of_fork_forks() {
    let (mut kernel, pid, tid) = kernel();
    let child =
        sys_clone(&mut kernel, tid, CLONE_AS_FORK, Err(SysError::EFAULT), Ok(()), 0, 3).unwrap();
    assert_eq!(sys_getpid(&kernel, child), Ok(1));
    assert_eq!(kernel.parent(1), Some(pid));
}

#[test]
fn clone_refuses_other_flags_and_bad_pointers() {
    let (mut kernel, _, tid) = kernel();
    assert_eq!(sys_clone(&mut kernel, tid, 0, Ok(()), Ok(()), 0, 3), Err(SysError::ENOSYS));
    assert_eq!(
        sys_clone(&mut kernel, tid, CLONE_AS_THREAD, Err(SysError::EFAULT), Ok(()), 0, 3),
        Err(SysError::EFAULT)
    );
    assert_eq!(
        sys_clone(&mut kernel, tid, CLONE_AS_THREAD, Ok(()), Err(SysError::EINVAL), 0, 3),
        Err(SysError::EINVAL)
    );
    assert_eq!(
        sys_clone(&mut kernel, 50, CLONE_AS_THREAD, Ok(()), Ok(()), 0, 3),
        Err(SysError::ESRCH)
    );
    assert_eq!(kernel.pool.get_status(1), None);
}

#[test]
fn wait4_returns_the_child_that_exited_with_its_code() {
    let (mut kernel, _, parent) = kernel();
    let child = sys_fork(&mut kernel, parent, 0).unwrap();
    assert_eq!(sys_exit(&mut kernel, child, 42), Ok(0));
    assert_eq!(sys_wait4(&mut kernel, parent, -1, Ok(())), Ok(Wait4::Exited(child, 42)));
    // the exit is observed once
    assert_eq!(sys_wait4(&mut kernel, parent, -1, Ok(())), Err(SysError::ECHILD));
    assert_eq!(sys_wait4(&mut kernel, parent, child as isize, Ok(())), Err(SysError::ECHILD));
}

#[test]
fn wait4_parks_until_a_child_ends() {
    let (mut kernel, _, parent) = kernel();
    let child = sys_fork(&mut kernel, parent, 0).unwrap();
    assert_eq!(sys_wait4(&mut kernel, parent, child as isize, Ok(())), Ok(Wait4::Blocked));
    assert_eq!(kernel.pool.get_status(parent), Some(Status::Sleeping));
    assert_eq!(sys_exit(&mut kernel, child, 3), Ok(0));
    assert_eq!(kernel.pool.get_status(parent), Some(Status::Ready));
    assert_eq!(sys_wait4(&mut kernel, parent, child as isize, Ok(())), Ok(Wait4::Exited(child, 3)));
}

#[test]
fn wait4_for_any_child_takes_the_lowest_pid_first() {
    let (mut kernel, _, parent) = kernel();
    let a = sys_fork(&mut kernel, parent, 0).unwrap();
    let b = sys_fork(&mut kernel, parent, 0).unwrap();
    let c = sys_fork(&mut kernel, parent, 0).unwrap();
    sys_exit(&mut kernel, c, 30).unwrap();
    sys_exit(&mut kernel, a, 10).unwrap();
    assert_eq!(sys_wait4(&mut kernel, parent, 0, Ok(())), Ok(Wait4::Exited(a, 10)));
    assert_eq!(sys_wait4(&mut kernel, parent, b as isize, Ok(())), Ok(Wait4::Blocked));
    assert_eq!(sys_wait4(&mut kernel, parent, -1, Ok(())), Ok(Wait4::Exited(c, 30)));
}

#[test]
fn wait4_fails_without_a_child_to_wait_for() {
    let (mut kernel, _, parent) = kernel();
    assert_eq!(sys_wait4(&mut kernel, parent, -1, Ok(())), Err(SysError::ECHILD));
    let child = sys_fork(&mut kernel, parent, 0).unwrap();
    assert_eq!(sys_wait4(&mut kernel, parent, 77, Ok(())), Err(SysError::ECHILD));
    assert_eq!(sys_wait4(&mut kernel, child, 0, Ok(())), Err(SysError::ECHILD));
    assert_eq!(sys_wait4(&mut kernel, 33, 0, Ok(())), Err(SysError::ESRCH));
    assert_eq!(
        sys_wait4(&mut kernel, parent, -1, Err(SysError::EFAULT)),
        Err(SysError::EFAULT)
    );
}

#[test]
fn wait4_reports_the_low_8_bits_of_the_code() {
    let (mut kernel, _, parent) = kernel();
    let child = sys_fork(&mut kernel, parent, 0).unwrap();
    sys_exit(&mut kernel, child, 0x1234).unwrap();
    assert_eq!(sys_wait4(&mut kernel, parent, -1, Ok(())), Ok(Wait4::Exited(child, 0x34)));
}

#[test]
fn exit_of_one_thread_of_many_keeps_the_process() {
    let (mut kernel, pid, parent) = kernel();
    let child = sys_fork(&mut kernel, parent, 0).unwrap();
    let second = sys_clone(&mut kernel, child, CLONE_AS_THREAD, Ok(()), Ok(()), 0, 0).unwrap();
    assert_eq!(sys_exit(&mut kernel, child, 1), Ok(0));
    // the id of the first thread is the pid: it stays taken while the process lives
    assert_eq!(kernel.pool.get_status(child), Some(Status::Exited(1)));
    assert_eq!(sys_getpid(&kernel, second), Ok(child));
    assert_eq!(sys_wait4(&mut kernel, parent, -1, Ok(())), Ok(Wait4::Blocked));
    assert_eq!(sys_exit(&mut kernel, second, 2), Ok(0));
    assert_eq!(sys_getpid(&kernel, second), Err(SysError::ESRCH));
    assert_eq!(kernel.pool.get_status(child), Some(Status::Exited(1)));
    assert_eq!(sys_wait4(&mut kernel, parent, -1, Ok(())), Ok(Wait4::Exited(child, 2)));
    assert_eq!(kernel.pool.get_status(child), None);
    assert_eq!(sys_exit(&mut kernel, second, 2), Err(SysError::ESRCH));
    assert_eq!(sys_getpid(&kernel, parent), Ok(pid));
}

#[test]
fn exit_wakes_a_waiter_on_the_clear_child_tid_futex() {
    let (mut kernel, pid, main) = kernel();
    let worker =
        sys_clone(&mut kernel, main, CLONE_AS_THREAD, Ok(()), Ok(()), 0x7000, 0).unwrap();
    match &mut kernel.procs[pid] {
        Some(p) => {
            p.futexes.futex_wait(&mut kernel.pool, main, 0x7000, worker as u32, worker as u32);
        }
        None => panic!("no process"),
    }
    assert_eq!(kernel.pool.get_status(main), Some(Status::Sleeping));
    assert_eq!(sys_exit(&mut kernel, worker, 0), Ok(0));
    assert_eq!(kernel.pool.get_status(main), Some(Status::Ready));
}

#[test]
fn exit_group_ends_all_threads_of_the_process() {
    let (mut kernel, _, parent) = kernel();
    let child = sys_fork(&mut kernel, parent, 0).unwrap();
    let t2 = sys_clone(&mut kernel, child, CLONE_AS_THREAD, Ok(()), Ok(()), 0, 0).unwrap();
    let t3 = sys_clone(&mut kernel, child, CLONE_AS_THREAD, Ok(()), Ok(()), 0, 0).unwrap();
    let h2 = kernel.pool.acquire(t2).unwrap();
    assert_eq!(sys_exit_group(&mut kernel, t3, 9), Ok(0));
    assert_eq!(kernel.pool.get_status(child), Some(Status::Exited(9)));
    assert_eq!(kernel.pool.get_status(t2), Some(Status::Exited(9)));
    assert_eq!(kernel.pool.get_status(t3), None);
    kernel.pool.release(h2);
    assert_eq!(kernel.pool.get_status(t2), None);
    assert_eq!(sys_wait4(&mut kernel, parent, -1, Ok(())), Ok(Wait4::Exited(child, 9)));
    assert_eq!(kernel.pool.get_status(child), None);
    assert_eq!(sys_exit_group(&mut kernel, t3, 9), Err(SysError::ESRCH));
}

#[test]
fn kill_ends_another_process() {
    let (mut kernel, pid, parent) = kernel();
    let child = sys_fork(&mut kernel, parent, 0).unwrap();
    assert_eq!(sys_kill(&mut kernel, parent, child, 15), Ok(0));
    assert_eq!(kernel.pool.get_status(child), Some(Status::Exited(15)));
    // a second kill finds no such process, and the first code stays
    assert_eq!(sys_kill(&mut kernel, parent, child, 7), Err(SysError::EINVAL));
    assert_eq!(sys_wait4(&mut kernel, parent, child as isize, Ok(())), Ok(Wait4::Exited(child, 15)));
    assert_eq!(kernel.pool.get_status(child), None);
    assert_eq!(sys_kill(&mut kernel, parent, child, 15), Err(SysError::EINVAL));
    assert_eq!(sys_kill(&mut kernel, parent, 60, 15), Err(SysError::EINVAL));
    assert_eq!(sys_kill(&mut kernel, 60, pid, 15), Err(SysError::ESRCH));
}

#[test]
fn kill_of_the_own_process_is_exit_group() {
    let (mut kernel, _, parent) = kernel();
    let child = sys_fork(&mut kernel, parent, 0).unwrap();
    assert_eq!(sys_kill(&mut kernel, child, 1, 9), Ok(0));
    assert_eq!(sys_getpid(&kernel, child), Err(SysError::ESRCH));
    assert_eq!(sys_wait4(&mut kernel, parent, -1, Ok(())), Ok(Wait4::Exited(1, 9)));
}

#[test]
fn the_end_of_an_orphan_notifies_nobody() {
    let (mut kernel, _, parent) = kernel();
    let child = sys_fork(&mut kernel, parent, 0).unwrap();
    assert_eq!(sys_exit(&mut kernel, parent, 0), Ok(0));
    assert_eq!(sys_getppid(&kernel, child), Ok(0));
    assert_eq!(sys_exit(&mut kernel, child, 1), Ok(0));
    assert_eq!(kernel.pool.get_status(child), None);
}

#[test]
fn set_priority_takes_the_low_8_bits() {
    let (mut kernel, _, tid) = kernel();
    assert_eq!(sys_set_priority(&mut kernel, tid, 7), Ok(0));
    assert_eq!(kernel.pool.priority(tid), Some(7));
    assert_eq!(sys_set_priority(&mut kernel, tid, 0x105), Ok(0));
    assert_eq!(kernel.pool.priority(tid), Some(5));
    assert_eq!(sys_set_priority(&mut kernel, 90, 1), Ok(0));
}

#[test]
fn nanosleep_parks_for_the_time_in_ticks() {
    let (mut kernel, _, tid) = kernel();
    assert_eq!(sys_nanosleep(&mut kernel, tid, Err(SysError::EFAULT), 1, 0), Err(SysError::EFAULT));
    assert_eq!(kernel.pool.get_status(tid), Some(Status::Ready));
    // less than a tick: not parked
    assert_eq!(sys_nanosleep(&mut kernel, tid, Ok(()), 0, 9_999_999), Ok(0));
    assert_eq!(kernel.pool.get_status(tid), Some(Status::Ready));
    // 1.03 s are 103 ticks
    assert_eq!(sys_nanosleep(&mut kernel, tid, Ok(()), 1, 30_000_000), Ok(0));
    for _ in 0..102 {
        kernel.pool.tick(0, None);
    }
    assert_eq!(kernel.pool.get_status(tid), Some(Status::Sleeping));
    kernel.pool.tick(0, None);
    assert_eq!(kernel.pool.get_status(tid), Some(Status::Ready));
}

#[test]
fn yield_gives_up_the_cpu() {
    let (mut kernel, _, tid) = kernel();
    let other = sys_clone(&mut kernel, tid, CLONE_AS_THREAD, Ok(()), Ok(()), 0, 1).unwrap();
    let mut cpu = Processor::new();
    cpu.init(0, 99);
    cpu.run(&mut kernel.pool);
    assert_eq!(cpu.tid(), tid);
    assert_eq!(sys_yield(&mut cpu), Ok(0));
    cpu.run(&mut kernel.pool);
    assert_eq!(cpu.tid(), other);
    assert_eq!(kernel.pool.get_status(tid), Some(Status::Ready));
}

#[test]
fn exec_replaces_the_context_of_the_caller() {
    let (mut kernel, _, tid) = kernel();
    let mut cpu = Processor::new();
    cpu.init(0, 99);
    cpu.run(&mut kernel.pool);
    let mut loads = 0;
    assert_eq!(
        sys_exec(&mut cpu, Err(SysError::EFAULT), false, || {
            loads += 1;
            Ok(5)
        }),
        Err(SysError::EFAULT)
    );
    assert_eq!(
        sys_exec(&mut cpu, Ok(()), true, || {
            loads += 1;
            Ok(5)
        }),
        Err(SysError::EINVAL)
    );
    assert_eq!(loads, 0);
    assert_eq!(sys_exec(&mut cpu, Ok(()), false, || Err(SysError::ENOSYS)), Err(SysError::ENOSYS));
    assert_eq!(*cpu.context(), 0);
    assert_eq!(sys_exec(&mut cpu, Ok(()), false, || Ok(5)), Ok(0));
    assert_eq!(*cpu.context(), 5);
    assert_eq!(cpu.tid(), tid);
}

#[test]
fn error_numbers() {
    assert_eq!(SysError::ESRCH.code(), 3);
    assert_eq!(SysError::ECHILD.code(), 10);
    assert_eq!(SysError::EBADF.code(), 9);
    assert_eq!(SysError::ENOPROTOOPT.code(), 92);
    assert_eq!(SysError::EAFNOSUPPORT.code(), 97);
    assert_eq!(SysError::ECONNREFUSED.code(), 111);
    assert_eq!(SysError::EFAULT.code(), 14);
    assert_eq!(SysError::EINVAL.code(), 22);
    assert_eq!(SysError::ENOSYS.code(), 38);
    assert_eq!(SysError::ENOBUFS.code(), 105);
    assert_eq!(SysError::ENOTCONN.code(), 107);
}

#[test]
fn fork_returns_the_id_of_the_new_thread() {
    let (mut kernel, pid, main) = kernel();
    let worker = sys_clone(&mut kernel, main, CLONE_AS_THREAD, Ok(()), Ok(()), 0, 0).unwrap();
    assert_eq!(worker, 1);
    let child = sys_fork(&mut kernel, main, 5).unwrap();
    // the pid of the child is the id of its thread, not a slot of its own
    assert_eq!(child, 2);
    assert_eq!(kernel.pool.get_status(child), Some(Status::Ready));
    assert_eq!(sys_getpid(&kernel, child), Ok(child));
    assert_eq!(sys_getppid(&kernel, child), Ok(pid));
    assert_eq!(kernel.info(child), Some(ThreadInfo { pid: child, clear_child_tid: 0 }));
    assert!(kernel.pool.is_kept(child));
    assert_eq!(sys_exit(&mut kernel, child, 4), Ok(0));
    assert_eq!(sys_wait4(&mut kernel, worker, child as isize, Ok(())), Ok(Wait4::Exited(child, 4)));
}

#[test]
fn wait4_refuses_a_process_group() {
    let (mut kernel, _, parent) = kernel();
    let child = sys_fork(&mut kernel, parent, 0).unwrap();
    sys_exit(&mut kernel, child, 6).unwrap();
    assert_eq!(sys_wait4(&mut kernel, parent, -2, Ok(())), Err(SysError::ENOSYS));
    assert_eq!(sys_wait4(&mut kernel, parent, isize::MIN, Ok(())), Err(SysError::ENOSYS));
    assert_eq!(sys_wait4(&mut kernel, 33, -2, Ok(())), Err(SysError::ENOSYS));
    assert_eq!(sys_wait4(&mut kernel, parent, -2, Err(SysError::EFAULT)), Err(SysError::EFAULT));
    // nothing was collected and nobody was parked
    assert_eq!(kernel.pool.get_status(parent), Some(Status::Ready));
    assert_eq!(sys_wait4(&mut kernel, parent, -1, Ok(())), Ok(Wait4::Exited(child, 6)));
}

#[test]
fn the_id_of_an_ended_child_is_taken_until_its_code_is_collected() {
    let (mut kernel, _, parent) = kernel();
    let first = sys_fork(&mut kernel, parent, 0).unwrap();
    sys_exit(&mut kernel, first, 1).unwrap();
    let second = sys_fork(&mut kernel, parent, 0).unwrap();
    assert_eq!((first, second), (1, 2));
    assert_eq!(sys_wait4(&mut kernel, parent, first as isize, Ok(())), Ok(Wait4::Exited(1, 1)));
    assert_eq!(sys_fork(&mut kernel, parent, 0), Ok(1));
}

#[test]
fn a_child_is_not_reported_to_who_took_the_pid_of_its_parent() {
    let (mut kernel, _, a) = kernel();
    let b = sys_fork(&mut kernel, a, 0).unwrap();
    let c = sys_fork(&mut kernel, b, 0).unwrap();
    assert_eq!((b, c), (1, 2));
    sys_exit(&mut kernel, b, 0).unwrap();
    assert_eq!(sys_wait4(&mut kernel, a, -1, Ok(())), Ok(Wait4::Exited(b, 0)));
    // a new process gets the pid that the parent of `c` had
    let d = sys_fork(&mut kernel, a, 0).unwrap();
    assert_eq!(d, b);
    assert_eq!(sys_getppid(&kernel, c), Ok(b));
    match &kernel.procs[c] {
        Some(p) => assert!(p.orphan),
        None => panic!("no process"),
    }
    sys_exit(&mut kernel, c, 77).unwrap();
    assert_eq!(kernel.pool.get_status(c), None);
    match &kernel.procs[d] {
        Some(p) => {
            assert_eq!(p.child_exit_code.get(c), None);
            assert!(p.children.is_empty());
        }
        None => panic!("no process"),
    }
    assert_eq!(sys_wait4(&mut kernel, d, -1, Ok(())), Err(SysError::ECHILD));
    assert_eq!(sys_wait4(&mut kernel, d, c as isize, Ok(())), Err(SysError::ECHILD));
}

#[test]
fn the_end_of_a_process_gives_back_what_it_held() {
    let (mut kernel, _, a) = kernel();
    let b = sys_fork(&mut kernel, a, 0).unwrap();
    let c = sys_fork(&mut kernel, b, 0).unwrap();
    let d = sys_fork(&mut kernel, b, 0).unwrap();
    // `d` ends and `b` does not collect its code; `b` waits for `c`
    sys_exit(&mut kernel, d, 3).unwrap();
    assert_eq!(kernel.pool.get_status(d), Some(Status::Exited(3)));
    assert_eq!(sys_wait4(&mut kernel, b, c as isize, Ok(())), Ok(Wait4::Blocked));
    assert_eq!(sys_kill(&mut kernel, a, b, 9), Ok(0));
    // the id of `d` is free again, and the handle of the waiter has come back
    assert_eq!(kernel.pool.get_status(d), None);
    assert_eq!(kernel.pool.get_status(b), Some(Status::Exited(9)));
    assert_eq!(sys_wait4(&mut kernel, a, -1, Ok(())), Ok(Wait4::Exited(b, 9)));
    assert_eq!(kernel.pool.get_status(b), None);
    assert_eq!(kernel.pool.get_status(c), Some(Status::Ready));
}

#[test]
fn the_end_of_a_process_gives_back_the_handles_of_futex_waiters() {
    let (mut kernel, _, a) = kernel();
    let b = sys_fork(&mut kernel, a, 0).unwrap();
    let worker = sys_clone(&mut kernel, b, CLONE_AS_THREAD, Ok(()), Ok(()), 0, 0).unwrap();
    match &mut kernel.procs[b] {
        Some(p) => {
            assert_eq!(
                p.futexes.futex_wait(&mut kernel.pool, worker, 0x9000, 1, 1),
                FutexWait::Parked
            );
        }
        None => panic!("no process"),
    }
    assert_eq!(kernel.pool.get_status(worker), Some(Status::Sleeping));
    assert_eq!(sys_kill(&mut kernel, a, b, 9), Ok(0));
    assert_eq!(kernel.pool.get_status(worker), None);
    // the threads of the process have no process facts any more
    assert_eq!(kernel.info(worker), None);
    assert_eq!(kernel.info(b), None);
    assert_eq!(sys_getpid(&kernel, worker), Err(SysError::ESRCH));
    assert_eq!(sys_wait4(&mut kernel, a, -1, Ok(())), Ok(Wait4::Exited(b, 9)));
}

#[test]
fn a_thread_that_exits_has_no_process_facts() {
    let (mut kernel, pid, main) = kernel();
    let worker = sys_clone(&mut kernel, main, CLONE_AS_THREAD, Ok(()), Ok(()), 0, 0).unwrap();
    assert_eq!(sys_exit(&mut kernel, worker, 0), Ok(0));
    assert_eq!(kernel.info(worker), None);
    assert_eq!(kernel.pool.get_status(worker), None);
    match &kernel.procs[pid] {
        Some(p) => assert_eq!(p.threads, vec![main]),
        None => panic!("no process"),
    }
    // the id is given to the next thread, which belongs where it is made
    let child = sys_fork(&mut kernel, main, 0).unwrap();
    assert_eq!(child, worker);
    assert_eq!(sys_getpid(&kernel, child), Ok(child));
}
