use rcore_thread::ipi::{tlb_shootdown, IpiBus, IpiWait};
use rcore_thread::thread_pool::{Status, ThreadPool};

#[test]
fn tlb_shootdown_lists_one_address_for_each_page() {
    assert_eq!(tlb_shootdown(&(0x1000, 0x4000)), vec![0x1000, 0x2000, 0x3000]);
    assert_eq!(tlb_shootdown(&(0x1234, 0x1235)), vec![0x1000]);
    assert_eq!(tlb_shootdown(&(0x1fff, 0x2001)), vec![0x1000, 0x2000]);
    assert_eq!(tlb_shootdown(&(0, 1)), vec![0]);
    // an empty range inside a page still names that page
    assert_eq!(tlb_shootdown(&(0x2010, 0x2010)), vec![0x2000]);
    assert_eq!(tlb_shootdown(&(0x3000, 0x2000)), Vec::<u64>::new());
    // the upper half of the address space
    assert_eq!(
        tlb_shootdown(&(0xffff_8000_0000_0800, 0xffff_8000_0000_1001)),
        vec![0xffff_8000_0000_0000, 0xffff_8000_0000_1000]
    );
    assert_eq!(tlb_shootdown(&(0x7fff_ffff_f000, 0x8000_0000_0000)), vec![0x7fff_ffff_f000]);
}

#[test]
fn events_of_a_cpu_come_out_in_the_order_they_went_in() {
    let mut bus: IpiBus<u32> = IpiBus::new(2);
    assert_eq!(bus.cpu_count(), 2);
    let first = bus.invoke_on_allcpu(10, false);
    let second = bus.invoke_on_allcpu(20, false);
    assert_eq!((first, second), (0, 1));
    for cpu in 0..2 {
        let e = bus.next_event(cpu).unwrap();
        assert_eq!((e.event, e.broadcast), (10, first));
        let e = bus.next_event(cpu).unwrap();
        assert_eq!((e.event, e.broadcast), (20, second));
        assert!(bus.next_event(cpu).is_none());
    }
    assert!(bus.next_event(2).is_none());
}

#[test]
fn the_caller_returns_only_after_all_cpus_have_run_the_function() {
    let mut pool: ThreadPool<u8> = ThreadPool::new(5);
    let caller = pool.add(0);
    let mut bus: IpiBus<u32> = IpiBus::new(4);
    let id = bus.invoke_on_allcpu(7, true);
    assert_eq!(bus.wait(&mut pool, caller, id), IpiWait::Parked);
    assert_eq!(pool.get_status(caller), Some(Status::Sleeping));
    for cpu in 0..4 {
        let e = bus.next_event(cpu).unwrap();
        assert_eq!(e.event, 7);
        bus.done(&mut pool, e.broadcast);
        // each report wakes the caller, who asks again
        assert_eq!(pool.get_status(caller), Some(Status::Ready));
        if cpu < 3 {
            assert_eq!(bus.wait(&mut pool, caller, id), IpiWait::Parked);
        }
    }
    assert_eq!(bus.wait(&mut pool, caller, id), IpiWait::Done);
    // the broadcast is over: its id is free again
    assert_eq!(bus.invoke_on_allcpu(8, false), id);
}

#[test]
fn a_caller_that_does_not_wait_is_done_at_once() {
    let mut pool: ThreadPool<u8> = ThreadPool::new(5);
    let caller = pool.add(0);
    let mut bus: IpiBus<u32> = IpiBus::new(2);
    let id = bus.invoke_on_allcpu(1, false);
    assert_eq!(bus.wait(&mut pool, caller, id), IpiWait::Done);
    assert_eq!(bus.wait(&mut pool, caller, 12), IpiWait::Done);
    bus.done(&mut pool, id);
    bus.done(&mut pool, id);
    // reports beyond the number of cpus are ignored
    bus.done(&mut pool, id);
    bus.done(&mut pool, 12);
    assert_eq!(bus.invoke_on_allcpu(2, false), id);
    assert_eq!(pool.get_status(caller), Some(Status::Ready));
}

#[test]
fn a_caller_unknown_to_the_pool_is_told_to_ask_again() {
    let mut pool: ThreadPool<u8> = ThreadPool::new(5);
    let mut bus: IpiBus<u32> = IpiBus::new(1);
    let id = bus.invoke_on_allcpu(1, true);
    assert_eq!(bus.wait(&mut pool, 5, id), IpiWait::Retry);
    bus.done(&mut pool, id);
    assert_eq!(bus.wait(&mut pool, 5, id), IpiWait::Done);
}
