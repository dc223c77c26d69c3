use rcore_thread::dev::{
    block_bytes, copy_part, read_blocks, write_blocks, BlockDevice, BlockIter, BlockRange, Device,
};
use std::sync::Mutex;

struct Disk(Mutex<[u8; 16]>);

impl BlockDevice for Disk {
    const BLOCK_SIZE_LOG2: u8 = 2;

    fn read_at(&self, block_id: usize, buf: &mut [u8]) -> bool {
        if block_id >= 4 {
            return false;
        }
        let begin = block_id << 2;
        buf[..4].copy_from_slice(&self.0.lock().unwrap()[begin..begin + 4]);
        true
    }

    fn write_at(&self, block_id: usize, buf: &[u8]) -> bool {
        if block_id >= 4 {
            return false;
        }
        let begin = block_id << 2;
        self.0.lock().unwrap()[begin..begin + 4].copy_from_slice(&buf[..4]);
        true
    }
}

#[test]
fn read() {
    let buf = Disk(Mutex::new([0, 1, 2, 3, 4, 5, 6, 7, 8, 9, 10, 11, 12, 13, 14, 15]));
    let mut res: [u8; 6] = [0; 6];

    // all inside
    let ret = Device::read_at(&buf, 3, &mut res);
    assert_eq!(ret, Some(6));
    assert_eq!(res, [3, 4, 5, 6, 7, 8]);

    // partly inside
    let ret = Device::read_at(&buf, 11, &mut res);
    assert_eq!(ret, Some(5));
    assert_eq!(res, [11, 12, 13, 14, 15, 8]);

    // all outside
    let ret = Device::read_at(&buf, 16, &mut res);
    assert_eq!(ret, Some(0));
    assert_eq!(res, [11, 12, 13, 14, 15, 8]);
}

#[test]
fn write() {
    let buf = Disk(Mutex::new([0; 16]));
    let res: [u8; 6] = [3, 4, 5, 6, 7, 8];

    // all inside
    let ret = Device::write_at(&buf, 3, &res);
    assert_eq!(ret, Some(6));
    assert_eq!(*buf.0.lock().unwrap(), [0, 0, 0, 3, 4, 5, 6, 7, 8, 0, 0, 0, 0, 0, 0, 0]);

    // partly inside
    let ret = Device::write_at(&buf, 11, &res);
    assert_eq!(ret, Some(5));
    assert_eq!(*buf.0.lock().unwrap(), [0, 0, 0, 3, 4, 5, 6, 7, 8, 0, 0, 3, 4, 5, 6, 7]);

    // all outside
    let ret = Device::write_at(&buf, 16, &res);
    assert_eq!(ret, Some(0));
    assert_eq!(*buf.0.lock().unwrap(), [0, 0, 0, 3, 4, 5, 6, 7, 8, 0, 0, 3, 4, 5, 6, 7]);
}

#[test]
fn block_bytes_is_a_power_of_two() {
    assert_eq!(block_bytes(0), 1);
    assert_eq!(block_bytes(2), 4);
    assert_eq!(block_bytes(12), 4096);
}

#[test]
fn block_iter_splits_at_block_ends() {
    let mut iter = BlockIter { begin: 3, end: 9, block_size_log2: 2 };
    assert_eq!(iter.next(), Some(BlockRange { block: 0, begin: 3, end: 4, block_size_log2: 2 }));
    assert_eq!(iter.next(), Some(BlockRange { block: 1, begin: 0, end: 4, block_size_log2: 2 }));
    assert_eq!(iter.next(), Some(BlockRange { block: 2, begin: 0, end: 1, block_size_log2: 2 }));
    assert_eq!(iter.next(), None);
    assert_eq!(iter.begin, 9);
}

#[test]
fn block_range_measures() {
    let range = BlockRange { block: 2, begin: 1, end: 3, block_size_log2: 2 };
    assert_eq!(range.len(), 2);
    assert!(!range.is_empty());
    assert!(!range.is_full());
    assert_eq!(range.origin_begin(), 9);
    assert_eq!(range.origin_end(), 11);
    let whole = BlockRange { block: 0, begin: 0, end: 4, block_size_log2: 2 };
    assert!(whole.is_full());
    let none = BlockRange { block: 0, begin: 2, end: 2, block_size_log2: 2 };
    assert!(none.is_empty());
}

#[test]
fn read_blocks_stops_at_the_failing_block() {
    let disk = Disk(Mutex::new([7; 16]));
    let mut res = [0u8; 8];
    assert_eq!(read_blocks(&disk, 12, &mut res), Some(4));
    assert_eq!(res, [7, 7, 7, 7, 0, 0, 0, 0]);
    assert_eq!(write_blocks(&disk, 14, &[1, 2, 3, 4]), Some(2));
    assert_eq!(*disk.0.lock().unwrap(), [7, 7, 7, 7, 7, 7, 7, 7, 7, 7, 7, 7, 7, 7, 1, 2]);
}

#[test]
fn copy_part_leaves_the_rest_alone() {
    let mut target = [9u8; 6];
    copy_part(&mut target, 2, &[1, 2, 3, 4, 5], 1, 3);
    assert_eq!(target, [9, 9, 2, 3, 4, 9]);
    copy_part(&mut target, 6, &[1], 1, 0);
    assert_eq!(target, [9, 9, 2, 3, 4, 9]);
}

struct ReadOnlyFrom(Mutex<[u8; 16]>, usize);

impl BlockDevice for ReadOnlyFrom {
    const BLOCK_SIZE_LOG2: u8 = 2;

    fn read_at(&self, block_id: usize, buf: &mut [u8]) -> bool {
        let begin = block_id << 2;
        buf[..4].copy_from_slice(&self.0.lock().unwrap()[begin..begin + 4]);
        true
    }

    fn write_at(&self, block_id: usize, buf: &[u8]) -> bool {
        if block_id >= self.1 {
            return false;
        }
        let begin = block_id << 2;
        self.0.lock().unwrap()[begin..begin + 4].copy_from_slice(&buf[..4]);
        true
    }
}

#[test]
fn a_write_is_short_where_the_device_refuses_the_block() {
    let disk = ReadOnlyFrom(Mutex::new([7; 16]), 2);
    // block 0 in part, block 1 whole, block 2 refused
    assert_eq!(write_blocks(&disk, 2, &[1, 2, 3, 4, 5, 6, 7, 8]), Some(6));
    assert_eq!(*disk.0.lock().unwrap(), [7, 7, 1, 2, 3, 4, 5, 6, 7, 7, 7, 7, 7, 7, 7, 7]);
    // the first block refused: nothing is written
    assert_eq!(write_blocks(&disk, 9, &[1, 2]), Some(0));
    // nothing to write is all written, whatever the device refuses
    assert_eq!(write_blocks(&disk, 9, &[]), Some(0));
    let mut none: [u8; 0] = [];
    assert_eq!(read_blocks(&disk, 9, &mut none), Some(0));
    // reading is not refused: every byte comes from its place
    let mut res = [0u8; 7];
    assert_eq!(Device::read_at(&disk, 1, &mut res), Some(7));
    assert_eq!(res, [7, 1, 2, 3, 4, 5, 6]);
}
