//! Devices that file systems read and write: the interface in bytes, the
//! interface in blocks, and reading and writing a block device by the byte.

use vstd::arithmetic::power2::{lemma_pow2_pos, lemma_pow2_strictly_increases, lemma_pow2_unfold, pow2};
use vstd::prelude::*;

verus! {

/// A point in time: seconds and nanoseconds.
#[derive(Clone, Copy, Debug, PartialEq, Eq, Structural)]
pub struct Timespec {
    pub sec: i64,
    pub nsec: i32,
}

/// A source of the current time.
pub trait TimeProvider {
    fn current_time(&self) -> Timespec;
}

/// A device that is read and written in bytes.
///
/// A device may say of itself which answers it gives, with `read_answer` and
/// `write_answer`; what is proved of code that uses the device is then stated
/// over them.
pub trait Device {
    /// What a read at `offset` into a buffer that held `before` may leave in
    /// the buffer and return. Each device says this of itself; one that says
    /// nothing allows every answer.
    open spec fn read_answer(
        &self,
        offset: usize,
        before: Seq<u8>,
        after: Seq<u8>,
        r: Option<usize>,
    ) -> bool {
        true
    }

    /// What a write of `data` at `offset` may return.
    open spec fn write_answer(&self, offset: usize, data: Seq<u8>, r: Option<usize>) -> bool {
        true
    }

    /// Reads into `buf` from byte `offset` on and returns the number of bytes
    /// read.
    fn read_at(&self, offset: usize, buf: &mut [u8]) -> (r: Option<usize>)
        requires
            offset + old(buf)@.len() <= usize::MAX,
        ensures
            final(buf)@.len() == old(buf)@.len(),
            self.read_answer(offset, old(buf)@, final(buf)@, r),
    ;

    /// Writes `buf` from byte `offset` on and returns the number of bytes
    /// written.
    fn write_at(&self, offset: usize, buf: &[u8]) -> (r: Option<usize>)
        requires
            offset + buf@.len() <= usize::MAX,
        ensures
            self.write_answer(offset, buf@, r),
    ;
}

/// A device that is read and written in whole blocks of `2^BLOCK_SIZE_LOG2`
/// bytes.
///
/// A device may say of itself which blocks it may hand out and take, and which
/// it may refuse, with `reads`, `writes`, `refuses_read` and `refuses_write`.
/// Nothing is promised of a device beyond that: whether an operation
/// succeeds, and what a read brings, is the device's own matter.
pub trait BlockDevice {
    const BLOCK_SIZE_LOG2: u8;

    /// The device may answer a read of block `block_id` with `data`. Each
    /// device says this of itself; one that says nothing allows every answer.
    open spec fn reads(&self, block_id: usize, data: Seq<u8>) -> bool {
        true
    }

    /// The device may refuse to read block `block_id`.
    open spec fn refuses_read(&self, block_id: usize) -> bool {
        true
    }

    /// The device may take `data` for block `block_id`.
    open spec fn writes(&self, block_id: usize, data: Seq<u8>) -> bool {
        true
    }

    /// The device may refuse to write block `block_id`.
    open spec fn refuses_write(&self, block_id: usize) -> bool {
        true
    }

    /// Reads block `block_id` into the front of `buf`, which has room for a
    /// block, and says whether it could.
    fn read_at(&self, block_id: usize, buf: &mut [u8]) -> (ok: bool)
        requires
            old(buf)@.len() >= block_size(Self::BLOCK_SIZE_LOG2),
        ensures
            final(buf)@.len() == old(buf)@.len(),
            ok ==> self.reads(
                block_id,
                final(buf)@.subrange(0, block_size(Self::BLOCK_SIZE_LOG2) as int),
            ),
            !ok ==> self.refuses_read(block_id),
    ;

    /// Writes the front of `buf`, which holds a block, to block `block_id` and
    /// says whether it could.
    fn write_at(&self, block_id: usize, buf: &[u8]) -> (ok: bool)
        requires
            buf@.len() >= block_size(Self::BLOCK_SIZE_LOG2),
        ensures
            ok ==> self.writes(block_id, buf@.subrange(0, block_size(Self::BLOCK_SIZE_LOG2) as int)),
            !ok ==> self.refuses_write(block_id),
    ;
}

/// Number of bytes in a block.
pub open spec fn block_size(log2: u8) -> nat {
    pow2(log2 as nat)
}

/// Number of bytes in a block.
pub fn block_bytes(log2: u8) -> (r: usize)
    requires
        block_size(log2) <= usize::MAX,
    ensures
        r == block_size(log2),
        r > 0,
{
    let mut r: usize = 1;
    let mut i: u8 = 0;
    proof {
        vstd::arithmetic::power2::lemma2_to64();
    }
    while i < log2
        invariant
            i <= log2,
            r == pow2(i as nat),
            pow2(log2 as nat) <= usize::MAX,
        decreases log2 - i,
    {
        proof {
            lemma_pow2_unfold((i + 1) as nat);
            if i + 1 < log2 {
                lemma_pow2_strictly_increases((i + 1) as nat, log2 as nat);
            }
        }
        r = r * 2;
        i += 1;
    }
    proof {
        lemma_pow2_pos(log2 as nat);
    }
    r
}

/// The part of one block that a range of bytes covers.
#[derive(Clone, Copy, Debug, PartialEq, Eq, Structural)]
pub struct BlockRange {
    /// Number of the block.
    pub block: usize,
    /// First byte of the part, counted inside the block.
    pub begin: usize,
    /// End of the part, counted inside the block.
    pub end: usize,
    pub block_size_log2: u8,
}

impl BlockRange {
    pub open spec fn wf(&self) -> bool {
        &&& block_size(self.block_size_log2) <= usize::MAX
        &&& self.begin <= self.end <= block_size(self.block_size_log2)
        &&& self.block * block_size(self.block_size_log2) + self.end <= usize::MAX
    }

    /// The part has no byte.
    pub fn is_empty(&self) -> (r: bool)
        ensures
            r == (self.end == self.begin),
    {
        self.end == self.begin
    }

    /// Number of bytes in the part.
    pub fn len(&self) -> (r: usize)
        requires
            self.wf(),
        ensures
            r == self.end - self.begin,
    {
        self.end - self.begin
    }

    /// The part is the whole block.
    pub fn is_full(&self) -> (r: bool)
        requires
            self.wf(),
        ensures
            r == (self.end - self.begin == block_size(self.block_size_log2)),
    {
        self.len() == block_bytes(self.block_size_log2)
    }

    /// First byte of the part, counted from the start of the device.
    pub fn origin_begin(&self) -> (r: usize)
        requires
            self.wf(),
        ensures
            r == self.block * block_size(self.block_size_log2) + self.begin,
    {
        let size = block_bytes(self.block_size_log2);
        assert(self.block * size >= 0) by (nonlinear_arith)
            requires
                size >= 0,
        ;
        self.block * size + self.begin
    }

    /// End of the part, counted from the start of the device.
    pub fn origin_end(&self) -> (r: usize)
        requires
            self.wf(),
        ensures
            r == self.block * block_size(self.block_size_log2) + self.end,
    {
        let size = block_bytes(self.block_size_log2);
        assert(self.block * size >= 0) by (nonlinear_arith)
            requires
                size >= 0,
        ;
        self.block * size + self.end
    }
}

/// Walks over a range of bytes block by block.
#[derive(Clone, Copy, Debug, PartialEq, Eq, Structural)]
pub struct BlockIter {
    /// First byte that is still to come.
    pub begin: usize,
    /// End of the range.
    pub end: usize,
    pub block_size_log2: u8,
}

impl BlockIter {
    /// The part that `next` gives for a walk that stands at `begin`.
    pub open spec fn range_at(begin: usize, end: usize, log2: u8) -> BlockRange {
        let size = block_size(log2) as int;
        let block = begin as int / size;
        BlockRange {
            block: block as usize,
            begin: (begin as int % size) as usize,
            end: if block == end as int / size {
                (end as int % size) as usize
            } else {
                size as usize
            },
            block_size_log2: log2,
        }
    }

    /// The next part of the range: from where the walk stands to the end of
    /// that block, or to the end of the range if that comes first. `None` when
    /// the walk has come to the end.
    pub fn next(&mut self) -> (r: Option<BlockRange>)
        requires
            block_size(old(self).block_size_log2) <= usize::MAX,
        ensures
            final(self).end == old(self).end,
            final(self).block_size_log2 == old(self).block_size_log2,
            old(self).begin >= old(self).end ==> r is None && final(self).begin == old(self).begin,
            old(self).begin < old(self).end ==> {
                &&& r == Some(
                    Self::range_at(old(self).begin, old(self).end, old(self).block_size_log2),
                )
                &&& r->0.wf()
                &&& r->0.begin < r->0.end
                &&& r->0.block * block_size(old(self).block_size_log2) + r->0.begin == old(self).begin
                &&& r->0.block * block_size(old(self).block_size_log2) + r->0.end == final(self).begin
                &&& final(self).begin <= old(self).end
                &&& final(self).begin == old(self).end || r->0.end == block_size(
                    old(self).block_size_log2,
                )
            },
    {
        if self.begin >= self.end {
            return None;
        }
        let size = block_bytes(self.block_size_log2);
        let block = self.begin / size;
        let begin = self.begin % size;
        let end = if block == self.end / size {
            self.end % size
        } else {
            size
        };
        proof {
            let b = self.begin as int;
            let e = self.end as int;
            let s = size as int;
            assert(b == s * (b / s) + b % s) by (nonlinear_arith)
                requires
                    s > 0,
            ;
            assert(e == s * (e / s) + e % s) by (nonlinear_arith)
                requires
                    s > 0,
            ;
            assert(0 <= b % s < s && 0 <= e % s < s) by (nonlinear_arith)
                requires
                    s > 0,
            ;
            assert(b / s <= e / s) by (nonlinear_arith)
                requires
                    s > 0,
                    b < e,
            ;
            assert((b / s) * s == s * (b / s)) by (nonlinear_arith);
            if b / s != e / s {
                assert(s * (b / s) + s <= s * (e / s)) by (nonlinear_arith)
                    requires
                        s > 0,
                        b / s < e / s,
                ;
            }
        }
        let range = BlockRange { block, begin, end, block_size_log2: self.block_size_log2 };
        self.begin = self.begin + (end - begin);
        Some(range)
    }
}

/// Copies `n` bytes from `source`, starting at `from`, to `target`, starting
/// at `to`. The other bytes of `target` stay as they are.
pub fn copy_part(target: &mut [u8], to: usize, source: &[u8], from: usize, n: usize)
    requires
        to + n <= old(target)@.len(),
        from + n <= source@.len(),
    ensures
        final(target)@.len() == old(target)@.len(),
        forall|i: int| to <= i < to + n ==> final(target)@[i] == source@[i - to + from],
        forall|i: int|
            0 <= i < old(target)@.len() && !(to <= i < to + n) ==> final(target)@[i] == old(target)@[i],
{
    let target_len = target.len();
    let source_len = source.len();
    let mut k: usize = 0;
    while k < n
        invariant
            k <= n,
            to + n <= target_len,
            from + n <= source_len,
            source@.len() == source_len,
            target@.len() == target_len,
            target@.len() == old(target)@.len(),
            forall|i: int| to <= i < to + k ==> target@[i] == source@[i - to + from],
            forall|i: int|
                0 <= i < target@.len() && !(to <= i < to + k) ==> target@[i] == old(target)@[i],
        decreases n - k,
    {
        target[to + k] = source[from + k];
        k += 1;
    }
}

/// The byte at place `pos` of a block device was read as `byte`: the device
/// answered a read of the block that holds the place with a block that has
/// `byte` there.
pub open spec fn read_from<T: BlockDevice>(dev: &T, pos: int, byte: u8) -> bool {
    let size = block_size(T::BLOCK_SIZE_LOG2) as int;
    exists|data: Seq<u8>|
        #[trigger] dev.reads((pos / size) as usize, data) && data.len() == size && data[pos
            % size] == byte
}

/// What reading `before.len()` bytes from place `offset` of a block device,
/// block by block, may leave in the buffer and return.
///
/// The count is the number of bytes read: all of them, or, where the device
/// refused a block, those before that block, and only then. Each byte up to
/// the count was read from its place on the device; the bytes after it are as
/// they were.
pub open spec fn blocks_read<T: BlockDevice>(
    dev: &T,
    offset: usize,
    before: Seq<u8>,
    after: Seq<u8>,
    r: Option<usize>,
) -> bool {
    let size = block_size(T::BLOCK_SIZE_LOG2) as int;
    &&& after.len() == before.len()
    &&& r is Some
    &&& r->0 <= before.len()
    &&& r->0 == before.len() || r->0 == 0 || (offset + r->0) % size == 0
    &&& r->0 < before.len() ==> dev.refuses_read(((offset + r->0) / size) as usize)
    &&& forall|i: int| 0 <= i < r->0 ==> read_from(dev, offset + i, #[trigger] after[i])
    &&& forall|i: int| r->0 <= i < before.len() ==> #[trigger] after[i] == before[i]
}

/// Block `block` of the device, made up as `data`, takes the bytes of `buf`,
/// which go to the device from place `offset` on, where it overlaps them. If
/// it does not lie inside them, its other bytes are those of a block with
/// which the device answered a read of it.
pub open spec fn block_made<T: BlockDevice>(
    dev: &T,
    offset: usize,
    buf: Seq<u8>,
    block: int,
    data: Seq<u8>,
) -> bool {
    let size = block_size(T::BLOCK_SIZE_LOG2) as int;
    &&& data.len() == size
    &&& forall|q: int|
        0 <= q < size && offset <= block * size + q < offset + buf.len() ==> #[trigger] data[q]
            == buf[block * size + q - offset]
    &&& covered(offset, buf.len(), block, size) || exists|old_data: Seq<u8>|
        {
            &&& #[trigger] dev.reads(block as usize, old_data)
            &&& old_data.len() == size
            &&& forall|q: int|
                0 <= q < size && !(offset <= block * size + q < offset + buf.len())
                    ==> #[trigger] data[q] == old_data[q]
        }
}

/// Block `block` lies inside the `len` bytes from place `offset` on.
pub open spec fn covered(offset: usize, len: nat, block: int, size: int) -> bool {
    offset <= block * size && block * size + size <= offset + len
}

/// The byte of `buf` that belongs at place `pos` of the device was written:
/// the device took, for the block that holds the place, a block made up with
/// the bytes of `buf`.
pub open spec fn written_to<T: BlockDevice>(dev: &T, offset: usize, buf: Seq<u8>, pos: int) -> bool {
    let size = block_size(T::BLOCK_SIZE_LOG2) as int;
    exists|data: Seq<u8>|
        #[trigger] dev.writes((pos / size) as usize, data) && block_made(
            dev,
            offset,
            buf,
            pos / size,
            data,
        )
}

/// What writing `buf` to a block device from place `offset` on, block by
/// block, may return: the number of bytes written, all of them, or, where the
/// device refused a block, those before that block, and only then. The device
/// refuses a block when it refuses to write it or, for a block that `buf`
/// covers in part, to read it first. Each byte up to the count was written to
/// its place.
pub open spec fn blocks_written<T: BlockDevice>(
    dev: &T,
    offset: usize,
    buf: Seq<u8>,
    r: Option<usize>,
) -> bool {
    let size = block_size(T::BLOCK_SIZE_LOG2) as int;
    &&& r is Some
    &&& r->0 <= buf.len()
    &&& r->0 == buf.len() || r->0 == 0 || (offset + r->0) % size == 0
    &&& r->0 < buf.len() ==> {
        let block = (offset + r->0) / size;
        dev.refuses_write(block as usize) || (!covered(offset, buf.len(), block, size)
            && dev.refuses_read(block as usize))
    }
    &&& forall|pos: int|
        offset <= pos < offset + r->0 ==> #[trigger] written_to(dev, offset, buf, pos)
}

/// A place inside a block lies in that block, at that place.
proof fn lemma_place(block: int, size: int, p: int)
    requires
        size > 0,
        0 <= p < size,
    ensures
        (block * size + p) / size == block,
        (block * size + p) % size == p,
{
    vstd::arithmetic::div_mod::lemma_fundamental_div_mod_converse(block * size + p, size, block, p);
}

/// Reads `buf.len()` bytes from byte `offset` of a block device, block by
/// block. Returns the number of bytes read: all of them, or, where the device
/// refuses a block, those before that block. Each of them is the byte that
/// the device handed out for its place. The bytes of `buf` after them are
/// left as they were.
pub fn read_blocks<T: BlockDevice>(dev: &T, offset: usize, buf: &mut [u8]) -> (r: Option<usize>)
    requires
        offset + old(buf)@.len() <= usize::MAX,
        block_size(T::BLOCK_SIZE_LOG2) <= usize::MAX,
    ensures
        final(buf)@.len() == old(buf)@.len(),
        blocks_read(dev, offset, old(buf)@, final(buf)@, r),
{
    let size = block_bytes(T::BLOCK_SIZE_LOG2);
    let total = buf.len();
    let mut iter = BlockIter {
        begin: offset,
        end: offset + total,
        block_size_log2: T::BLOCK_SIZE_LOG2,
    };
    let mut block_buf: Vec<u8> = Vec::new();
    while block_buf.len() < size
        invariant
            block_buf@.len() <= size,
        decreases size - block_buf@.len(),
    {
        block_buf.push(0);
    }
    loop
        invariant
            size == block_size(T::BLOCK_SIZE_LOG2),
            size > 0,
            total == old(buf)@.len(),
            buf@.len() == total,
            block_buf@.len() == size,
            iter.block_size_log2 == T::BLOCK_SIZE_LOG2,
            iter.end == offset + total,
            offset <= iter.begin <= iter.end,
            iter.begin == offset || iter.begin == iter.end || iter.begin as int % (size as int)
                == 0,
            forall|i: int| iter.begin - offset <= i < total ==> buf@[i] == old(buf)@[i],
            forall|i: int|
                0 <= i < iter.begin - offset ==> read_from(dev, offset + i, #[trigger] buf@[i]),
        decreases iter.end - iter.begin,
    {
        let ghost before = iter.begin;
        let ghost held = buf@;
        let range = match iter.next() {
            Some(range) => range,
            None => {
                return Some(total);
            },
        };
        let len = range.origin_begin() - offset;
        proof {
            if iter.begin != iter.end {
                let s = size as int;
                let e = iter.begin as int;
                assert(range.end == size);
                assert(e == (range.block + 1) * s) by (nonlinear_arith)
                    requires
                        e == range.block * s + s,
                ;
                assert(((range.block + 1) * s) % s == 0) by (nonlinear_arith)
                    requires
                        s > 0,
                ;
            }
        }
        if !dev.read_at(range.block, block_buf.as_mut_slice()) {
            proof {
                if len != 0 && before != offset + total {
                    assert(before != offset);
                }
                lemma_place(range.block as int, size as int, range.begin as int);
            }
            return Some(len);
        }
        copy_part(buf, len, block_buf.as_slice(), range.begin, range.end - range.begin);
        proof {
            let data = block_buf@.subrange(0, size as int);
            assert(data == block_buf@);
            assert forall|i: int| 0 <= i < iter.begin - offset implies read_from(
                dev,
                offset + i,
                #[trigger] buf@[i],
            ) by {
                if i < len {
                    assert(buf@[i] == held[i]);
                    assert(read_from(dev, offset + i, held[i]));
                } else {
                    let p = i - len + range.begin;
                    lemma_place(range.block as int, size as int, p);
                    assert(offset + i == range.block * size + p);
                    assert(dev.reads(((offset + i) / (size as int)) as usize, data));
                    assert(data[(offset + i) % (size as int)] == buf@[i]);
                }
            }
        }
    }
}

/// Writes `buf` to a block device from byte `offset` on, block by block. A
/// block that is covered in part is read, changed and written back: its other
/// bytes go back as they were read. Returns the number of bytes written: all
/// of them, or, where the device refuses a block, those before that block.
pub fn write_blocks<T: BlockDevice>(dev: &T, offset: usize, buf: &[u8]) -> (r: Option<usize>)
    requires
        offset + buf@.len() <= usize::MAX,
        block_size(T::BLOCK_SIZE_LOG2) <= usize::MAX,
    ensures
        blocks_written(dev, offset, buf@, r),
{
    let size = block_bytes(T::BLOCK_SIZE_LOG2);
    let total = buf.len();
    let mut iter = BlockIter {
        begin: offset,
        end: offset + total,
        block_size_log2: T::BLOCK_SIZE_LOG2,
    };
    let mut block_buf: Vec<u8> = Vec::new();
    while block_buf.len() < size
        invariant
            block_buf@.len() <= size,
        decreases size - block_buf@.len(),
    {
        block_buf.push(0);
    }
    loop
        invariant
            size == block_size(T::BLOCK_SIZE_LOG2),
            size > 0,
            total == buf@.len(),
            block_buf@.len() == size,
            iter.block_size_log2 == T::BLOCK_SIZE_LOG2,
            iter.end == offset + total,
            offset <= iter.begin <= iter.end,
            iter.begin == offset || iter.begin == iter.end || iter.begin as int % (size as int)
                == 0,
            forall|pos: int|
                offset <= pos < iter.begin ==> #[trigger] written_to(dev, offset, buf@, pos),
        decreases iter.end - iter.begin,
    {
        let ghost before = iter.begin;
        let range = match iter.next() {
            Some(range) => range,
            None => {
                return Some(total);
            },
        };
        let len = range.origin_begin() - offset;
        proof {
            if iter.begin != iter.end {
                let s = size as int;
                let e = iter.begin as int;
                assert(range.end == size);
                assert(e == (range.block + 1) * s) by (nonlinear_arith)
                    requires
                        e == range.block * s + s,
                ;
                assert(((range.block + 1) * s) % s == 0) by (nonlinear_arith)
                    requires
                        s > 0,
                ;
            }
        }
        let full = range.is_full();
        proof {
            lemma_place(range.block as int, size as int, range.begin as int);
            assert(range.begin > 0 ==> before == offset);
            assert(range.end < size ==> iter.begin == offset + total);
            assert(full <==> covered(offset, buf@.len(), range.block as int, size as int));
        }
        if !full {
            if !dev.read_at(range.block, block_buf.as_mut_slice()) {
                return Some(len);
            }
        }
        let ghost old_data = block_buf@;
        copy_part(block_buf.as_mut_slice(), range.begin, buf, len, range.end - range.begin);
        if !dev.write_at(range.block, block_buf.as_slice()) {
            return Some(len);
        }
        proof {
            let data = block_buf@.subrange(0, size as int);
            let s = size as int;
            let block = range.block as int;
            assert(data == block_buf@);
            assert(old_data.subrange(0, s) == old_data);
            lemma_place(block, s, range.begin as int);
            assert(before as int % s == range.begin);
            assert(range.begin > 0 ==> before == offset);
            assert(range.end < s ==> iter.begin == offset + total);
            assert forall|q: int|
                0 <= q < s && offset <= block * s + q < offset + buf@.len() implies #[trigger] data[q]
                == buf@[block * s + q - offset] by {
                assert(range.begin <= q < range.end);
                assert(data[q] == buf@[q - range.begin + len]);
            }
            if full {
                assert(range.begin == 0 && range.end == s);
            } else {
                assert(dev.reads(block as usize, old_data));
                assert forall|q: int|
                    0 <= q < s && !(offset <= block * s + q < offset + buf@.len()) implies #[trigger] data[q]
                    == old_data[q] by {
                    assert(!(range.begin <= q < range.end));
                }
            }
            assert(block_made(dev, offset, buf@, block, data));
            assert forall|pos: int| offset <= pos < iter.begin implies #[trigger] written_to(
                dev,
                offset,
                buf@,
                pos,
            ) by {
                if pos >= before {
                    let p = pos - block * s;
                    lemma_place(block, s, p);
                    assert(pos / s == block);
                    assert(dev.writes((pos / s) as usize, data));
                }
            }
        }
    }
}

/// Every block device is a device: it is read and written by the byte, block
/// by block, as `read_blocks` and `write_blocks` do it. For a block size that
/// does not fit the machine's word nothing is read or written and the result
/// is `None`.
impl<T: BlockDevice> Device for T {
    /// A block device answers a read in bytes as reading block by block gives
    /// it.
    open spec fn read_answer(
        &self,
        offset: usize,
        before: Seq<u8>,
        after: Seq<u8>,
        r: Option<usize>,
    ) -> bool {
        if (T::BLOCK_SIZE_LOG2 as u32) < usize::BITS {
            blocks_read(self, offset, before, after, r)
        } else {
            r is None && after == before
        }
    }

    /// A block device answers a write in bytes as writing block by block gives
    /// it.
    open spec fn write_answer(&self, offset: usize, data: Seq<u8>, r: Option<usize>) -> bool {
        if (T::BLOCK_SIZE_LOG2 as u32) < usize::BITS {
            blocks_written(self, offset, data, r)
        } else {
            r is None
        }
    }

    fn read_at(&self, offset: usize, buf: &mut [u8]) -> (r: Option<usize>) {
        if (T::BLOCK_SIZE_LOG2 as u32) < usize::BITS {
            proof {
                vstd::bits::lemma_usize_pow2_no_overflow(T::BLOCK_SIZE_LOG2 as nat);
            }
            read_blocks(self, offset, buf)
        } else {
            None
        }
    }

    fn write_at(&self, offset: usize, buf: &[u8]) -> (r: Option<usize>) {
        if (T::BLOCK_SIZE_LOG2 as u32) < usize::BITS {
            proof {
                vstd::bits::lemma_usize_pow2_no_overflow(T::BLOCK_SIZE_LOG2 as nat);
            }
            write_blocks(self, offset, buf)
        } else {
            None
        }
    }
}

} // verus!
