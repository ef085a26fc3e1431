//! The file and block-device backend: how a store is opened, and the
//! operations each request takes. The operations themselves are issued
//! outside; their results come back here.

use vstd::prelude::*;

use crate::config::BackendConfig;
use crate::pool::{fill_subsegs, Seg};

pub mod disk;

verus! {

/// Input/output error.
pub const EIO: i32 = 5;

/// Device or resource busy.
pub const EBUSY: i32 = 16;

/// Invalid argument.
pub const EINVAL: i32 = 22;

/// No space left on device.
pub const ENOSPC: i32 = 28;

/// Operation not supported.
pub const EOPNOTSUPP: i32 = 95;

/// File-type bits of a mode.
pub const S_IFMT: u32 = 0o170000;

/// Block device.
pub const S_IFBLK: u32 = 0o060000;

/// Regular file.
pub const S_IFREG: u32 = 0o100000;

/// Deallocate the range, keeping the file size.
pub const FALLOC_PUNCH: i32 = 0x03;

/// Zero the range.
pub const FALLOC_ZERO: i32 = 0x10;

/// Zero the range, keeping the file size.
pub const FALLOC_ZERO_KEEP: i32 = 0x11;

/// Bytes written at a time where no way of zeroing is supported.
pub const ZERO_CHUNK: u64 = 65536;

/// Why a backend operation failed.
#[derive(Debug, Clone, Copy, PartialEq, Eq, Structural)]
pub enum BackendError {
    OutOfRange,
    NoSpace,
    Unsupported,
    Io(i32),
}

/// A range of blocks.
#[derive(Debug, Clone, Copy, PartialEq, Eq, Structural)]
pub struct LbaRange {
    pub slba: u64,
    pub nlb: u32,
}

/// Backing kind.
#[derive(Debug, Clone, Copy, PartialEq, Eq, Structural)]
pub enum Kind {
    Regular,
    Block,
}

/// How an issued operation ended.
#[derive(Debug, Clone, Copy, PartialEq, Eq, Structural)]
pub enum OpResult {
    /// It could not be submitted.
    Refused { errno: i32 },
    /// It failed.
    Failed { errno: i32 },
    /// It moved `n` bytes.
    Done { n: u32 },
}

/// Whether a failed deallocation counts as honoured by doing nothing: it is a
/// hint, and the store cannot unmap, or declined just now.
pub fn unmap_hint_declined(errno: Option<i32>) -> (b: bool)
    ensures
        b == (errno == Some(EOPNOTSUPP) || errno == Some(EBUSY)),
{
    match errno {
        Some(e) => e == EOPNOTSUPP || e == EBUSY,
        None => false,
    }
}

/// Whether a failed way of zeroing leads on to the next: only where the store
/// lacks it. A real error is the answer.
pub fn fallocate_mode_unsupported(errno: Option<i32>) -> (b: bool)
    ensures
        b == (errno == Some(EOPNOTSUPP)),
{
    match errno {
        Some(e) => e == EOPNOTSUPP,
        None => false,
    }
}

/// Bytes of a block.
pub open spec fn block_bytes(shift: u8) -> u64 {
    1u64 << (shift as u64)
}

/// Whether direct IO is usable on a store with these alignments: always
/// without a receive ring, whose payloads are only dword-aligned.
pub open spec fn direct_ok(ring: bool, dio_mem: u32, dio_off: u32, shift: u8) -> bool {
    !ring || (dio_mem != 0 && dio_mem <= 4 && dio_off != 0 && dio_off <= block_bytes(shift))
}

/// Whether direct IO is usable.
pub fn direct_usable(ring_enabled: bool, dio_mem: u32, dio_off: u32, block_shift: u8) -> (b: bool)
    requires
        block_shift < 64,
    ensures
        b == direct_ok(ring_enabled, dio_mem, dio_off, block_shift),
{
    if !ring_enabled {
        return true;
    }
    dio_mem != 0 && dio_mem <= 4 && dio_off != 0 && dio_off as u64 <= (1u64 << (
    block_shift as u64))
}

/// Ring off is at least as direct as ring on.
pub proof fn ring_never_more_direct(dio_mem: u32, dio_off: u32, shift: u8)
    ensures
        direct_ok(true, dio_mem, dio_off, shift) ==> direct_ok(false, dio_mem, dio_off, shift),
{
}

/// The block shift of a store: its direct-IO offset alignment where it reports
/// one, else its preferred block size, as a power of two from 512 to 4096.
pub open spec fn probed_shift(dio_off: u32, blksize: u64) -> u8 {
    let base: int = if dio_off != 0 {
        dio_off as int
    } else {
        blksize as int
    };
    if base <= 512 {
        9
    } else if base <= 1024 {
        10
    } else if base <= 2048 {
        11
    } else {
        12
    }
}

/// The block shift of a store.
pub fn probe_shift(dio_off: u32, blksize: u64) -> (s: u8)
    ensures
        s == probed_shift(dio_off, blksize),
        9 <= s <= 12,
{
    let base: u64 = if dio_off != 0 {
        dio_off as u64
    } else {
        blksize
    };
    if base <= 512 {
        9
    } else if base <= 1024 {
        10
    } else if base <= 2048 {
        11
    } else {
        12
    }
}

proof fn lemma_block_bytes()
    ensures
        block_bytes(9) == 512,
        block_bytes(10) == 1024,
        block_bytes(11) == 2048,
        block_bytes(12) == 4096,
{
    assert(1u64 << 9u64 == 512) by (bit_vector);
    assert(1u64 << 10u64 == 1024) by (bit_vector);
    assert(1u64 << 11u64 == 2048) by (bit_vector);
    assert(1u64 << 12u64 == 4096) by (bit_vector);
}

/// A block is a multiple of the store's direct-IO offset alignment, where that
/// is a power of two no larger than the largest block.
pub proof fn block_is_aligned(k: u32, blksize: u64)
    requires
        k <= 12,
    ensures
        block_bytes(probed_shift(1u32 << k, blksize)) as int % (1u32 << k) as int == 0,
{
    lemma_block_bytes();
    assert(1u32 << 0u32 == 1 && 1u32 << 1u32 == 2 && 1u32 << 2u32 == 4 && 1u32 << 3u32 == 8 && 1u32
        << 4u32 == 16 && 1u32 << 5u32 == 32 && 1u32 << 6u32 == 64 && 1u32 << 7u32 == 128 && 1u32
        << 8u32 == 256 && 1u32 << 9u32 == 512 && 1u32 << 10u32 == 1024 && 1u32 << 11u32 == 2048
        && 1u32 << 12u32 == 4096) by (bit_vector);
    if k == 0 {
        assert(1u32 << k == 1);
    } else if k == 1 {
        assert(1u32 << k == 2);
    } else if k == 2 {
        assert(1u32 << k == 4);
    } else if k == 3 {
        assert(1u32 << k == 8);
    } else if k == 4 {
        assert(1u32 << k == 16);
    } else if k == 5 {
        assert(1u32 << k == 32);
    } else if k == 6 {
        assert(1u32 << k == 64);
    } else if k == 7 {
        assert(1u32 << k == 128);
    } else if k == 8 {
        assert(1u32 << k == 256);
    } else if k == 9 {
        assert(1u32 << k == 512);
    } else if k == 10 {
        assert(1u32 << k == 1024);
    } else if k == 11 {
        assert(1u32 << k == 2048);
    } else if k == 12 {
        assert(1u32 << k == 4096);
    }
}

/// What to do after the direct open.
#[derive(Debug, Clone, Copy, PartialEq, Eq, Structural)]
pub enum OpenStep {
    /// Use the direct descriptor.
    Direct,
    /// Open again, buffered.
    Buffered,
    /// The store cannot be opened.
    Fail { errno: i32 },
}

/// What a direct open says of the store: its reported alignments and its
/// preferred block size.
#[derive(Debug, Clone, Copy, PartialEq, Eq, Structural)]
pub struct Dio {
    pub mem: u32,
    pub off: u32,
    pub blksize: u64,
}

/// What to do after the direct open: keep it where its alignments allow, open
/// buffered where the store refuses direct IO.
pub fn after_direct_open(opened: Result<Dio, i32>, ring_enabled: bool) -> (s: OpenStep)
    ensures
        s == (match opened {
            Ok(d) => if direct_ok(ring_enabled, d.mem, d.off, probed_shift(d.off, d.blksize)) {
                OpenStep::Direct
            } else {
                OpenStep::Buffered
            },
            Err(e) => if e == EINVAL || e == EOPNOTSUPP {
                OpenStep::Buffered
            } else {
                OpenStep::Fail { errno: e }
            },
        }),
{
    match opened {
        Ok(d) => if direct_usable(ring_enabled, d.mem, d.off, probe_shift(d.off, d.blksize)) {
            OpenStep::Direct
        } else {
            OpenStep::Buffered
        },
        Err(e) => if e == EINVAL || e == EOPNOTSUPP {
            OpenStep::Buffered
        } else {
            OpenStep::Fail { errno: e }
        },
    }
}

/// Why an opened store cannot be served.
#[derive(Debug, Clone, Copy, PartialEq, Eq, Structural)]
pub enum StoreError {
    /// Neither a file nor a block device.
    NotAStore,
    /// Smaller than a block.
    TooSmall,
}

/// A served store. The descriptor is the caller's.
#[derive(Debug, Clone, Copy, PartialEq, Eq, Structural)]
pub struct FileBackend {
    pub kind: Kind,
    pub block_shift: u8,
    pub nr_blocks: u64,
    /// Direct IO is in effect.
    pub direct: bool,
    /// Whether buffered IO still asks for the page cache to be dropped; false
    /// from the first time the store does not know that.
    pub dontcache: bool,
}

impl FileBackend {
    pub open spec fn wf(&self) -> bool {
        &&& 9 <= self.block_shift <= 12
        &&& 0 < self.nr_blocks
        &&& self.nr_blocks * block_bytes(self.block_shift) <= u64::MAX
    }

    /// The store of `size` bytes with this block shift.
    pub open spec fn of(kind: Kind, shift: u8, size: u64, direct: bool) -> Result<
        FileBackend,
        StoreError,
    > {
        let blocks = size / block_bytes(shift);
        if blocks == 0 {
            Err(StoreError::TooSmall)
        } else {
            Ok(
                FileBackend {
                    kind,
                    block_shift: shift,
                    nr_blocks: blocks,
                    direct,
                    dontcache: true,
                },
            )
        }
    }

    /// Serve an opened store. `st_size` is the size of a file, `dev_size` that
    /// of a device; `dio_off` the reported offset alignment, 0 for none.
    pub fn open(
        mode: u32,
        st_size: i64,
        dev_size: u64,
        dio_off: u32,
        blksize: u64,
        direct: bool,
    ) -> (r: Result<FileBackend, StoreError>)
        ensures
            r matches Ok(b) ==> b.wf(),
            r == (if mode & S_IFMT == S_IFBLK {
                FileBackend::of(Kind::Block, probed_shift(dio_off, blksize), dev_size, direct)
            } else if mode & S_IFMT == S_IFREG {
                FileBackend::of(
                    Kind::Regular,
                    probed_shift(dio_off, blksize),
                    if st_size > 0 {
                        st_size as u64
                    } else {
                        0
                    },
                    direct,
                )
            } else {
                Err(StoreError::NotAStore)
            }),
    {
        let (kind, size): (Kind, u64) = if mode & S_IFMT == S_IFBLK {
            (Kind::Block, dev_size)
        } else if mode & S_IFMT == S_IFREG {
            (Kind::Regular, if st_size > 0 {
                st_size as u64
            } else {
                0
            })
        } else {
            return Err(StoreError::NotAStore);
        };
        let block_shift: u8 = probe_shift(dio_off, blksize);
        proof {
            lemma_block_bytes();
        }
        let bs: u64 = 1u64 << (block_shift as u64);
        let nr_blocks: u64 = size / bs;
        if nr_blocks == 0 {
            return Err(StoreError::TooSmall);
        }
        assert(nr_blocks * bs <= size) by (nonlinear_arith)
            requires
                nr_blocks == size / bs,
                0 < bs,
        ;
        Ok(FileBackend { kind, block_shift, nr_blocks, direct, dontcache: true })
    }

    /// Direct IO is in effect.
    pub fn is_direct(&self) -> (b: bool)
        ensures
            b == self.direct,
    {
        self.direct
    }

    /// Log2 of the block size.
    pub fn block_shift(&self) -> (s: u8)
        ensures
            s == self.block_shift,
    {
        self.block_shift
    }

    /// Capacity in blocks.
    pub fn nr_blocks(&self) -> (n: u64)
        ensures
            n == self.nr_blocks,
    {
        self.nr_blocks
    }

    /// Bytes of a block.
    fn block(&self) -> (n: u64)
        requires
            self.wf(),
        ensures
            n == block_bytes(self.block_shift),
            512 <= n <= 4096,
    {
        proof {
            lemma_block_bytes();
        }
        1u64 << (self.block_shift as u64)
    }

    /// The blocks lie within the store.
    pub open spec fn in_range(&self, slba: u64, nlb: int) -> bool {
        slba + nlb <= self.nr_blocks
    }

    /// Check that the blocks lie within the store.
    pub fn check_range(&self, slba: u64, nlb: u64) -> (r: Result<(), BackendError>)
        ensures
            r is Ok == self.in_range(slba, nlb as int),
            r matches Err(e) ==> e == BackendError::OutOfRange,
    {
        if slba <= self.nr_blocks && nlb <= self.nr_blocks - slba {
            Ok(())
        } else {
            Err(BackendError::OutOfRange)
        }
    }

    /// Byte offset of a block.
    fn offset(&self, slba: u64) -> (off: u64)
        requires
            self.wf(),
            slba <= self.nr_blocks,
        ensures
            off == slba * block_bytes(self.block_shift),
    {
        let bs: u64 = self.block();
        assert(slba * bs <= self.nr_blocks * bs) by (nonlinear_arith)
            requires
                slba <= self.nr_blocks,
        ;
        slba * bs
    }
}

/// The backend error for an error of the system.
pub open spec fn mapped(errno: i32) -> BackendError {
    if errno == ENOSPC {
        BackendError::NoSpace
    } else if errno == EOPNOTSUPP || errno == EINVAL {
        BackendError::Unsupported
    } else {
        BackendError::Io(errno)
    }
}

/// The backend error for an error of the system.
pub fn map_errno(err: i32) -> (e: BackendError)
    ensures
        e == mapped(err),
{
    if err == ENOSPC {
        BackendError::NoSpace
    } else if err == EOPNOTSUPP || err == EINVAL {
        BackendError::Unsupported
    } else {
        BackendError::Io(err)
    }
}

/// The IO vector for the first `total` bytes of `segs`.
pub fn fill_iovecs(segs: &Vec<Seg>, total: usize) -> (iovs: Vec<Seg>)
    requires
        forall|i: int|
            0 <= i < segs@.len() ==> (#[trigger] segs@[i]).off + segs@[i].len <= usize::MAX,
    ensures
        iovs@ == crate::pool::subsegs(segs@, 0, total as int),
{
    fill_subsegs(segs, 0, total)
}

/// `iovs` without its first `n` bytes.
pub open spec fn advanced(iovs: Seq<Seg>, n: int) -> Seq<Seg>
    decreases iovs.len(),
{
    if n <= 0 || iovs.len() == 0 {
        iovs
    } else if iovs[0].len <= n {
        advanced(iovs.drop_first(), n - iovs[0].len)
    } else {
        seq![Seg { off: (iovs[0].off + n) as usize, len: (iovs[0].len - n) as usize }]
            + iovs.drop_first()
    }
}

/// The vector has at least `n` bytes.
pub open spec fn holds(iovs: Seq<Seg>, n: int) -> bool
    decreases iovs.len(),
{
    n <= 0 || (iovs.len() > 0 && holds(iovs.drop_first(), n - iovs[0].len))
}

/// Move past `n` transferred bytes: `idx` is the first entry with bytes left.
pub fn advance_iovecs(iovs: &mut Vec<Seg>, idx: &mut usize, n: usize)
    requires
        *old(idx) <= old(iovs)@.len(),
        holds(old(iovs)@.subrange(*old(idx) as int, old(iovs)@.len() as int), n as int),
        forall|i: int|
            0 <= i < old(iovs)@.len() ==> (#[trigger] old(iovs)@[i]).off + old(iovs)@[i].len
                <= usize::MAX,
    ensures
        final(iovs)@.len() == old(iovs)@.len(),
        *old(idx) <= *final(idx) <= final(iovs)@.len(),
        final(iovs)@.subrange(*final(idx) as int, final(iovs)@.len() as int) == advanced(
            old(iovs)@.subrange(*old(idx) as int, old(iovs)@.len() as int),
            n as int,
        ),
        forall|i: int|
            0 <= i < final(iovs)@.len() ==> (#[trigger] final(iovs)@[i]).off + final(iovs)@[i].len
                <= usize::MAX,
{
    let ghost start = iovs@.subrange(*idx as int, iovs@.len() as int);
    let ghost from = *idx;
    let ghost count = iovs@.len();
    let mut left: usize = n;
    while left > 0
        invariant
            from <= *idx <= iovs@.len(),
            iovs@.len() == count,
            advanced(start, n as int) == advanced(
                iovs@.subrange(*idx as int, iovs@.len() as int),
                left as int,
            ),
            holds(iovs@.subrange(*idx as int, iovs@.len() as int), left as int),
            forall|i: int|
                0 <= i < iovs@.len() ==> (#[trigger] iovs@[i]).off + iovs@[i].len <= usize::MAX,
        decreases left, iovs@.len() - *idx,
    {
        let ghost rest = iovs@.subrange(*idx as int, iovs@.len() as int);
        assert(*idx < iovs.len());
        let v: Seg = iovs[*idx];
        assert(rest[0] == v);
        assert(rest.drop_first() =~= iovs@.subrange(*idx + 1, iovs@.len() as int));
        if v.len <= left {
            left = left - v.len;
            *idx = *idx + 1;
        } else {
            iovs.set(*idx, Seg { off: v.off + left, len: v.len - left });
            assert(iovs@.subrange(*idx as int, iovs@.len() as int) =~= advanced(rest, left as int));
            left = 0;
        }
    }
}

/// A vectored read or write in progress.
pub struct Rwv {
    pub write: bool,
    pub iovs: Vec<Seg>,
    /// First entry of `iovs` with bytes left.
    pub idx: usize,
    /// Byte offset of the first block.
    pub base: u64,
    pub total: usize,
    /// Bytes moved so far.
    pub done: usize,
}

impl Rwv {
    pub open spec fn wf(&self) -> bool {
        &&& self.idx <= self.iovs@.len()
        &&& self.done <= self.total
        &&& holds(self.left(), self.total - self.done)
        &&& forall|i: int|
            0 <= i < self.iovs@.len() ==> (#[trigger] self.iovs@[i]).off + self.iovs@[i].len
                <= usize::MAX
    }

    /// The part of the vector with bytes left.
    pub open spec fn left(&self) -> Seq<Seg> {
        self.iovs@.subrange(self.idx as int, self.iovs@.len() as int)
    }
}

/// What a transfer does next.
#[derive(Debug, Clone, Copy, PartialEq, Eq, Structural)]
pub enum RwStep {
    /// Move what is left, from entry `idx`, at byte offset `off`.
    Issue { idx: usize, off: u64, dontcache: bool },
    /// All bytes are moved.
    Finished,
    Failed { error: BackendError },
}

impl FileBackend {
    /// The next operation of a transfer.
    pub open spec fn next_op(&self, t: Rwv) -> RwStep {
        if t.done >= t.total {
            RwStep::Finished
        } else {
            RwStep::Issue {
                idx: t.idx,
                off: crate::queue::wadd(t.base, t.done as u64),
                dontcache: !self.direct && self.dontcache,
            }
        }
    }

    /// A transfer of `total` bytes at block `slba` begins so.
    pub open spec fn transfer_begun(
        &self,
        write: bool,
        slba: u64,
        iovs: Seq<Seg>,
        total: usize,
        r: Result<Rwv, BackendError>,
    ) -> bool {
        let blocks = total as int / block_bytes(self.block_shift) as int;
        match r {
            Err(e) => e == BackendError::OutOfRange && total > 0 && !self.in_range(slba, blocks),
            Ok(t) => {
                &&& total == 0 || self.in_range(slba, blocks)
                &&& t.wf()
                &&& t.write == write
                &&& t.iovs@ == iovs
                &&& t.idx == 0
                &&& t.total == total
                &&& t.done == 0
                &&& total > 0 ==> t.base == slba * block_bytes(self.block_shift)
            },
        }
    }

    /// Begin a transfer of `total` bytes at block `slba`.
    pub fn rwv(&self, write: bool, slba: u64, iovs: Vec<Seg>, total: usize) -> (r: Result<
        Rwv,
        BackendError,
    >)
        requires
            self.wf(),
            holds(iovs@, total as int),
            forall|i: int|
                0 <= i < iovs@.len() ==> (#[trigger] iovs@[i]).off + iovs@[i].len <= usize::MAX,
        ensures
            self.transfer_begun(write, slba, iovs@, total, r),
    {
        assert(iovs@.subrange(0, iovs@.len() as int) =~= iovs@);
        if total == 0 {
            return Ok(Rwv { write, iovs, idx: 0, base: 0, total, done: 0 });
        }
        let bs: u64 = self.block();
        match self.check_range(slba, total as u64 / bs) {
            Err(e) => Err(e),
            Ok(_) => {
                let base: u64 = self.offset(slba);
                Ok(Rwv { write, iovs, idx: 0, base, total, done: 0 })
            },
        }
    }

    /// What the transfer does next.
    pub fn rwv_next(&self, t: &Rwv) -> (s: RwStep)
        ensures
            s == self.next_op(*t),
    {
        if t.done >= t.total {
            return RwStep::Finished;
        }
        RwStep::Issue {
            idx: t.idx,
            off: t.base.wrapping_add(t.done as u64),
            dontcache: !self.direct && self.dontcache,
        }
    }

    /// An issued operation of transfer `t` ended with `r`: store and transfer
    /// after it, and what comes next.
    pub open spec fn transfer_answered(
        self,
        t: Rwv,
        r: OpResult,
        store: FileBackend,
        post: Rwv,
        s: RwStep,
    ) -> bool {
        let use_dc = !self.direct && self.dontcache;
        match r {
            OpResult::Refused { errno } => s == (RwStep::Failed { error: BackendError::Io(errno) })
                && store == self && post == t,
            OpResult::Failed { errno } => if use_dc && (errno == EOPNOTSUPP || errno == EINVAL) {
                &&& store == (FileBackend { dontcache: false, ..self })
                &&& post == t
                &&& s == store.next_op(post)
            } else {
                s == (RwStep::Failed { error: mapped(errno) }) && store == self && post == t
            },
            OpResult::Done { n } => if n == 0 {
                s == (RwStep::Failed { error: BackendError::Io(EIO) }) && store == self && post == t
            } else {
                &&& store == self
                &&& post.done == t.done + n
                &&& post.left() == advanced(t.left(), n as int)
                &&& post.total == t.total
                &&& post.base == t.base
                &&& post.write == t.write
                &&& s == store.next_op(post)
            },
        }
    }

    /// An issued operation of the transfer ended: go on with what is left, or
    /// fail. A store that does not know how to drop the page cache is asked
    /// again without, now and from now on.
    pub fn rwv_result(&mut self, t: &mut Rwv, r: OpResult) -> (s: RwStep)
        requires
            old(t).wf(),
            old(t).done < old(t).total,
            r matches OpResult::Done { n } ==> n <= old(t).total - old(t).done,
        ensures
            final(t).wf(),
            old(self).transfer_answered(*old(t), r, *final(self), *final(t), s),
    {
        let use_dc: bool = !self.direct && self.dontcache;
        match r {
            OpResult::Refused { errno } => RwStep::Failed { error: BackendError::Io(errno) },
            OpResult::Failed { errno } => {
                if use_dc && (errno == EOPNOTSUPP || errno == EINVAL) {
                    self.dontcache = false;
                    return self.rwv_next(t);
                }
                RwStep::Failed { error: map_errno(errno) }
            },
            OpResult::Done { n } => {
                if n == 0 {
                    return RwStep::Failed { error: BackendError::Io(EIO) };
                }
                proof {
                    lemma_holds_less(t.left(), t.total - t.done, n as int);
                    lemma_holds_rest(t.left(), t.total - t.done, n as int);
                }
                advance_iovecs(&mut t.iovs, &mut t.idx, n as usize);
                t.done = t.done + n as usize;
                self.rwv_next(t)
            },
        }
    }
}

proof fn lemma_holds_less(iovs: Seq<Seg>, total: int, n: int)
    requires
        holds(iovs, total),
        n <= total,
    ensures
        holds(iovs, n),
    decreases iovs.len(),
{
    if n > 0 {
        lemma_holds_less(iovs.drop_first(), total - iovs[0].len, n - iovs[0].len);
    }
}

proof fn lemma_holds_rest(iovs: Seq<Seg>, total: int, n: int)
    requires
        holds(iovs, total),
        0 <= n <= total,
    ensures
        holds(advanced(iovs, n), total - n),
    decreases iovs.len(),
{
    if n > 0 && iovs.len() > 0 {
        if iovs[0].len <= n {
            lemma_holds_rest(iovs.drop_first(), total - iovs[0].len, n - iovs[0].len);
        } else {
            let rest = advanced(iovs, n);
            assert(rest.drop_first() =~= iovs.drop_first());
        }
    }
}

/// A short transfer resumes where it ended: what is left of the vector after
/// moving `n` of its bytes holds exactly those behind them.
pub proof fn resume_continues(mem: Seq<u8>, iovs: Seq<Seg>, n: int)
    requires
        holds(iovs, n),
        0 <= n,
        mem.len() <= usize::MAX,
        forall|i: int| 0 <= i < iovs.len() ==> (#[trigger] iovs[i]).off + iovs[i].len <= mem.len(),
    ensures
        crate::pool::seg_bytes(mem, advanced(iovs, n)) == crate::pool::seg_bytes(mem, iovs).skip(n),
        n <= crate::pool::seg_bytes(mem, iovs).len(),
    decreases iovs.len(),
{
    let all = crate::pool::seg_bytes(mem, iovs);
    if n == 0 || iovs.len() == 0 {
        assert(all.skip(0) =~= all);
    } else {
        let s = iovs[0];
        let rest = iovs.drop_first();
        assert(iovs =~= seq![s] + rest);
        crate::pool::lemma_segs_cons(mem, s, rest);
        assert forall|i: int| 0 <= i < rest.len() implies (#[trigger] rest[i]).off + rest[i].len
            <= mem.len() by {
            assert(rest[i] == iovs[i + 1]);
        }
        let head = mem.subrange(s.off as int, s.off + s.len);
        if s.len <= n {
            resume_continues(mem, rest, n - s.len);
            assert((head + crate::pool::seg_bytes(mem, rest)).skip(n) =~= crate::pool::seg_bytes(
                mem,
                rest,
            ).skip(n - s.len));
        } else {
            let cut = Seg { off: (s.off + n) as usize, len: (s.len - n) as usize };
            crate::pool::lemma_segs_cons(mem, cut, rest);
            assert((head + crate::pool::seg_bytes(mem, rest)).skip(n) =~= mem.subrange(
                cut.off as int,
                cut.off + cut.len,
            ) + crate::pool::seg_bytes(mem, rest));
        }
    }
}

/// A deallocation of one range.
#[derive(Debug, Clone, Copy, PartialEq, Eq, Structural)]
pub struct DiscardOp {
    /// `None` discards on the device, else the allocation mode of the file.
    pub mode: Option<i32>,
    pub off: u64,
    pub len: u64,
}

impl FileBackend {
    /// The operation that deallocates a range.
    pub open spec fn discard_of(&self, range: LbaRange) -> Result<DiscardOp, BackendError> {
        if !self.in_range(range.slba, range.nlb as int) {
            Err(BackendError::OutOfRange)
        } else {
            Ok(
                DiscardOp {
                    mode: match self.kind {
                        Kind::Regular => Some(FALLOC_PUNCH),
                        Kind::Block => None,
                    },
                    off: (range.slba * block_bytes(self.block_shift)) as u64,
                    len: (range.nlb * block_bytes(self.block_shift)) as u64,
                },
            )
        }
    }

    /// The operation that deallocates a range.
    pub fn discard(&self, range: LbaRange) -> (r: Result<DiscardOp, BackendError>)
        requires
            self.wf(),
        ensures
            r == self.discard_of(range),
    {
        match self.check_range(range.slba, range.nlb as u64) {
            Err(e) => Err(e),
            Ok(_) => {
                let bs: u64 = self.block();
                assert(range.nlb * bs <= 0xFFFF_FFFF * 4096) by (nonlinear_arith)
                    requires
                        range.nlb <= 0xFFFF_FFFF,
                        bs <= 4096,
                ;
                let mode: Option<i32> = match self.kind {
                    Kind::Regular => Some(FALLOC_PUNCH),
                    Kind::Block => None,
                };
                Ok(DiscardOp { mode, off: self.offset(range.slba), len: range.nlb as u64 * bs })
            },
        }
    }

    /// How a deallocation that ended so counts.
    pub fn discard_result(r: OpResult) -> (s: Result<(), BackendError>)
        ensures
            match r {
                OpResult::Refused { errno } => s == Err::<(), BackendError>(
                    BackendError::Io(errno),
                ),
                OpResult::Failed { errno } => if errno == EOPNOTSUPP || errno == EBUSY {
                    s is Ok
                } else {
                    s == Err::<(), BackendError>(mapped(errno))
                },
                OpResult::Done { .. } => s is Ok,
            },
    {
        match r {
            OpResult::Refused { errno } => Err(BackendError::Io(errno)),
            OpResult::Failed { errno } => if unmap_hint_declined(Some(errno)) {
                Ok(())
            } else {
                Err(map_errno(errno))
            },
            OpResult::Done { .. } => Ok(()),
        }
    }
}

/// A range being zeroed.
#[derive(Debug, Clone, Copy, PartialEq, Eq, Structural)]
pub struct Zeroing {
    pub kind: Kind,
    /// Ways of zeroing that were not supported so far.
    pub tried: u8,
    pub off: u64,
    /// Bytes left to zero.
    pub remaining: u64,
}

/// What zeroing does next.
#[derive(Debug, Clone, Copy, PartialEq, Eq, Structural)]
pub enum ZeroStep {
    /// Ask the store to zero the range.
    Fallocate { mode: i32, off: u64, len: u64 },
    /// Write `want` zero bytes at `off`.
    Write { off: u64, want: u32 },
    Finished,
    Failed { error: BackendError },
}

impl Zeroing {
    pub open spec fn wf(&self) -> bool {
        self.tried <= 2 && self.off + self.remaining <= u64::MAX
    }

    /// The range is zeroed by plain writes now.
    pub open spec fn writing(&self) -> bool {
        match self.kind {
            Kind::Block => self.tried >= 1,
            Kind::Regular => self.tried >= 2,
        }
    }

    /// The next operation: the ways of zeroing the store may have, one after
    /// the other, and plain writes after that.
    pub open spec fn next_step(&self) -> ZeroStep {
        if !self.writing() {
            ZeroStep::Fallocate {
                mode: match self.kind {
                    Kind::Block => FALLOC_ZERO_KEEP,
                    Kind::Regular => if self.tried == 0 {
                        FALLOC_ZERO
                    } else {
                        FALLOC_PUNCH
                    },
                },
                off: self.off,
                len: self.remaining,
            }
        } else if self.remaining == 0 {
            ZeroStep::Finished
        } else {
            ZeroStep::Write {
                off: self.off,
                want: if self.remaining < ZERO_CHUNK {
                    self.remaining as u32
                } else {
                    ZERO_CHUNK as u32
                },
            }
        }
    }

    /// The next operation.
    pub fn next(&self) -> (s: ZeroStep)
        ensures
            s == self.next_step(),
    {
        let writing: bool = match self.kind {
            Kind::Block => self.tried >= 1,
            Kind::Regular => self.tried >= 2,
        };
        if !writing {
            let mode: i32 = match self.kind {
                Kind::Block => FALLOC_ZERO_KEEP,
                Kind::Regular => if self.tried == 0 {
                    FALLOC_ZERO
                } else {
                    FALLOC_PUNCH
                },
            };
            ZeroStep::Fallocate { mode, off: self.off, len: self.remaining }
        } else if self.remaining == 0 {
            ZeroStep::Finished
        } else {
            let want: u32 = if self.remaining < ZERO_CHUNK {
                self.remaining as u32
            } else {
                ZERO_CHUNK as u32
            };
            ZeroStep::Write { off: self.off, want }
        }
    }

    /// An issued operation ended with `r`: the state after it, and what comes
    /// next.
    pub open spec fn answered(self, r: OpResult, post: Zeroing, s: ZeroStep) -> bool {
        match r {
            OpResult::Refused { errno } => s == (ZeroStep::Failed {
                error: BackendError::Io(errno),
            }) && post == self,
            OpResult::Failed { errno } => if !self.writing() && errno == EOPNOTSUPP {
                &&& post == (Zeroing { tried: (self.tried + 1) as u8, ..self })
                &&& s == post.next_step()
            } else {
                s == (ZeroStep::Failed { error: mapped(errno) }) && post == self
            },
            OpResult::Done { n } => if !self.writing() {
                s is Finished && post == self
            } else if n == 0 {
                s == (ZeroStep::Failed { error: BackendError::Io(EIO) }) && post == self
            } else {
                &&& post == (Zeroing {
                    off: (self.off + n) as u64,
                    remaining: (self.remaining - n) as u64,
                    ..self
                })
                &&& s == post.next_step()
            },
        }
    }

    /// An issued operation ended. Only a way of zeroing that the store lacks
    /// leads on to the next; any other error is the answer.
    pub fn result(&mut self, r: OpResult) -> (s: ZeroStep)
        requires
            old(self).wf(),
            old(self).writing() ==> old(self).remaining > 0,
            old(self).writing() ==> (r matches OpResult::Done { n } ==> n <= old(self).remaining),
        ensures
            final(self).wf(),
            old(self).answered(r, *final(self), s),
    {
        let writing: bool = match self.kind {
            Kind::Block => self.tried >= 1,
            Kind::Regular => self.tried >= 2,
        };
        match r {
            OpResult::Refused { errno } => ZeroStep::Failed { error: BackendError::Io(errno) },
            OpResult::Failed { errno } => {
                if !writing && fallocate_mode_unsupported(Some(errno)) {
                    self.tried = self.tried + 1;
                    return self.next();
                }
                ZeroStep::Failed { error: map_errno(errno) }
            },
            OpResult::Done { n } => {
                if !writing {
                    return ZeroStep::Finished;
                }
                if n == 0 {
                    return ZeroStep::Failed { error: BackendError::Io(EIO) };
                }
                self.off = self.off + n as u64;
                self.remaining = self.remaining - n as u64;
                self.next()
            },
        }
    }
}

impl FileBackend {
    /// Zeroing of a range begins so.
    pub open spec fn zeroing_begun(&self, range: LbaRange, r: Result<Zeroing, BackendError>) -> bool {
        match r {
            Err(e) => e == BackendError::OutOfRange && !self.in_range(range.slba, range.nlb as int),
            Ok(z) => {
                &&& self.in_range(range.slba, range.nlb as int)
                &&& z.wf()
                &&& z.kind == self.kind
                &&& z.tried == 0
                &&& z.off == range.slba * block_bytes(self.block_shift)
                &&& z.remaining == range.nlb * block_bytes(self.block_shift)
            },
        }
    }

    /// Begin zeroing a range.
    pub fn write_zeroes(&self, range: LbaRange) -> (r: Result<Zeroing, BackendError>)
        requires
            self.wf(),
        ensures
            self.zeroing_begun(range, r),
    {
        match self.check_range(range.slba, range.nlb as u64) {
            Err(e) => Err(e),
            Ok(_) => {
                let bs: u64 = self.block();
                let off: u64 = self.offset(range.slba);
                assert(range.slba * bs + range.nlb * bs <= self.nr_blocks * bs)
                    by (nonlinear_arith)
                    requires
                        range.slba + range.nlb <= self.nr_blocks,
                ;
                assert(range.nlb * bs >= 0) by (nonlinear_arith);
                Ok(
                    Zeroing {
                        kind: self.kind,
                        tried: 0,
                        off,
                        remaining: range.nlb as u64 * bs,
                    },
                )
            },
        }
    }
}

/// Log2 of the block size of a memory or null backend.
pub const MEM_BLOCK_SHIFT: u8 = 9;

/// What a configured backend is built from.
#[derive(Debug, Clone, Copy, PartialEq, Eq, Structural)]
pub enum BackendPlan {
    Memory { bytes: u64 },
    Null { bytes: u64 },
    /// Open the configured path.
    File,
}

/// What a configured backend is built from.
pub fn plan_backend(config: &BackendConfig) -> (p: BackendPlan)
    ensures
        p == (match *config {
            BackendConfig::Memory { size_mb } => BackendPlan::Memory { bytes: size_mb << 20u64 },
            BackendConfig::Null { size_mb } => BackendPlan::Null { bytes: size_mb << 20u64 },
            BackendConfig::File { .. } => BackendPlan::File,
        }),
{
    match config {
        BackendConfig::Memory { size_mb } => BackendPlan::Memory { bytes: *size_mb << 20u64 },
        BackendConfig::Null { size_mb } => BackendPlan::Null { bytes: *size_mb << 20u64 },
        BackendConfig::File { .. } => BackendPlan::File,
    }
}

} // verus!
