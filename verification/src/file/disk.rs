//! What the operations do to the store, taken as its bytes.

use vstd::prelude::*;

use crate::file::{
    self, BackendError, DiscardOp, FileBackend, Kind, LbaRange, OpResult, RwStep, Rwv, ZeroStep,
    Zeroing,
};
use crate::pool::{self, Seg};

verus! {

/// Bytes of a block: two to the block shift.
pub open spec fn block_size(b: FileBackend) -> int {
    vstd::arithmetic::power2::pow2(b.block_shift as nat) as int
}

/// Bytes of the store.
pub open spec fn store_size(b: FileBackend) -> int {
    b.nr_blocks * block_size(b)
}

proof fn lemma_block_size(b: FileBackend)
    requires
        b.wf(),
    ensures
        file::block_bytes(b.block_shift) == block_size(b),
        512 <= block_size(b) <= 4096,
{
    file::lemma_block_bytes();
    vstd::arithmetic::power2::lemma2_to64();
}

/// The blocks of a range as bytes: its first, and the one behind its last.
pub open spec fn first_byte(b: FileBackend, range: LbaRange) -> int {
    range.slba * block_size(b)
}

pub open spec fn end_byte(b: FileBackend, range: LbaRange) -> int {
    (range.slba + range.nlb) * block_size(b)
}

/// `disk` with zeros in the `len` bytes from `off`.
pub open spec fn zeroed(disk: Seq<u8>, off: int, len: int) -> Seq<u8> {
    Seq::new(
        disk.len(),
        |i: int|
            if off <= i < off + len {
                0u8
            } else {
                disk[i]
            },
    )
}

/// The allocation mode makes the range read as zeros: zero the range (0x10),
/// or punch a hole (0x02), which must keep the size (0x01). A device has a size
/// to keep in any case.
pub open spec fn mode_zeroes(kind: Kind, mode: i32) -> bool {
    mode == 0x11 || mode == 0x03 || (mode == 0x10 && kind is Regular)
}

/// `r` can come of operation `op`: a write moves no more than it was asked to.
pub open spec fn suits(op: ZeroStep, r: OpResult) -> bool {
    match op {
        ZeroStep::Fallocate { .. } => true,
        ZeroStep::Write { want, .. } => r matches OpResult::Done { n } ==> n <= want,
        _ => false,
    }
}

/// The store after operation `op` ended with `r`.
pub open spec fn disk_after(disk: Seq<u8>, kind: Kind, op: ZeroStep, r: OpResult) -> Seq<u8> {
    match r {
        OpResult::Done { n } => match op {
            ZeroStep::Fallocate { mode, off, len } => if mode_zeroes(kind, mode) {
                zeroed(disk, off as int, len as int)
            } else {
                disk
            },
            ZeroStep::Write { off, .. } => zeroed(disk, off as int, n as int),
            _ => disk,
        },
        _ => disk,
    }
}

/// One operation of a run: issued as the state says, and answered.
pub open spec fn zero_stepped(
    pre: Zeroing,
    r: OpResult,
    post: Zeroing,
    before: Seq<u8>,
    after: Seq<u8>,
    s: ZeroStep,
) -> bool {
    &&& suits(pre.next_step(), r)
    &&& after == disk_after(before, pre.kind, pre.next_step(), r)
    &&& pre.answered(r, post, s)
}

/// A run of operations from `states[0]`: each is what the state before it asks
/// for next, and the last one is answered with `last`.
pub open spec fn is_zero_run(
    states: Seq<Zeroing>,
    results: Seq<OpResult>,
    disks: Seq<Seq<u8>>,
    last: ZeroStep,
) -> bool {
    &&& results.len() > 0
    &&& states.len() == results.len() + 1
    &&& disks.len() == states.len()
    &&& forall|i: int, j: int|
        0 <= i && j == i + 1 && j < states.len() ==> zero_stepped(
            #[trigger] states[i],
            results[i],
            #[trigger] states[j],
            disks[i],
            disks[j],
            if j == results.len() {
                last
            } else {
                states[j].next_step()
            },
        )
}

/// In the middle of a run: the range up to `off` is zeroed, the rest of it is
/// left to zero, and no other byte has changed.
spec fn zeroed_so_far(
    z: Zeroing,
    kind: Kind,
    start: Seq<u8>,
    disk: Seq<u8>,
    from: int,
    end: int,
) -> bool {
    &&& z.kind == kind
    &&& z.tried <= 2
    &&& z.off + z.remaining == end
    &&& from <= z.off
    &&& !z.writing() ==> z.off == from
    &&& disk.len() == start.len()
    &&& forall|i: int|
        0 <= i < disk.len() && !(from <= i < end) ==> #[trigger] disk[i] == start[i]
    &&& forall|i: int| from <= i < z.off ==> #[trigger] disk[i] == 0
}

proof fn lemma_zero_run(
    states: Seq<Zeroing>,
    results: Seq<OpResult>,
    disks: Seq<Seq<u8>>,
    last: ZeroStep,
    from: int,
    end: int,
    k: int,
)
    requires
        is_zero_run(states, results, disks, last),
        0 <= from <= end <= disks[0].len(),
        end <= u64::MAX,
        zeroed_so_far(states[0], states[0].kind, disks[0], disks[0], from, end),
        0 <= k < results.len(),
    ensures
        zeroed_so_far(states[k], states[0].kind, disks[0], disks[k], from, end),
    decreases k,
{
    if k > 0 {
        lemma_zero_run(states, results, disks, last, from, end, k - 1);
        let pre = states[k - 1];
        let post = states[k];
        assert(zero_stepped(
            pre,
            results[k - 1],
            post,
            disks[k - 1],
            disks[k],
            post.next_step(),
        ));
    }
}

/// When zeroing a range ends in success, the blocks of the range read as zeros,
/// all of them, and every other byte of the store is what it was: for files and
/// devices, whichever ways of zeroing they have, and however short the writes
/// were.
pub proof fn finished_zeroing_zeroes(
    b: FileBackend,
    range: LbaRange,
    states: Seq<Zeroing>,
    results: Seq<OpResult>,
    disks: Seq<Seq<u8>>,
)
    requires
        b.wf(),
        is_zero_run(states, results, disks, ZeroStep::Finished),
        b.zeroing_begun(range, Ok(states[0])),
        disks[0].len() == store_size(b),
    ensures
        disks.last().len() == disks[0].len(),
        end_byte(b, range) <= store_size(b),
        forall|i: int|
            0 <= i < store_size(b) ==> #[trigger] disks.last()[i] == (if first_byte(b, range) <= i
                < end_byte(b, range) {
                0
            } else {
                disks[0][i]
            }),
{
    let n = results.len() as int;
    let from = first_byte(b, range);
    let end = end_byte(b, range);
    lemma_range(b, range);
    lemma_zero_run(states, results, disks, ZeroStep::Finished, from, end, n - 1);
    assert(zero_stepped(
        states[n - 1],
        results[n - 1],
        states[n],
        disks[n - 1],
        disks[n],
        ZeroStep::Finished,
    ));
}

/// Whatever comes of it, zeroing a range changes no byte outside the range.
pub proof fn zeroing_keeps_to_its_range(
    b: FileBackend,
    range: LbaRange,
    states: Seq<Zeroing>,
    results: Seq<OpResult>,
    disks: Seq<Seq<u8>>,
    last: ZeroStep,
)
    requires
        b.wf(),
        is_zero_run(states, results, disks, last),
        b.zeroing_begun(range, Ok(states[0])),
        disks[0].len() == store_size(b),
    ensures
        disks.last().len() == disks[0].len(),
        forall|i: int|
            0 <= i < store_size(b) && !(first_byte(b, range) <= i < end_byte(b, range)) ==> (
            #[trigger] disks.last()[i]) == disks[0][i],
{
    let n = results.len() as int;
    let from = first_byte(b, range);
    let end = end_byte(b, range);
    lemma_range(b, range);
    lemma_zero_run(states, results, disks, last, from, end, n - 1);
    assert(zero_stepped(states[n - 1], results[n - 1], states[n], disks[n - 1], disks[n], last));
}

proof fn lemma_range(b: FileBackend, range: LbaRange)
    requires
        b.wf(),
        range.slba + range.nlb <= b.nr_blocks,
    ensures
        0 <= first_byte(b, range) <= end_byte(b, range) <= store_size(b) <= u64::MAX,
        end_byte(b, range) - first_byte(b, range) == range.nlb * block_size(b),
        range.slba * file::block_bytes(b.block_shift) == first_byte(b, range),
        range.nlb * file::block_bytes(b.block_shift) == range.nlb * block_size(b),
{
    lemma_block_size(b);
    let bs = block_size(b);
    assert(range.slba * bs + range.nlb * bs == (range.slba + range.nlb) * bs) by (nonlinear_arith);
    assert((range.slba + range.nlb) * bs <= b.nr_blocks * bs) by (nonlinear_arith)
        requires
            range.slba + range.nlb <= b.nr_blocks,
            bs > 0,
    ;
    assert(0 <= range.slba * bs && 0 <= range.nlb * bs) by (nonlinear_arith)
        requires
            bs > 0,
    ;
}

/// Zeroing and deallocation are refused exactly where a range goes beyond the
/// end of the store.
pub proof fn ranges_beyond_the_end_are_refused(
    b: FileBackend,
    range: LbaRange,
    z: Result<Zeroing, BackendError>,
)
    requires
        b.wf(),
        b.zeroing_begun(range, z),
    ensures
        z is Err == (end_byte(b, range) > store_size(b)),
        z matches Err(e) ==> e == BackendError::OutOfRange,
        b.discard_of(range) is Err == (end_byte(b, range) > store_size(b)),
        b.discard_of(range) matches Err(e) ==> e == BackendError::OutOfRange,
{
    lemma_block_size(b);
    let bs = block_size(b);
    if range.slba + range.nlb <= b.nr_blocks {
        lemma_range(b, range);
    } else {
        assert((range.slba + range.nlb) * bs > b.nr_blocks * bs) by (nonlinear_arith)
            requires
                range.slba + range.nlb > b.nr_blocks,
                bs > 0,
        ;
    }
}

/// A deallocation covers the blocks of its range, all of them and no other. A
/// hole is punched into a file, keeping its size; a device discards.
pub proof fn deallocation_covers_its_range(b: FileBackend, range: LbaRange)
    requires
        b.wf(),
        end_byte(b, range) <= store_size(b),
    ensures
        b.discard_of(range) matches Ok(op) && {
            &&& op.off == first_byte(b, range)
            &&& op.off + op.len == end_byte(b, range)
            &&& op.mode == (match b.kind {
                Kind::Regular => Some(3i32),
                Kind::Block => None,
            })
        },
{
    lemma_block_size(b);
    let bs = block_size(b);
    assert(range.slba + range.nlb <= b.nr_blocks) by (nonlinear_arith)
        requires
            (range.slba + range.nlb) * bs <= b.nr_blocks * bs,
            bs > 0,
    ;
    lemma_range(b, range);
}

/// Moving past `m` and then `n` bytes of a vector is moving past both.
pub proof fn advances_add_up(iovs: Seq<Seg>, m: int, n: int)
    requires
        0 <= m,
        0 <= n,
        file::holds(iovs, m + n),
        forall|i: int| 0 <= i < iovs.len() ==> (#[trigger] iovs[i]).off + iovs[i].len <= usize::MAX,
    ensures
        file::advanced(file::advanced(iovs, m), n) == file::advanced(iovs, m + n),
    decreases iovs.len(),
{
    if m > 0 && iovs.len() > 0 {
        let rest = iovs.drop_first();
        assert forall|i: int| 0 <= i < rest.len() implies (#[trigger] rest[i]).off + rest[i].len
            <= usize::MAX by {
            assert(rest[i] == iovs[i + 1]);
        }
        if iovs[0].len <= m {
            advances_add_up(rest, m - iovs[0].len, n);
        } else {
            let cut = file::advanced(iovs, m);
            assert(cut.drop_first() =~= rest);
            if n > 0 && n < cut[0].len {
                assert(file::advanced(cut, n) =~= file::advanced(iovs, m + n));
            }
        }
    }
}

/// `t`, on store `b`, is a transfer of `iovs` at block `slba`, `done` bytes of
/// which are moved.
pub open spec fn in_place(b: FileBackend, t: Rwv, iovs: Seq<Seg>, base: int) -> bool {
    &&& t.done <= t.total
    &&& t.base == base
    &&& t.left() == file::advanced(iovs, t.done as int)
    &&& file::holds(iovs, t.total as int)
    &&& forall|i: int| 0 <= i < iovs.len() ==> (#[trigger] iovs[i]).off + iovs[i].len <= usize::MAX
}

/// A transfer stays in place: whatever an operation moved, what is left of the
/// vector is what is behind the bytes moved so far.
pub proof fn transfer_stays_in_place(
    b: FileBackend,
    t: Rwv,
    r: OpResult,
    store: FileBackend,
    post: Rwv,
    s: RwStep,
    iovs: Seq<Seg>,
    base: int,
)
    requires
        in_place(b, t, iovs, base),
        t.done < t.total,
        r matches OpResult::Done { n } ==> n <= t.total - t.done,
        b.transfer_answered(t, r, store, post, s),
    ensures
        in_place(store, post, iovs, base),
        post.total == t.total,
        post.write == t.write,
        r matches OpResult::Done { n } ==> post.done == t.done + n,
        !(r is Done) ==> post.done == t.done,
        s is Finished ==> post.done == post.total,
{
    if r is Done {
        let n = r->n as int;
        lemma_holds_part(iovs, t.total as int, t.done + n);
        advances_add_up(iovs, t.done as int, n);
    }
}

proof fn lemma_holds_part(iovs: Seq<Seg>, total: int, n: int)
    requires
        file::holds(iovs, total),
        n <= total,
    ensures
        file::holds(iovs, n),
    decreases iovs.len(),
{
    if n > 0 {
        lemma_holds_part(iovs.drop_first(), total - iovs[0].len, n - iovs[0].len);
    }
}

/// A transfer begins in place: at the first byte of its block, with nothing
/// moved. It is refused exactly where its whole blocks go beyond the end.
pub proof fn transfer_begins_in_place(
    b: FileBackend,
    write: bool,
    slba: u64,
    iovs: Seq<Seg>,
    total: usize,
    r: Result<Rwv, BackendError>,
)
    requires
        b.wf(),
        total > 0,
        file::holds(iovs, total as int),
        forall|i: int| 0 <= i < iovs.len() ==> (#[trigger] iovs[i]).off + iovs[i].len <= usize::MAX,
        b.transfer_begun(write, slba, iovs, total, r),
    ensures
        r is Err == ((slba + total as int / block_size(b)) * block_size(b) > store_size(b)),
        r matches Err(e) ==> e == BackendError::OutOfRange,
        r matches Ok(t) ==> {
            &&& in_place(b, t, iovs, slba * block_size(b))
            &&& t.write == write
            &&& t.total == total
            &&& t.done == 0
        },
{
    lemma_block_size(b);
    let bs = block_size(b);
    let n = total as int / bs;
    assert((slba + n) * bs > b.nr_blocks * bs <==> slba + n > b.nr_blocks) by (nonlinear_arith)
        requires
            bs > 0,
    ;
    if r is Ok {
        let t = r->Ok_0;
        assert(t.left() =~= iovs);
    }
}

/// `disk` with `src` written at `off`.
pub open spec fn written(disk: Seq<u8>, off: int, src: Seq<u8>) -> Seq<u8> {
    Seq::new(
        disk.len(),
        |i: int|
            if off <= i < off + src.len() {
                src[i - off]
            } else {
                disk[i]
            },
    )
}

/// One operation of a write of memory `mem`: what is asked for next is issued,
/// its bytes go to the store at the offset it names, and it is answered with
/// `s`.
pub open spec fn write_stepped(
    mem: Seq<u8>,
    b: FileBackend,
    t: Rwv,
    r: OpResult,
    store: FileBackend,
    post: Rwv,
    before: Seq<u8>,
    after: Seq<u8>,
    s: RwStep,
) -> bool {
    &&& b.next_op(t) matches RwStep::Issue { idx, off, .. } && {
        let left = pool::seg_bytes(mem, t.iovs@.subrange(idx as int, t.iovs@.len() as int));
        match r {
            OpResult::Done { n } => n <= t.total - t.done && after == written(
                before,
                off as int,
                left.take(n as int),
            ),
            _ => after == before,
        }
    }
    &&& b.transfer_answered(t, r, store, post, s)
}

/// A run of operations of a write from `ts[0]`, the last answered with `last`.
pub open spec fn is_write_run(
    mem: Seq<u8>,
    stores: Seq<FileBackend>,
    ts: Seq<Rwv>,
    results: Seq<OpResult>,
    disks: Seq<Seq<u8>>,
    last: RwStep,
) -> bool {
    &&& results.len() > 0
    &&& ts.len() == results.len() + 1
    &&& stores.len() == ts.len()
    &&& disks.len() == ts.len()
    &&& forall|i: int, j: int|
        0 <= i && j == i + 1 && j < ts.len() ==> write_stepped(
            mem,
            stores[i],
            #[trigger] ts[i],
            results[i],
            stores[j],
            #[trigger] ts[j],
            disks[i],
            disks[j],
            if j == results.len() {
                last
            } else {
                stores[j].next_op(ts[j])
            },
        )
}

/// The first `done` bytes of `data` are in the store at `base`, and no other
/// byte has changed.
spec fn moved_so_far(start: Seq<u8>, disk: Seq<u8>, data: Seq<u8>, base: int, done: int) -> bool {
    &&& disk.len() == start.len()
    &&& forall|i: int|
        0 <= i < disk.len() ==> #[trigger] disk[i] == (if base <= i < base + done {
            data[i - base]
        } else {
            start[i]
        })
}

proof fn lemma_write_step(
    mem: Seq<u8>,
    b: FileBackend,
    t: Rwv,
    r: OpResult,
    store: FileBackend,
    post: Rwv,
    start: Seq<u8>,
    before: Seq<u8>,
    after: Seq<u8>,
    s: RwStep,
    iovs: Seq<Seg>,
    base: int,
)
    requires
        write_stepped(mem, b, t, r, store, post, before, after, s),
        in_place(b, t, iovs, base),
        mem.len() <= usize::MAX,
        forall|i: int| 0 <= i < iovs.len() ==> (#[trigger] iovs[i]).off + iovs[i].len <= mem.len(),
        0 <= base,
        base + t.total <= start.len() <= u64::MAX,
        moved_so_far(start, before, pool::seg_bytes(mem, iovs), base, t.done as int),
    ensures
        in_place(store, post, iovs, base),
        post.total == t.total,
        moved_so_far(start, after, pool::seg_bytes(mem, iovs), base, post.done as int),
        s is Finished ==> post.done == post.total,
{
    let data = pool::seg_bytes(mem, iovs);
    transfer_stays_in_place(b, t, r, store, post, s, iovs, base);
    lemma_holds_part(iovs, t.total as int, t.done as int);
    file::resume_continues(mem, iovs, t.done as int);
    file::resume_continues(mem, iovs, t.total as int);
    if r is Done {
        let n = r->n as int;
        let left = pool::seg_bytes(mem, t.left());
        assert(left == data.skip(t.done as int));
        assert forall|i: int| 0 <= i < after.len() implies #[trigger] after[i] == (if base <= i
            < base + post.done {
            data[i - base]
        } else {
            start[i]
        }) by {
            if base + t.done <= i < base + t.done + n {
                assert(left.take(n)[i - (base + t.done)] == data[i - base]);
            } else {
                assert(after[i] == before[i]);
            }
        }
    }
}

/// When a write ends in success, the store holds the vector's bytes from the
/// first byte of the block on, all of them and in order, and every other byte is
/// what it was, however short the transfers were and whether or not the store
/// could drop the page cache.
pub proof fn finished_write_is_stored(
    mem: Seq<u8>,
    b: FileBackend,
    slba: u64,
    iovs: Seq<Seg>,
    total: usize,
    stores: Seq<FileBackend>,
    ts: Seq<Rwv>,
    results: Seq<OpResult>,
    disks: Seq<Seq<u8>>,
)
    requires
        b.wf(),
        total > 0,
        file::holds(iovs, total as int),
        mem.len() <= usize::MAX,
        forall|i: int| 0 <= i < iovs.len() ==> (#[trigger] iovs[i]).off + iovs[i].len <= mem.len(),
        b.transfer_begun(true, slba, iovs, total, Ok(ts[0])),
        stores[0] == b,
        is_write_run(mem, stores, ts, results, disks, RwStep::Finished),
        disks[0].len() == store_size(b),
        slba * block_size(b) + total <= store_size(b),
    ensures
        disks.last().len() == disks[0].len(),
        forall|i: int|
            0 <= i < store_size(b) ==> #[trigger] disks.last()[i] == (if slba * block_size(b) <= i
                < slba * block_size(b) + total {
                pool::seg_bytes(mem, iovs)[i - slba * block_size(b)]
            } else {
                disks[0][i]
            }),
{
    let base = slba * block_size(b);
    let n = results.len() as int;
    lemma_block_size(b);
    transfer_begins_in_place(b, true, slba, iovs, total, Ok(ts[0]));
    assert(0 <= base) by (nonlinear_arith)
        requires
            base == slba * block_size(b),
            block_size(b) > 0,
    ;
    lemma_write_run(mem, stores, ts, results, disks, RwStep::Finished, iovs, base, n - 1);
    assert(write_stepped(
        mem,
        stores[n - 1],
        ts[n - 1],
        results[n - 1],
        stores[n],
        ts[n],
        disks[n - 1],
        disks[n],
        RwStep::Finished,
    ));
    lemma_write_step(
        mem,
        stores[n - 1],
        ts[n - 1],
        results[n - 1],
        stores[n],
        ts[n],
        disks[0],
        disks[n - 1],
        disks[n],
        RwStep::Finished,
        iovs,
        base,
    );
}

proof fn lemma_write_run(
    mem: Seq<u8>,
    stores: Seq<FileBackend>,
    ts: Seq<Rwv>,
    results: Seq<OpResult>,
    disks: Seq<Seq<u8>>,
    last: RwStep,
    iovs: Seq<Seg>,
    base: int,
    k: int,
)
    requires
        is_write_run(mem, stores, ts, results, disks, last),
        in_place(stores[0], ts[0], iovs, base),
        ts[0].done == 0,
        mem.len() <= usize::MAX,
        forall|i: int| 0 <= i < iovs.len() ==> (#[trigger] iovs[i]).off + iovs[i].len <= mem.len(),
        0 <= base,
        base + ts[0].total <= disks[0].len() <= u64::MAX,
        0 <= k < results.len(),
    ensures
        in_place(stores[k], ts[k], iovs, base),
        ts[k].total == ts[0].total,
        moved_so_far(
            disks[0],
            disks[k],
            pool::seg_bytes(mem, iovs),
            base,
            ts[k].done as int,
        ),
    decreases k,
{
    if k > 0 {
        lemma_write_run(mem, stores, ts, results, disks, last, iovs, base, k - 1);
        let s = stores[k].next_op(ts[k]);
        assert(write_stepped(
            mem,
            stores[k - 1],
            ts[k - 1],
            results[k - 1],
            stores[k],
            ts[k],
            disks[k - 1],
            disks[k],
            s,
        ));
        lemma_write_step(
            mem,
            stores[k - 1],
            ts[k - 1],
            results[k - 1],
            stores[k],
            ts[k],
            disks[0],
            disks[k - 1],
            disks[k],
            s,
            iovs,
            base,
        );
    }
}

/// Bytes of a vector.
pub open spec fn vector_len(iovs: Seq<Seg>) -> int
    decreases iovs.len(),
{
    if iovs.len() == 0 {
        0
    } else {
        iovs[0].len + vector_len(iovs.drop_first())
    }
}

proof fn lemma_vector_left(iovs: Seq<Seg>, n: int)
    requires
        0 <= n,
        file::holds(iovs, n),
        forall|i: int| 0 <= i < iovs.len() ==> (#[trigger] iovs[i]).off + iovs[i].len <= usize::MAX,
    ensures
        vector_len(file::advanced(iovs, n)) == vector_len(iovs) - n,
    decreases iovs.len(),
{
    if n > 0 {
        let rest = iovs.drop_first();
        assert forall|i: int| 0 <= i < rest.len() implies (#[trigger] rest[i]).off + rest[i].len
            <= usize::MAX by {
            assert(rest[i] == iovs[i + 1]);
        }
        if iovs[0].len <= n {
            lemma_vector_left(rest, n - iovs[0].len);
        } else {
            let cut = file::advanced(iovs, n);
            assert(cut.drop_first() =~= rest);
        }
    }
}

/// One operation of a read into a vector whose bytes, in order, are `before`:
/// what is asked for next is issued, it fills the vector from the entry it
/// names on, with what the store holds at the offset it names, and it is
/// answered with `s`.
pub open spec fn read_stepped(
    disk: Seq<u8>,
    iovs: Seq<Seg>,
    b: FileBackend,
    t: Rwv,
    r: OpResult,
    store: FileBackend,
    post: Rwv,
    before: Seq<u8>,
    after: Seq<u8>,
    s: RwStep,
) -> bool {
    &&& b.next_op(t) matches RwStep::Issue { idx, off, .. } && {
        let left = vector_len(t.iovs@.subrange(idx as int, t.iovs@.len() as int));
        match r {
            OpResult::Done { n } => n <= t.total - t.done && after == written(
                before,
                vector_len(iovs) - left,
                disk.subrange(off as int, off + n),
            ),
            _ => after == before,
        }
    }
    &&& b.transfer_answered(t, r, store, post, s)
}

/// A run of operations of a read from `ts[0]`, the last answered with `last`.
pub open spec fn is_read_run(
    disk: Seq<u8>,
    iovs: Seq<Seg>,
    stores: Seq<FileBackend>,
    ts: Seq<Rwv>,
    results: Seq<OpResult>,
    bufs: Seq<Seq<u8>>,
    last: RwStep,
) -> bool {
    &&& results.len() > 0
    &&& ts.len() == results.len() + 1
    &&& stores.len() == ts.len()
    &&& bufs.len() == ts.len()
    &&& forall|i: int, j: int|
        0 <= i && j == i + 1 && j < ts.len() ==> read_stepped(
            disk,
            iovs,
            stores[i],
            #[trigger] ts[i],
            results[i],
            stores[j],
            #[trigger] ts[j],
            bufs[i],
            bufs[j],
            if j == results.len() {
                last
            } else {
                stores[j].next_op(ts[j])
            },
        )
}

/// The first `done` bytes of the vector are those of the store at `base`.
spec fn read_so_far(start: Seq<u8>, buf: Seq<u8>, disk: Seq<u8>, base: int, done: int) -> bool {
    &&& buf.len() == start.len()
    &&& forall|i: int|
        0 <= i < buf.len() ==> #[trigger] buf[i] == (if i < done {
            disk[base + i]
        } else {
            start[i]
        })
}

proof fn lemma_read_step(
    disk: Seq<u8>,
    b: FileBackend,
    t: Rwv,
    r: OpResult,
    store: FileBackend,
    post: Rwv,
    start: Seq<u8>,
    before: Seq<u8>,
    after: Seq<u8>,
    s: RwStep,
    iovs: Seq<Seg>,
    base: int,
)
    requires
        read_stepped(disk, iovs, b, t, r, store, post, before, after, s),
        in_place(b, t, iovs, base),
        0 <= base,
        base + t.total <= disk.len() <= u64::MAX,
        start.len() == vector_len(iovs),
        read_so_far(start, before, disk, base, t.done as int),
    ensures
        in_place(store, post, iovs, base),
        post.total == t.total,
        read_so_far(start, after, disk, base, post.done as int),
        s is Finished ==> post.done == post.total,
{
    transfer_stays_in_place(b, t, r, store, post, s, iovs, base);
    lemma_holds_part(iovs, t.total as int, t.done as int);
    lemma_vector_left(iovs, t.done as int);
    if r is Done {
        let n = r->n as int;
        let part = disk.subrange(base + t.done, base + t.done + n);
        assert forall|i: int| 0 <= i < after.len() implies #[trigger] after[i] == (if i < post.done {
            disk[base + i]
        } else {
            start[i]
        }) by {
            if t.done <= i < t.done + n {
                assert(part[i - t.done] == disk[base + i]);
            } else {
                assert(after[i] == before[i]);
            }
        }
    }
}

proof fn lemma_read_run(
    disk: Seq<u8>,
    stores: Seq<FileBackend>,
    ts: Seq<Rwv>,
    results: Seq<OpResult>,
    bufs: Seq<Seq<u8>>,
    last: RwStep,
    iovs: Seq<Seg>,
    base: int,
    k: int,
)
    requires
        is_read_run(disk, iovs, stores, ts, results, bufs, last),
        in_place(stores[0], ts[0], iovs, base),
        ts[0].done == 0,
        0 <= base,
        base + ts[0].total <= disk.len() <= u64::MAX,
        bufs[0].len() == vector_len(iovs),
        0 <= k < results.len(),
    ensures
        in_place(stores[k], ts[k], iovs, base),
        ts[k].total == ts[0].total,
        read_so_far(bufs[0], bufs[k], disk, base, ts[k].done as int),
    decreases k,
{
    if k > 0 {
        lemma_read_run(disk, stores, ts, results, bufs, last, iovs, base, k - 1);
        let s = stores[k].next_op(ts[k]);
        assert(read_stepped(
            disk,
            iovs,
            stores[k - 1],
            ts[k - 1],
            results[k - 1],
            stores[k],
            ts[k],
            bufs[k - 1],
            bufs[k],
            s,
        ));
        lemma_read_step(
            disk,
            stores[k - 1],
            ts[k - 1],
            results[k - 1],
            stores[k],
            ts[k],
            bufs[0],
            bufs[k - 1],
            bufs[k],
            s,
            iovs,
            base,
        );
    }
}

/// When a read ends in success, the vector holds the store's bytes from the
/// first byte of the block on, all that were asked for and in order, and beyond
/// them what it held, however short the transfers were.
pub proof fn finished_read_is_in_the_vector(
    disk: Seq<u8>,
    b: FileBackend,
    slba: u64,
    iovs: Seq<Seg>,
    total: usize,
    stores: Seq<FileBackend>,
    ts: Seq<Rwv>,
    results: Seq<OpResult>,
    bufs: Seq<Seq<u8>>,
)
    requires
        b.wf(),
        total > 0,
        file::holds(iovs, total as int),
        forall|i: int| 0 <= i < iovs.len() ==> (#[trigger] iovs[i]).off + iovs[i].len <= usize::MAX,
        b.transfer_begun(false, slba, iovs, total, Ok(ts[0])),
        stores[0] == b,
        is_read_run(disk, iovs, stores, ts, results, bufs, RwStep::Finished),
        disk.len() == store_size(b),
        slba * block_size(b) + total <= store_size(b),
        bufs[0].len() == vector_len(iovs),
    ensures
        bufs.last().len() == bufs[0].len(),
        forall|i: int|
            0 <= i < bufs[0].len() ==> #[trigger] bufs.last()[i] == (if i < total {
                disk[slba * block_size(b) + i]
            } else {
                bufs[0][i]
            }),
{
    let base = slba * block_size(b);
    let n = results.len() as int;
    lemma_block_size(b);
    transfer_begins_in_place(b, false, slba, iovs, total, Ok(ts[0]));
    assert(0 <= base) by (nonlinear_arith)
        requires
            base == slba * block_size(b),
            block_size(b) > 0,
    ;
    lemma_read_run(disk, stores, ts, results, bufs, RwStep::Finished, iovs, base, n - 1);
    assert(read_stepped(
        disk,
        iovs,
        stores[n - 1],
        ts[n - 1],
        results[n - 1],
        stores[n],
        ts[n],
        bufs[n - 1],
        bufs[n],
        RwStep::Finished,
    ));
    lemma_read_step(
        disk,
        stores[n - 1],
        ts[n - 1],
        results[n - 1],
        stores[n],
        ts[n],
        bufs[0],
        bufs[n - 1],
        bufs[n],
        RwStep::Finished,
        iovs,
        base,
    );
}

/// Errors are told apart: no space left (28) from what the store cannot do (95
/// and 22), and everything else keeps its number. What could not be submitted
/// keeps its number in any case, and a transfer that moves nothing is an
/// input/output error (5).
pub proof fn errors_are_told_apart(
    b: FileBackend,
    t: Rwv,
    r: OpResult,
    store: FileBackend,
    post: Rwv,
    s: RwStep,
)
    requires
        t.done < t.total,
        b.transfer_answered(t, r, store, post, s),
    ensures
        match r {
            OpResult::Refused { errno } => s == (RwStep::Failed { error: BackendError::Io(errno) }),
            OpResult::Failed { errno } => if !b.direct && b.dontcache && (errno == 95 || errno
                == 22) {
                // Once more, and from now on, without dropping the page cache.
                s is Issue && !store.dontcache && post == t
            } else {
                s == (RwStep::Failed {
                    error: if errno == 28 {
                        BackendError::NoSpace
                    } else if errno == 95 || errno == 22 {
                        BackendError::Unsupported
                    } else {
                        BackendError::Io(errno)
                    },
                })
            },
            OpResult::Done { n } => n == 0 ==> s == (RwStep::Failed { error: BackendError::Io(5) }),
        },
{
}

/// Zeroing goes on to the next way only where the store lacks the one it tried
/// (95); a file is asked twice and a device once before zeros are written.
/// Every other error is the answer.
pub proof fn zeroing_tries_what_is_missing(pre: Zeroing, errno: i32, post: Zeroing, s: ZeroStep)
    requires
        pre.wf(),
        pre.remaining > 0,
        pre.answered(OpResult::Failed { errno }, post, s),
    ensures
        pre.next_step() is Fallocate && errno == 95 ==> {
            &&& post.off == pre.off
            &&& post.remaining == pre.remaining
            &&& post.kind == pre.kind
            &&& s == post.next_step()
            &&& s is Fallocate || s is Write
            &&& pre.kind is Block ==> s is Write
            &&& pre.tried >= 1 ==> s is Write
        },
        !(pre.next_step() is Fallocate && errno == 95) ==> s is Failed,
{
}

} // verus!
