//! What the queue does with each completion: stage, submit, answer, release.

use vstd::prelude::*;

use crate::nvme::{
    Role, Sqe, SC_DATA_SGL_LEN_INVALID, SC_DNR, SC_SGL_INVALID_TYPE, SQE_LEN,
};
use crate::pool::{fill_subsegs, Seg, SlotData};
use crate::sgl::{
    host_data_in, keyed, parse_inline_sgl, parse_keyed_sgl, staged_len, type_byte, INLINE_SGL_TYPE,
};
use crate::slotq::{Slot, SlotState};
use crate::wrstats::RdmaWrStats;
use super::{PendingRead, QueueError, RdmaQueue, CAPSULE_LEN, ICD_LEN};

verus! {

/// The segments of `data` that hold its first `len` bytes: the scatter-gather
/// list of a request.
pub fn fill_sges(data: &SlotData, len: usize) -> (segs: Vec<Seg>)
    requires
        forall|i: int|
            0 <= i < data.segs@.len() ==> (#[trigger] data.segs@[i]).off + data.segs@[i].len
                <= usize::MAX,
    ensures
        segs@ == crate::pool::subsegs(data.segs@, 0, len as int),
{
    fill_subsegs(&data.segs, 0, len)
}

proof fn lemma_pages_cover(len: int)
    requires
        0 <= len,
    ensures
        len <= crate::pool::pages_for(len) * crate::pool::PAGE,
{
}

pub proof fn lemma_capsule(idx: int, n: int)
    requires
        0 <= idx < n,
    ensures
        0 <= idx * CAPSULE_LEN,
        idx * CAPSULE_LEN + CAPSULE_LEN <= n * CAPSULE_LEN,
{
    assert(idx * CAPSULE_LEN + CAPSULE_LEN <= n * CAPSULE_LEN) by (nonlinear_arith)
        requires
            idx < n,
            CAPSULE_LEN == 4160,
    ;
}

/// Slot `tag` was handed `sqe` and made ready.
pub open spec fn submitted(pre: RdmaQueue, post: RdmaQueue, tag: u16, sqe: Sqe) -> bool {
    &&& crate::slotq::slot_set(
        pre.nvme.slots,
        post.nvme.slots,
        tag,
        Slot { cmd: sqe, state: SlotState::Ready, ..pre.nvme.slots.slots@[tag as int] },
    )
    &&& post == pre.with_slots(post.nvme.slots)
}

/// Slot `tag` was leased pool pages for `len` bytes, all of them counted as
/// received.
pub open spec fn leased(pre: RdmaQueue, post: RdmaQueue, tag: u16, len: int) -> bool {
    &&& post == pre.with_slots(post.nvme.slots)
    &&& exists|mid: crate::slotq::SlotArray<Sqe>|
        #![trigger crate::slotq::lease_tried(pre.nvme.slots, mid, tag, len, true)]
        crate::slotq::lease_tried(pre.nvme.slots, mid, tag, len, true) && crate::slotq::slot_set(
            mid,
            post.nvme.slots,
            tag,
            Slot { data_len: len as u32, ..mid.slots@[tag as int] },
        )
}

/// The pool has no lease for `len` bytes now.
pub open spec fn pool_full(q: RdmaQueue, len: int) -> bool {
    crate::pool::alloc_plan(q.nvme.slots.pool.free@, crate::pool::pages_for(len)) is None
}

/// A write command with `len` bytes of host data was staged: its lease taken,
/// the command stashed, and the pull of its data collected.
pub open spec fn write_staged(
    pre: RdmaQueue,
    post: RdmaQueue,
    tag: u16,
    sqe: Sqe,
    len: int,
) -> bool {
    let sgl = crate::sgl::keyed_sgl(sqe);
    &&& leased(
        pre,
        RdmaQueue { pending_read: pre.pending_read, read_batch: pre.read_batch, ..post },
        tag,
        len,
    )
    &&& post.pending_read@ == pre.pending_read@.update(tag as int, sqe)
    &&& post.read_batch@ == pre.read_batch@.push(
        PendingRead { tag, len: len as u32, rkey: sgl.rkey, addr: sgl.addr },
    )
}

/// An in-capsule write command was staged: its lease taken and filled from
/// capsule buffer `idx`, the slot made ready, the capsule buffer posted again.
pub open spec fn inline_staged(
    pre: RdmaQueue,
    post: RdmaQueue,
    tag: u16,
    sqe: Sqe,
    idx: u32,
) -> bool {
    exists|sized: RdmaQueue, filled: RdmaQueue, ready: RdmaQueue|
        {
            &&& #[trigger] leased(pre, sized, tag, crate::sgl::inline_sgl(sqe).1 as int)
            &&& filled == sized.with_slots(filled.nvme.slots)
            &&& crate::slotq::slot_written(
                sized.nvme.slots,
                filled.nvme.slots,
                tag,
                0,
                super::payload(pre.recv_buf@, idx as int, sqe),
            )
            &&& #[trigger] submitted(filled, ready, tag, sqe)
            &&& RdmaQueue::recv_posted(ready, post, idx)
        }
}

impl RdmaQueue {
    /// Stage a write command whose data is host-resident. `false`, and nothing
    /// changed, when the pool has no lease for it now.
    pub fn try_stage_write(&mut self, tag: u16, sqe: Sqe, len: usize) -> (ok: bool)
        requires
            old(self).wf(),
            tag < old(self).nvme.sqsize,
            len <= u32::MAX - crate::pool::PAGE,
        ensures
            final(self).wf(),
            final(self).nvme.slots.slots@[tag as int].state
                == old(self).nvme.slots.slots@[tag as int].state,
            ok == !pool_full(*old(self), len as int),
            if ok {
                write_staged(*old(self), *final(self), tag, sqe, len as int)
            } else {
                *final(self) == *old(self)
            },
    {
        let ghost pre = *self;
        if !self.nvme.slots.try_lease(tag, len) {
            return false;
        }
        let ghost mid = self.nvme.slots;
        self.nvme.slots.set_data_len(tag, len as u32);
        assert(leased(pre, *self, tag, len as int)) by {
            assert(crate::slotq::lease_tried(pre.nvme.slots, mid, tag, len as int, true));
        }
        let ghost sized = *self;
        let sgl = parse_keyed_sgl(&sqe);
        self.pending_read.set(tag as usize, sqe);
        self.read_batch.push(
            PendingRead { tag, len: len as u32, rkey: sgl.rkey, addr: sgl.addr },
        );
        assert(RdmaQueue {
            pending_read: pre.pending_read,
            read_batch: pre.read_batch,
            ..*self
        } == sized);
        true
    }

    /// Stage a write command whose payload is in capsule buffer `idx`. `false`,
    /// and nothing changed, when the pool has no lease for it now.
    pub fn try_stage_inline(&mut self, tag: u16, sqe: Sqe, idx: u32) -> (ok: bool)
        requires
            old(self).wf(),
            tag < old(self).nvme.sqsize,
            idx < old(self).nvme.sqsize,
            old(self).nvme.slots.slots@[tag as int].state is Receiving,
            super::inline_fits(sqe),
        ensures
            final(self).wf(),
            ok == !pool_full(*old(self), crate::sgl::inline_sgl(sqe).1 as int),
            if ok {
                inline_staged(*old(self), *final(self), tag, sqe, idx)
            } else {
                *final(self) == *old(self)
            },
    {
        let ghost pre = *self;
        let (off, len) = parse_inline_sgl(&sqe);
        if !self.nvme.slots.try_lease(tag, len) {
            return false;
        }
        let ghost mid = self.nvme.slots;
        self.nvme.slots.set_data_len(tag, len as u32);
        assert(leased(pre, *self, tag, len as int)) by {
            assert(crate::slotq::lease_tried(pre.nvme.slots, mid, tag, len as int, true));
        }
        let ghost sized = *self;
        proof {
            lemma_capsule(idx as int, self.nvme.sqsize as int);
            lemma_pages_cover(len as int);
        }
        let base: usize = idx as usize * CAPSULE_LEN;
        let from: usize = base + SQE_LEN + off as usize;
        let src = vstd::slice::slice_subrange(self.recv_buf.as_slice(), from, from + len);
        assert(src@ =~= super::payload(pre.recv_buf@, idx as int, sqe));
        self.nvme.slots.write_slot(tag, 0, src);
        let ghost filled = *self;
        self.nvme.slots.submit(tag, sqe);
        assert(submitted(filled, *self, tag, sqe));
        self.post_recv(idx);
        true
    }
}

/// The command waits for a pool lease, behind those already waiting.
pub open spec fn deferred(
    pre: RdmaQueue,
    post: RdmaQueue,
    tag: u16,
    sqe: Sqe,
    idx: Option<u32>,
) -> bool {
    &&& post.pool_wait@ == pre.pool_wait@.push((tag, sqe, idx))
    &&& post == (RdmaQueue { pool_wait: post.pool_wait, ..pre })
}

/// The command was answered with `status` and its capsule buffer posted again.
pub open spec fn inline_refused(
    pre: RdmaQueue,
    post: RdmaQueue,
    tag: u16,
    sqe: Sqe,
    idx: u32,
    status: u16,
) -> bool {
    exists|mid: RdmaQueue|
        #[trigger] RdmaQueue::recv_failed(pre, mid, tag, sqe, status) && RdmaQueue::recv_posted(
            mid,
            post,
            idx,
        )
}

/// What becomes of command `sqe` once it holds `tag`: submitted at once if it
/// carries no host data; else staged, deferred until the pool has a lease, or
/// refused. `idx` is the capsule buffer that holds its payload, if it does.
pub open spec fn routed(
    pre: RdmaQueue,
    post: RdmaQueue,
    role: Role,
    tag: u16,
    sqe: Sqe,
    idx: Option<u32>,
) -> bool {
    if !crate::sgl::data_in(role, sqe.spec_opcode()) {
        submitted(pre, post, tag, sqe)
    } else {
        match idx {
            Some(idx) => {
                if crate::sgl::sgl_type(sqe) != INLINE_SGL_TYPE {
                    inline_refused(
                        pre,
                        post,
                        tag,
                        sqe,
                        idx,
                        (SC_SGL_INVALID_TYPE + SC_DNR) as u16,
                    )
                } else if !super::inline_fits(sqe) {
                    inline_refused(
                        pre,
                        post,
                        tag,
                        sqe,
                        idx,
                        (SC_DATA_SGL_LEN_INVALID + SC_DNR) as u16,
                    )
                } else if pool_full(pre, crate::sgl::inline_sgl(sqe).1 as int) {
                    deferred(pre, post, tag, sqe, Some(idx))
                } else {
                    inline_staged(pre, post, tag, sqe, idx)
                }
            },
            None => {
                let len = crate::sgl::staged(sqe);
                if len == 0 {
                    RdmaQueue::recv_failed(
                        pre,
                        post,
                        tag,
                        sqe,
                        (SC_DATA_SGL_LEN_INVALID + SC_DNR) as u16,
                    )
                } else if pool_full(pre, len as int) {
                    deferred(pre, post, tag, sqe, None)
                } else {
                    write_staged(pre, post, tag, sqe, len as int)
                }
            },
        }
    }
}

/// The command in capsule buffer `idx`.
pub open spec fn command_at(q: RdmaQueue, idx: u32, sqe: Sqe) -> bool {
    sqe.bytes@ == super::capsule(q.recv_buf@, idx as int).subrange(0, SQE_LEN as int)
}

/// The capsule buffer stays held while the command's payload is in it.
pub open spec fn held_capsule(role: Role, sqe: Sqe, idx: u32) -> Option<u32> {
    if crate::sgl::data_in(role, sqe.spec_opcode()) && !crate::sgl::is_keyed(sqe) {
        Some(idx)
    } else {
        None
    }
}

/// The command waits for a tag, behind those already waiting.
pub open spec fn command_parked(
    pre: RdmaQueue,
    post: RdmaQueue,
    sqe: Sqe,
    held: Option<u32>,
) -> bool {
    &&& post.parked@ == pre.parked@.push((sqe, held))
    &&& post == (RdmaQueue { parked: post.parked, ..pre })
}

/// A tag was claimed.
pub open spec fn claimed(pre: RdmaQueue, post: RdmaQueue, tag: u16) -> bool {
    &&& crate::slotq::tag_claimed(pre.nvme.slots, post.nvme.slots, tag)
    &&& post == pre.with_slots(post.nvme.slots)
}

/// Capsule buffer `idx` was posted again unless it is held.
pub open spec fn rearmed(pre: RdmaQueue, post: RdmaQueue, idx: u32, held: Option<u32>) -> bool {
    if held is None {
        RdmaQueue::recv_posted(pre, post, idx)
    } else {
        post == pre
    }
}

/// Command `sqe` from capsule buffer `idx` was taken in: the buffer posted
/// again unless held, and the command routed on the next free tag, or parked
/// while there is none. More parked commands than slots end the queue.
pub open spec fn taken_in(
    pre: RdmaQueue,
    post: RdmaQueue,
    role: Role,
    idx: u32,
    sqe: Sqe,
    r: Result<(), QueueError>,
) -> bool {
    let held = held_capsule(role, sqe, idx);
    exists|armed: RdmaQueue|
        {
            &&& #[trigger] rearmed(pre, armed, idx, held)
            &&& if pre.nvme.slots.free_tags@.len() > 0 {
                r is Ok && exists|on: RdmaQueue|
                    #[trigger] claimed(armed, on, pre.nvme.slots.free_tags@.last()) && routed(
                        on,
                        post,
                        role,
                        pre.nvme.slots.free_tags@.last(),
                        sqe,
                        held,
                    )
            } else if pre.parked@.len() >= pre.nvme.sqsize {
                r == Err::<(), QueueError>(QueueError::Overflow) && post == armed
            } else {
                r is Ok && command_parked(armed, post, sqe, held)
            }
        }
}

/// The capsule in buffer `idx` was received.
pub open spec fn received(
    pre: RdmaQueue,
    post: RdmaQueue,
    role: Role,
    idx: u32,
    r: Result<(), QueueError>,
) -> bool {
    exists|sqe: Sqe|
        #[trigger] command_at(pre, idx, sqe) && taken_in(pre, post, role, idx, sqe, r)
}

impl RdmaQueue {
    /// Route a command that holds `tag`.
    pub fn route_cmd(&mut self, role: Role, tag: u16, sqe: Sqe, idx: Option<u32>)
        requires
            old(self).wf(),
            tag < old(self).nvme.sqsize,
            old(self).nvme.slots.slots@[tag as int].state is Receiving,
            idx matches Some(i) ==> i < old(self).nvme.sqsize,
        ensures
            final(self).wf(),
            final(self).nvme.sqsize == old(self).nvme.sqsize,
            final(self).parked == old(self).parked,
            routed(*old(self), *final(self), role, tag, sqe, idx),
    {
        let ghost pre = *self;
        if !host_data_in(role, sqe.opcode()) {
            self.nvme.slots.submit(tag, sqe);
            return;
        }
        match idx {
            Some(idx) => {
                let (off, len) = parse_inline_sgl(&sqe);
                if type_byte(&sqe) != INLINE_SGL_TYPE {
                    self.fail_recv(tag, sqe, SC_SGL_INVALID_TYPE + SC_DNR);
                    self.post_recv(idx);
                } else if len == 0 || off > ICD_LEN as u64 || len > ICD_LEN - off as usize {
                    self.fail_recv(tag, sqe, SC_DATA_SGL_LEN_INVALID + SC_DNR);
                    self.post_recv(idx);
                } else if !self.try_stage_inline(tag, sqe, idx) {
                    self.pool_wait.push_back((tag, sqe, Some(idx)));
                }
            },
            None => {
                let len: usize = staged_len(&sqe);
                if len == 0 {
                    self.fail_recv(tag, sqe, SC_DATA_SGL_LEN_INVALID + SC_DNR);
                } else if !self.try_stage_write(tag, sqe, len) {
                    self.pool_wait.push_back((tag, sqe, None));
                }
            },
        }
    }

    /// Take in the command in capsule buffer `idx`.
    pub fn handle_recv(&mut self, role: Role, idx: u32) -> (r: Result<(), QueueError>)
        requires
            old(self).wf(),
            idx < old(self).nvme.sqsize,
        ensures
            final(self).wf(),
            final(self).nvme.sqsize == old(self).nvme.sqsize,
            received(*old(self), *final(self), role, idx, r),
    {
        let ghost pre = *self;
        proof {
            lemma_capsule(idx as int, self.nvme.sqsize as int);
        }
        let base: usize = idx as usize * CAPSULE_LEN;
        let sqe = Sqe::from_bytes(
            vstd::slice::slice_subrange(self.recv_buf.as_slice(), base, base + CAPSULE_LEN),
        );
        assert(command_at(pre, idx, sqe));
        let held: Option<u32> = if host_data_in(role, sqe.opcode()) && !keyed(&sqe) {
            Some(idx)
        } else {
            None
        };
        if held.is_none() {
            self.post_recv(idx);
        }
        let ghost armed = *self;
        assert(rearmed(pre, armed, idx, held));
        match self.nvme.slots.claim_tag() {
            Some(tag) => {
                let ghost on = *self;
                assert(claimed(armed, on, tag));
                self.route_cmd(role, tag, sqe, held);
                assert(taken_in(pre, *self, role, idx, sqe, Ok(())));
                Ok(())
            },
            None => {
                if self.parked.len() >= self.nvme.sqsize as usize {
                    assert(taken_in(pre, *self, role, idx, sqe, Err(QueueError::Overflow)));
                    return Err(QueueError::Overflow);
                }
                self.parked.push_back((sqe, held));
                assert(taken_in(pre, *self, role, idx, sqe, Ok(())));
                Ok(())
            },
        }
    }
}

/// One of the response requests of `tag` completed: the tag is released when
/// it was the last.
pub open spec fn response_done(pre: RdmaQueue, post: RdmaQueue, tag: u16) -> bool {
    let n = pre.inflight@[tag as int];
    let left: u8 = if n == 0 {
        0
    } else {
        (n - 1) as u8
    };
    &&& post.inflight@ == pre.inflight@.update(tag as int, left)
    &&& if left == 0 {
        crate::slotq::tag_released(pre.nvme.slots, post.nvme.slots, tag)
    } else {
        post.nvme.slots == pre.nvme.slots
    }
    &&& post == (RdmaQueue { inflight: post.inflight, ..pre.with_slots(post.nvme.slots) })
}

/// What the queue does with one completion `(id, ok)`. `Ok(true)` says the
/// peer is gone.
pub open spec fn completed(
    pre: RdmaQueue,
    post: RdmaQueue,
    role: Role,
    comp: (u64, bool),
    r: Result<bool, QueueError>,
) -> bool {
    let (id, ok) = comp;
    let low = super::low_of(id);
    let w = pre.wr();
    let stray = r == Err::<bool, QueueError>(QueueError::Stray) && post == pre;
    if !ok {
        r == Ok::<bool, QueueError>(true) && post == pre
    } else if super::kind_of(id) == super::WR_RECV {
        if low < pre.nvme.sqsize {
            match r {
                Ok(gone) => !gone && received(
                    pre.with_wr(RdmaWrStats { recv: w.recv.with_done(), ..w }),
                    post,
                    role,
                    low as u32,
                    Ok(()),
                ),
                Err(e) => received(
                    pre.with_wr(RdmaWrStats { recv: w.recv.with_done(), ..w }),
                    post,
                    role,
                    low as u32,
                    Err(e),
                ),
            }
        } else {
            stray
        }
    } else if super::kind_of(id) == super::WR_READ {
        if low < pre.nvme.sqsize && pre.nvme.slots.slots@[low].state is Receiving {
            r == Ok::<bool, QueueError>(false) && submitted(
                pre.with_wr(RdmaWrStats { read: w.read.with_done(), ..w }),
                post,
                low as u16,
                pre.pending_read@[low],
            )
        } else {
            stray
        }
    } else if super::kind_of(id) == super::WR_SEND {
        if low < pre.nvme.sqsize && pre.nvme.slots.slots@[low].state is Responding {
            r == Ok::<bool, QueueError>(false) && response_done(
                pre.with_wr(RdmaWrStats { send: w.send.with_done(), ..w }),
                post,
                low as u16,
            )
        } else {
            stray
        }
    } else if super::kind_of(id) == super::WR_WRITE {
        if low < pre.nvme.sqsize && pre.nvme.slots.slots@[low].state is Responding {
            r == Ok::<bool, QueueError>(false) && response_done(
                pre.with_wr(RdmaWrStats { write: w.write.with_done(), ..w }),
                post,
                low as u16,
            )
        } else {
            stray
        }
    } else {
        r == Ok::<bool, QueueError>(false) && post == pre
    }
}

impl RdmaQueue {
    /// Submit a write command whose host data has arrived.
    pub fn submit_pending(&mut self, tag: u16)
        requires
            old(self).wf(),
            tag < old(self).nvme.sqsize,
            old(self).nvme.slots.slots@[tag as int].state is Receiving,
        ensures
            final(self).wf(),
            submitted(*old(self), *final(self), tag, old(self).pending_read@[tag as int]),
    {
        let sqe = self.pending_read[tag as usize];
        self.nvme.slots.submit(tag, sqe);
    }

    /// A response request of `tag` completed.
    pub fn on_response_done(&mut self, tag: u16)
        requires
            old(self).wf(),
            tag < old(self).nvme.sqsize,
            old(self).nvme.slots.slots@[tag as int].state is Responding,
        ensures
            final(self).wf(),
            response_done(*old(self), *final(self), tag),
    {
        let n: u8 = self.inflight[tag as usize];
        let left: u8 = if n == 0 {
            0
        } else {
            n - 1
        };
        self.inflight.set(tag as usize, left);
        if left == 0 {
            self.nvme.slots.release_tag(tag);
        }
    }

    /// Handle one completion.
    pub fn on_completion(&mut self, role: Role, id: u64, ok: bool) -> (r: Result<
        bool,
        QueueError,
    >)
        requires
            old(self).wf(),
        ensures
            final(self).wf(),
            final(self).nvme.sqsize == old(self).nvme.sqsize,
            completed(*old(self), *final(self), role, (id, ok), r),
    {
        if !ok {
            return Ok(true);
        }
        let kind: u64 = super::wr_kind(id);
        let low: u32 = super::wr_low(id);
        let mut w = self.wr_now();
        if kind == super::WR_RECV {
            if low >= self.nvme.sqsize as u32 {
                return Err(QueueError::Stray);
            }
            w.recv.complete();
            self.set_wr(w);
            match self.handle_recv(role, low) {
                Ok(()) => Ok(false),
                Err(e) => Err(e),
            }
        } else if kind == super::WR_READ {
            if low >= self.nvme.sqsize as u32 || !matches!(
                self.nvme.slots.slot(low as u16).state(),
                SlotState::Receiving
            ) {
                return Err(QueueError::Stray);
            }
            w.read.complete();
            self.set_wr(w);
            self.submit_pending(low as u16);
            Ok(false)
        } else if kind == super::WR_SEND {
            if low >= self.nvme.sqsize as u32 || !matches!(
                self.nvme.slots.slot(low as u16).state(),
                SlotState::Responding
            ) {
                return Err(QueueError::Stray);
            }
            w.send.complete();
            self.set_wr(w);
            self.on_response_done(low as u16);
            Ok(false)
        } else if kind == super::WR_WRITE {
            if low >= self.nvme.sqsize as u32 || !matches!(
                self.nvme.slots.slot(low as u16).state(),
                SlotState::Responding
            ) {
                return Err(QueueError::Stray);
            }
            w.write.complete();
            self.set_wr(w);
            self.on_response_done(low as u16);
            Ok(false)
        } else {
            Ok(false)
        }
    }
}

} // verus!
