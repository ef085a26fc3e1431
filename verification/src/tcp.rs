//! The NVMe/TCP target queue: the command slots and an ordered send list,
//! shared by the receive path, the slot tasks and the send path.

use vstd::prelude::*;

use crate::nvme::{Cqe, Sqe};
use crate::queue::QueueCore;
use crate::slotq::{SendList, Slot, SlotState};

pub mod conn;
pub mod host;
pub mod recv;
pub mod send;

verus! {

/// A completed command waiting for the send path.
#[derive(Debug, Clone, Copy)]
pub struct Completion {
    pub tag: u16,
    pub cqe: Cqe,
    /// Bytes of read data in the slot buffer to send before (or instead of,
    /// with the success flag) the response capsule.
    pub data_len: u32,
}

/// One unit of work for the send path. Solicitations originate from the
/// receive path but serialize with responses on the wire, so they travel
/// through the same list.
#[derive(Debug, Clone, Copy)]
pub enum SendWork {
    Response(Completion),
    R2t { tag: u16, cid: u16, offset: u32, length: u32 },
}

/// The connection's shared queue state.
pub struct NvmeTcpQueue {
    /// Slots, submission-queue head, counters.
    pub nvme: QueueCore<Sqe>,
    /// Work for the send path.
    pub send: SendList<SendWork>,
    /// A command was submitted since the keep-alive beacon last looked.
    pub traffic: bool,
}

/// Slot `tag` now holds `slot`; besides that only the send list and the
/// traffic mark may differ.
pub open spec fn slot_stepped(
    pre: NvmeTcpQueue,
    post: NvmeTcpQueue,
    tag: u16,
    slot: Slot<Sqe>,
) -> bool {
    &&& crate::slotq::slot_set(pre.nvme.slots, post.nvme.slots, tag, slot)
    &&& post.nvme == (QueueCore { slots: post.nvme.slots, ..pre.nvme })
}

/// The send list gained `work` at its end.
pub open spec fn send_queued(pre: NvmeTcpQueue, post: NvmeTcpQueue, work: SendWork) -> bool {
    &&& post.send.work@ == pre.send.work@.push(work)
    &&& post.send.closed == pre.send.closed
}

/// `cmd` was delivered to slot `tag`'s task, and the traffic noted.
pub open spec fn submitted(pre: NvmeTcpQueue, post: NvmeTcpQueue, tag: u16, cmd: Sqe) -> bool {
    &&& slot_stepped(
        pre,
        post,
        tag,
        Slot { cmd, state: SlotState::Ready, ..pre.nvme.slots.slots@[tag as int] },
    )
    &&& post.send == pre.send
    &&& post.traffic
}

/// Slot `tag`'s completion was queued for the send path.
pub open spec fn completed(
    pre: NvmeTcpQueue,
    post: NvmeTcpQueue,
    tag: u16,
    cqe: Cqe,
    data_len: u32,
) -> bool {
    &&& post.nvme.slots.slot_now(
        &pre.nvme.slots,
        tag,
        Slot { state: SlotState::Responding, ..pre.nvme.slots.slots@[tag as int] },
    )
    &&& post.nvme.slots.free_tags@ == pre.nvme.slots.free_tags@
    &&& post.nvme.slots.executing == pre.nvme.slots.executing - (if pre.nvme.slots.slots@[tag as int].state is Executing { 1int } else { 0 })
    &&& post.nvme == (QueueCore { slots: post.nvme.slots, ..pre.nvme })
    &&& send_queued(pre, post, SendWork::Response(Completion { tag, cqe, data_len }))
    &&& post.traffic == pre.traffic
}

impl NvmeTcpQueue {
    pub open spec fn wf(&self) -> bool {
        self.nvme.wf()
    }

    /// The queue pair for one connection; `pool_bytes` sizes the shared pool
    /// slots lease from.
    pub fn new(qid: u16, sqsize: u16, pool_bytes: usize, sqhd_disabled: bool) -> (q: NvmeTcpQueue)
        requires
            pool_bytes + crate::pool::PAGE - 1 <= usize::MAX,
            crate::pool::pages_for(pool_bytes as int) <= u32::MAX,
        ensures
            q.wf(),
            q.nvme.qid == qid,
            q.nvme.sqsize == sqsize,
            q.nvme.sqhd == 0,
            q.nvme.sqhd_disabled == sqhd_disabled,
            q.nvme.slots.executing == 0,
            q.nvme.slots.ring_done@.len() == 0,
            q.nvme.slots.free_tags@ == Seq::new(sqsize as nat, |i: int| (sqsize - 1 - i) as u16),
            forall|t: int|
                0 <= t < sqsize ==> {
                    let s = #[trigger] q.nvme.slots.slots@[t];
                    s.state is Free && s.cmd.bytes@ == crate::wire::zeros(64) && s.data.owner is Empty
                        && s.data_len == 0 && s.recv_offset == 0
                },
            q.nvme.slots.pool.npages == crate::pool::pages_for(pool_bytes as int),
            q.nvme.slots.pool.free_pages == q.nvme.slots.pool.npages,
            q.nvme.slots.pool.buf_index is None,
            q.nvme.slots.pool.send_arena is None,
            q.nvme.stats.snap() == crate::queue::QueueStatsSnapshot::zero(qid, 0),
            q.send.work@.len() == 0,
            !q.send.closed,
            !q.traffic,
    {
        NvmeTcpQueue {
            nvme: QueueCore::new(qid, sqsize, pool_bytes, sqhd_disabled, Sqe::zeroed()),
            send: SendList::new(sqsize),
            traffic: false,
        }
    }

    /// Deliver a fully received command to its slot task, noting the traffic
    /// on the way through.
    pub fn submit(&mut self, tag: u16, cmd: Sqe)
        requires
            old(self).wf(),
            tag < old(self).nvme.sqsize,
            old(self).nvme.slots.slots@[tag as int].state is Receiving,
        ensures
            final(self).wf(),
            submitted(*old(self), *final(self), tag, cmd),
    {
        self.traffic = true;
        self.nvme.slots.submit(tag, cmd);
    }

    /// Consume the mark that commands were submitted.
    pub fn take_traffic(&mut self) -> (was: bool)
        ensures
            was == old(self).traffic,
            *final(self) == (NvmeTcpQueue { traffic: false, ..*old(self) }),
    {
        let was = self.traffic;
        self.traffic = false;
        was
    }

    /// Queue a completion for the send path (slot task side).
    pub fn complete(&mut self, tag: u16, cqe: Cqe, data_len: u32)
        requires
            old(self).wf(),
            tag < old(self).nvme.sqsize,
            old(self).nvme.slots.slots@[tag as int].state is Executing,
        ensures
            final(self).wf(),
            completed(*old(self), *final(self), tag, cqe, data_len),
    {
        self.nvme.slots.begin_respond(tag);
        self.send.push(SendWork::Response(Completion { tag, cqe, data_len }));
    }

    /// Fail a command still in the receive phase without dispatching it.
    pub fn complete_receiving(&mut self, tag: u16, cqe: Cqe)
        requires
            old(self).wf(),
            tag < old(self).nvme.sqsize,
            old(self).nvme.slots.slots@[tag as int].state is Receiving,
        ensures
            final(self).wf(),
            completed(*old(self), *final(self), tag, cqe, 0),
    {
        self.nvme.slots.respond_receiving(tag);
        self.send.push(SendWork::Response(Completion { tag, cqe, data_len: 0 }));
    }

    /// Queue a solicitation of write data for `tag`; the slot stays
    /// `Receiving`.
    pub fn solicit(&mut self, tag: u16, cid: u16, offset: u32, length: u32)
        requires
            tag < old(self).nvme.slots.slots@.len(),
            old(self).nvme.slots.slots@[tag as int].state is Receiving,
        ensures
            *final(self) == (NvmeTcpQueue { send: final(self).send, ..*old(self) }),
            send_queued(*old(self), *final(self), SendWork::R2t { tag, cid, offset, length }),
    {
        self.send.push(SendWork::R2t { tag, cid, offset, length });
    }

    /// Let the send path end once its list is drained.
    pub fn close_send(&mut self)
        ensures
            *final(self) == (NvmeTcpQueue { send: final(self).send, ..*old(self) }),
            final(self).send.closed,
            final(self).send.work@ == old(self).send.work@,
    {
        self.send.close();
    }
}

} // verus!
