//! The RDMA target queue: commands arrive in receive capsules, host write data
//! is pulled into pool leases before dispatch, read data is pushed to the
//! host, and responses go out as send capsules. The queue decides; the work
//! requests it wants posted collect in `posts`, in order.

use vstd::prelude::*;
use std::collections::VecDeque;

use crate::nvme::{Cqe, Outcome, Sqe, SQE_LEN};
use crate::queue::QueueCore;
use crate::slotq::{SendList, SlotState};
use crate::wrstats::RdmaWrStats;

pub mod conn;
pub mod engine;
pub mod host;
pub mod reap;

verus! {

/// Most in-capsule data accepted: one page, as advertised. Write payloads up
/// to this arrive inside the command capsule.
pub const ICD_LEN: usize = 4096;

/// Bytes of a receive capsule: a submission entry and the in-capsule data.
pub const CAPSULE_LEN: usize = 4160;

/// Bytes of a response capsule.
pub const CQE_BYTES: usize = 16;

/// Bytes of the fabrics Connect data.
pub const CONNECT_DATA_LEN: usize = 1024;

/// Work-request kind: receive.
pub const WR_RECV: u64 = 0x100_0000_0000;

/// Work-request kind: send.
pub const WR_SEND: u64 = 0x200_0000_0000;

/// Work-request kind: write to the host.
pub const WR_WRITE: u64 = 0x300_0000_0000;

/// Work-request kind: read from the host.
pub const WR_READ: u64 = 0x400_0000_0000;

/// A kind whose low bits are free for a tag or a buffer index.
pub open spec fn is_wr_kind(kind: u64) -> bool {
    kind == WR_RECV || kind == WR_SEND || kind == WR_WRITE || kind == WR_READ
}

/// The kind of work request `id`.
pub open spec fn kind_of(id: u64) -> int {
    (id / 0x100_0000_0000) % 0x100 * 0x100_0000_0000
}

/// The tag or buffer index of work request `id`.
pub open spec fn low_of(id: u64) -> int {
    (id % 0x1_0000_0000) as int
}

/// The id of a work request.
pub fn wr(kind: u64, low: u32) -> (id: u64)
    requires
        is_wr_kind(kind),
    ensures
        id == kind + low,
{
    kind + low as u64
}

/// The kind of work request `id`.
pub fn wr_kind(id: u64) -> (k: u64)
    ensures
        k == kind_of(id),
{
    (id / 0x100_0000_0000) % 0x100 * 0x100_0000_0000
}

/// The low bits of work request `id`.
pub fn wr_low(id: u64) -> (low: u32)
    ensures
        low == low_of(id),
{
    (id % 0x1_0000_0000) as u32
}

/// A work-request id gives back the kind and the low bits it was made of.
pub proof fn wr_id_round_trip(kind: u64, low: u32)
    requires
        is_wr_kind(kind),
    ensures
        kind_of((kind + low) as u64) == kind,
        low_of((kind + low) as u64) == low,
{
}

/// A finished command's response.
#[derive(Clone, Copy)]
pub struct RdmaResp {
    pub tag: u16,
    pub cmd: Sqe,
    pub outcome: Outcome,
}

/// A write command's host-data pull: the remote side and the length. The local
/// side is the slot's pool lease.
#[derive(Debug, Clone, Copy, PartialEq, Eq, Structural)]
pub struct PendingRead {
    pub tag: u16,
    pub len: u32,
    pub rkey: u32,
    pub addr: u64,
}

/// A work request to post.
#[derive(Debug, Clone, Copy, PartialEq, Eq, Structural)]
pub enum Wr {
    /// Receive into capsule buffer `idx`.
    Recv { idx: u32 },
    /// Pull host data into the leased segments of a slot.
    Read { read: PendingRead },
    /// Pull the Connect data into its landing buffer.
    ReadConnect { len: u32, rkey: u32, addr: u64 },
    /// Push the first `len` bytes of a slot's data to the host.
    Write { tag: u16, len: u32, rkey: u32, addr: u64 },
    /// Send the slot's staged response capsule, solicited, invalidating the
    /// host's key if it asked for that.
    Send { tag: u16, invalidate: Option<u32> },
    /// Post what was collected for the send queue since the last doorbell.
    Doorbell,
}

impl Wr {
    /// The id the request is posted under.
    pub open spec fn spec_id(self) -> Option<u64> {
        match self {
            Wr::Recv { idx } => Some((WR_RECV + idx) as u64),
            Wr::Read { read } => Some((WR_READ + read.tag) as u64),
            Wr::ReadConnect { .. } => Some(WR_READ),
            Wr::Write { tag, .. } => Some((WR_WRITE + tag) as u64),
            Wr::Send { tag, .. } => Some((WR_SEND + tag) as u64),
            Wr::Doorbell => None,
        }
    }

    /// The id the request is posted under.
    pub fn id(&self) -> (r: Option<u64>)
        ensures
            r == self.spec_id(),
    {
        match self {
            Wr::Recv { idx } => Some(wr(WR_RECV, *idx)),
            Wr::Read { read } => Some(wr(WR_READ, read.tag as u32)),
            Wr::ReadConnect { .. } => Some(wr(WR_READ, 0)),
            Wr::Write { tag, .. } => Some(wr(WR_WRITE, *tag as u32)),
            Wr::Send { tag, .. } => Some(wr(WR_SEND, *tag as u32)),
            Wr::Doorbell => None,
        }
    }
}

/// Why a queue ends.
#[derive(Debug, Clone, Copy, PartialEq, Eq, Structural)]
pub enum QueueError {
    /// The host exceeded the negotiated queue depth.
    Overflow,
    /// A completion that answers no outstanding request.
    Stray,
    /// A request completed in error: the peer is gone.
    PeerGone,
    /// No slot for the Connect command.
    NoTag,
}

/// One connection's queue.
pub struct RdmaQueue {
    pub nvme: QueueCore<Sqe, RdmaWrStats>,
    /// Receive capsule buffers, one per slot.
    pub recv_buf: Vec<u8>,
    /// Response staging, one completion entry per slot.
    pub resp_buf: Vec<u8>,
    /// Landing buffer for host-resident Connect data.
    pub cdata_buf: Vec<u8>,
    /// Outstanding response requests per tag; the tag is released at 0.
    pub inflight: Vec<u8>,
    /// Finished responses, waiting to be posted.
    pub responses: SendList<RdmaResp>,
    /// Per tag, the write command whose host data is being pulled.
    pub pending_read: Vec<Sqe>,
    /// Host-data pulls collected for one doorbell.
    pub read_batch: Vec<PendingRead>,
    /// Commands waiting for a tag, oldest first, each with the capsule buffer
    /// it still holds.
    pub parked: VecDeque<(Sqe, Option<u32>)>,
    /// Write commands waiting for a pool lease, oldest first.
    pub pool_wait: VecDeque<(u16, Sqe, Option<u32>)>,
    /// Watchdog ticks since start.
    pub watchdog_tick: u32,
    /// Work requests to post, in order.
    pub posts: Vec<Wr>,
}

/// The in-capsule descriptor lies within the in-capsule data.
pub open spec fn inline_fits(sqe: Sqe) -> bool {
    let (off, len) = crate::sgl::inline_sgl(sqe);
    0 < len && off + len <= ICD_LEN
}

/// The capsule in receive buffer `idx`.
pub open spec fn capsule(buf: Seq<u8>, idx: int) -> Seq<u8> {
    buf.subrange(idx * CAPSULE_LEN, idx * CAPSULE_LEN + CAPSULE_LEN)
}

/// The in-capsule payload of `sqe` in receive buffer `idx`.
pub open spec fn payload(buf: Seq<u8>, idx: int, sqe: Sqe) -> Seq<u8> {
    let (off, len) = crate::sgl::inline_sgl(sqe);
    capsule(buf, idx).subrange(SQE_LEN + off, SQE_LEN + off + len)
}

impl RdmaQueue {
    pub open spec fn wf(&self) -> bool {
        &&& self.nvme.wf()
        &&& self.nvme.stats.transport is Some
        &&& self.recv_buf.len() == self.nvme.sqsize * CAPSULE_LEN
        &&& self.resp_buf.len() == self.nvme.sqsize * CQE_BYTES
        &&& self.cdata_buf.len() == ICD_LEN
        &&& self.inflight.len() == self.nvme.sqsize
        &&& self.pending_read.len() == self.nvme.sqsize
        &&& forall|i: int|
            0 <= i < self.responses.work@.len() ==> (#[trigger] self.responses.work@[i]).tag
                < self.nvme.sqsize
        &&& forall|i: int|
            0 <= i < self.parked@.len() ==> ((#[trigger] self.parked@[i]).1 matches Some(idx) ==> idx
                < self.nvme.sqsize)
        &&& forall|i: int|
            0 <= i < self.pool_wait@.len() ==> {
                let w = #[trigger] self.pool_wait@[i];
                &&& w.0 < self.nvme.sqsize
                &&& w.2 matches Some(idx) ==> idx < self.nvme.sqsize && inline_fits(w.1)
            }
    }

    /// The work-request counters.
    pub open spec fn wr(self) -> RdmaWrStats {
        self.nvme.stats.transport->0
    }

    /// This queue with other counters.
    pub open spec fn with_wr(self, w: RdmaWrStats) -> RdmaQueue {
        RdmaQueue {
            nvme: QueueCore {
                stats: crate::queue::QueueStats { transport: Some(w), ..self.nvme.stats },
                ..self.nvme
            },
            ..self
        }
    }

    /// This queue with other slots.
    pub open spec fn with_slots(self, slots: crate::slotq::SlotArray<Sqe>) -> RdmaQueue {
        RdmaQueue { nvme: QueueCore { slots, ..self.nvme }, ..self }
    }

    pub(crate) fn wr_now(&self) -> (w: RdmaWrStats)
        requires
            self.nvme.stats.transport is Some,
        ensures
            w == self.wr(),
    {
        match &self.nvme.stats.transport {
            Some(w) => *w,
            None => RdmaWrStats::new(),
        }
    }

    pub(crate) fn set_wr(&mut self, w: RdmaWrStats)
        ensures
            *final(self) == old(self).with_wr(w),
    {
        self.nvme.stats.transport = Some(w);
    }

    /// A queue of `sqsize` slots. The admin queue's pool is sized so that
    /// leases never block; an IO queue gets `queue_buf_bytes`.
    pub fn new(
        qid: u16,
        sqsize: u16,
        sqhd_disabled: bool,
        queue_buf_bytes: usize,
        admin_data_max: usize,
    ) -> (q: RdmaQueue)
        requires
            pool_bytes(qid, sqsize, queue_buf_bytes as int, admin_data_max as int)
                + crate::pool::PAGE - 1 <= usize::MAX,
            crate::pool::pages_for(
                pool_bytes(qid, sqsize, queue_buf_bytes as int, admin_data_max as int),
            ) <= u32::MAX,
        ensures
            q.wf(),
            q.nvme.qid == qid,
            q.nvme.sqsize == sqsize,
            q.nvme.sqhd == 0,
            q.nvme.sqhd_disabled == sqhd_disabled,
            q.nvme.slots.pool.npages == crate::pool::pages_for(
                pool_bytes(qid, sqsize, queue_buf_bytes as int, admin_data_max as int),
            ),
            q.nvme.slots.pool.free_pages == q.nvme.slots.pool.npages,
            q.nvme.slots.free_tags@ == Seq::new(sqsize as nat, |i: int| (sqsize - 1 - i) as u16),
            q.nvme.slots.executing == 0,
            q.nvme.slots.ring_done@.len() == 0,
            forall|t: int|
                0 <= t < sqsize ==> {
                    let s = #[trigger] q.nvme.slots.slots@[t];
                    s.state is Free && s.cmd.bytes@ == crate::wire::zeros(64) && s.data.owner is Empty
                        && s.data_len == 0 && s.recv_offset == 0
                },
            q.nvme.slots.pool.buf_index is None,
            q.nvme.slots.pool.send_arena is None,
            q.wr() == RdmaWrStats::zero(),
            q.nvme.stats.snap() == crate::queue::QueueStatsSnapshot::zero(qid, 0),
            q.inflight@ == Seq::new(sqsize as nat, |i: int| 0u8),
            q.recv_buf@ == crate::wire::zeros((sqsize * CAPSULE_LEN) as nat),
            q.resp_buf@ == crate::wire::zeros((sqsize * CQE_BYTES) as nat),
            q.cdata_buf@ == crate::wire::zeros(ICD_LEN as nat),
            q.responses.work@.len() == 0,
            !q.responses.closed,
            forall|t: int|
                0 <= t < sqsize ==> (#[trigger] q.pending_read@[t]).bytes@ == crate::wire::zeros(64),
            q.read_batch@.len() == 0,
            q.parked@.len() == 0,
            q.pool_wait@.len() == 0,
            q.watchdog_tick == 0,
            q.posts@.len() == 0,
    {
        let depth: usize = if sqsize == 0 {
            1
        } else {
            sqsize as usize
        };
        let pool_bytes: usize = if qid == 0 {
            depth * admin_data_max
        } else {
            queue_buf_bytes
        };
        let init: Sqe = Sqe::zeroed();
        assert(init.bytes@ =~= crate::wire::zeros(64));
        let mut nvme: QueueCore<Sqe, RdmaWrStats> = QueueCore::new(
            qid,
            sqsize,
            pool_bytes,
            sqhd_disabled,
            init,
        );
        nvme.stats.set_transport(RdmaWrStats::new());
        let recv_buf: Vec<u8> = vec![0u8; sqsize as usize * CAPSULE_LEN];
        let resp_buf: Vec<u8> = vec![0u8; sqsize as usize * CQE_BYTES];
        let cdata_buf: Vec<u8> = vec![0u8; ICD_LEN];
        let inflight: Vec<u8> = vec![0u8; sqsize as usize];
        assert(recv_buf@ =~= crate::wire::zeros((sqsize * CAPSULE_LEN) as nat));
        assert(resp_buf@ =~= crate::wire::zeros((sqsize * CQE_BYTES) as nat));
        assert(cdata_buf@ =~= crate::wire::zeros(ICD_LEN as nat));
        assert(inflight@ =~= Seq::new(sqsize as nat, |i: int| 0u8));
        let mut pending_read: Vec<Sqe> = Vec::with_capacity(sqsize as usize);
        let mut i: u16 = 0;
        while i < sqsize
            invariant
                i <= sqsize,
                pending_read.len() == i,
                forall|t: int|
                    0 <= t < i ==> (#[trigger] pending_read@[t]).bytes@ == crate::wire::zeros(64),
            decreases sqsize - i,
        {
            let none: Sqe = Sqe::zeroed();
            assert(none.bytes@ =~= crate::wire::zeros(64));
            pending_read.push(none);
            i += 1;
        }
        RdmaQueue {
            nvme,
            recv_buf,
            resp_buf,
            cdata_buf,
            inflight,
            responses: SendList::new(sqsize),
            pending_read,
            read_batch: Vec::with_capacity(sqsize as usize),
            parked: VecDeque::with_capacity(sqsize as usize),
            pool_wait: VecDeque::with_capacity(sqsize as usize),
            watchdog_tick: 0,
            posts: Vec::new(),
        }
    }

    /// The receive for capsule buffer `idx` was posted.
    pub open spec fn recv_posted(pre: RdmaQueue, post: RdmaQueue, idx: u32) -> bool {
        let w = RdmaWrStats {
            recv: pre.wr().recv.with_posted(1),
            recv_db: pre.wr().recv_db.with(1),
            ..pre.wr()
        };
        &&& post.posts@ == pre.posts@.push(Wr::Recv { idx })
        &&& post == (RdmaQueue { posts: post.posts, ..pre.with_wr(w) })
    }

    /// Post, or post again, the receive for capsule buffer `idx`.
    pub fn post_recv(&mut self, idx: u32)
        requires
            old(self).wf(),
        ensures
            final(self).wf(),
            RdmaQueue::recv_posted(*old(self), *final(self), idx),
    {
        self.posts.push(Wr::Recv { idx });
        let mut w = self.wr_now();
        w.recv.post();
        w.recv_db.record(1);
        self.set_wr(w);
    }

    /// Command `sqe` on `tag` was answered with `status` without dispatch.
    pub open spec fn recv_failed(
        pre: RdmaQueue,
        post: RdmaQueue,
        tag: u16,
        sqe: Sqe,
        status: u16,
    ) -> bool {
        let head = pre.nvme.head_after();
        let cqe = Cqe { result: 0, sqhd: head, sqid: pre.nvme.qid, cid: sqe.spec_cid(), status };
        &&& crate::slotq::slot_set(
            pre.nvme.slots,
            post.nvme.slots,
            tag,
            crate::slotq::Slot {
                state: SlotState::Responding,
                ..pre.nvme.slots.slots@[tag as int]
            },
        )
        &&& post.nvme == (QueueCore {
            slots: post.nvme.slots,
            sqhd: if pre.nvme.sqhd_disabled {
                pre.nvme.sqhd
            } else {
                head
            },
            ..pre.nvme
        })
        &&& post.responses.work@ == pre.responses.work@.push(
            RdmaResp { tag, cmd: sqe, outcome: Outcome { cqe, data_len: 0 } },
        )
        &&& post.responses.closed == pre.responses.closed
        &&& post == (RdmaQueue { nvme: post.nvme, responses: post.responses, ..pre })
    }

    /// Fail a command that is still being received: its slot task never sees
    /// it, and an error completion is queued.
    pub fn fail_recv(&mut self, tag: u16, sqe: Sqe, status: u16)
        requires
            old(self).wf(),
            tag < old(self).nvme.sqsize,
            old(self).nvme.slots.slots@[tag as int].state is Receiving,
        ensures
            final(self).wf(),
            RdmaQueue::recv_failed(*old(self), *final(self), tag, sqe, status),
    {
        self.nvme.slots.respond_receiving(tag);
        let head: u16 = self.nvme.advance_sqhd();
        let cqe = Cqe::new(0, head, self.nvme.qid, sqe.cid(), status);
        self.responses.push(RdmaResp { tag, cmd: sqe, outcome: Outcome::status(cqe) });
    }
}

/// Bytes of a queue's data pool.
pub open spec fn pool_bytes(qid: u16, sqsize: u16, queue_buf: int, admin_max: int) -> int {
    if qid == 0 {
        (if sqsize == 0 {
            1
        } else {
            sqsize as int
        }) * admin_max
    } else {
        queue_buf
    }
}

} // verus!
