//! The receive path: payload reassembly (in-capsule and solicited), data-digest
//! verification, and the routing of decoded headers.

use vstd::prelude::*;

use crate::digest::Crc32c;
use crate::nvme::{Cqe, Sqe, MDTS_BYTES, SC_DATA_XFER_ERROR, SC_DNR};
use crate::pdu::{DecodedPdu, PduDecoder, PduError, PduKind};
use crate::pool::{Seg, SlotData};
use crate::queue::QueueCore;
use crate::slotq::{Slot, SlotState};
use crate::tcp::{NvmeTcpQueue, SendWork};

verus! {

/// Solicited payload tails at least this large, not yet arrived when the
/// connection buffer drains, are received straight into the slot buffer. Below
/// it the cost of the operation outweighs the copy.
pub const H2C_DIRECT_MIN: u32 = 16384;

/// Where the payload currently streaming in belongs.
#[derive(Debug, Clone, Copy)]
pub enum PayloadKind {
    /// In-capsule data: submit on completion.
    InCapsule,
    /// One data PDU of a solicited transfer.
    H2c { last: bool, length: u32 },
}

/// Mid-payload state.
#[derive(Debug, Clone, Copy)]
pub struct DataPhase {
    pub tag: u16,
    /// Slot offset where this PDU's payload begins.
    pub base: u32,
    pub remaining: u32,
    pub crc: Crc32c,
    pub ddgst: bool,
    pub kind: PayloadKind,
    /// The slot's buffer is the receive-ring region the payload lands in: there
    /// is nothing to copy.
    pub retained: bool,
}

/// Consuming the 4-byte data digest that trails a payload.
#[derive(Debug, Clone, Copy)]
pub struct DdgstPhase {
    pub tag: u16,
    pub expected: u32,
    pub have: [u8; 4],
    pub have_len: u8,
    pub kind: PayloadKind,
}

/// Receive-side state across receive completions.
#[derive(Debug, Clone, Copy)]
pub enum RecvPhase {
    /// Assembling a header.
    Header,
    /// Copying payload bytes into the slot buffer.
    Data(DataPhase),
    /// Consuming the data digest.
    Ddgst(DdgstPhase),
}

/// Why the receive path is finished with the connection.
#[derive(Debug, Clone, Copy)]
pub enum RecvEnd {
    /// Protocol violation: send a termination request, and close.
    Term(PduError),
    /// The host terminated the connection; close without replying.
    HostTerm { fes: u16, fei: u32 },
    /// Orderly end of stream mid-payload.
    Closed,
}

/// The receive-ring sub-buffer behind the current window, and where in it the
/// payload starts.
#[derive(Debug, Clone, Copy)]
pub struct RingWindow {
    pub bid: u16,
    /// Distance from the sub-buffer's start.
    pub off: usize,
    /// The sub-buffer's size.
    pub cap: usize,
}

/// What became of a decoded header.
#[derive(Debug, Clone, Copy)]
pub enum Routed {
    /// No command slot is free; route it again once a tag is released.
    NoTag,
    /// Routed; the phase to go on with, if payload follows on the stream.
    Next(Option<RecvPhase>),
}

/// Slot `t` of a queue.
pub open spec fn slot_of(q: NvmeTcpQueue, t: u16) -> Slot<Sqe> {
    q.nvme.slots.slots@[t as int]
}

/// The buffer of a slot can take the payload it expects.
pub open spec fn has_room(s: Slot<Sqe>) -> bool {
    !(s.data.owner is Ring) && s.data_len <= s.data.len
}

/// Every slot that awaits payload, but for slot `except`, has a buffer for it.
pub open spec fn roomy(q: NvmeTcpQueue, except: int) -> bool {
    forall|t: int|
        0 <= t < q.nvme.slots.slots@.len() && t != except && (
        #[trigger] q.nvme.slots.slots@[t]).state is Receiving && q.nvme.slots.slots@[t].data_len > 0
            ==> has_room(q.nvme.slots.slots@[t])
}

/// Payload bytes of the PDU being received.
pub open spec fn total(q: NvmeTcpQueue, tag: u16, kind: PayloadKind) -> int {
    match kind {
        PayloadKind::InCapsule => slot_of(q, tag).data_len as int,
        PayloadKind::H2c { last, length } => length as int,
    }
}

/// The transfer is complete once this PDU's payload is in.
pub open spec fn is_whole(q: NvmeTcpQueue, tag: u16, kind: PayloadKind) -> bool {
    match kind {
        PayloadKind::InCapsule => true,
        PayloadKind::H2c { last, length } => slot_of(q, tag).recv_offset + length == slot_of(
            q,
            tag,
        ).data_len,
    }
}

/// Slot `tag` awaits a payload of `kind`.
pub open spec fn awaits(q: NvmeTcpQueue, tag: u16, kind: PayloadKind) -> bool {
    &&& tag < q.nvme.sqsize
    &&& slot_of(q, tag).state is Receiving
    &&& kind matches PayloadKind::H2c { last, length } ==> slot_of(q, tag).recv_offset + length
        <= slot_of(q, tag).data_len
}

/// The slot offset the next payload byte goes to.
pub open spec fn dest(q: NvmeTcpQueue, d: DataPhase) -> int {
    d.base + (total(q, d.tag, d.kind) - d.remaining)
}

/// The phase fits the queue's slots.
pub open spec fn phase_wf(q: NvmeTcpQueue, phase: RecvPhase) -> bool {
    match phase {
        RecvPhase::Header => roomy(q, -1),
        RecvPhase::Data(d) => {
            &&& roomy(q, d.tag as int)
            &&& awaits(q, d.tag, d.kind)
            &&& d.remaining <= total(q, d.tag, d.kind)
            &&& d.base == (if d.kind is InCapsule {
                0
            } else {
                slot_of(q, d.tag).recv_offset
            })
            &&& if d.retained {
                is_whole(q, d.tag, d.kind)
            } else {
                has_room(slot_of(q, d.tag))
            }
        },
        RecvPhase::Ddgst(g) => {
            &&& roomy(q, g.tag as int)
            &&& awaits(q, g.tag, g.kind)
            &&& is_whole(q, g.tag, g.kind) || has_room(slot_of(q, g.tag))
            &&& g.have_len < 4
        },
    }
}

/// The violation a finished payload reveals: the host calls the transfer over
/// but bytes are missing.
pub open spec fn finish_fault(q: NvmeTcpQueue, tag: u16, kind: PayloadKind) -> Option<PduError> {
    match kind {
        PayloadKind::H2c { last, length } if last && !is_whole(q, tag, kind) => Some(
            PduError { fes: crate::pdu::FES_DATA_OUT_OF_RANGE, fei: 0 },
        ),
        _ => None,
    }
}

/// The payload of one PDU is in: the slot's cursor moves on, and the command
/// is submitted once the whole transfer is present.
pub open spec fn payload_finished(
    pre: NvmeTcpQueue,
    post: NvmeTcpQueue,
    tag: u16,
    kind: PayloadKind,
) -> bool {
    let moved = Slot {
        recv_offset: match kind {
            PayloadKind::InCapsule => slot_of(pre, tag).recv_offset,
            PayloadKind::H2c { last, length } => (slot_of(pre, tag).recv_offset + length) as u32,
        },
        ..slot_of(pre, tag)
    };
    &&& post.send == pre.send
    &&& if is_whole(pre, tag, kind) {
        crate::tcp::slot_stepped(pre, post, tag, Slot { state: SlotState::Ready, ..moved })
            && post.traffic
    } else {
        crate::tcp::slot_stepped(pre, post, tag, moved) && post.traffic == pre.traffic
    }
}

/// The payload of one PDU is in (and its digest verified).
pub fn finish_payload(queue: &mut NvmeTcpQueue, tag: u16, kind: PayloadKind) -> (r: Result<
    (),
    PduError,
>)
    requires
        old(queue).wf(),
        awaits(*old(queue), tag, kind),
        roomy(*old(queue), tag as int),
        is_whole(*old(queue), tag, kind) || has_room(slot_of(*old(queue), tag)),
    ensures
        final(queue).wf(),
        payload_finished(*old(queue), *final(queue), tag, kind),
        match r {
            Ok(_) => finish_fault(*old(queue), tag, kind) is None,
            Err(e) => finish_fault(*old(queue), tag, kind) == Some(e),
        },
        phase_wf(*final(queue), RecvPhase::Header),
{
    let ghost pre = *queue;
    let cmd: Sqe = queue.nvme.slots.slot(tag).cmd();
    match kind {
        PayloadKind::InCapsule => {
            queue.submit(tag, cmd);
            Ok(())
        },
        PayloadKind::H2c { last, length } => {
            let done: u32 = queue.nvme.slots.slot(tag).recv_offset() + length;
            queue.nvme.slots.set_recv_offset(tag, done);
            let ghost mid = *queue;
            if done == queue.nvme.slots.slot(tag).data_len() {
                queue.submit(tag, cmd);
                proof {
                    assert(queue.nvme.slots.slots@ =~= pre.nvme.slots.slots@.update(
                        tag as int,
                        Slot {
                            state: SlotState::Ready,
                            recv_offset: done,
                            ..slot_of(pre, tag)
                        },
                    ));
                }
                Ok(())
            } else if last {
                Err(PduError { fes: crate::pdu::FES_DATA_OUT_OF_RANGE, fei: 0 })
            } else {
                Ok(())
            }
        },
    }
}

/// `src` went where the next payload bytes of `d` belong; a retained payload
/// is already in place.
pub open spec fn payload_written(
    pre: NvmeTcpQueue,
    post: NvmeTcpQueue,
    d: DataPhase,
    src: Seq<u8>,
) -> bool {
    if d.retained {
        post == pre
    } else {
        &&& crate::slotq::slot_written(
            pre.nvme.slots,
            post.nvme.slots,
            d.tag,
            dest(pre, d),
            src,
        )
        &&& post == (NvmeTcpQueue {
            nvme: QueueCore { slots: post.nvme.slots, ..pre.nvme },
            ..pre
        })
    }
}

/// `g` awaits the first byte of a digest that must be `expected`.
pub open spec fn fresh_ddgst(g: DdgstPhase, tag: u16, expected: u32, kind: PayloadKind) -> bool {
    &&& g.tag == tag
    &&& g.expected == expected
    &&& g.have@ == seq![0u8, 0, 0, 0]
    &&& g.have_len == 0
    &&& g.kind == kind
}

/// What follows the payload of a PDU whose bytes are all in: its digest, or
/// the next header.
pub open spec fn payload_over(
    pre: NvmeTcpQueue,
    post: NvmeTcpQueue,
    d: DataPhase,
    r: Result<RecvPhase, RecvEnd>,
) -> bool {
    if d.ddgst {
        &&& post == pre
        &&& r matches Ok(RecvPhase::Ddgst(g)) && fresh_ddgst(g, d.tag, d.crc.sum(), d.kind)
    } else {
        &&& payload_finished(pre, post, d.tag, d.kind)
        &&& r == (match finish_fault(pre, d.tag, d.kind) {
            Some(e) => Err::<RecvPhase, RecvEnd>(RecvEnd::Term(e)),
            None => Ok(RecvPhase::Header),
        })
    }
}

/// The smaller of two lengths.
pub open spec fn least(a: int, b: int) -> int {
    if a < b {
        a
    } else {
        b
    }
}

/// A data phase after `n` bytes of `window`.
pub open spec fn data_after(d: DataPhase, window: Seq<u8>, n: int) -> DataPhase {
    DataPhase {
        remaining: (d.remaining - n) as u32,
        crc: if d.ddgst {
            d.crc.fed(window.take(n))
        } else {
            d.crc
        },
        ..d
    }
}

/// One step of a data phase over a window.
pub open spec fn data_advanced(
    pre: NvmeTcpQueue,
    post: NvmeTcpQueue,
    d: DataPhase,
    window: Seq<u8>,
    r: Result<RecvPhase, RecvEnd>,
) -> bool {
    let n = least(d.remaining as int, window.len() as int);
    let now = data_after(d, window, n);
    exists|mid: NvmeTcpQueue|
        #![trigger payload_written(pre, mid, d, window.take(n))]
        {
            &&& payload_written(pre, mid, d, window.take(n))
            &&& if now.remaining > 0 {
                post == mid && r == Ok::<RecvPhase, RecvEnd>(RecvPhase::Data(now))
            } else {
                payload_over(mid, post, now, r)
            }
        }
}

/// The bytes of digest `g` after `n` bytes of `window`.
pub open spec fn digest_bytes(g: DdgstPhase, window: Seq<u8>, n: int) -> Seq<u8> {
    g.have@.take(g.have_len as int) + window.take(n) + g.have@.skip(g.have_len + n)
}

/// The completion of a command whose payload failed its digest.
pub open spec fn digest_failure(q: NvmeTcpQueue, tag: u16) -> Cqe {
    Cqe {
        result: 0,
        sqhd: q.nvme.head_after(),
        sqid: q.nvme.qid,
        cid: slot_of(q, tag).cmd.spec_cid(),
        status: (SC_DATA_XFER_ERROR + SC_DNR) as u16,
    }
}

/// One step of a digest phase over a window: a mismatch fails the command but
/// keeps the connection.
pub open spec fn ddgst_advanced(
    pre: NvmeTcpQueue,
    post: NvmeTcpQueue,
    g: DdgstPhase,
    window: Seq<u8>,
    r: Result<RecvPhase, RecvEnd>,
) -> bool {
    let n = least(4 - g.have_len, window.len() as int);
    let bytes = digest_bytes(g, window, n);
    if g.have_len + n < 4 {
        &&& post == pre
        &&& r matches Ok(RecvPhase::Ddgst(now)) && now.have@ == bytes && now.have_len == g.have_len
            + n && now.tag == g.tag && now.expected == g.expected && now.kind == g.kind
    } else if crate::wire::le32_at(bytes, 0) != g.expected {
        &&& crate::tcp::completed(
            NvmeTcpQueue { nvme: crate::admin::head_moved(pre.nvme), ..pre },
            post,
            g.tag,
            digest_failure(pre, g.tag),
            0,
        )
        &&& r == Ok::<RecvPhase, RecvEnd>(RecvPhase::Header)
    } else {
        &&& payload_finished(pre, post, g.tag, g.kind)
        &&& r == (match finish_fault(pre, g.tag, g.kind) {
            Some(e) => Err::<RecvPhase, RecvEnd>(RecvEnd::Term(e)),
            None => Ok(RecvPhase::Header),
        })
    }
}

impl DataPhase {
    /// The next phase once the payload is all in.
    fn over(&self, queue: &mut NvmeTcpQueue) -> (r: Result<RecvPhase, RecvEnd>)
        requires
            old(queue).wf(),
            phase_wf(*old(queue), RecvPhase::Data(*self)),
        ensures
            final(queue).wf(),
            payload_over(*old(queue), *final(queue), *self, r),
            r matches Ok(phase) ==> phase_wf(*final(queue), phase),
    {
        if self.ddgst {
            let g = DdgstPhase {
                tag: self.tag,
                expected: self.crc.finalize(),
                have: [0, 0, 0, 0],
                have_len: 0,
                kind: self.kind,
            };
            assert(g.have@ =~= seq![0u8, 0, 0, 0]);
            Ok(RecvPhase::Ddgst(g))
        } else {
            match finish_payload(queue, self.tag, self.kind) {
                Ok(_) => Ok(RecvPhase::Header),
                Err(e) => Err(RecvEnd::Term(e)),
            }
        }
    }

    /// Payload bytes this PDU carries in all.
    fn total(&self, queue: &NvmeTcpQueue) -> (n: u32)
        requires
            queue.wf(),
            self.tag < queue.nvme.sqsize,
        ensures
            n == total(*queue, self.tag, self.kind),
    {
        match self.kind {
            PayloadKind::InCapsule => queue.nvme.slots.slot(self.tag).data_len(),
            PayloadKind::H2c { last, length } => length,
        }
    }

    /// Copy payload bytes from the window into the slot. Returns the bytes
    /// taken and the phase to go on with.
    pub fn advance(&self, queue: &mut NvmeTcpQueue, window: &[u8]) -> (r: (
        usize,
        Result<RecvPhase, RecvEnd>,
    ))
        requires
            old(queue).wf(),
            phase_wf(*old(queue), RecvPhase::Data(*self)),
        ensures
            final(queue).wf(),
            r.0 == least(self.remaining as int, window@.len() as int),
            data_advanced(*old(queue), *final(queue), *self, window@, r.1),
            r.1 matches Ok(phase) ==> phase_wf(*final(queue), phase),
    {
        let ghost pre = *queue;
        let take: usize = if (self.remaining as usize) < window.len() {
            self.remaining as usize
        } else {
            window.len()
        };
        let part = vstd::slice::slice_subrange(window, 0, take);
        assert(part@ =~= window@.take(take as int));
        let mut now = *self;
        if !self.retained {
            let total: u32 = self.total(queue);
            let at: u32 = self.base + (total - self.remaining);
            queue.nvme.slots.write_slot(self.tag, at as usize, part);
        }
        let ghost mid = *queue;
        if self.ddgst {
            now.crc.update(part);
        }
        now.remaining = self.remaining - take as u32;
        proof {
            assert(payload_written(pre, mid, *self, window@.take(take as int)));
            assert(now == data_after(*self, window@, take as int));
            lemma_written_keeps(pre, mid, *self, window@.take(take as int));
        }
        if now.remaining > 0 {
            return (take, Ok(RecvPhase::Data(now)));
        }
        let r = now.over(queue);
        (take, r)
    }
}

/// Writing payload keeps what the phase relies on.
proof fn lemma_written_keeps(pre: NvmeTcpQueue, mid: NvmeTcpQueue, d: DataPhase, src: Seq<u8>)
    requires
        payload_written(pre, mid, d, src),
        phase_wf(pre, RecvPhase::Data(d)),
        pre.wf(),
        mid.wf(),
        src.len() <= d.remaining,
    ensures
        phase_wf(mid, RecvPhase::Data(DataPhase { remaining: (d.remaining - src.len()) as u32, ..d })),
{
    if !d.retained {
        assert forall|t: int|
            0 <= t < mid.nvme.slots.slots@.len() && t != d.tag as int && (
            #[trigger] mid.nvme.slots.slots@[t]).state is Receiving
                && mid.nvme.slots.slots@[t].data_len > 0 implies has_room(
            mid.nvme.slots.slots@[t],
        ) by {
            assert(mid.nvme.slots.slots@[t] == pre.nvme.slots.slots@[t]);
        }
    }
}

impl DdgstPhase {
    /// Accumulate digest bytes; on the fourth, verify and finish the payload.
    /// Returns the bytes taken and the phase to go on with.
    pub fn advance(&self, queue: &mut NvmeTcpQueue, window: &[u8]) -> (r: (
        usize,
        Result<RecvPhase, RecvEnd>,
    ))
        requires
            old(queue).wf(),
            phase_wf(*old(queue), RecvPhase::Ddgst(*self)),
        ensures
            final(queue).wf(),
            r.0 == least(4 - self.have_len, window@.len() as int),
            ddgst_advanced(*old(queue), *final(queue), *self, window@, r.1),
            r.1 matches Ok(phase) ==> phase_wf(*final(queue), phase),
    {
        let ghost pre = *queue;
        let missing: usize = 4 - self.have_len as usize;
        let take: usize = if missing < window.len() {
            missing
        } else {
            window.len()
        };
        let mut now = *self;
        let mut k: usize = 0;
        while k < take
            invariant
                k <= take,
                take <= window@.len(),
                self.have_len + take <= 4,
                now == (DdgstPhase { have: now.have, ..*self }),
                forall|j: int|
                    0 <= j < 4 ==> #[trigger] now.have@[j] == (if self.have_len <= j
                        < self.have_len + k {
                        window@[j - self.have_len]
                    } else {
                        self.have@[j]
                    }),
            decreases take - k,
        {
            now.have[self.have_len as usize + k] = window[k];
            k += 1;
        }
        now.have_len = self.have_len + take as u8;
        assert(now.have@ =~= digest_bytes(*self, window@, take as int));
        if now.have_len < 4 {
            return (take, Ok(RecvPhase::Ddgst(now)));
        }
        let wire: u32 = crate::wire::le32(now.have.as_slice(), 0);
        if wire != self.expected {
            let cid: u16 = queue.nvme.slots.slot(self.tag).cmd().cid();
            let head: u16 = queue.nvme.advance_sqhd();
            let cqe = Cqe::new(0, head, queue.nvme.qid, cid, SC_DATA_XFER_ERROR + SC_DNR);
            queue.complete_receiving(self.tag, cqe);
            return (take, Ok(RecvPhase::Header));
        }
        let r = finish_payload(queue, self.tag, self.kind);
        match r {
            Ok(_) => (take, Ok(RecvPhase::Header)),
            Err(e) => (take, Err(RecvEnd::Term(e))),
        }
    }
}

/// The whole payload fits in what is left of the window's sub-buffer.
pub open spec fn retains(ring: Option<RingWindow>, len: int) -> bool {
    ring matches Some(w) && w.off <= w.cap && len <= w.cap - w.off
}

/// Slot `tag`'s buffer is now the ring region where its payload lands.
pub open spec fn retained_in(
    pre: NvmeTcpQueue,
    post: NvmeTcpQueue,
    tag: u16,
    w: RingWindow,
    len: int,
) -> bool {
    let d = slot_of(post, tag).data;
    &&& d.owner == (crate::pool::Owner::Ring { bid: w.bid })
    &&& d.segs@ == seq![Seg { off: w.off, len: len as usize }]
    &&& d.len == len
    &&& crate::slotq::data_replaced(
        pre.nvme.slots,
        post.nvme.slots,
        tag,
        d,
        pre.nvme.slots.pool,
    )
    &&& post == (NvmeTcpQueue { nvme: QueueCore { slots: post.nvme.slots, ..pre.nvme }, ..pre })
}

/// Slot `tag` got a buffer for `len` bytes.
pub open spec fn leased_in(pre: NvmeTcpQueue, post: NvmeTcpQueue, tag: u16, len: int) -> bool {
    &&& crate::slotq::lease_made(pre.nvme.slots, post.nvme.slots, tag, len)
    &&& post == (NvmeTcpQueue { nvme: QueueCore { slots: post.nvme.slots, ..pre.nvme }, ..pre })
}

/// Try to retain a payload in place in the receive ring: only when all of it
/// fits in the window's sub-buffer, so that it never straddles into the next.
/// The caller takes the ring's borrow of the sub-buffer on `true`.
pub fn try_retain_payload(
    queue: &mut NvmeTcpQueue,
    ring: Option<RingWindow>,
    tag: u16,
    len: usize,
) -> (ok: bool)
    requires
        old(queue).wf(),
        tag < old(queue).nvme.sqsize,
    ensures
        final(queue).wf(),
        ok == retains(ring, len as int),
        ok ==> retained_in(*old(queue), *final(queue), tag, ring.unwrap(), len as int),
        !ok ==> *final(queue) == *old(queue),
{
    match ring {
        None => false,
        Some(w) => {
            if w.off > w.cap || len > w.cap - w.off {
                return false;
            }
            let data = SlotData::ring(w.bid, w.off, len);
            let ghost made = data;
            queue.nvme.slots.set_data(tag, data);
            assert(slot_of(*queue, tag).data == made);
            true
        },
    }
}

/// The command moves data host to controller and the host kept it: it must be
/// solicited.
pub open spec fn solicits(sqe: Sqe) -> bool {
    &&& sqe.spec_opcode() % 4 == 1
    &&& sqe.bytes@[crate::sgl::SGL_TYPE_OFFSET as int] == crate::sgl::SGL_TYPE_TRANSPORT_DATA_BLOCK
    &&& crate::wire::le32_at(sqe.bytes@, 32) > 0
}

/// Whether the command's data must be solicited.
pub fn needs_r2t(sqe: &Sqe) -> (b: bool)
    ensures
        b == solicits(*sqe),
{
    sqe.opcode() % 4 == 1 && sqe.bytes[crate::sgl::SGL_TYPE_OFFSET]
        == crate::sgl::SGL_TYPE_TRANSPORT_DATA_BLOCK && crate::wire::le32(sqe.bytes.as_slice(), 32)
        > 0
}

/// `claimed` is `pre` with the newest free tag taken for a new command.
pub open spec fn claims(pre: NvmeTcpQueue, claimed: NvmeTcpQueue) -> bool {
    &&& crate::slotq::tag_claimed(
        pre.nvme.slots,
        claimed.nvme.slots,
        pre.nvme.slots.free_tags@.last(),
    )
    &&& claimed == (NvmeTcpQueue {
        nvme: QueueCore { slots: claimed.nvme.slots, ..pre.nvme },
        ..pre
    })
}

/// Data in the capsule: the slot gets a place for it and the payload phase
/// begins.
pub open spec fn in_capsule(
    pre: NvmeTcpQueue,
    landed: NvmeTcpQueue,
    post: NvmeTcpQueue,
    tag: u16,
    sqe: Sqe,
    len: u32,
    ddgst: bool,
    ring: Option<RingWindow>,
    r: Result<Routed, RecvEnd>,
) -> bool {
    &&& if retains(ring, len as int) {
        retained_in(pre, landed, tag, ring.unwrap(), len as int)
    } else {
        leased_in(pre, landed, tag, len as int)
    }
    &&& crate::tcp::slot_stepped(
        landed,
        post,
        tag,
        Slot { data_len: len, cmd: sqe, ..slot_of(landed, tag) },
    )
    &&& post.send == landed.send
    &&& post.traffic == landed.traffic
    &&& r == Ok::<Routed, RecvEnd>(
        Routed::Next(
            Some(
                RecvPhase::Data(
                    DataPhase {
                        tag,
                        base: 0,
                        remaining: len,
                        crc: Crc32c::fresh(),
                        ddgst,
                        kind: PayloadKind::InCapsule,
                        retained: retains(ring, len as int),
                    },
                ),
            ),
        ),
    )
}

/// Data with the host: the slot gets a buffer for it and all of it is
/// solicited.
pub open spec fn by_r2t(
    pre: NvmeTcpQueue,
    landed: NvmeTcpQueue,
    post: NvmeTcpQueue,
    tag: u16,
    sqe: Sqe,
    len: u32,
    r: Result<Routed, RecvEnd>,
) -> bool {
    &&& leased_in(pre, landed, tag, len as int)
    &&& crate::tcp::slot_stepped(
        landed,
        post,
        tag,
        Slot { data_len: len, recv_offset: 0, cmd: sqe, ..slot_of(landed, tag) },
    )
    &&& crate::tcp::send_queued(
        landed,
        post,
        SendWork::R2t { tag, cid: sqe.spec_cid(), offset: 0, length: len },
    )
    &&& post.traffic == landed.traffic
    &&& r == Ok::<Routed, RecvEnd>(Routed::Next(None))
}

/// The command's transfer is beyond the largest accepted.
pub open spec fn over_limit(
    pre: NvmeTcpQueue,
    post: NvmeTcpQueue,
    r: Result<Routed, RecvEnd>,
) -> bool {
    &&& post == pre
    &&& r == Err::<Routed, RecvEnd>(
        RecvEnd::Term(PduError { fes: crate::pdu::FES_DATA_LIMIT_EXCEEDED, fei: 0 }),
    )
}

/// A command was placed in slot `tag` by where its data is.
pub open spec fn placed(
    pre: NvmeTcpQueue,
    post: NvmeTcpQueue,
    tag: u16,
    sqe: Sqe,
    data_len: u32,
    ddgst: bool,
    ring: Option<RingWindow>,
    r: Result<Routed, RecvEnd>,
) -> bool {
    if data_len > 0 {
        if data_len > MDTS_BYTES {
            over_limit(pre, post, r)
        } else {
            exists|landed: NvmeTcpQueue| #[trigger]
                in_capsule(pre, landed, post, tag, sqe, data_len, ddgst, ring, r)
        }
    } else if solicits(sqe) {
        let len = crate::wire::le32_at(sqe.bytes@, 32);
        if len > MDTS_BYTES {
            over_limit(pre, post, r)
        } else {
            exists|landed: NvmeTcpQueue| #[trigger]
                by_r2t(pre, landed, post, tag, sqe, len as u32, r)
        }
    } else {
        &&& crate::tcp::submitted(pre, post, tag, sqe)
        &&& r == Ok::<Routed, RecvEnd>(Routed::Next(None))
    }
}

/// A new command: parked while no tag is free, otherwise placed in the slot of
/// the tag it claims.
pub open spec fn capsule_routed(
    pre: NvmeTcpQueue,
    post: NvmeTcpQueue,
    sqe: Sqe,
    data_len: u32,
    ddgst: bool,
    ring: Option<RingWindow>,
    r: Result<Routed, RecvEnd>,
) -> bool {
    if pre.nvme.slots.free_tags@.len() == 0 {
        post == pre && r == Ok::<Routed, RecvEnd>(Routed::NoTag)
    } else {
        exists|claimed: NvmeTcpQueue| #[trigger]
            claims(pre, claimed) && placed(
                claimed,
                post,
                pre.nvme.slots.free_tags@.last(),
                sqe,
                data_len,
                ddgst,
                ring,
                r,
            )
    }
}

/// The phase a routing result leads to.
pub open spec fn routed_wf(q: NvmeTcpQueue, r: Result<Routed, RecvEnd>) -> bool {
    match r {
        Ok(Routed::Next(Some(phase))) => phase_wf(q, phase),
        Ok(_) => phase_wf(q, RecvPhase::Header),
        Err(_) => true,
    }
}

proof fn lemma_cover(len: int)
    requires
        0 <= len,
    ensures
        len <= crate::pool::pages_for(len) * crate::pool::PAGE,
{
}

/// A new command capsule: claim a slot, and place the command by where its
/// data is. An empty freelist is a transient, not a violation: the host may
/// see responses before their tags are released here.
pub fn handle_capsule_cmd(
    queue: &mut NvmeTcpQueue,
    sqe: Sqe,
    data_len: u32,
    ddgst: bool,
    ring: Option<RingWindow>,
) -> (r: Result<Routed, RecvEnd>)
    requires
        old(queue).wf(),
        phase_wf(*old(queue), RecvPhase::Header),
    ensures
        final(queue).wf(),
        capsule_routed(*old(queue), *final(queue), sqe, data_len, ddgst, ring, r),
        routed_wf(*final(queue), r),
{
    let ghost pre = *queue;
    let tag: u16 = match queue.nvme.slots.claim_tag() {
        Some(tag) => tag,
        None => return Ok(Routed::NoTag),
    };
    let ghost claimed = *queue;
    proof {
        assert(claims(pre, claimed));
        lemma_cover(data_len as int);
        lemma_cover(crate::wire::le32_at(sqe.bytes@, 32));
    }
    let term = Err(RecvEnd::Term(PduError { fes: crate::pdu::FES_DATA_LIMIT_EXCEEDED, fei: 0 }));
    if data_len > 0 {
        if data_len > MDTS_BYTES {
            return term;
        }
        let retained = try_retain_payload(queue, ring, tag, data_len as usize);
        if !retained {
            queue.nvme.slots.lease_or_owned(tag, data_len as usize);
        }
        let ghost landed = *queue;
        queue.nvme.slots.set_data_len(tag, data_len);
        queue.nvme.slots.stash_cmd(tag, sqe);
        let r: Result<Routed, RecvEnd> = Ok(
            Routed::Next(
                Some(
                    RecvPhase::Data(
                        DataPhase {
                            tag,
                            base: 0,
                            remaining: data_len,
                            crc: Crc32c::new(),
                            ddgst,
                            kind: PayloadKind::InCapsule,
                            retained,
                        },
                    ),
                ),
            ),
        );
        proof {
            assert(queue.nvme.slots.slots@ =~= landed.nvme.slots.slots@.update(
                tag as int,
                Slot { data_len, cmd: sqe, ..slot_of(landed, tag) },
            ));
            assert(in_capsule(claimed, landed, *queue, tag, sqe, data_len, ddgst, ring, r));
            assert(placed(claimed, *queue, tag, sqe, data_len, ddgst, ring, r));
        }
        r
    } else if needs_r2t(&sqe) {
        let length: u32 = crate::wire::le32(sqe.bytes.as_slice(), 32);
        if length > MDTS_BYTES {
            return term;
        }
        queue.nvme.slots.lease_or_owned(tag, length as usize);
        let ghost landed = *queue;
        queue.nvme.slots.set_data_len(tag, length);
        queue.nvme.slots.set_recv_offset(tag, 0);
        queue.nvme.slots.stash_cmd(tag, sqe);
        queue.solicit(tag, sqe.cid(), 0, length);
        let r: Result<Routed, RecvEnd> = Ok(Routed::Next(None));
        proof {
            assert(queue.nvme.slots.slots@ =~= landed.nvme.slots.slots@.update(
                tag as int,
                Slot { data_len: length, recv_offset: 0, cmd: sqe, ..slot_of(landed, tag) },
            ));
            assert(crate::wire::le32_at(sqe.bytes@, 32) as u32 == length);
            assert(by_r2t(claimed, landed, *queue, tag, sqe, length, r));
            assert(placed(claimed, *queue, tag, sqe, data_len, ddgst, ring, r));
        }
        r
    } else {
        queue.submit(tag, sqe);
        let r: Result<Routed, RecvEnd> = Ok(Routed::Next(None));
        assert(placed(claimed, *queue, tag, sqe, data_len, ddgst, ring, r));
        r
    }
}

/// A data header that matches its slot's reassembly state.
pub open spec fn h2c_expected(q: NvmeTcpQueue, cid: u16, ttag: u16, offset: u32, length: u32) -> bool {
    let s = slot_of(q, ttag);
    &&& s.state is Receiving
    &&& s.cmd.spec_cid() == cid
    &&& offset == s.recv_offset
    &&& offset + length <= s.data_len
    &&& length > 0
}

/// What is wrong with a data header.
pub open spec fn h2c_fault(
    q: NvmeTcpQueue,
    cid: u16,
    ttag: u16,
    offset: u32,
    length: u32,
    data_len: u32,
) -> Option<PduError> {
    if ttag >= q.nvme.sqsize {
        Some(PduError { fes: crate::pdu::FES_INVALID_PDU_HDR, fei: 10 })
    } else if !h2c_expected(q, cid, ttag, offset, length) {
        Some(PduError { fes: crate::pdu::FES_DATA_OUT_OF_RANGE, fei: 0 })
    } else if data_len != length {
        Some(PduError { fes: crate::pdu::FES_INVALID_PDU_HDR, fei: 16 })
    } else {
        None
    }
}

/// Validate one data header against its slot's expected reassembly state;
/// the target tag.
pub fn validate_h2c(
    queue: &NvmeTcpQueue,
    cid: u16,
    ttag: u16,
    offset: u32,
    length: u32,
    data_len: u32,
) -> (r: Result<u16, RecvEnd>)
    requires
        queue.wf(),
    ensures
        r == (match h2c_fault(*queue, cid, ttag, offset, length, data_len) {
            Some(e) => Err::<u16, RecvEnd>(RecvEnd::Term(e)),
            None => Ok(ttag),
        }),
{
    if ttag >= queue.nvme.sqsize {
        return Err(RecvEnd::Term(PduError { fes: crate::pdu::FES_INVALID_PDU_HDR, fei: 10 }));
    }
    let slot = queue.nvme.slots.slot(ttag);
    let receiving: bool = match slot.state() {
        SlotState::Receiving => true,
        _ => false,
    };
    let within: bool = match offset.checked_add(length) {
        Some(end) => end <= slot.data_len(),
        None => false,
    };
    let valid: bool = receiving && slot.cmd().cid() == cid && offset == slot.recv_offset() && within
        && length > 0;
    if !valid {
        return Err(RecvEnd::Term(PduError { fes: crate::pdu::FES_DATA_OUT_OF_RANGE, fei: 0 }));
    }
    if data_len != length {
        return Err(RecvEnd::Term(PduError { fes: crate::pdu::FES_INVALID_PDU_HDR, fei: 16 }));
    }
    Ok(ttag)
}

/// A solicited payload begins; it is retained in place only when this PDU
/// carries the whole transfer and lands in one ring region.
pub open spec fn h2c_begun(
    pre: NvmeTcpQueue,
    post: NvmeTcpQueue,
    tag: u16,
    offset: u32,
    length: u32,
    last: bool,
    ddgst: bool,
    ring: Option<RingWindow>,
    r: Result<Routed, RecvEnd>,
) -> bool {
    let retained = offset == 0 && length == slot_of(pre, tag).data_len && retains(
        ring,
        length as int,
    );
    &&& if retained {
        retained_in(pre, post, tag, ring.unwrap(), length as int)
    } else {
        post == pre
    }
    &&& r == Ok::<Routed, RecvEnd>(
        Routed::Next(
            Some(
                RecvPhase::Data(
                    DataPhase {
                        tag,
                        base: offset,
                        remaining: length,
                        crc: Crc32c::fresh(),
                        ddgst,
                        kind: PayloadKind::H2c { last, length },
                        retained,
                    },
                ),
            ),
        ),
    )
}

/// What a decoded header does.
pub open spec fn pdu_routed(
    pre: NvmeTcpQueue,
    post: NvmeTcpQueue,
    decoded: DecodedPdu,
    data_digest: bool,
    ring: Option<RingWindow>,
    r: Result<Routed, RecvEnd>,
) -> bool {
    let ddgst = decoded.ddgst && data_digest;
    match decoded.kind {
        PduKind::CapsuleCmd(sqe) => capsule_routed(
            pre,
            post,
            sqe,
            decoded.data_len,
            ddgst,
            ring,
            r,
        ),
        PduKind::H2CData { cid, ttag, offset, length, last } => match h2c_fault(
            pre,
            cid,
            ttag,
            offset,
            length,
            decoded.data_len,
        ) {
            Some(e) => post == pre && r == Err::<Routed, RecvEnd>(RecvEnd::Term(e)),
            None => h2c_begun(pre, post, ttag, offset, length, last, ddgst, ring, r),
        },
        PduKind::H2CTerm { fes, fei } => post == pre && r == Err::<Routed, RecvEnd>(
            RecvEnd::HostTerm { fes, fei },
        ),
        PduKind::Unexpected => post == pre && r == Err::<Routed, RecvEnd>(
            RecvEnd::Term(PduError { fes: crate::pdu::FES_PDU_SEQ_ERR, fei: 0 }),
        ),
    }
}

/// Route one decoded header.
pub fn handle_pdu(
    queue: &mut NvmeTcpQueue,
    decoded: DecodedPdu,
    data_digest: bool,
    ring: Option<RingWindow>,
) -> (r: Result<Routed, RecvEnd>)
    requires
        old(queue).wf(),
        phase_wf(*old(queue), RecvPhase::Header),
    ensures
        final(queue).wf(),
        pdu_routed(*old(queue), *final(queue), decoded, data_digest, ring, r),
        routed_wf(*final(queue), r),
{
    let ghost pre = *queue;
    let ddgst: bool = decoded.ddgst && data_digest;
    match decoded.kind {
        PduKind::CapsuleCmd(sqe) => handle_capsule_cmd(queue, sqe, decoded.data_len, ddgst, ring),
        PduKind::H2CData { cid, ttag, offset, length, last } => {
            let tag: u16 = match validate_h2c(queue, cid, ttag, offset, length, decoded.data_len) {
                Ok(tag) => tag,
                Err(end) => return Err(end),
            };
            let retained: bool = if offset == 0 && length
                == queue.nvme.slots.slot(tag).data_len() {
                try_retain_payload(queue, ring, tag, length as usize)
            } else {
                false
            };
            let d = DataPhase {
                tag,
                base: offset,
                remaining: length,
                crc: Crc32c::new(),
                ddgst,
                kind: PayloadKind::H2c { last, length },
                retained,
            };
            assert(phase_wf(*queue, RecvPhase::Data(d))) by {
                assert(slot_of(pre, tag).data_len > 0);
            }
            Ok(Routed::Next(Some(RecvPhase::Data(d))))
        },
        PduKind::H2CTerm { fes, fei } => Err(RecvEnd::HostTerm { fes, fei }),
        PduKind::Unexpected => Err(
            RecvEnd::Term(PduError { fes: crate::pdu::FES_PDU_SEQ_ERR, fei: 0 }),
        ),
    }
}

/// A payload tail to receive straight into the slot: solicited, large, and not
/// drawn from a ring, which owns the socket.
pub open spec fn is_direct(phase: RecvPhase, ring: bool) -> bool {
    match phase {
        RecvPhase::Data(d) => !ring && d.kind is H2c && d.remaining >= H2C_DIRECT_MIN,
        _ => false,
    }
}

/// Where the tail of the payload goes, when it is to be received straight into
/// the slot buffer.
pub fn direct_tail(queue: &NvmeTcpQueue, phase: &RecvPhase, ring: bool) -> (r: Option<Vec<Seg>>)
    requires
        queue.wf(),
        phase_wf(*queue, *phase),
        !ring ==> !(phase matches RecvPhase::Data(d) && d.retained),
    ensures
        r is Some == is_direct(*phase, ring),
        r matches Some(parts) ==> parts@ == crate::pool::subsegs(
            slot_of(*queue, phase->Data_0.tag).data.segs@,
            dest(*queue, phase->Data_0),
            phase->Data_0.remaining as int,
        ),
{
    match *phase {
        RecvPhase::Data(d) => {
            let solicited: bool = match d.kind {
                PayloadKind::H2c { last, length } => true,
                PayloadKind::InCapsule => false,
            };
            if ring || !solicited || d.remaining < H2C_DIRECT_MIN {
                return None;
            }
            let total: u32 = d.total(queue);
            let at: u32 = d.base + (total - d.remaining);
            let data = queue.nvme.slots.slot(d.tag).data();
            proof {
                assert(slot_of(*queue, d.tag).data.wf(queue.nvme.slots.pool));
                data.wf_laid_out(queue.nvme.slots.pool);
            }
            Some(crate::pool::fill_subsegs(data.segs(), at as usize, d.remaining as usize))
        },
        _ => None,
    }
}

/// The tail of a payload was received straight into the slot: short means an
/// orderly close mid-payload, otherwise the payload is over.
pub open spec fn tail_taken(
    pre: NvmeTcpQueue,
    post: NvmeTcpQueue,
    d: DataPhase,
    got: int,
    r: Result<RecvPhase, RecvEnd>,
) -> bool {
    if got < d.remaining {
        post == pre && r == Err::<RecvPhase, RecvEnd>(RecvEnd::Closed)
    } else {
        let landed = slot_of(pre, d.tag).data.bytes(pre.nvme.slots.pool).subrange(
            dest(pre, d),
            dest(pre, d) + d.remaining,
        );
        payload_over(
            pre,
            post,
            DataPhase {
                remaining: 0,
                crc: if d.ddgst {
                    d.crc.fed(landed)
                } else {
                    d.crc
                },
                ..d
            },
            r,
        )
    }
}

/// `got` bytes of the tail of payload `d` were received straight into the
/// slot, whose buffer holds them by now.
pub fn tail_landed(queue: &mut NvmeTcpQueue, d: DataPhase, got: usize) -> (r: Result<
    RecvPhase,
    RecvEnd,
>)
    requires
        old(queue).wf(),
        phase_wf(*old(queue), RecvPhase::Data(d)),
        !d.retained,
    ensures
        final(queue).wf(),
        tail_taken(*old(queue), *final(queue), d, got as int, r),
        r matches Ok(phase) ==> phase_wf(*final(queue), phase),
{
    if got < d.remaining as usize {
        return Err(RecvEnd::Closed);
    }
    let mut now = d;
    if d.ddgst {
        let total: u32 = d.total(queue);
        let at: u32 = d.base + (total - d.remaining);
        let data = queue.nvme.slots.slot(d.tag).data();
        let mut sum = crate::digest::SumSink::new(d.crc);
        assert(slot_of(*queue, d.tag).data.wf(queue.nvme.slots.pool));
        data.for_each_seg(
            &queue.nvme.slots.pool,
            &[],
            at as usize,
            d.remaining as usize,
            &mut sum,
        );
        proof {
            let landed = data.bytes(queue.nvme.slots.pool).subrange(at as int, at + d.remaining);
            assert(Seq::<u8>::empty() + landed =~= landed);
        }
        now.crc = sum.crc();
    }
    now.remaining = 0;
    now.over(queue)
}

/// One step of a payload or digest phase over a window, taking `n` bytes.
pub open spec fn stepped(
    pre: NvmeTcpQueue,
    post: NvmeTcpQueue,
    phase: RecvPhase,
    window: Seq<u8>,
    n: int,
    r: Result<RecvPhase, RecvEnd>,
) -> bool {
    match phase {
        RecvPhase::Header => n == 0 && r == Ok::<RecvPhase, RecvEnd>(RecvPhase::Header) && post
            == pre,
        RecvPhase::Data(d) => n == least(d.remaining as int, window.len() as int)
            && data_advanced(pre, post, d, window, r),
        RecvPhase::Ddgst(g) => n == least(4 - g.have_len, window.len() as int) && ddgst_advanced(
            pre,
            post,
            g,
            window,
            r,
        ),
    }
}

impl RecvPhase {
    /// Step a payload or digest phase over the window. Returns the bytes taken
    /// and the phase to go on with.
    pub fn advance(&self, queue: &mut NvmeTcpQueue, window: &[u8]) -> (r: (
        usize,
        Result<RecvPhase, RecvEnd>,
    ))
        requires
            old(queue).wf(),
            phase_wf(*old(queue), *self),
        ensures
            final(queue).wf(),
            stepped(*old(queue), *final(queue), *self, window@, r.0 as int, r.1),
            r.0 <= window@.len(),
            r.1 matches Ok(phase) ==> phase_wf(*final(queue), phase),
    {
        match self {
            RecvPhase::Header => (0, Ok(RecvPhase::Header)),
            RecvPhase::Data(d) => d.advance(queue, window),
            RecvPhase::Ddgst(g) => g.advance(queue, window),
        }
    }

    /// How many more phases may follow before a header.
    pub open spec fn rank(self) -> int {
        match self {
            RecvPhase::Header => 0,
            RecvPhase::Ddgst(g) => 1,
            RecvPhase::Data(d) => 2,
        }
    }
}

/// How a payload is cut into windows does not matter: the same slot bytes and
/// the same digest come out.
pub proof fn windows_join(d: DataPhase, slot: Seq<u8>, at: int, a: Seq<u8>, b: Seq<u8>)
    requires
        0 <= at,
        at + a.len() + b.len() <= slot.len(),
        a.len() + b.len() <= d.remaining,
    ensures
        crate::pool::overwritten(crate::pool::overwritten(slot, at, a), at + a.len(), b)
            == crate::pool::overwritten(slot, at, a + b),
        data_after(data_after(d, a, a.len() as int), b, b.len() as int) == data_after(
            d,
            a + b,
            (a + b).len() as int,
        ),
{
    assert(crate::pool::overwritten(crate::pool::overwritten(slot, at, a), at + a.len(), b)
        =~= crate::pool::overwritten(slot, at, a + b));
    assert(a.take(a.len() as int) =~= a);
    assert(b.take(b.len() as int) =~= b);
    assert((a + b).take((a + b).len() as int) =~= a + b);
    crate::digest::crc_splits(d.crc.state, a, b);
}

/// An accepted data header begins where its slot expects it, and its payload
/// never reaches beyond the slot's buffer.
pub proof fn h2c_stays_inside(
    q: NvmeTcpQueue,
    cid: u16,
    ttag: u16,
    offset: u32,
    length: u32,
    data_len: u32,
)
    requires
        q.wf(),
        phase_wf(q, RecvPhase::Header),
        h2c_fault(q, cid, ttag, offset, length, data_len) is None,
    ensures
        offset + length <= slot_of(q, ttag).data.len,
        offset == slot_of(q, ttag).recv_offset,
{
    assert(slot_of(q, ttag).data_len > 0);
    assert(has_room(q.nvme.slots.slots@[ttag as int]));
}

/// Dispatch and the send path never disturb a payload being received: a step
/// of a slot that awaits no payload, to one that awaits none, keeps the phase.
pub proof fn other_slots_keep_phase(
    pre: NvmeTcpQueue,
    post: NvmeTcpQueue,
    phase: RecvPhase,
    t: u16,
    now: Slot<Sqe>,
)
    requires
        pre.wf(),
        phase_wf(pre, phase),
        t < pre.nvme.sqsize,
        !(slot_of(pre, t).state is Receiving),
        !(now.state is Receiving),
        post.nvme.slots.slots@ == pre.nvme.slots.slots@.update(t as int, now),
        post.nvme.sqsize == pre.nvme.sqsize,
    ensures
        phase_wf(post, phase),
{
    let except = match phase {
        RecvPhase::Header => -1int,
        RecvPhase::Data(d) => d.tag as int,
        RecvPhase::Ddgst(g) => g.tag as int,
    };
    assert(roomy(pre, except));
    assert forall|k: int|
        0 <= k < post.nvme.slots.slots@.len() && k != except && (
        #[trigger] post.nvme.slots.slots@[k]).state is Receiving
            && post.nvme.slots.slots@[k].data_len > 0 implies has_room(
        post.nvme.slots.slots@[k],
    ) by {
        assert(k != t);
        assert(post.nvme.slots.slots@[k] == pre.nvme.slots.slots@[k]);
    }
    match phase {
        RecvPhase::Header => {},
        RecvPhase::Data(d) => {
            assert(slot_of(post, d.tag) == slot_of(pre, d.tag));
        },
        RecvPhase::Ddgst(g) => {
            assert(slot_of(post, g.tag) == slot_of(pre, g.tag));
        },
    }
}

/// The receive path of a connection, across windows of its stream.
pub struct Receiver {
    pub phase: RecvPhase,
    pub decoder: PduDecoder,
    /// A decoded header that waits for a free tag.
    pub held: Option<DecodedPdu>,
}

/// Why a window is left.
#[derive(Debug, Clone, Copy, PartialEq, Eq, Structural)]
pub enum Pause {
    /// All of it is taken.
    Drained,
    /// No command slot is free: go on with the rest of it once a tag is
    /// released.
    NoTag,
}

/// Where a receiver stands within a window.
pub struct Spot {
    pub queue: NvmeTcpQueue,
    pub phase: RecvPhase,
    /// The header bytes so far.
    pub buf: Seq<u8>,
    pub held: Option<DecodedPdu>,
    /// Window bytes taken so far.
    pub at: int,
}

/// The window a receiver walks over, and what was negotiated.
pub struct Course {
    pub window: Seq<u8>,
    pub hdgst: bool,
    pub ddgst: bool,
    pub ring: Option<RingWindow>,
}

impl Course {
    /// The receive-ring window `at` bytes further on.
    pub open spec fn ring_at(self, at: int) -> Option<RingWindow> {
        match self.ring {
            Some(w) => Some(RingWindow { off: (w.off + at) as usize, ..w }),
            None => None,
        }
    }

    /// The bytes of the header that is being assembled at `a`.
    pub open spec fn header_at(self, a: Spot) -> Seq<u8> {
        let all = a.buf + self.window.skip(a.at);
        all.take(crate::pdu::header_part(all, self.hdgst))
    }

    /// One step from `a` to `b`: a held header is routed; header bytes are
    /// taken, up to the end of the header; a payload or digest phase goes on.
    pub open spec fn leads(self, a: Spot, b: Spot) -> bool {
        match a.held {
            Some(pdu) => {
                &&& b.at == a.at && b.buf == a.buf && b.held is None
                &&& routed_on(a.queue, b.queue, pdu, self.ddgst, self.ring_at(a.at), b.phase)
            },
            None => {
                &&& a.at < self.window.len()
                &&& if a.phase is Header {
                    let part = self.header_at(a);
                    &&& b.queue == a.queue && b.phase is Header
                    &&& b.at == a.at + part.len() - a.buf.len()
                    &&& crate::pdu::is_judged(part, self.hdgst, Ok(b.held))
                    &&& b.buf == (if b.held is None {
                        part
                    } else {
                        seq![]
                    })
                } else {
                    &&& b.held is None && b.buf == a.buf
                    &&& stepped(
                        a.queue,
                        b.queue,
                        a.phase,
                        self.window.skip(a.at),
                        b.at - a.at,
                        Ok(b.phase),
                    )
                }
            },
        }
    }

    /// The step from `a` that ends the connection with `e`, leaving `post`
    /// after `taken` bytes.
    pub open spec fn fails(self, a: Spot, post: NvmeTcpQueue, taken: int, e: RecvEnd) -> bool {
        match a.held {
            Some(pdu) => taken == a.at && pdu_routed(
                a.queue,
                post,
                pdu,
                self.ddgst,
                self.ring_at(a.at),
                Err(e),
            ),
            None => {
                &&& a.at < self.window.len()
                &&& if a.phase is Header {
                    let part = self.header_at(a);
                    &&& post == a.queue
                    &&& taken == a.at + part.len() - a.buf.len()
                    &&& e matches RecvEnd::Term(fault) && crate::pdu::is_judged(
                        part,
                        self.hdgst,
                        Err(fault),
                    )
                } else {
                    stepped(
                        a.queue,
                        post,
                        a.phase,
                        self.window.skip(a.at),
                        taken - a.at,
                        Err(e),
                    )
                }
            },
        }
    }

    /// `s` lies within the window, in a well-formed state.
    pub open spec fn holds(self, s: Spot) -> bool {
        &&& 0 <= s.at <= self.window.len()
        &&& s.queue.wf()
        &&& phase_wf(s.queue, s.phase)
    }

    /// `t` are steps from `first`, each taking up where the one before ended.
    pub open spec fn is_path(self, t: Seq<Spot>, first: Spot) -> bool {
        &&& t.len() > 0
        &&& t[0] == first
        &&& forall|i: int| 0 <= i < t.len() ==> self.holds(#[trigger] t[i])
        &&& forall|i: int, j: int|
            0 <= i && j == i + 1 && j < t.len() ==> self.leads(#[trigger] t[i], #[trigger] t[j])
    }

    /// A path that leaves the window at `last`, with result `r`: drained, or
    /// at a header for which there is no tag, or in a step that ends the
    /// connection.
    pub open spec fn ends(
        self,
        t: Seq<Spot>,
        first: Spot,
        last: Spot,
        r: Result<Pause, RecvEnd>,
    ) -> bool {
        &&& self.is_path(t, first)
        &&& match r {
            Ok(Pause::Drained) => last == t.last() && last.at == self.window.len() && last.held is None,
            Ok(Pause::NoTag) => last == t.last() && (last.held matches Some(pdu) && pdu_routed(
                last.queue,
                last.queue,
                pdu,
                self.ddgst,
                self.ring_at(last.at),
                Ok(Routed::NoTag),
            )),
            Err(e) => self.fails(t.last(), last.queue, last.at, e),
        }
    }
}

/// Routing `pdu` succeeded, and the receive path goes on with `phase`.
pub open spec fn routed_on(
    pre: NvmeTcpQueue,
    post: NvmeTcpQueue,
    pdu: DecodedPdu,
    ddgst: bool,
    ring: Option<RingWindow>,
    phase: RecvPhase,
) -> bool {
    exists|next: Option<RecvPhase>|
        #![trigger pdu_routed(pre, post, pdu, ddgst, ring, Ok(Routed::Next(next)))]
        pdu_routed(pre, post, pdu, ddgst, ring, Ok(Routed::Next(next))) && phase == (match next {
            Some(p) => p,
            None => RecvPhase::Header,
        })
}

/// A path goes on with one more step.
proof fn lemma_path_on(c: Course, t: Seq<Spot>, first: Spot, next: Spot)
    requires
        c.is_path(t, first),
        c.leads(t.last(), next),
        c.holds(next),
    ensures
        c.is_path(t.push(next), first),
{
    let u = t.push(next);
    assert forall|i: int, j: int| 0 <= i && j == i + 1 && j < u.len() implies c.leads(
        #[trigger] u[i],
        #[trigger] u[j],
    ) by {
        assert(u[i] == t[i]);
        if j < t.len() {
            assert(u[j] == t[j]);
        }
    }
    assert forall|i: int| 0 <= i < u.len() implies c.holds(#[trigger] u[i]) by {
        if i < t.len() {
            assert(u[i] == t[i]);
        }
    }
}

impl Receiver {
    pub open spec fn wf(&self, q: NvmeTcpQueue) -> bool {
        &&& phase_wf(q, self.phase)
        &&& self.decoder.wf()
        &&& self.held is Some ==> self.phase is Header
    }

    /// Where the receiver stands, `at` bytes into a window.
    pub open spec fn spot(&self, queue: NvmeTcpQueue, at: int) -> Spot {
        Spot { queue, phase: self.phase, buf: self.decoder.buf@, held: self.held, at }
    }

    /// A receiver at the start of a stream.
    pub fn new(hdgst: bool) -> (r: Receiver)
        ensures
            r.phase is Header,
            r.decoder.wf(),
            r.decoder.hdgst == hdgst,
            r.decoder.buf@.len() == 0,
            r.held is None,
    {
        Receiver { phase: RecvPhase::Header, decoder: PduDecoder::new(hdgst), held: None }
    }

    /// Take in a window of the stream: assemble and route headers, and step
    /// payloads and digests, until the window is drained, no tag is free for a
    /// command, or the connection ends. Returns the bytes taken. `ring` is
    /// where the window lies, in ring mode.
    pub fn receive(
        &mut self,
        queue: &mut NvmeTcpQueue,
        window: &[u8],
        data_digest: bool,
        ring: Option<RingWindow>,
    ) -> (r: (usize, Result<Pause, RecvEnd>))
        requires
            old(queue).wf(),
            old(self).wf(*old(queue)),
            ring matches Some(w) ==> w.off + window.len() <= usize::MAX,
        ensures
            final(queue).wf(),
            final(self).decoder.hdgst == old(self).decoder.hdgst,
            r.0 <= window@.len(),
            r.1 is Ok ==> final(self).wf(*final(queue)),
            exists|t: Seq<Spot>|
                #![trigger (Course { window: window@, hdgst: old(self).decoder.hdgst, ddgst: data_digest, ring }).ends(t, old(self).spot(*old(queue), 0), final(self).spot(*final(queue), r.0 as int), r.1)]
                (Course {
                    window: window@,
                    hdgst: old(self).decoder.hdgst,
                    ddgst: data_digest,
                    ring,
                }).ends(
                    t,
                    old(self).spot(*old(queue), 0),
                    final(self).spot(*final(queue), r.0 as int),
                    r.1,
                ),
    {
        let ghost course = Course {
            window: window@,
            hdgst: self.decoder.hdgst,
            ddgst: data_digest,
            ring,
        };
        let ghost first = self.spot(*queue, 0);
        let ghost mut t: Seq<Spot> = seq![first];
        let mut at: usize = 0;
        let mut end: Result<Pause, RecvEnd> = Ok(Pause::Drained);
        let mut going: bool = true;
        while going
            invariant
                queue.wf(),
                self.decoder.hdgst == course.hdgst,
                course.window == window@,
                course.ddgst == data_digest,
                course.ring == ring,
                at <= window@.len(),
                ring matches Some(w) ==> w.off + window.len() <= usize::MAX,
                course.is_path(t, first),
                going ==> self.wf(*queue) && t.last() == self.spot(*queue, at as int),
                !going ==> course.ends(t, first, self.spot(*queue, at as int), end) && (end is Ok
                    ==> self.wf(*queue)),
            decreases
                    (if going { 1int } else { 0 }),
                    window@.len() - at,
                    (if self.held is Some { 3int } else { self.phase.rank() }),
        {
            let ghost here = self.spot(*queue, at as int);
            let header: bool = match self.phase {
                RecvPhase::Header => true,
                _ => false,
            };
            match self.held {
                Some(pdu) => {
                    let lies: Option<RingWindow> = match ring {
                        Some(w) => Some(RingWindow { bid: w.bid, off: w.off + at, cap: w.cap }),
                        None => None,
                    };
                    assert(lies == course.ring_at(at as int));
                    let routed = handle_pdu(queue, pdu, data_digest, lies);
                    match routed {
                        Ok(Routed::Next(next)) => {
                            self.held = None;
                            self.phase = match next {
                                Some(p) => p,
                                None => RecvPhase::Header,
                            };
                            proof {
                                let there = self.spot(*queue, at as int);
                                assert(pdu_routed(
                                    here.queue,
                                    there.queue,
                                    pdu,
                                    data_digest,
                                    lies,
                                    Ok(Routed::Next(next)),
                                ));
                                assert(course.leads(here, there));
                                lemma_path_on(course, t, first, there);
                                t = t.push(there);
                            }
                        },
                        Ok(Routed::NoTag) => {
                            end = Ok(Pause::NoTag);
                            going = false;
                        },
                        Err(e) => {
                            end = Err(e);
                            going = false;
                        },
                    }
                },
                None => {
                    if at == window.len() {
                        end = Ok(Pause::Drained);
                        going = false;
                    } else {
                        let rest = vstd::slice::slice_subrange(window, at, window.len());
                        assert(rest@ =~= window@.skip(at as int));
                        if header {
                            let (n, r) = self.decoder.feed(rest);
                            at = at + n;
                            match r {
                                Ok(held) => {
                                    self.held = held;
                                    proof {
                                        let there = self.spot(*queue, at as int);
                                        assert(there.buf =~= (if there.held is None {
                                            course.header_at(here)
                                        } else {
                                            seq![]
                                        }));
                                        assert(course.leads(here, there));
                                        lemma_path_on(course, t, first, there);
                                        t = t.push(there);
                                    }
                                },
                                Err(fault) => {
                                    end = Err(RecvEnd::Term(fault));
                                    going = false;
                                },
                            }
                        } else {
                            let (n, r) = self.phase.advance(queue, rest);
                            at = at + n;
                            match r {
                                Ok(phase) => {
                                    self.phase = phase;
                                    proof {
                                        let there = self.spot(*queue, at as int);
                                        assert(course.leads(here, there));
                                        lemma_path_on(course, t, first, there);
                                        t = t.push(there);
                                    }
                                },
                                Err(e) => {
                                    end = Err(e);
                                    going = false;
                                },
                            }
                        }
                    }
                },
            }
        }
        let done = (at, end);
        assert(course.ends(t, first, self.spot(*queue, done.0 as int), done.1));
        done
    }
}

proof fn lemma_written_twice(
    pre: NvmeTcpQueue,
    mid: NvmeTcpQueue,
    post: NvmeTcpQueue,
    d: DataPhase,
    e: DataPhase,
    a: Seq<u8>,
    b: Seq<u8>,
)
    requires
        pre.wf(),
        d.tag < pre.nvme.sqsize,
        e.tag == d.tag && e.base == d.base && e.kind == d.kind && e.retained == d.retained,
        e.remaining == d.remaining - a.len(),
        payload_written(pre, mid, d, a),
        payload_written(mid, post, e, b),
    ensures
        payload_written(pre, post, d, a + b),
{
    if !d.retained {
        let p = pre.nvme.slots;
        let m = mid.nvme.slots;
        let q = post.nvme.slots;
        let tag = d.tag as int;
        assert(dest(mid, e) == dest(pre, d) + a.len());
        assert(q.slots@ =~= p.slots@.update(
            tag,
            Slot { data: q.slots@[tag].data, ..p.slots@[tag] },
        ));
        assert(crate::pool::overwritten(
            crate::pool::overwritten(p.slots@[tag].data.bytes(p.pool), dest(pre, d), a),
            dest(pre, d) + a.len(),
            b,
        ) =~= crate::pool::overwritten(p.slots@[tag].data.bytes(p.pool), dest(pre, d), a + b));
        assert forall|t: int| 0 <= t < p.nslots && t != tag implies (
        #[trigger] p.slots@[t]).data.bytes(q.pool) == p.slots@[t].data.bytes(p.pool) by {
            assert(m.slots@[t] == p.slots@[t]);
            assert(p.slots@[t].data.bytes(m.pool) == p.slots@[t].data.bytes(p.pool));
            assert(m.slots@[t].data.bytes(q.pool) == m.slots@[t].data.bytes(m.pool));
        }
    }
}

/// A data phase cut short by the window's end goes on as if it had not been.
proof fn lemma_data_joins(
    pre: NvmeTcpQueue,
    mid: NvmeTcpQueue,
    post: NvmeTcpQueue,
    d: DataPhase,
    e: DataPhase,
    a: Seq<u8>,
    b: Seq<u8>,
    r: Result<RecvPhase, RecvEnd>,
)
    requires
        pre.wf(),
        d.tag < pre.nvme.sqsize,
        a.len() < d.remaining,
        data_advanced(pre, mid, d, a, Ok(RecvPhase::Data(e))),
        data_advanced(mid, post, e, b, r),
    ensures
        e == data_after(d, a, a.len() as int),
        data_advanced(pre, post, d, a + b, r),
        least(d.remaining as int, (a + b).len() as int) == a.len() + least(
            e.remaining as int,
            b.len() as int,
        ),
{
    let k = least(e.remaining as int, b.len() as int);
    let cut = b.take(k);
    let over = choose|x: NvmeTcpQueue|
        #![trigger payload_written(mid, x, e, b.take(k))]
        {
            &&& payload_written(mid, x, e, b.take(k))
            &&& if data_after(e, b, k).remaining > 0 {
                post == x && r == Ok::<RecvPhase, RecvEnd>(RecvPhase::Data(data_after(e, b, k)))
            } else {
                payload_over(x, post, data_after(e, b, k), r)
            }
        };
    assert(a.take(a.len() as int) =~= a);
    lemma_written_twice(pre, mid, over, d, e, a, cut);
    assert((a + b).take(a.len() + k) =~= a + cut);
    crate::digest::crc_splits(d.crc.state, a, cut);
    assert(data_after(d, a + b, a.len() + k) == data_after(e, b, k));
    assert(payload_written(pre, over, d, (a + b).take(a.len() + k)));
}

/// A digest cut short by the window's end goes on as if it had not been.
proof fn lemma_ddgst_joins(
    pre: NvmeTcpQueue,
    mid: NvmeTcpQueue,
    post: NvmeTcpQueue,
    g: DdgstPhase,
    h: DdgstPhase,
    a: Seq<u8>,
    b: Seq<u8>,
    r: Result<RecvPhase, RecvEnd>,
)
    requires
        g.have_len + a.len() < 4,
        ddgst_advanced(pre, mid, g, a, Ok(RecvPhase::Ddgst(h))),
        ddgst_advanced(mid, post, h, b, r),
    ensures
        h.have_len == g.have_len + a.len(),
        ddgst_advanced(pre, post, g, a + b, r),
{
    let k = least(4 - h.have_len, b.len() as int);
    assert(a.take(a.len() as int) =~= a);
    assert((a + b).take(a.len() + k) =~= a + b.take(k));
    assert(digest_bytes(g, a + b, a.len() + k) =~= digest_bytes(h, b, k));
}

impl Course {
    /// The window after this one, with the same negotiation.
    pub open spec fn then_over(self, more: Seq<u8>) -> Course {
        Course { window: more, ..self }
    }

    /// This window with `more` behind it.
    pub open spec fn longer(self, more: Seq<u8>) -> Course {
        Course { window: self.window + more, ..self }
    }

    /// The step from `a` to `b` was cut short by the window's end.
    pub open spec fn cuts(self, a: Spot, b: Spot) -> bool {
        let rest = self.window.len() - a.at;
        &&& a.held is None && b.held is None
        &&& match a.phase {
            RecvPhase::Header => true,
            RecvPhase::Data(d) => d.remaining > rest,
            RecvPhase::Ddgst(g) => 4 - g.have_len > rest,
        }
    }
}

/// `s`, `n` bytes further on.
pub open spec fn shifted(s: Spot, n: int) -> Spot {
    Spot { at: s.at + n, ..s }
}

/// A step that was not cut short is the same step in a longer window.
proof fn lemma_step_lifts(c: Course, more: Seq<u8>, a: Spot, b: Spot)
    requires
        c.ring is None,
        c.leads(a, b),
        0 <= a.at <= c.window.len(),
        !c.cuts(a, b),
        phase_wf(a.queue, a.phase),
    ensures
        c.longer(more).leads(a, b),
{
    let l = c.longer(more);
    if a.held is None {
        let rest = c.window.skip(a.at);
        assert(l.window.skip(a.at) =~= rest + more);
        match a.phase {
            RecvPhase::Header => {
                let all = a.buf + rest;
                assert(a.buf + (rest + more) =~= all + more);
                assert(all.take(all.len() as int) =~= all);
                crate::pdu::header_is_a_prefix(all, more, c.hdgst);
            },
            RecvPhase::Data(d) => {
                assert((rest + more).take(d.remaining as int) =~= rest.take(d.remaining as int));
            },
            RecvPhase::Ddgst(g) => {
                assert((rest + more).take(4 - g.have_len) =~= rest.take(4 - g.have_len));
            },
        }
    }
}

/// A step that was cut short and the first step of the next window are one
/// step in both windows together.
proof fn lemma_step_merges(c: Course, more: Seq<u8>, a: Spot, m: Spot, b: Spot)
    requires
        c.ring is None,
        0 <= a.at,
        c.leads(a, m),
        c.cuts(a, m),
        m.at <= c.window.len(),
        a.queue.wf(),
        phase_wf(a.queue, a.phase),
        c.then_over(more).leads(shifted(m, -m.at), b),
    ensures
        m.at == c.window.len(),
        c.longer(more).leads(a, shifted(b, m.at)),
{
    let rest = c.window.skip(a.at);
    let l = c.longer(more);
    assert(l.window.skip(a.at) =~= rest + more);
    assert(more.skip(0) =~= more);
    match a.phase {
        RecvPhase::Header => {
            let all = a.buf + rest;
            assert(a.buf + (rest + more) =~= all + more);
            assert(all.take(all.len() as int) =~= all);
        },
        RecvPhase::Data(d) => {
            match m.phase {
                RecvPhase::Data(e) => {
                    lemma_data_joins(a.queue, m.queue, b.queue, d, e, rest, more, Ok(b.phase));
                },
                _ => {},
            }
        },
        RecvPhase::Ddgst(g) => {
            match m.phase {
                RecvPhase::Ddgst(h) => {
                    lemma_ddgst_joins(a.queue, m.queue, b.queue, g, h, rest, more, Ok(b.phase));
                },
                _ => {},
            }
        },
    }
}

/// As [`lemma_step_merges`], for a step that ends the connection.
proof fn lemma_end_merges(
    c: Course,
    more: Seq<u8>,
    a: Spot,
    m: Spot,
    post: NvmeTcpQueue,
    taken: int,
    e: RecvEnd,
)
    requires
        c.ring is None,
        0 <= a.at,
        c.leads(a, m),
        c.cuts(a, m),
        m.at <= c.window.len(),
        a.queue.wf(),
        phase_wf(a.queue, a.phase),
        c.then_over(more).fails(shifted(m, -m.at), post, taken, e),
    ensures
        m.at == c.window.len(),
        c.longer(more).fails(a, post, taken + m.at, e),
{
    let rest = c.window.skip(a.at);
    let l = c.longer(more);
    assert(l.window.skip(a.at) =~= rest + more);
    assert(more.skip(0) =~= more);
    match a.phase {
        RecvPhase::Header => {
            let all = a.buf + rest;
            assert(a.buf + (rest + more) =~= all + more);
            assert(all.take(all.len() as int) =~= all);
        },
        RecvPhase::Data(d) => {
            match m.phase {
                RecvPhase::Data(f) => {
                    lemma_data_joins(a.queue, m.queue, post, d, f, rest, more, Err(e));
                },
                _ => {},
            }
        },
        RecvPhase::Ddgst(g) => {
            match m.phase {
                RecvPhase::Ddgst(h) => {
                    lemma_ddgst_joins(a.queue, m.queue, post, g, h, rest, more, Err(e));
                },
                _ => {},
            }
        },
    }
}

/// A step in a window is the same step in a longer one that ends in it.
proof fn lemma_step_shifts(c: Course, more: Seq<u8>, a: Spot, b: Spot)
    requires
        c.ring is None,
        0 <= a.at <= more.len(),
        c.then_over(more).leads(a, b),
    ensures
        c.longer(more).leads(
            shifted(a, c.window.len() as int),
            shifted(b, c.window.len() as int),
        ),
{
    assert(c.longer(more).window.skip(a.at + c.window.len()) =~= more.skip(a.at));
}

/// As [`lemma_step_shifts`], for a step that ends the connection.
proof fn lemma_end_shifts(
    c: Course,
    more: Seq<u8>,
    a: Spot,
    post: NvmeTcpQueue,
    taken: int,
    e: RecvEnd,
)
    requires
        c.ring is None,
        0 <= a.at <= more.len(),
        c.then_over(more).fails(a, post, taken, e),
    ensures
        c.longer(more).fails(
            shifted(a, c.window.len() as int),
            post,
            taken + c.window.len(),
            e,
        ),
{
    assert(c.longer(more).window.skip(a.at + c.window.len()) =~= more.skip(a.at));
}

/// The steps over a window, but for a last one that was cut short, are steps
/// in a longer window.
proof fn lemma_path_lifts(c: Course, more: Seq<u8>, t: Seq<Spot>, first: Spot, base: Seq<Spot>)
    requires
        c.ring is None,
        c.is_path(t, first),
        base == (if t.len() >= 2 && c.cuts(t[t.len() - 2], t.last()) {
            t.drop_last()
        } else {
            t
        }),
    ensures
        c.longer(more).is_path(base, first),
{
    let l = c.longer(more);
    assert forall|i: int, j: int| 0 <= i && j == i + 1 && j < base.len() implies l.leads(
        #[trigger] base[i],
        #[trigger] base[j],
    ) by {
        assert(base[i] == t[i] && base[j] == t[j]);
        assert(c.leads(t[i], t[j]) && c.holds(t[i]));
        if c.cuts(t[i], t[j]) {
            lemma_cut_at_end(c, t[i], t[j]);
            if j < t.len() - 1 {
                assert(c.leads(t[j], t[j + 1]));
            }
        }
        lemma_step_lifts(c, more, t[i], t[j]);
    }
    assert forall|i: int| 0 <= i < base.len() implies l.holds(#[trigger] base[i]) by {
        assert(base[i] == t[i]);
        assert(c.holds(t[i]));
    }
}

/// A step that was cut short took all of the window.
proof fn lemma_cut_at_end(c: Course, a: Spot, b: Spot)
    requires
        c.leads(a, b),
        c.cuts(a, b),
        0 <= a.at,
    ensures
        b.at == c.window.len(),
{
    if a.phase is Header {
        let all = a.buf + c.window.skip(a.at);
        assert(all.take(all.len() as int) =~= all);
    }
}

/// However the stream is cut into windows, the receive path does the same:
/// draining a window and then receiving the next one, with whatever result, is
/// a receive of both at once with that result. Payload is not left in a receive
/// ring, where it cannot lie in two windows.
pub proof fn stream_windows_join(
    c: Course,
    more: Seq<u8>,
    first: Spot,
    mid: Spot,
    last: Spot,
    t: Seq<Spot>,
    u: Seq<Spot>,
    r: Result<Pause, RecvEnd>,
)
    requires
        c.ring is None,
        c.ends(t, first, mid, Ok(Pause::Drained)),
        c.then_over(more).ends(u, shifted(mid, -mid.at), last, r),
    ensures
        exists|v: Seq<Spot>| #[trigger]
            c.longer(more).ends(v, first, shifted(last, c.window.len() as int), r),
{
    let l = c.longer(more);
    let n = c.window.len() as int;
    let d = c.then_over(more);
    let cut = t.len() >= 2 && c.cuts(t[t.len() - 2], t.last());
    let base = if cut {
        t.drop_last()
    } else {
        t
    };
    let tail = Seq::new((u.len() - 1) as nat, |i: int| shifted(u[i + 1], n));
    let v = base + tail;
    assert(u[0] == shifted(mid, -n));
    assert(shifted(u[0], n) == mid);
    lemma_path_lifts(c, more, t, first, base);
    if cut {
        assert(c.leads(t[t.len() - 2], t.last()) && c.holds(t[t.len() - 2]));
    }
    assert(d.holds(u[0]) && d.holds(u.last()));
    if u.len() > 1 {
        assert(d.leads(u[0], u[1]));
        if cut {
            lemma_step_merges(c, more, t[t.len() - 2], mid, u[1]);
        } else {
            lemma_step_shifts(c, more, u[0], u[1]);
        }
        assert(l.leads(base.last(), shifted(u[1], n)));
    }
    assert forall|i: int, j: int| 0 <= i && j == i + 1 && j < v.len() implies l.leads(
        #[trigger] v[i],
        #[trigger] v[j],
    ) by {
        if j < base.len() {
            assert(v[i] == base[i] && v[j] == base[j]);
        } else if j == base.len() {
            assert(v[i] == base.last() && v[j] == shifted(u[1], n));
        } else {
            let k = i - base.len();
            assert(v[i] == shifted(u[k + 1], n) && v[j] == shifted(u[k + 2], n));
            assert(d.leads(u[k + 1], u[k + 2]) && d.holds(u[k + 1]));
            lemma_step_shifts(c, more, u[k + 1], u[k + 2]);
        }
    }
    assert forall|i: int| 0 <= i < v.len() implies l.holds(#[trigger] v[i]) by {
        if i < base.len() {
            assert(v[i] == base[i]);
        } else {
            assert(v[i] == shifted(u[i - base.len() + 1], n));
            assert(d.holds(u[i - base.len() + 1]));
        }
    }
    assert(v[0] == first);
    assert(l.is_path(v, first));
    match r {
        Err(e) => {
            if u.len() > 1 {
                assert(v.last() == shifted(u.last(), n));
                lemma_end_shifts(c, more, u.last(), last.queue, last.at, e);
            } else {
                assert(v.last() == base.last());
                if cut {
                    lemma_end_merges(c, more, t[t.len() - 2], mid, last.queue, last.at, e);
                } else {
                    lemma_end_shifts(c, more, u[0], last.queue, last.at, e);
                }
            }
            assert(l.ends(v, first, shifted(last, n), r));
        },
        Ok(_) => {
            if u.len() == 1 {
                // Nothing follows: both windows together are the first one.
                assert(more.len() == 0);
                assert(l.window =~= c.window);
                assert(l == c);
                assert(l.ends(t, first, shifted(last, n), r));
            } else {
                assert(v.last() == shifted(u.last(), n));
                assert(l.ends(v, first, shifted(last, n), r));
            }
        },
    }
}

} // verus!
