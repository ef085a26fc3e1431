//! The send path: staged work becomes a gather list of encoded headers and
//! payload left in place in the slot buffers.

use vstd::prelude::*;

use crate::nvme::Sqe;
use crate::pool::Seg;
use crate::slotq::SlotArray;
use crate::tcp::{Completion, NvmeTcpQueue, SendWork};

verus! {

/// Most arena bytes one staged item takes: a data header with its digest, the
/// data digest, and a response capsule with its digest.
pub const ARENA_PER_ITEM: usize = 64;

/// Most gather entries one staged item takes: a data header, the payload's
/// segments, the data digest and the response capsule.
pub const IOVS_PER_ITEM: usize = 35;

/// One gather entry.
#[derive(Debug, Clone, Copy, PartialEq, Eq, Structural)]
pub enum Iov {
    /// Encoded bytes in the batch's arena.
    Arena { off: usize, len: usize },
    /// Payload in slot `tag`'s buffer.
    Payload { tag: u16, seg: Seg },
}

/// A batch of staged work.
pub struct GatherBatch {
    /// Encoded headers, digests and capsules.
    pub arena: Vec<u8>,
    /// What goes on the wire, in order.
    pub iovs: Vec<Iov>,
    /// Room for encoded bytes.
    pub arena_cap: usize,
    /// Room for entries.
    pub iov_cap: usize,
    /// Payload-carrying items staged.
    pub payload_items: usize,
    /// Their payload bytes.
    pub payload_bytes: usize,
}

/// When the tag of a staged item may be released.
#[derive(Debug, Clone, Copy, PartialEq, Eq, Structural)]
pub enum Staged {
    /// Once the kernel has let go of the payload.
    AtNotif(u16),
    /// Once the send completes.
    AtCqe(u16),
    /// The item holds no tag.
    NoRelease,
}

/// The arena entries cover the first `n` arena bytes in order, and no two of
/// them are neighbours.
pub open spec fn merged(iovs: Seq<Iov>, n: int) -> bool
    decreases iovs.len(),
{
    if iovs.len() == 0 {
        n == 0
    } else {
        match iovs.last() {
            Iov::Arena { off, len } => {
                &&& 0 < len
                &&& off + len == n
                &&& merged(iovs.drop_last(), off as int)
                &&& iovs.drop_last().len() > 0 ==> !(iovs.drop_last().last() is Arena)
            },
            Iov::Payload { tag, seg } => merged(iovs.drop_last(), n),
        }
    }
}

/// The bytes of one entry, where `ring` is the receive ring's memory.
pub open spec fn piece(iov: Iov, arena: Seq<u8>, slots: SlotArray<Sqe>, ring: Seq<u8>) -> Seq<u8> {
    match iov {
        Iov::Arena { off, len } => arena.subrange(off as int, off + len),
        Iov::Payload { tag, seg } => slots.slots@[tag as int].data.backing_in(
            slots.pool,
            ring,
        ).subrange(seg.off as int, seg.off + seg.len),
    }
}

/// The bytes of the entries, in order.
pub open spec fn linear(
    iovs: Seq<Iov>,
    arena: Seq<u8>,
    slots: SlotArray<Sqe>,
    ring: Seq<u8>,
) -> Seq<u8>
    decreases iovs.len(),
{
    if iovs.len() == 0 {
        seq![]
    } else {
        linear(iovs.drop_last(), arena, slots, ring) + piece(iovs.last(), arena, slots, ring)
    }
}

/// `n` more arena bytes: the last entry grows when it is an arena entry,
/// otherwise one is added.
pub open spec fn grown(iovs: Seq<Iov>, at: int, n: int) -> Seq<Iov> {
    if iovs.len() > 0 && iovs.last() is Arena {
        iovs.drop_last().push(
            Iov::Arena { off: iovs.last()->Arena_off, len: (iovs.last()->Arena_len + n) as usize },
        )
    } else {
        iovs.push(Iov::Arena { off: at as usize, len: n as usize })
    }
}

/// The entries for payload segments of slot `tag`.
pub open spec fn payload_iovs(tag: u16, segs: Seq<Seg>) -> Seq<Iov> {
    Seq::new(segs.len(), |i: int| Iov::Payload { tag, seg: segs[i] })
}

proof fn lemma_arena_grows(
    iovs: Seq<Iov>,
    arena: Seq<u8>,
    more: Seq<u8>,
    n: int,
    slots: SlotArray<Sqe>,
    ring: Seq<u8>,
)
    requires
        merged(iovs, n),
        n <= arena.len(),
    ensures
        linear(iovs, arena + more, slots, ring) == linear(iovs, arena, slots, ring),
        0 <= n,
    decreases iovs.len(),
{
    if iovs.len() > 0 {
        match iovs.last() {
            Iov::Arena { off, len } => {
                lemma_arena_grows(iovs.drop_last(), arena, more, off as int, slots, ring);
                assert(piece(iovs.last(), arena + more, slots, ring) =~= piece(
                    iovs.last(),
                    arena,
                    slots,
                    ring,
                ));
            },
            Iov::Payload { tag, seg } => {
                lemma_arena_grows(iovs.drop_last(), arena, more, n, slots, ring);
            },
        }
    }
}

proof fn lemma_subsegs_count(segs: Seq<Seg>, off: int, len: int)
    ensures
        crate::pool::subsegs(segs, off, len).len() <= segs.len(),
    decreases segs.len(),
{
    if segs.len() > 0 && len > 0 {
        if off >= segs[0].len {
            lemma_subsegs_count(segs.drop_first(), off - segs[0].len, len);
        } else {
            let room = segs[0].len - off;
            let take = if room < len { room } else { len };
            lemma_subsegs_count(segs.drop_first(), 0, len - take);
        }
    }
}

/// Payload entries linearize to their segments' bytes.
proof fn lemma_payload(
    iovs: Seq<Iov>,
    arena: Seq<u8>,
    slots: SlotArray<Sqe>,
    ring: Seq<u8>,
    tag: u16,
    segs: Seq<Seg>,
    n: int,
)
    requires
        merged(iovs, n),
    ensures
        linear(iovs + payload_iovs(tag, segs), arena, slots, ring) == linear(
            iovs,
            arena,
            slots,
            ring,
        ) + crate::pool::seg_bytes(
            slots.slots@[tag as int].data.backing_in(slots.pool, ring),
            segs,
        ),
        merged(iovs + payload_iovs(tag, segs), n),
        segs.len() > 0 ==> (iovs + payload_iovs(tag, segs)).last() is Payload,
    decreases segs.len(),
{
    let all = iovs + payload_iovs(tag, segs);
    let mem = slots.slots@[tag as int].data.backing_in(slots.pool, ring);
    if segs.len() == 0 {
        assert(all =~= iovs);
        assert(linear(iovs, arena, slots, ring) + crate::pool::seg_bytes(mem, segs) =~= linear(
            iovs,
            arena,
            slots,
            ring,
        ));
    } else {
        lemma_payload(iovs, arena, slots, ring, tag, segs.drop_last(), n);
        assert(all.drop_last() =~= iovs + payload_iovs(tag, segs.drop_last()));
        assert(all.last() == Iov::Payload { tag, seg: segs.last() });
        assert(linear(all, arena, slots, ring) =~= linear(iovs, arena, slots, ring)
            + crate::pool::seg_bytes(mem, segs));
    }
}

impl GatherBatch {
    pub open spec fn wf(&self) -> bool {
        merged(self.iovs@, self.arena@.len() as int)
    }

    /// What goes on the wire.
    pub open spec fn wire(&self, slots: SlotArray<Sqe>, ring: Seq<u8>) -> Seq<u8> {
        linear(self.iovs@, self.arena@, slots, ring)
    }

    /// There is room for `arena` more encoded bytes and `iovs` more entries.
    pub open spec fn room(&self, arena: int, iovs: int) -> bool {
        self.arena@.len() + arena <= self.arena_cap && self.iovs@.len() + iovs <= self.iov_cap
    }

    /// An empty batch with room for `arena_cap` encoded bytes and `iov_cap`
    /// entries.
    pub fn new(arena_cap: usize, iov_cap: usize) -> (g: GatherBatch)
        ensures
            g.wf(),
            g.arena@.len() == 0,
            g.iovs@.len() == 0,
            g.arena_cap == arena_cap,
            g.iov_cap == iov_cap,
            g.payload_items == 0,
            g.payload_bytes == 0,
    {
        GatherBatch {
            arena: Vec::new(),
            iovs: Vec::new(),
            arena_cap,
            iov_cap,
            payload_items: 0,
            payload_bytes: 0,
        }
    }

    /// Whether one more item fits that takes up to `arena` encoded bytes and
    /// `iovs` entries.
    pub fn fits(&self, arena: usize, iovs: usize) -> (b: bool)
        ensures
            b == self.room(arena as int, iovs as int),
    {
        self.arena.len() <= self.arena_cap && arena <= self.arena_cap - self.arena.len()
            && self.iovs.len() <= self.iov_cap && iovs <= self.iov_cap - self.iovs.len()
    }

    /// Account the arena bytes from `from` on: the last entry grows when it is
    /// an arena entry, otherwise one is added.
    fn push_arena(&mut self, from: usize)
        requires
            from < old(self).arena@.len(),
            merged(old(self).iovs@, from as int),
        ensures
            final(self).wf(),
            *final(self) == (GatherBatch { iovs: final(self).iovs, ..*old(self) }),
            final(self).iovs@ == grown(
                old(self).iovs@,
                from as int,
                old(self).arena@.len() - from,
            ),
            final(self).iovs@.last() is Arena,
            forall|slots: SlotArray<Sqe>, ring: Seq<u8>| #[trigger]
                final(self).wire(slots, ring) == linear(
                    old(self).iovs@,
                    old(self).arena@.take(from as int),
                    slots,
                    ring,
                ) + old(self).arena@.skip(from as int),
    {
        let ghost was = *self;
        let n: usize = self.arena.len() - from;
        let count: usize = self.iovs.len();
        let ghost old_arena = was.arena@.take(from as int);
        let ghost more = was.arena@.skip(from as int);
        proof {
            assert(was.arena@ =~= old_arena + more);
            assert(was.arena.len() == was.arena@.len());
        }
        if count > 0 {
            if let Iov::Arena { off, len } = self.iovs[count - 1] {
                self.iovs.set(count - 1, Iov::Arena { off, len: len + n });
                proof {
                    let now = self.iovs@;
                    assert(now =~= grown(was.iovs@, from as int, n as int));
                    assert(now.drop_last() =~= was.iovs@.drop_last());
                    assert forall|slots: SlotArray<Sqe>, ring: Seq<u8>| #[trigger]
                        self.wire(slots, ring) == linear(was.iovs@, old_arena, slots, ring)
                            + more by {
                        lemma_arena_grows(
                            was.iovs@.drop_last(),
                            old_arena,
                            more,
                            off as int,
                            slots,
                            ring,
                        );
                        assert(piece(now.last(), self.arena@, slots, ring) =~= piece(
                            was.iovs@.last(),
                            old_arena,
                            slots,
                            ring,
                        ) + more);
                        assert(self.wire(slots, ring) =~= linear(was.iovs@, old_arena, slots, ring)
                            + more);
                    }
                }
                return ;
            }
        }
        self.iovs.push(Iov::Arena { off: from, len: n });
        proof {
            let now = self.iovs@;
            assert(now.drop_last() =~= was.iovs@);
            assert forall|slots: SlotArray<Sqe>, ring: Seq<u8>| #[trigger]
                self.wire(slots, ring) == linear(was.iovs@, old_arena, slots, ring) + more by {
                lemma_arena_grows(was.iovs@, old_arena, more, from as int, slots, ring);
                assert(piece(now.last(), self.arena@, slots, ring) =~= more);
            }
        }
    }
}

/// A completion whose capsule the success flag replaces.
pub open spec fn elided(q: NvmeTcpQueue, c: Completion) -> bool {
    c.data_len > 0 && q.nvme.sqhd_disabled && c.cqe.status == 0
}

/// The read data a completion sends.
pub open spec fn payload(q: NvmeTcpQueue, ring: Seq<u8>, c: Completion) -> Seq<u8> {
    q.nvme.slots.slots@[c.tag as int].data.bytes_in(q.nvme.slots.pool, ring).take(c.data_len as int)
}

/// The data header of a completion.
pub open spec fn data_header(q: NvmeTcpQueue, c: Completion, hdgst: bool, ddgst: bool) -> Seq<u8> {
    crate::pdu::c2h_data(c.cqe.cid, 0, c.data_len, true, elided(q, c), hdgst, ddgst)
}

/// What follows a completion's payload: the data digest, and the response
/// capsule unless it is elided.
pub open spec fn trailer(
    q: NvmeTcpQueue,
    ring: Seq<u8>,
    c: Completion,
    hdgst: bool,
    ddgst: bool,
) -> Seq<u8> {
    (if c.data_len > 0 && ddgst {
        crate::wire::le_bytes(crate::digest::crc_of(payload(q, ring, c)) as int, 4)
    } else {
        seq![]
    }) + (if elided(q, c) {
        seq![]
    } else {
        crate::pdu::capsule_resp(c.cqe, hdgst)
    })
}

/// The bytes a work item puts on the wire.
pub open spec fn work_bytes(
    q: NvmeTcpQueue,
    ring: Seq<u8>,
    work: SendWork,
    hdgst: bool,
    ddgst: bool,
) -> Seq<u8> {
    match work {
        SendWork::R2t { tag, cid, offset, length } => crate::pdu::r2t(
            cid,
            tag,
            offset,
            length,
            hdgst,
        ),
        SendWork::Response(c) => if c.data_len > 0 {
            data_header(q, c, hdgst, ddgst) + payload(q, ring, c) + trailer(
                q,
                ring,
                c,
                hdgst,
                ddgst,
            )
        } else {
            trailer(q, ring, c, hdgst, ddgst)
        },
    }
}

/// The bytes of a work item that are encoded into the arena: all but the
/// payload.
pub open spec fn work_arena(
    q: NvmeTcpQueue,
    ring: Seq<u8>,
    work: SendWork,
    hdgst: bool,
    ddgst: bool,
) -> Seq<u8> {
    match work {
        SendWork::R2t { tag, cid, offset, length } => crate::pdu::r2t(
            cid,
            tag,
            offset,
            length,
            hdgst,
        ),
        SendWork::Response(c) => if c.data_len > 0 {
            data_header(q, c, hdgst, ddgst) + trailer(q, ring, c, hdgst, ddgst)
        } else {
            trailer(q, ring, c, hdgst, ddgst)
        },
    }
}

/// The payload a work item sends, in bytes.
pub open spec fn work_payload(work: SendWork) -> int {
    match work {
        SendWork::R2t { .. } => 0,
        SendWork::Response(c) => c.data_len as int,
    }
}

/// A work item that can be staged: its payload is in its slot's buffer, and a
/// ring buffer's region within the receive ring's memory `ring`.
pub open spec fn stageable(q: NvmeTcpQueue, ring: Seq<u8>, work: SendWork) -> bool {
    match work {
        SendWork::R2t { .. } => true,
        SendWork::Response(c) => c.data_len > 0 ==> {
            let d = q.nvme.slots.slots@[c.tag as int].data;
            &&& c.tag < q.nvme.sqsize
            &&& d.ring_holds(ring)
            &&& c.data_len <= d.len
            &&& c.data_len + 32 <= u32::MAX
        },
    }
}

/// Stage one work item: encoded pieces into the arena, payload referenced in
/// place in the slot buffer, its digest computed over the slot; `ring` is the
/// receive ring's memory, empty where there is no ring.
pub fn stage_send_work(
    gather: &mut GatherBatch,
    queue: &NvmeTcpQueue,
    ring: &[u8],
    work: &SendWork,
    hdr_digest: bool,
    data_digest: bool,
)
    requires
        old(gather).wf(),
        queue.wf(),
        stageable(*queue, ring@, *work),
        old(gather).payload_bytes + work_payload(*work) <= usize::MAX,
        old(gather).payload_items < usize::MAX,
    ensures
        final(gather).wf(),
        final(gather).wire(queue.nvme.slots, ring@) == old(gather).wire(
            queue.nvme.slots,
            ring@,
        ) + work_bytes(
            *queue,
            ring@,
            *work,
            hdr_digest,
            data_digest,
        ),
        final(gather).arena@ == old(gather).arena@ + work_arena(
            *queue,
            ring@,
            *work,
            hdr_digest,
            data_digest,
        ),
        final(gather).arena@.len() <= old(gather).arena@.len() + ARENA_PER_ITEM,
        final(gather).iovs@.len() <= old(gather).iovs@.len() + IOVS_PER_ITEM,
        final(gather).payload_bytes == old(gather).payload_bytes + work_payload(*work),
        final(gather).payload_items == old(gather).payload_items + (if work_payload(*work) > 0 {
            1int
        } else {
            0
        }),
        final(gather).arena_cap == old(gather).arena_cap,
        final(gather).iov_cap == old(gather).iov_cap,
        old(gather).room(ARENA_PER_ITEM as int, IOVS_PER_ITEM as int) ==> final(gather).room(0, 0),
{
    let ghost pre = *gather;
    let ghost slots = queue.nvme.slots;
    match *work {
        SendWork::R2t { tag, cid, offset, length } => {
            stage_r2t(gather, tag, cid, offset, length, hdr_digest);
        },
        SendWork::Response(c) => {
            let elide: bool = c.data_len > 0 && queue.nvme.sqhd_disabled && c.cqe.status == 0;
            if c.data_len > 0 {
                stage_payload(gather, queue, ring, c, elide, hdr_digest, data_digest);
            }
            let ghost mid = *gather;
            if !elide {
                stage_capsule(gather, &c.cqe, hdr_digest);
            }
            proof {
                let sent = pre.wire(slots, ring@);
                lemma_tail(*queue, ring@, c, sent, pre.arena@, hdr_digest, data_digest);
                assert(gather.wire(slots, ring@) == mid.wire(slots, ring@) + capsule(
                    *queue,
                    c,
                    hdr_digest,
                ));
                assert(gather.arena@ == mid.arena@ + capsule(*queue, c, hdr_digest));
            }
        },
    }
}

/// The response capsule of a completion, unless it is elided.
pub open spec fn capsule(q: NvmeTcpQueue, c: Completion, hdgst: bool) -> Seq<u8> {
    if elided(q, c) {
        seq![]
    } else {
        crate::pdu::capsule_resp(c.cqe, hdgst)
    }
}

/// Staging a completion piece by piece puts its bytes on the wire.
proof fn lemma_tail(
    q: NvmeTcpQueue,
    ring: Seq<u8>,
    c: Completion,
    wire: Seq<u8>,
    arena: Seq<u8>,
    hdgst: bool,
    ddgst: bool,
)
    ensures
        c.data_len > 0 ==> wire + data_header(q, c, hdgst, ddgst) + payload(q, ring, c)
            + data_digest(q, ring, c, ddgst) + capsule(q, c, hdgst) == wire + work_bytes(
            q,
            ring,
            SendWork::Response(c),
            hdgst,
            ddgst,
        ),
        c.data_len > 0 ==> arena + data_header(q, c, hdgst, ddgst) + data_digest(q, ring, c, ddgst)
            + capsule(q, c, hdgst) == arena + work_arena(
            q,
            ring,
            SendWork::Response(c),
            hdgst,
            ddgst,
        ),
        c.data_len == 0 ==> wire + capsule(q, c, hdgst) == wire + work_bytes(
            q,
            ring,
            SendWork::Response(c),
            hdgst,
            ddgst,
        ),
        c.data_len == 0 ==> arena + capsule(q, c, hdgst) == arena + work_arena(
            q,
            ring,
            SendWork::Response(c),
            hdgst,
            ddgst,
        ),
        work_arena(q, ring, SendWork::Response(c), hdgst, ddgst).len() <= ARENA_PER_ITEM,
        wire + seq![] == wire,
        arena + seq![] == arena,
{
    crate::pdu::header_lengths(
        c.cqe.cid,
        0,
        0,
        c.data_len,
        true,
        elided(q, c),
        c.cqe,
        crate::pdu::PduError { fes: 0, fei: 0 },
        hdgst,
        ddgst,
    );
    crate::wire::lemma_le_len(crate::digest::crc_of(payload(q, ring, c)) as int, 4);
    let h = data_header(q, c, hdgst, ddgst);
    let d = data_digest(q, ring, c, ddgst);
    let t = trailer(q, ring, c, hdgst, ddgst);
    let k = capsule(q, c, hdgst);
    if c.data_len > 0 {
        assert(t =~= d + k);
        let m = payload(q, ring, c);
        assert(wire + h + m + d + k =~= wire + (h + m + (d + k)));
        assert(arena + h + d + k =~= arena + (h + (d + k)));
    } else {
        assert(t =~= k);
    }
    assert(wire + seq![] =~= wire);
    assert(arena + seq![] =~= arena);
}

/// Stage a solicitation.
fn stage_r2t(
    gather: &mut GatherBatch,
    tag: u16,
    cid: u16,
    offset: u32,
    length: u32,
    hdr_digest: bool,
)
    requires
        old(gather).wf(),
    ensures
        final(gather).wf(),
        forall|slots: SlotArray<Sqe>, ring: Seq<u8>| #[trigger]
            final(gather).wire(slots, ring) == old(gather).wire(slots, ring) + crate::pdu::r2t(
                cid,
                tag,
                offset,
                length,
                hdr_digest,
            ),
        final(gather).arena@ == old(gather).arena@ + crate::pdu::r2t(
            cid,
            tag,
            offset,
            length,
            hdr_digest,
        ),
        final(gather).arena@.len() <= old(gather).arena@.len() + 28,
        final(gather).iovs@.len() <= old(gather).iovs@.len() + 1,
        *final(gather) == (GatherBatch {
            iovs: final(gather).iovs,
            arena: final(gather).arena,
            ..*old(gather)
        }),
{
    let ghost pre = *gather;
    let from: usize = gather.arena.len();
    crate::pdu::encode_r2t(&mut gather.arena, cid, tag, offset, length, hdr_digest);
    proof {
        let bytes = crate::pdu::r2t(cid, tag, offset, length, hdr_digest);
        crate::pdu::header_lengths(
            cid,
            tag,
            offset,
            length,
            true,
            true,
            crate::nvme::Cqe { result: 0, sqhd: 0, sqid: 0, cid: 0, status: 0 },
            crate::pdu::PduError { fes: 0, fei: 0 },
            hdr_digest,
            true,
        );
        assert(gather.arena@.take(from as int) =~= pre.arena@);
        assert(gather.arena@.skip(from as int) =~= bytes);
    }
    gather.push_arena(from);
}

/// Stage a response capsule.
fn stage_capsule(gather: &mut GatherBatch, cqe: &crate::nvme::Cqe, hdr_digest: bool)
    requires
        old(gather).wf(),
    ensures
        final(gather).wf(),
        forall|slots: SlotArray<Sqe>, ring: Seq<u8>| #[trigger]
            final(gather).wire(slots, ring) == old(gather).wire(slots, ring)
                + crate::pdu::capsule_resp(*cqe, hdr_digest),
        final(gather).arena@ == old(gather).arena@ + crate::pdu::capsule_resp(*cqe, hdr_digest),
        final(gather).iovs@.len() <= old(gather).iovs@.len() + 1,
        *final(gather) == (GatherBatch {
            iovs: final(gather).iovs,
            arena: final(gather).arena,
            ..*old(gather)
        }),
{
    let ghost pre = *gather;
    let from: usize = gather.arena.len();
    crate::pdu::encode_capsule_resp(&mut gather.arena, cqe, hdr_digest);
    proof {
        crate::pdu::header_lengths(
            0,
            0,
            0,
            0,
            true,
            true,
            *cqe,
            crate::pdu::PduError { fes: 0, fei: 0 },
            hdr_digest,
            true,
        );
        assert(gather.arena@.take(from as int) =~= pre.arena@);
        assert(gather.arena@.skip(from as int) =~= crate::pdu::capsule_resp(*cqe, hdr_digest));
    }
    gather.push_arena(from);
}

/// The data digest of a completion, where one was negotiated.
pub open spec fn data_digest(
    q: NvmeTcpQueue,
    ring: Seq<u8>,
    c: Completion,
    ddgst: bool,
) -> Seq<u8> {
    if ddgst {
        crate::wire::le_bytes(crate::digest::crc_of(payload(q, ring, c)) as int, 4)
    } else {
        seq![]
    }
}

/// Stage a completion's read data: header, payload in place, data digest.
#[verifier::rlimit(60)]
fn stage_payload(
    gather: &mut GatherBatch,
    queue: &NvmeTcpQueue,
    ring: &[u8],
    c: Completion,
    elide: bool,
    hdr_digest: bool,
    ddgst: bool,
)
    requires
        old(gather).wf(),
        queue.wf(),
        stageable(*queue, ring@, SendWork::Response(c)),
        c.data_len > 0,
        elide == elided(*queue, c),
        old(gather).payload_bytes + c.data_len <= usize::MAX,
        old(gather).payload_items < usize::MAX,
    ensures
        final(gather).wf(),
        final(gather).wire(queue.nvme.slots, ring@) == old(gather).wire(
            queue.nvme.slots,
            ring@,
        ) + data_header(
            *queue,
            c,
            hdr_digest,
            ddgst,
        ) + payload(*queue, ring@, c) + data_digest(*queue, ring@, c, ddgst),
        final(gather).arena@ == old(gather).arena@ + data_header(*queue, c, hdr_digest, ddgst)
            + data_digest(*queue, ring@, c, ddgst),
        final(gather).iovs@.len() <= old(gather).iovs@.len() + crate::pool::MAX_SEGS + 2,
        final(gather).payload_bytes == old(gather).payload_bytes + c.data_len,
        final(gather).payload_items == old(gather).payload_items + 1,
        final(gather).arena_cap == old(gather).arena_cap,
        final(gather).iov_cap == old(gather).iov_cap,
{
    let ghost pre = *gather;
    let ghost slots = queue.nvme.slots;
    let from: usize = gather.arena.len();
    crate::pdu::encode_c2h_data(
        &mut gather.arena,
        c.cqe.cid,
        0,
        c.data_len,
        true,
        elide,
        hdr_digest,
        ddgst,
    );
    proof {
        crate::pdu::header_lengths(
            c.cqe.cid,
            0,
            0,
            c.data_len,
            true,
            elide,
            c.cqe,
            crate::pdu::PduError { fes: 0, fei: 0 },
            hdr_digest,
            ddgst,
        );
        assert(gather.arena@.take(from as int) =~= pre.arena@);
        assert(gather.arena@.skip(from as int) =~= data_header(*queue, c, hdr_digest, ddgst));
    }
    gather.push_arena(from);
    let ghost headed = *gather;
    let data = queue.nvme.slots.slot(c.tag).data();
    let ghost mem = data.backing_in(slots.pool, ring@);
    proof {
        assert(slots.slots@[c.tag as int].data.wf(slots.pool));
        assert(ring@.len() == ring.len());
        data.wf_laid_in(slots.pool, ring@);
        crate::pool::subsegs_bytes(mem, data.segs@, 0, c.data_len as int);
        lemma_subsegs_count(data.segs@, 0, c.data_len as int);
    }
    let parts: Vec<Seg> = crate::pool::fill_subsegs(data.segs(), 0, c.data_len as usize);
    let mut i: usize = 0;
    assert(headed.iovs@ + payload_iovs(c.tag, parts@.take(0)) =~= headed.iovs@);
    while i < parts.len()
        invariant
            i <= parts@.len(),
            gather.iovs@ == headed.iovs@ + payload_iovs(c.tag, parts@.take(i as int)),
            *gather == (GatherBatch { iovs: gather.iovs, ..headed }),
        decreases parts@.len() - i,
    {
        gather.iovs.push(Iov::Payload { tag: c.tag, seg: parts[i] });
        i += 1;
        assert(gather.iovs@ =~= headed.iovs@ + payload_iovs(c.tag, parts@.take(i as int)));
    }
    gather.payload_items = gather.payload_items + 1;
    gather.payload_bytes = gather.payload_bytes + c.data_len as usize;
    let ghost loaded = *gather;
    proof {
        assert(parts@.take(i as int) =~= parts@);
        lemma_payload(
            headed.iovs@,
            headed.arena@,
            slots,
            ring@,
            c.tag,
            parts@,
            headed.arena@.len() as int);
        assert(data.bytes_in(slots.pool, ring@).subrange(0, c.data_len as int) =~= payload(
            *queue,
            ring@,
            c,
        ));
        assert(loaded.wire(slots, ring@) == headed.wire(slots, ring@) + payload(*queue, ring@, c));
    }
    if ddgst {
        let mut sum = crate::digest::SumSink::new(crate::digest::Crc32c::new());
        data.for_each_seg(&queue.nvme.slots.pool, ring, 0, c.data_len as usize, &mut sum);
        let from: usize = gather.arena.len();
        crate::wire::push_le(&mut gather.arena, sum.crc().finalize() as u64, 4);
        proof {
            crate::wire::lemma_le_len(crate::digest::crc_of(payload(*queue, ring@, c)) as int, 4);
            assert(Seq::<u8>::empty() + payload(*queue, ring@, c) =~= payload(*queue, ring@, c));
            assert(gather.arena@.take(from as int) =~= loaded.arena@);
            assert(gather.arena@.skip(from as int) =~= data_digest(*queue, ring@, c, ddgst));
        }
        gather.push_arena(from);
    }
    proof {
        let header = data_header(*queue, c, hdr_digest, ddgst);
        assert(gather.wire(slots, ring@) =~= pre.wire(slots, ring@) + header
            + payload(*queue, ring@, c) + data_digest(*queue, ring@, c, ddgst));
        assert(gather.arena@ =~= pre.arena@ + data_header(*queue, c, hdr_digest, ddgst)
            + data_digest(*queue, ring@, c, ddgst));
    }
}

/// When a staged item's tag may be released: payload-carrying responses wait
/// for the kernel to let go of the slot buffer, capsules for the send to
/// complete, solicitations hold no tag.
pub open spec fn class_of(work: SendWork) -> Staged {
    match work {
        SendWork::Response(c) => if c.data_len > 0 {
            Staged::AtNotif(c.tag)
        } else {
            Staged::AtCqe(c.tag)
        },
        SendWork::R2t { .. } => Staged::NoRelease,
    }
}

/// When a staged item's tag may be released.
pub fn release_class(work: &SendWork) -> (s: Staged)
    ensures
        s == class_of(*work),
{
    match *work {
        SendWork::Response(c) => if c.data_len > 0 {
            Staged::AtNotif(c.tag)
        } else {
            Staged::AtCqe(c.tag)
        },
        SendWork::R2t { .. } => Staged::NoRelease,
    }
}

/// The bytes of work items on the wire, in order.
pub open spec fn works_bytes(
    q: NvmeTcpQueue,
    ring: Seq<u8>,
    works: Seq<SendWork>,
    hdgst: bool,
    ddgst: bool,
) -> Seq<u8>
    decreases works.len(),
{
    if works.len() == 0 {
        seq![]
    } else {
        works_bytes(q, ring, works.drop_last(), hdgst, ddgst) + work_bytes(
            q,
            ring,
            works.last(),
            hdgst,
            ddgst,
        )
    }
}

/// Stage pending work, oldest first, for one gather send: as much as the batch
/// has room for. Returns when the tag of each staged item may be released.
pub fn stage_pending(
    gather: &mut GatherBatch,
    queue: &mut NvmeTcpQueue,
    ring: &[u8],
    hdr_digest: bool,
    data_digest: bool,
) -> (out: Vec<Staged>)
    requires
        old(gather).wf(),
        old(queue).wf(),
        forall|i: int|
            0 <= i < old(queue).send.work@.len() ==> stageable(
                *old(queue),
                ring@,
                #[trigger] old(queue).send.work@[i]),
        old(gather).payload_items + old(queue).send.work@.len() <= usize::MAX,
    ensures
        final(gather).wf(),
        final(gather).arena_cap == old(gather).arena_cap,
        final(gather).iov_cap == old(gather).iov_cap,
        old(gather).room(0, 0) ==> final(gather).room(0, 0),
        final(queue).wf(),
        *final(queue) == (NvmeTcpQueue { send: final(queue).send, ..*old(queue) }),
        final(queue).send.closed == old(queue).send.closed,
        ({
            let all = old(queue).send.work@;
            let k = out@.len() as int;
            &&& k <= all.len()
            &&& final(queue).send.work@ == all.skip(k)
            &&& out@ == Seq::new(k as nat, |i: int| class_of(all[i]))
            &&& final(gather).wire(old(queue).nvme.slots, ring@) == old(gather).wire(
                old(queue).nvme.slots,
                ring@,
            ) + works_bytes(*old(queue), ring@, all.take(k), hdr_digest, data_digest)
            &&& k == all.len() || !final(gather).room(ARENA_PER_ITEM as int, IOVS_PER_ITEM as int)
                || final(gather).payload_bytes + u32::MAX > usize::MAX
        }),
{
    let ghost pre = *queue;
    let ghost all = queue.send.work@;
    let ghost slots = queue.nvme.slots;
    let ghost start = gather.wire(slots, ring@);
    let mut out: Vec<Staged> = Vec::new();
    assert(all.skip(0) =~= all);
    assert(all.take(0) =~= seq![]);
    assert(start + works_bytes(pre, ring@, all.take(0), hdr_digest, data_digest) =~= start);
    while queue.send.work.len() > 0 && gather.fits(ARENA_PER_ITEM, IOVS_PER_ITEM)
        && gather.payload_bytes <= usize::MAX - u32::MAX as usize
        invariant
            gather.wf(),
            gather.arena_cap == old(gather).arena_cap,
            gather.iov_cap == old(gather).iov_cap,
            old(gather).room(0, 0) ==> gather.room(0, 0),
            gather.payload_items + queue.send.work@.len() <= usize::MAX,
            queue.wf(),
            pre == *old(queue),
            all == pre.send.work@,
            slots == pre.nvme.slots,
            *queue == (NvmeTcpQueue { send: queue.send, ..pre }),
            queue.send.closed == pre.send.closed,
            forall|i: int| 0 <= i < all.len() ==> stageable(pre, ring@, #[trigger] all[i]),
            out@.len() <= all.len(),
            queue.send.work@ == all.skip(out@.len() as int),
            out@ == Seq::new(out@.len(), |i: int| class_of(all[i])),
            gather.wire(slots, ring@) == start + works_bytes(
                pre,
                ring@,
                all.take(out@.len() as int),
                hdr_digest,
                data_digest,
            ),
        decreases queue.send.work@.len(),
    {
        let ghost k = out@.len() as int;
        match queue.send.try_next() {
            Some(work) => {
                assert(work == all[k]);
                assert(queue.send.work@ =~= all.skip(k + 1));
                assert(stageable(pre, ring@, all[k]));
                stage_send_work(gather, queue, ring, &work, hdr_digest, data_digest);
                proof {
                    assert(all.take(k + 1).drop_last() =~= all.take(k));
                    assert(work_bytes(*queue, ring@, work, hdr_digest, data_digest) == work_bytes(
                        pre,
                        ring@,
                        work,
                        hdr_digest,
                        data_digest,
                    ));
                    assert(gather.wire(slots, ring@) =~= start + works_bytes(
                        pre,
                        ring@,
                        all.take(k + 1),
                        hdr_digest,
                        data_digest,
                    ));
                }
                out.push(release_class(&work));
                assert(out@ =~= Seq::new(out@.len(), |i: int| class_of(all[i])));
            },
            None => {},
        }
    }
    out
}

} // verus!
