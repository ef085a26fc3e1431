//! What the host sees of a TCP queue: the PDUs that answer its commands, and
//! what becomes of those that it sends, byte by byte.

use vstd::prelude::*;

use crate::nvme::Sqe;
use crate::pdu::{self, DecodedPdu, PduError, PduKind};
use crate::tcp::conn::{self, KeepAlive};
use crate::tcp::recv::{self, DataPhase, DdgstPhase, PayloadKind, RecvEnd, RecvPhase, Routed};
use crate::tcp::send;
use crate::tcp::{Completion, NvmeTcpQueue, SendWork};
use crate::{digest, wire};

verus! {

/// The 24 bytes at `at`, followed by their digest exactly where one was
/// negotiated; the next PDU, or data, starts at `next`.
pub open spec fn header_stands(b: Seq<u8>, at: int, hdgst: bool, next: int) -> bool {
    &&& 0 <= at
    &&& next == at + (if hdgst {
        28int
    } else {
        24
    })
    &&& next <= b.len()
    &&& hdgst ==> wire::le32_at(b, at + 24) == digest::crc_of(b.subrange(at, at + 24))
}

/// The response capsule at `at` tells the completion, and ends the stream.
pub open spec fn tells_completion(b: Seq<u8>, at: int, c: Completion, hdgst: bool) -> bool {
    &&& header_stands(b, at, hdgst, b.len() as int)
    &&& b[at] == 5
    &&& (b[at + 1] == 1) == hdgst
    &&& b[at + 1] <= 1
    &&& b[at + 2] == 24
    &&& b[at + 3] == 0
    &&& wire::le32_at(b, at + 4) == b.len() - at
    &&& wire::le32_at(b, at + 8) == c.cqe.result
    &&& wire::le32_at(b, at + 12) == 0
    &&& wire::le16_at(b, at + 16) == c.cqe.sqhd
    &&& wire::le16_at(b, at + 18) == c.cqe.sqid
    &&& wire::le16_at(b, at + 20) == c.cqe.cid
    &&& wire::le16_at(b, at + 22) / 2 == c.cqe.status
    &&& wire::le16_at(b, at + 22) % 2 == 0
}

proof fn lemma_capsule_at(front: Seq<u8>, c: Completion, hdgst: bool)
    requires
        c.cqe.status < 0x8000,
    ensures
        tells_completion(
            front + pdu::capsule_resp(c.cqe, hdgst),
            front.len() as int,
            c,
            hdgst,
        ),
{
    let cap = pdu::capsule_resp(c.cqe, hdgst);
    let b = front + cap;
    let at = front.len() as int;
    pdu::host_reads_capsule_resp(c.cqe, hdgst);
    assert forall|i: int| 0 <= i < cap.len() implies #[trigger] b[at + i] == cap[i] by {}
    assert(b.subrange(at, at + 24) =~= cap.take(24));
}

/// A completion without data is its response capsule.
pub proof fn host_gets_completion(
    q: NvmeTcpQueue,
    ring: Seq<u8>,
    c: Completion,
    hdgst: bool,
    ddgst: bool,
)
    requires
        c.data_len == 0,
        c.cqe.status < 0x8000,
    ensures
        tells_completion(
            send::work_bytes(q, ring, SendWork::Response(c), hdgst, ddgst),
            0,
            c,
            hdgst,
        ),
{
    lemma_capsule_at(seq![], c, hdgst);
    let b = send::work_bytes(q, ring, SendWork::Response(c), hdgst, ddgst);
    assert(b =~= seq![] + pdu::capsule_resp(c.cqe, hdgst));
}

/// Read data reaches the host. One data PDU carries all of it, for the command
/// it answers and from the start of the host's buffer: as many bytes as there
/// are, as they stand in the slot, behind a header that says so and before
/// their digest where one is used. The response capsule follows; it is left out,
/// and the header says that the command succeeded, exactly where the host has
/// switched flow control off and the command did succeed.
#[verifier::spinoff_prover]
#[verifier::rlimit(60)]
pub proof fn host_gets_read_data(
    q: NvmeTcpQueue,
    ring: Seq<u8>,
    c: Completion,
    hdgst: bool,
    ddgst: bool,
)
    requires
        q.wf(),
        c.data_len > 0,
        c.cqe.status < 0x8000,
        c.tag < q.nvme.sqsize,
        send::stageable(q, ring, SendWork::Response(c)),
    ensures
        ({
            let b = send::work_bytes(q, ring, SendWork::Response(c), hdgst, ddgst);
            let held = q.nvme.slots.slots@[c.tag as int].data.bytes_in(q.nvme.slots.pool, ring);
            let start: int = if hdgst {
                28
            } else {
                24
            };
            let after = start + c.data_len + (if ddgst {
                4int
            } else {
                0
            });
            let only_data = q.nvme.sqhd_disabled && c.cqe.status == 0;
            &&& header_stands(b, 0, hdgst, start)
            &&& b[0] == 7
            &&& (b[1] % 2 == 1) == hdgst
            &&& (b[1] / 2 % 2 == 1) == ddgst
            &&& b[1] / 4 % 2 == 1
            &&& (b[1] / 8 % 2 == 1) == only_data
            &&& b[1] / 16 == 0
            &&& b[2] == 24
            &&& b[3] == start
            &&& wire::le32_at(b, 4) == after
            &&& wire::le16_at(b, 8) == c.cqe.cid
            &&& wire::le16_at(b, 10) == 0
            &&& wire::le32_at(b, 12) == 0
            &&& wire::le32_at(b, 16) == c.data_len
            &&& wire::le32_at(b, 20) == 0
            &&& c.data_len <= held.len()
            &&& after <= b.len()
            &&& forall|i: int| 0 <= i < c.data_len ==> #[trigger] b[start + i] == held[i]
            &&& ddgst ==> wire::le32_at(b, after - 4) == digest::crc_of(
                b.subrange(start, start + c.data_len),
            )
            &&& if only_data {
                b.len() == after
            } else {
                tells_completion(b, after, c, hdgst)
            }
        }),
{
    let data = q.nvme.slots.slots@[c.tag as int].data;
    assert(data.wf(q.nvme.slots.pool));
    data.wf_laid_in(q.nvme.slots.pool, ring);
    let b = send::work_bytes(q, ring, SendWork::Response(c), hdgst, ddgst);
    let head = send::data_header(q, c, hdgst, ddgst);
    let load = send::payload(q, ring, c);
    pdu::host_reads_c2h_data(c.cqe.cid, 0, c.data_len, true, send::elided(q, c), hdgst, ddgst);
    let sum: Seq<u8> = if ddgst {
        wire::le_bytes(digest::crc_of(load) as int, 4)
    } else {
        seq![]
    };
    wire::lemma_le4(digest::crc_of(load) as int);
    let tail: Seq<u8> = if send::elided(q, c) {
        seq![]
    } else {
        pdu::capsule_resp(c.cqe, hdgst)
    };
    lemma_joined(head + load, sum, tail);
    lemma_assembled(b, head, load, sum, tail, hdgst, ddgst);
    if !send::elided(q, c) {
        lemma_capsule_at(head + load + sum, c, hdgst);
    }
}

/// The parts of a data PDU, and what follows it, stand where they were put.
proof fn lemma_assembled(
    b: Seq<u8>,
    head: Seq<u8>,
    load: Seq<u8>,
    sum: Seq<u8>,
    tail: Seq<u8>,
    hdgst: bool,
    ddgst: bool,
)
    requires
        b == head + load + sum + tail,
        pdu::host_checks(head, hdgst),
        ddgst ==> sum.len() == 4 && wire::le32_at(sum, 0) == digest::crc_of(load),
        !ddgst ==> sum.len() == 0,
    ensures
        b.len() == head.len() + load.len() + sum.len() + tail.len(),
        header_stands(b, 0, hdgst, head.len() as int),
        forall|i: int| 0 <= i < 4 ==> #[trigger] b[i] == head[i],
        wire::le32_at(b, 4) == wire::le32_at(head, 4),
        wire::le16_at(b, 8) == wire::le16_at(head, 8),
        wire::le16_at(b, 10) == wire::le16_at(head, 10),
        wire::le32_at(b, 12) == wire::le32_at(head, 12),
        wire::le32_at(b, 16) == wire::le32_at(head, 16),
        wire::le32_at(b, 20) == wire::le32_at(head, 20),
        forall|i: int| 0 <= i < load.len() ==> #[trigger] b[head.len() as int + i] == load[i],
        b.subrange(head.len() as int, (head.len() + load.len()) as int) == load,
        ddgst ==> wire::le32_at(b, (head.len() + load.len()) as int) == digest::crc_of(load),
{
    let start = head.len() as int;
    let p = start + load.len();
    assert forall|i: int| 0 <= i < start implies #[trigger] b[i] == head[i] by {}
    assert(b.subrange(start, p) =~= load);
    assert(b.subrange(0, 24) =~= head.take(24));
    if ddgst {
        assert(b[p] == sum[0] && b[p + 1] == sum[1] && b[p + 2] == sum[2] && b[p + 3] == sum[3]);
    }
}

/// Write data that the host keeps is asked for by a ready-to-transfer PDU that
/// names the command, the slot's tag, and which bytes.
pub proof fn host_gets_solicitation(
    q: NvmeTcpQueue,
    ring: Seq<u8>,
    tag: u16,
    cid: u16,
    offset: u32,
    length: u32,
    hdgst: bool,
    ddgst: bool,
)
    ensures
        ({
            let b = send::work_bytes(
                q,
                ring,
                SendWork::R2t { tag, cid, offset, length },
                hdgst,
                ddgst,
            );
            &&& header_stands(b, 0, hdgst, b.len() as int)
            &&& b[0] == 9
            &&& wire::le32_at(b, 4) == b.len()
            &&& wire::le16_at(b, 8) == cid
            &&& wire::le16_at(b, 10) == tag
            &&& wire::le32_at(b, 12) == offset
            &&& wire::le32_at(b, 16) == length
        }),
{
    let b = send::work_bytes(q, ring, SendWork::R2t { tag, cid, offset, length }, hdgst, ddgst);
    pdu::host_reads_r2t(cid, tag, offset, length, hdgst);
    assert(b.subrange(0, 24) =~= b.take(24));
}

/// What is staged goes out whole and in order: the bytes of the items one after
/// the other.
#[verifier::spinoff_prover]
#[verifier::rlimit(60)]
pub proof fn works_go_out_in_order(
    q: NvmeTcpQueue,
    ring: Seq<u8>,
    a: Seq<SendWork>,
    b: Seq<SendWork>,
    hdgst: bool,
    ddgst: bool,
)
    ensures
        send::works_bytes(q, ring, a + b, hdgst, ddgst) == send::works_bytes(q, ring, a, hdgst, ddgst)
            + send::works_bytes(q, ring, b, hdgst, ddgst),
    decreases b.len(),
{
    let front = send::works_bytes(q, ring, a, hdgst, ddgst);
    if b.len() == 0 {
        assert(a + b =~= a);
        lemma_nothing_behind(front);
    } else {
        works_go_out_in_order(q, ring, a, b.drop_last(), hdgst, ddgst);
        assert((a + b).drop_last() =~= a + b.drop_last());
        assert((a + b).last() == b.last());
        lemma_joined(
            front,
            send::works_bytes(q, ring, b.drop_last(), hdgst, ddgst),
            send::work_bytes(q, ring, b.last(), hdgst, ddgst),
        );
    }
}

proof fn lemma_nothing_behind(a: Seq<u8>)
    ensures
        a + Seq::<u8>::empty() == a,
{
    assert(a + Seq::<u8>::empty() =~= a);
}

proof fn lemma_joined(a: Seq<u8>, b: Seq<u8>, c: Seq<u8>)
    ensures
        (a + b) + c == a + (b + c),
{
    assert((a + b) + c =~= a + (b + c));
}

/// A tag is kept until what is sent for it has left: with data until the kernel
/// lets go of the slot's memory, without until the send is done. A solicitation
/// gives no tag back.
pub proof fn tags_are_kept(work: SendWork)
    ensures
        match work {
            SendWork::Response(c) => send::class_of(work) == (if c.data_len > 0 {
                send::Staged::AtNotif(c.tag)
            } else {
                send::Staged::AtCqe(c.tag)
            }),
            SendWork::R2t { .. } => send::class_of(work) == send::Staged::NoRelease,
        },
{
}

/// A whole header that a host sends by the protocol's layout, of `len` bytes and
/// its digest where one is used: a sound one is taken for what it is.
pub open spec fn host_sent(b: Seq<u8>, kind: int, len: int, hdgst: bool) -> bool {
    let full = len + (if hdgst {
        4int
    } else {
        0
    });
    &&& b.len() == full
    &&& b[0] == kind
    &&& (b[1] % 2 == 1) == hdgst
    &&& b[2] == len
    &&& full <= wire::le32_at(b, 4) <= 0x200_0000
    &&& wire::le32_at(b, 4) > full ==> b[3] == full
    &&& hdgst ==> wire::le32_at(b, len) == digest::crc_of(b.take(len))
    &&& b[1] / 2 % 2 == 1 && wire::le32_at(b, 4) > full ==> wire::le32_at(b, 4) >= full + 4
}

/// Payload bytes behind such a header: what its length leaves, less the digest
/// that the flags announce.
pub open spec fn host_payload(b: Seq<u8>) -> int {
    let rest = wire::le32_at(b, 4) - b.len();
    if rest > 0 && b[1] / 2 % 2 == 1 {
        rest - 4
    } else {
        rest
    }
}

/// A command capsule (type 4, 72 bytes) carries the command behind its first
/// eight bytes.
pub proof fn command_capsule_is_understood(
    b: Seq<u8>,
    hdgst: bool,
    r: Result<Option<DecodedPdu>, PduError>,
)
    requires
        host_sent(b, 4, 72, hdgst),
        pdu::is_judged(b, hdgst, r),
    ensures
        r matches Ok(Some(d)) && {
            &&& d.data_len == host_payload(b)
            &&& d.ddgst == (b[1] / 2 % 2 == 1)
            &&& d.kind matches PduKind::CapsuleCmd(sqe) && forall|i: int|
                0 <= i < 64 ==> #[trigger] sqe.bytes@[i] == b[8 + i]
        },
{
    if hdgst {
        assert(b.take(72) =~= b.take(pdu::kind_len(b[0])->0));
    }
    let d = r->Ok_0->0;
    let sqe = d.kind->CapsuleCmd_0;
    assert forall|i: int| 0 <= i < 64 implies #[trigger] sqe.bytes@[i] == b[8 + i] by {
        assert(b.subrange(8, 72)[i] == b[8 + i]);
    }
}

/// A data header (type 6, 24 bytes) names its command, the tag that solicited
/// it, where its bytes belong and how many they are, and whether they are the
/// last.
pub proof fn data_header_is_understood(
    b: Seq<u8>,
    hdgst: bool,
    r: Result<Option<DecodedPdu>, PduError>,
)
    requires
        host_sent(b, 6, 24, hdgst),
        pdu::is_judged(b, hdgst, r),
    ensures
        r matches Ok(Some(d)) && {
            &&& d.data_len == host_payload(b)
            &&& d.ddgst == (b[1] / 2 % 2 == 1)
            &&& d.kind == (PduKind::H2CData {
                cid: wire::le16_at(b, 8) as u16,
                ttag: wire::le16_at(b, 10) as u16,
                offset: wire::le32_at(b, 12) as u32,
                length: wire::le32_at(b, 16) as u32,
                last: b[1] / 4 % 2 == 1,
            })
        },
{
}

/// A termination request (type 2, 24 bytes, without digests) names the fatal
/// error and the field at fault.
pub proof fn host_termination_is_understood(
    b: Seq<u8>,
    hdgst: bool,
    r: Result<Option<DecodedPdu>, PduError>,
)
    requires
        b.len() == 24,
        b[0] == 2,
        b[1] % 2 == 0,
        b[2] == 24,
        24 <= wire::le32_at(b, 4) <= 0x200_0000,
        pdu::is_judged(b, hdgst, r),
    ensures
        r matches Ok(Some(d)) && d.kind == (PduKind::H2CTerm {
            fes: wire::le16_at(b, 8) as u16,
            fei: wire::le32_at(b, 10) as u32,
        }),
{
}

/// A header whose digest does not match is refused with fatal error 3 and the
/// digest that came.
pub proof fn wrong_header_digest_is_refused(
    b: Seq<u8>,
    kind: int,
    len: int,
    r: Result<Option<DecodedPdu>, PduError>,
)
    requires
        (kind == 4 && len == 72) || (kind == 6 && len == 24),
        b.len() == len + 4,
        b[0] == kind,
        b[1] % 2 == 1,
        b[2] == len,
        len + 4 <= wire::le32_at(b, 4) <= 0x200_0000,
        wire::le32_at(b, 4) > len + 4 ==> b[3] == len + 4,
        b[1] / 2 % 2 == 1 && wire::le32_at(b, 4) > len + 4 ==> wire::le32_at(b, 4) >= len + 8,
        wire::le32_at(b, len) != digest::crc_of(b.take(len)),
        pdu::is_judged(b, true, r),
    ensures
        r == Err::<Option<DecodedPdu>, PduError>(
            PduError { fes: 3, fei: wire::le32_at(b, len) as u32 },
        ),
{
}

/// A header that breaks the layout is refused with fatal error 1 and the offset
/// of the field at fault: type, flags, header length, PDU length, data offset.
pub proof fn broken_header_is_refused(
    b: Seq<u8>,
    kind: int,
    len: int,
    hdgst: bool,
    r: Result<Option<DecodedPdu>, PduError>,
)
    requires
        b.len() >= 8,
        (kind == 4 && len == 72) || (kind == 6 && len == 24),
        b[0] == kind,
        pdu::is_judged(b, hdgst, r),
    ensures
        ({
            let full = len + (if hdgst {
                4int
            } else {
                0
            });
            let plen = wire::le32_at(b, 4);
            let at: Option<u32> = if (b[1] % 2 == 1) != hdgst {
                Some(1)
            } else if b[2] != len {
                Some(2)
            } else if plen > 0x200_0000 || plen < full || (b[1] / 2 % 2 == 1 && full < plen < full
                + 4) {
                Some(4)
            } else if plen > full && b[3] != full {
                Some(3)
            } else {
                None
            };
            at matches Some(fei) ==> r == Err::<Option<DecodedPdu>, PduError>(
                PduError { fes: 1, fei },
            )
        }),
{
}

/// A command capsule takes the tag that was freed last, and keeps its command
/// in that slot. With data in the capsule the slot gets room for it and waits
/// for it; a host-side write that keeps its data with the host (byte 39 is
/// 0x5A) is asked for all of it, as many bytes as byte 32 says; any other
/// command is ready. More than 128 KiB ends the connection with fatal error 5,
/// and without a free tag nothing happens yet.
pub proof fn command_is_placed(
    pre: NvmeTcpQueue,
    post: NvmeTcpQueue,
    sqe: Sqe,
    data_len: u32,
    ddgst: bool,
    r: Result<Routed, RecvEnd>,
)
    requires
        pre.wf(),
        post.wf(),
        recv::capsule_routed(pre, post, sqe, data_len, ddgst, None, r),
    ensures
        ({
            let cmd = sqe.bytes@;
            let named = wire::le32_at(cmd, 32);
            let tag = pre.nvme.slots.free_tags@.last();
            let slot = post.nvme.slots.slots@[tag as int];
            let kept = cmd[0] % 4 == 1 && cmd[39] == 0x5A && named > 0;
            let limit = RecvEnd::Term(PduError { fes: 5, fei: 0 });
            if pre.nvme.slots.free_tags@.len() == 0 {
                post == pre && r == Ok::<Routed, RecvEnd>(Routed::NoTag)
            } else if data_len > 0x2_0000 || (data_len == 0 && kept && named > 0x2_0000) {
                r == Err::<Routed, RecvEnd>(limit)
            } else if data_len > 0 {
                &&& slot.state is Receiving
                &&& slot.cmd == sqe
                &&& slot.data_len == data_len
                &&& slot.data.len >= data_len
                &&& post.send == pre.send
                &&& r matches Ok(Routed::Next(Some(RecvPhase::Data(d)))) && {
                    &&& d.tag == tag
                    &&& d.base == 0
                    &&& d.remaining == data_len
                    &&& d.ddgst == ddgst
                    &&& d.kind is InCapsule
                    &&& !d.retained
                    &&& d.crc.sum() == digest::crc_of(seq![])
                }
            } else if kept {
                &&& slot.state is Receiving
                &&& slot.cmd == sqe
                &&& slot.data_len == named
                &&& slot.recv_offset == 0
                &&& slot.data.len >= named
                &&& post.send.work@ == pre.send.work@.push(
                    SendWork::R2t {
                        tag,
                        cid: wire::le16_at(cmd, 2) as u16,
                        offset: 0,
                        length: named as u32,
                    },
                )
                &&& r == Ok::<Routed, RecvEnd>(Routed::Next(None))
            } else {
                &&& slot.state is Ready
                &&& slot.cmd == sqe
                &&& post.send == pre.send
                &&& post.traffic
                &&& r == Ok::<Routed, RecvEnd>(Routed::Next(None))
            }
        }),
{
    let named = wire::le32_at(sqe.bytes@, 32);
    if pre.nvme.slots.free_tags@.len() > 0 {
        let tag = pre.nvme.slots.free_tags@.last();
        let claimed = choose|claimed: NvmeTcpQueue| #[trigger]
            recv::claims(pre, claimed) && recv::placed(
                claimed,
                post,
                tag,
                sqe,
                data_len,
                ddgst,
                None,
                r,
            );
        lemma_pages(data_len as int);
        lemma_pages(named);
    }
}

proof fn lemma_pages(len: int)
    requires
        0 <= len,
    ensures
        crate::pool::pages_for(len) * 4096 >= len,
{
}

/// Solicited data is taken only where the slot expects it: of the command that
/// the slot receives, from where the last data ended, within what was asked
/// for, not empty, and as long as its header says. A tag that does not exist
/// and a length that does not match the header's are fatal error 1, anything
/// else is fatal error 4.
pub proof fn solicited_data_is_checked(
    q: NvmeTcpQueue,
    cid: u16,
    ttag: u16,
    offset: u32,
    length: u32,
    data_len: u32,
)
    requires
        q.wf(),
    ensures
        ({
            let s = q.nvme.slots.slots@[ttag as int];
            let expected = s.state is Receiving && wire::le16_at(s.cmd.bytes@, 2) == cid && offset
                == s.recv_offset && offset + length <= s.data_len && length > 0;
            recv::h2c_fault(q, cid, ttag, offset, length, data_len) == (if ttag >= q.nvme.sqsize {
                Some(PduError { fes: 1, fei: 10 })
            } else if !expected {
                Some(PduError { fes: 4, fei: 0 })
            } else if data_len != length {
                Some(PduError { fes: 1, fei: 16 })
            } else {
                None
            })
        }),
{
}

/// Where in the slot the next payload byte goes.
pub open spec fn landing(q: NvmeTcpQueue, d: DataPhase) -> int {
    let s = q.nvme.slots.slots@[d.tag as int];
    match d.kind {
        PayloadKind::InCapsule => s.data_len - d.remaining,
        PayloadKind::H2c { length, .. } => s.recv_offset + length - d.remaining,
    }
}

/// The transfer is complete with the PDU that `kind` tells of.
pub open spec fn completes(q: NvmeTcpQueue, tag: u16, kind: PayloadKind) -> bool {
    let s = q.nvme.slots.slots@[tag as int];
    match kind {
        PayloadKind::InCapsule => true,
        PayloadKind::H2c { length, .. } => s.recv_offset + length == s.data_len,
    }
}

/// All of a PDU's payload is in. A transfer that is complete makes its command
/// ready, one that is not moves on to where the next PDU continues it; that the
/// host calls it over before is fatal error 4.
pub open spec fn moves_on(
    pre: NvmeTcpQueue,
    post: NvmeTcpQueue,
    tag: u16,
    kind: PayloadKind,
    r: Result<RecvPhase, RecvEnd>,
) -> bool {
    let was = pre.nvme.slots.slots@[tag as int];
    let now = post.nvme.slots.slots@[tag as int];
    &&& post.send == pre.send
    &&& now.cmd == was.cmd
    &&& now.data_len == was.data_len
    &&& now.recv_offset == (match kind {
        PayloadKind::InCapsule => was.recv_offset as int,
        PayloadKind::H2c { length, .. } => was.recv_offset + length,
    })
    &&& if completes(pre, tag, kind) {
        now.state is Ready && post.traffic && r == Ok::<RecvPhase, RecvEnd>(RecvPhase::Header)
    } else {
        &&& now.state is Receiving
        &&& r == (if kind->last {
            Err::<RecvPhase, RecvEnd>(RecvEnd::Term(PduError { fes: 4, fei: 0 }))
        } else {
            Ok(RecvPhase::Header)
        })
    }
}

/// Payload lands in place: the bytes of the window go to the slot, each where it
/// belongs, and no other byte of any slot changes. The digest goes on over
/// them. What is missing of the PDU is awaited; behind the last byte comes its
/// digest, or the transfer moves on.
pub proof fn payload_lands_in_place(
    pre: NvmeTcpQueue,
    post: NvmeTcpQueue,
    d: DataPhase,
    window: Seq<u8>,
    r: Result<RecvPhase, RecvEnd>,
)
    requires
        pre.wf(),
        post.wf(),
        recv::phase_wf(pre, RecvPhase::Data(d)),
        !d.retained,
        recv::data_advanced(pre, post, d, window, r),
    ensures
        ({
            let n: int = if window.len() < d.remaining {
                window.len() as int
            } else {
                d.remaining as int
            };
            let at = landing(pre, d);
            let was = pre.nvme.slots.slots@[d.tag as int].data.bytes(pre.nvme.slots.pool);
            let now = post.nvme.slots.slots@[d.tag as int].data.bytes(post.nvme.slots.pool);
            let crc = if d.ddgst {
                digest::crc_bytes(d.crc.state, window.take(n))
            } else {
                d.crc.state
            };
            &&& now.len() == was.len()
            &&& 0 <= at && at + n <= was.len()
            &&& forall|i: int|
                0 <= i < now.len() ==> #[trigger] now[i] == (if at <= i < at + n {
                    window[i - at]
                } else {
                    was[i]
                })
            &&& forall|t: int|
                0 <= t < pre.nvme.slots.slots@.len() && t != d.tag ==> {
                    &&& post.nvme.slots.slots@[t] == #[trigger] pre.nvme.slots.slots@[t]
                    &&& post.nvme.slots.slots@[t].data.bytes(post.nvme.slots.pool)
                        == pre.nvme.slots.slots@[t].data.bytes(pre.nvme.slots.pool)
                }
            &&& if n < d.remaining {
                r matches Ok(RecvPhase::Data(next)) && {
                    &&& next.tag == d.tag
                    &&& next.kind == d.kind
                    &&& next.remaining == d.remaining - n
                    &&& landing(post, next) == at + n
                    &&& next.ddgst == d.ddgst
                    &&& next.crc.state == crc
                }
            } else if d.ddgst {
                r matches Ok(RecvPhase::Ddgst(g)) && {
                    &&& g.tag == d.tag
                    &&& g.kind == d.kind
                    &&& g.have_len == 0
                    &&& g.expected == crc ^ 0xFFFF_FFFF
                }
            } else {
                moves_on(pre, post, d.tag, d.kind, r)
            }
        }),
{
    let n = recv::least(d.remaining as int, window.len() as int);
    let mid = choose|mid: NvmeTcpQueue|
        #![trigger recv::payload_written(pre, mid, d, window.take(n))]
        {
            &&& recv::payload_written(pre, mid, d, window.take(n))
            &&& if recv::data_after(d, window, n).remaining > 0 {
                post == mid && r == Ok::<RecvPhase, RecvEnd>(
                    RecvPhase::Data(recv::data_after(d, window, n)),
                )
            } else {
                recv::payload_over(mid, post, recv::data_after(d, window, n), r)
            }
        };
    let data = pre.nvme.slots.slots@[d.tag as int].data;
    assert(data.wf(pre.nvme.slots.pool));
    data.wf_laid_out(pre.nvme.slots.pool);
    assert(mid.nvme.slots.slots@[d.tag as int].data == post.nvme.slots.slots@[d.tag as int].data);
    assert(mid.nvme.slots.pool == post.nvme.slots.pool);
    assert forall|t: int| 0 <= t < pre.nvme.slots.slots@.len() && t != d.tag implies {
        &&& post.nvme.slots.slots@[t] == #[trigger] pre.nvme.slots.slots@[t]
        &&& post.nvme.slots.slots@[t].data.bytes(post.nvme.slots.pool)
            == pre.nvme.slots.slots@[t].data.bytes(pre.nvme.slots.pool)
    } by {
        assert(mid.nvme.slots.slots@[t] == pre.nvme.slots.slots@[t]);
    }
}

/// The digest behind a payload decides. One that matches what was received lets
/// the transfer move on. Any other fails the command, and only that: its
/// completion, a data transfer error not to be repeated, is sent for its
/// command on its queue.
pub proof fn digest_decides(
    pre: NvmeTcpQueue,
    post: NvmeTcpQueue,
    g: DdgstPhase,
    window: Seq<u8>,
    r: Result<RecvPhase, RecvEnd>,
)
    requires
        pre.wf(),
        recv::phase_wf(pre, RecvPhase::Ddgst(g)),
        g.have_len == 0,
        window.len() >= 4,
        recv::ddgst_advanced(pre, post, g, window, r),
    ensures
        if wire::le32_at(window, 0) == g.expected {
            moves_on(pre, post, g.tag, g.kind, r)
        } else {
            let slot = pre.nvme.slots.slots@[g.tag as int];
            &&& r == Ok::<RecvPhase, RecvEnd>(RecvPhase::Header)
            &&& post.nvme.slots.slots@[g.tag as int].state is Responding
            &&& post.send.work@.drop_last() == pre.send.work@
            &&& post.send.work@.last() matches SendWork::Response(c) && {
                &&& c.tag == g.tag
                &&& c.data_len == 0
                &&& c.cqe.status == 0x4004
                &&& c.cqe.cid == wire::le16_at(slot.cmd.bytes@, 2)
                &&& c.cqe.sqid == pre.nvme.qid
                &&& c.cqe.result == 0
            }
        },
{
    let bytes = recv::digest_bytes(g, window, 4);
    assert(bytes =~= window.take(4));
    assert(wire::le32_at(bytes, 0) == wire::le32_at(window, 0));
    if wire::le32_at(window, 0) != g.expected {
        assert(post.send.work@.drop_last() =~= pre.send.work@);
    }
}

/// A command that is done is answered: its completion, with as much data as
/// there is, is sent for its tag behind what waits to be sent, and the slot keeps
/// its data until then. Nothing else changes.
pub proof fn done_command_is_answered(
    pre: NvmeTcpQueue,
    post: NvmeTcpQueue,
    tag: u16,
    cqe: crate::nvme::Cqe,
    data_len: u32,
)
    requires
        pre.wf(),
        tag < pre.nvme.sqsize,
        crate::tcp::completed(pre, post, tag, cqe, data_len),
    ensures
        post.send.work@.drop_last() == pre.send.work@,
        post.send.work@.len() > 0,
        post.send.work@.last() matches SendWork::Response(c) && c.tag == tag && c.cqe == cqe
            && c.data_len == data_len,
        post.nvme.slots.slots@[tag as int].state is Responding,
        post.nvme.slots.slots@[tag as int].data == pre.nvme.slots.slots@[tag as int].data,
        post.nvme.slots.pool == pre.nvme.slots.pool,
        forall|t: int|
            0 <= t < pre.nvme.slots.slots@.len() && t != tag ==> #[trigger] post.nvme.slots.slots@[t]
                == pre.nvme.slots.slots@[t],
{
    assert(post.send.work@.drop_last() =~= pre.send.work@);
}

/// A command that has arrived is ready as it came, and counts as traffic.
pub proof fn arrived_command_is_ready(pre: NvmeTcpQueue, post: NvmeTcpQueue, tag: u16, cmd: Sqe)
    requires
        pre.wf(),
        tag < pre.nvme.sqsize,
        crate::tcp::submitted(pre, post, tag, cmd),
    ensures
        post.nvme.slots.slots@[tag as int].state is Ready,
        post.nvme.slots.slots@[tag as int].cmd == cmd,
        post.nvme.slots.slots@[tag as int].data == pre.nvme.slots.slots@[tag as int].data,
        post.nvme.slots.slots@[tag as int].data_len == pre.nvme.slots.slots@[tag as int].data_len,
        post.traffic,
        post.send == pre.send,
{
}

/// A controller expires when its host has been silent for two and a half
/// keep-alive times, and traffic on any of its queues starts the time anew;
/// without a keep-alive time it never does. The host is looked at twice in each.
pub proof fn silent_controllers_expire(
    pre: KeepAlive,
    post: KeepAlive,
    now_ms: u64,
    kato_ms: u32,
    traffic: bool,
    expired: Option<u64>,
)
    requires
        pre.last_ms <= now_ms,
        pre.looked(now_ms, kato_ms, traffic, post, expired),
    ensures
        traffic ==> post.last_ms == now_ms && expired is None,
        !traffic ==> post.last_ms == pre.last_ms,
        kato_ms == 0 ==> expired is None,
        !traffic && kato_ms > 0 && 2 * (now_ms - pre.last_ms) >= 5 * kato_ms ==> expired == Some(
            (now_ms - pre.last_ms) as u64,
        ),
        2 * (now_ms - pre.last_ms) + 1 < 5 * kato_ms ==> expired is None,
        2 * conn::tick_ms(kato_ms) <= kato_ms <= 2 * conn::tick_ms(kato_ms) + 1,
{
}

} // verus!
