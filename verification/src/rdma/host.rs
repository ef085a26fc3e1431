//! What the host sees of an RDMA queue: which of its memory is written and
//! read, and what its commands and completions hold, byte by byte.

use vstd::prelude::*;

use crate::nvme::{Role, Sqe};
use crate::rdma::{engine, reap, PendingRead, QueueError, RdmaQueue, RdmaResp, Wr};
use crate::{sgl, slotq, wire};

verus! {

/// Where the requests of response `k` of a batch start: behind one request for
/// each response before it, and one more for each of those with read data.
pub open spec fn place_of(batch: Seq<RdmaResp>, k: int) -> int
    decreases k,
{
    if k <= 0 {
        0
    } else {
        place_of(batch, k - 1) + (if batch[k - 1].outcome.data_len > 0 {
            2int
        } else {
            1
        })
    }
}

proof fn lemma_place(batch: Seq<RdmaResp>, k: int)
    requires
        0 <= k <= batch.len(),
    ensures
        reap::resp_wrs(batch.subrange(0, k)).len() == place_of(batch, k),
    decreases k,
{
    let part = batch.subrange(0, k);
    if k > 0 {
        lemma_place(batch, k - 1);
        assert(part.drop_last() =~= batch.subrange(0, k - 1));
        assert(part.last() == batch[k - 1]);
    }
}

proof fn lemma_requests(batch: Seq<RdmaResp>, n: int, k: int)
    requires
        0 <= k < n <= batch.len(),
    ensures
        ({
            let all = reap::resp_wrs(batch.subrange(0, n));
            let own = reap::resp_wr(batch[k]);
            &&& all.len() == place_of(batch, n)
            &&& 0 <= place_of(batch, k)
            &&& place_of(batch, k) + own.len() <= all.len()
            &&& forall|i: int|
                0 <= i < own.len() ==> all[place_of(batch, k) + i] == #[trigger] own[i]
        }),
    decreases n,
{
    let part = batch.subrange(0, n);
    let less = batch.subrange(0, n - 1);
    lemma_place(batch, n);
    lemma_place(batch, n - 1);
    assert(part.drop_last() =~= less);
    assert(part.last() == batch[n - 1]);
    if k < n - 1 {
        lemma_requests(batch, n - 1, k);
    }
}

/// Every response of a batch reaches the host. In its turn, its read data is
/// written to the memory that its command names, at the address at byte 24 and
/// under the key at byte 35, as many bytes as there are; behind that its
/// completion is sent, invalidating the key exactly where the descriptor's type
/// at byte 39 asks for it. One doorbell ends the batch, and what was to be
/// posted before stays in front.
pub proof fn responses_reach_host(pre: RdmaQueue, post: RdmaQueue, batch: Seq<RdmaResp>, k: int)
    requires
        reap::responses_posted(pre, post, batch),
        0 <= k < batch.len(),
    ensures
        ({
            let resp = batch[k];
            let cmd = resp.cmd.bytes@;
            let at = pre.posts@.len() + place_of(batch, k);
            let send = Wr::Send {
                tag: resp.tag,
                invalidate: if cmd[39] == 0x4F {
                    Some(wire::le32_at(cmd, 35) as u32)
                } else {
                    None
                },
            };
            &&& post.posts@.subrange(0, pre.posts@.len() as int) == pre.posts@
            &&& post.posts@.len() == pre.posts@.len() + place_of(batch, batch.len() as int) + 1
            &&& post.posts@.last() == Wr::Doorbell
            &&& if resp.outcome.data_len > 0 {
                &&& post.posts@[at] == (Wr::Write {
                    tag: resp.tag,
                    len: resp.outcome.data_len,
                    rkey: wire::le32_at(cmd, 35) as u32,
                    addr: wire::le64_at(cmd, 24) as u64,
                })
                &&& post.posts@[at + 1] == send
            } else {
                post.posts@[at] == send
            }
        }),
{
    let n = batch.len() as int;
    let all = reap::resp_wrs(batch);
    assert(batch.subrange(0, n) =~= batch);
    lemma_requests(batch, n, k);
    let own = reap::resp_wr(batch[k]);
    let p = place_of(batch, k);
    assert(all[p + 0] == own[0]);
    if batch[k].outcome.data_len > 0 {
        assert(all[p + 1] == own[1]);
    }
    assert(post.posts@.subrange(0, pre.posts@.len() as int) =~= pre.posts@);
}

/// The completion entry at `at` as the host reads it: result, queue head, queue,
/// command, and the status above a clear phase bit.
pub open spec fn tells_completion(b: Seq<u8>, at: int, resp: RdmaResp) -> bool {
    let c = resp.outcome.cqe;
    &&& wire::le32_at(b, at) == c.result
    &&& wire::le32_at(b, at + 4) == 0
    &&& wire::le16_at(b, at + 8) == c.sqhd
    &&& wire::le16_at(b, at + 10) == c.sqid
    &&& wire::le16_at(b, at + 12) == c.cid
    &&& wire::le16_at(b, at + 14) / 2 == c.status
    &&& wire::le16_at(b, at + 14) % 2 == 0
}

proof fn lemma_staged_len(buf: Seq<u8>, batch: Seq<RdmaResp>, sqsize: int)
    requires
        buf.len() == sqsize * 16,
        forall|i: int| 0 <= i < batch.len() ==> (#[trigger] batch[i]).tag < sqsize,
    ensures
        reap::resps_staged(buf, batch).len() == buf.len(),
    decreases batch.len(),
{
    if batch.len() > 0 {
        let last = batch.last();
        assert(last == batch[batch.len() - 1]);
        lemma_staged_len(buf, batch.drop_last(), sqsize);
        crate::nvme::cqe_wire_len(last.outcome.cqe);
        assert(last.tag * 16 + 16 <= sqsize * 16) by (nonlinear_arith)
            requires
                last.tag < sqsize,
        ;
    }
}

proof fn lemma_resps_staged(buf: Seq<u8>, batch: Seq<RdmaResp>, sqsize: int, k: int)
    requires
        buf.len() == sqsize * 16,
        forall|i: int| 0 <= i < batch.len() ==> (#[trigger] batch[i]).tag < sqsize,
        0 <= k < batch.len(),
        forall|i: int| k < i < batch.len() ==> (#[trigger] batch[i]).tag != batch[k].tag,
        batch[k].outcome.cqe.status < 0x8000,
    ensures
        tells_completion(reap::resps_staged(buf, batch), batch[k].tag * 16, batch[k]),
    decreases batch.len(),
{
    let less = batch.drop_last();
    let last = batch.last();
    let was = reap::resps_staged(buf, less);
    let now = reap::resps_staged(buf, batch);
    lemma_staged_len(buf, less, sqsize);
    lemma_staged_len(buf, batch, sqsize);
    crate::nvme::cqe_wire_len(last.outcome.cqe);
    let t = batch[k].tag as int;
    let u = last.tag as int;
    assert(last == batch[batch.len() - 1]);
    assert(t * 16 + 16 <= sqsize * 16 && u * 16 + 16 <= sqsize * 16) by (nonlinear_arith)
        requires
            0 <= t < sqsize,
            0 <= u < sqsize,
    ;
    if k == batch.len() - 1 {
        crate::nvme::host_reads_cqe(last.outcome.cqe);
        assert forall|i: int| 0 <= i < 16 implies #[trigger] now[u * 16 + i]
            == last.outcome.cqe.wire()[i] by {}
    } else {
        lemma_resps_staged(buf, less, sqsize, k);
        assert forall|i: int| 0 <= i < 16 implies #[trigger] now[t * 16 + i] == was[t * 16 + i] by {}
    }
}

/// The completion that is sent for a response is its own: the staging that goes
/// out for its tag reads as its completion entry. A tag serves one response at a
/// time.
pub proof fn sent_completion_reads(pre: RdmaQueue, post: RdmaQueue, batch: Seq<RdmaResp>, k: int)
    requires
        pre.wf(),
        reap::responses_posted(pre, post, batch),
        forall|i: int| 0 <= i < batch.len() ==> (#[trigger] batch[i]).tag < pre.nvme.sqsize,
        0 <= k < batch.len(),
        forall|i: int| k < i < batch.len() ==> (#[trigger] batch[i]).tag != batch[k].tag,
        batch[k].outcome.cqe.status < 0x8000,
    ensures
        tells_completion(post.resp_buf@, batch[k].tag * 16, batch[k]),
{
    lemma_resps_staged(pre.resp_buf@, batch, pre.nvme.sqsize as int, k);
}

/// A response holds its tag for each of its requests: two with read data, and
/// one without.
pub proof fn response_counts_requests(
    pre: RdmaQueue,
    post: RdmaQueue,
    batch: Seq<RdmaResp>,
    k: int,
)
    requires
        pre.wf(),
        reap::responses_posted(pre, post, batch),
        forall|i: int| 0 <= i < batch.len() ==> (#[trigger] batch[i]).tag < pre.nvme.sqsize,
        0 <= k < batch.len(),
        forall|i: int| k < i < batch.len() ==> (#[trigger] batch[i]).tag != batch[k].tag,
    ensures
        post.inflight@[batch[k].tag as int] == place_of(batch, k + 1) - place_of(batch, k),
{
    lemma_inflight(pre.inflight@, batch, k);
}

proof fn lemma_inflight(inflight: Seq<u8>, batch: Seq<RdmaResp>, k: int)
    requires
        forall|i: int| 0 <= i < batch.len() ==> (#[trigger] batch[i]).tag < inflight.len(),
        0 <= k < batch.len(),
        forall|i: int| k < i < batch.len() ==> (#[trigger] batch[i]).tag != batch[k].tag,
    ensures
        reap::inflight_after(inflight, batch).len() == inflight.len(),
        reap::inflight_after(inflight, batch)[batch[k].tag as int] == place_of(batch, k + 1)
            - place_of(batch, k),
    decreases batch.len(),
{
    let less = batch.drop_last();
    lemma_inflight_len(inflight, less);
    assert(batch.last() == batch[batch.len() - 1]);
    if k < batch.len() - 1 {
        lemma_inflight(inflight, less, k);
        lemma_place_same(less, batch, k);
        lemma_place_same(less, batch, k + 1);
    }
}

proof fn lemma_inflight_len(inflight: Seq<u8>, batch: Seq<RdmaResp>)
    requires
        forall|i: int| 0 <= i < batch.len() ==> (#[trigger] batch[i]).tag < inflight.len(),
    ensures
        reap::inflight_after(inflight, batch).len() == inflight.len(),
    decreases batch.len(),
{
    if batch.len() > 0 {
        assert(batch.last() == batch[batch.len() - 1]);
        lemma_inflight_len(inflight, batch.drop_last());
    }
}

proof fn lemma_place_same(a: Seq<RdmaResp>, b: Seq<RdmaResp>, k: int)
    requires
        k <= a.len() <= b.len(),
        forall|i: int| 0 <= i < a.len() ==> #[trigger] a[i] == b[i],
    ensures
        place_of(a, k) == place_of(b, k),
    decreases k,
{
    if k > 0 {
        lemma_place_same(a, b, k - 1);
    }
}

/// Host data of a command: its descriptor's 24-bit length at byte 32, and no
/// more than 128 KiB.
pub open spec fn pulled_len(cmd: Seq<u8>) -> int {
    let len = cmd[32] + cmd[33] * 0x100 + cmd[34] * 0x1_0000;
    if len < 0x2_0000 {
        len
    } else {
        0x2_0000
    }
}

/// The command was refused with `status`: a completion of it without data is
/// queued behind the others, and its slot waits for that to be sent.
pub open spec fn refused(pre: RdmaQueue, post: RdmaQueue, tag: u16, sqe: Sqe, status: u16) -> bool {
    let work = post.responses.work@;
    &&& work.len() == pre.responses.work@.len() + 1
    &&& work.drop_last() == pre.responses.work@
    &&& work.last().tag == tag
    &&& work.last().cmd == sqe
    &&& work.last().outcome.data_len == 0
    &&& work.last().outcome.cqe.status == status
    &&& work.last().outcome.cqe.cid == wire::le16_at(sqe.bytes@, 2)
    &&& work.last().outcome.cqe.sqid == pre.nvme.qid
    &&& work.last().outcome.cqe.result == 0
    &&& post.nvme.slots.slots@[tag as int].state is Responding
}

/// A write (opcode 1) or dataset management (9) command whose data is in the
/// host's memory: that is pulled from the address at byte 24, under the key at
/// byte 35, into the slot's lease, before anything else happens to the command.
/// Without data its length is refused as invalid, and while the pool has no
/// lease it waits behind the others.
pub proof fn host_memory_is_pulled(pre: RdmaQueue, post: RdmaQueue, tag: u16, sqe: Sqe)
    requires
        pre.wf(),
        post.wf(),
        tag < pre.nvme.sqsize,
        sqe.bytes@[0] == 1 || sqe.bytes@[0] == 9,
        engine::routed(pre, post, Role::Io, tag, sqe, None),
    ensures
        ({
            let cmd = sqe.bytes@;
            let len = pulled_len(cmd);
            if len == 0 {
                refused(pre, post, tag, sqe, 0x400F) && post.read_batch == pre.read_batch
            } else if engine::pool_full(pre, len) {
                &&& post.pool_wait@.last() == (tag, sqe, None::<u32>)
                &&& post.pool_wait@.drop_last() == pre.pool_wait@
                &&& post.read_batch == pre.read_batch
            } else {
                &&& post.read_batch@.len() == pre.read_batch@.len() + 1
                &&& post.read_batch@.drop_last() == pre.read_batch@
                &&& post.read_batch@.last() == (PendingRead {
                    tag,
                    len: len as u32,
                    rkey: wire::le32_at(cmd, 35) as u32,
                    addr: wire::le64_at(cmd, 24) as u64,
                })
                &&& post.pending_read@[tag as int] == sqe
                &&& post.nvme.slots.slots@[tag as int].data_len == len
                &&& post.nvme.slots.slots@[tag as int].data.owner is Pool
                &&& post.nvme.slots.slots@[tag as int].data.len >= len
                &&& post.nvme.slots.slots@[tag as int].state
                    == pre.nvme.slots.slots@[tag as int].state
            }
        }),
{
    let len = pulled_len(sqe.bytes@);
    assert(sgl::staged(sqe) == len);
    if len == 0 {
        assert(post.responses.work@.drop_last() =~= pre.responses.work@);
    } else if engine::pool_full(pre, len) {
        assert(post.pool_wait@.drop_last() =~= pre.pool_wait@);
    } else {
        assert(post.read_batch@.drop_last() =~= pre.read_batch@);
        let sized = RdmaQueue {
            pending_read: pre.pending_read,
            read_batch: pre.read_batch,
            ..post
        };
        assert(engine::leased(pre, sized, tag, len));
        lemma_leased(pre, sized, tag, len);
    }
}

proof fn lemma_leased(pre: RdmaQueue, post: RdmaQueue, tag: u16, len: int)
    requires
        pre.wf(),
        tag < pre.nvme.sqsize,
        0 < len <= 0x2_0000,
        engine::leased(pre, post, tag, len),
    ensures
        post.nvme.slots.slots@.len() == pre.nvme.slots.slots@.len(),
        post.nvme.slots.slots@[tag as int].data_len == len,
        post.nvme.slots.slots@[tag as int].data.owner is Pool,
        post.nvme.slots.slots@[tag as int].data.len >= len,
        post.nvme.slots.slots@[tag as int].state == pre.nvme.slots.slots@[tag as int].state,
{
    let pages = crate::pool::pages_for(len);
    assert(pages * 4096 >= len);
}

/// The pulls that were collected are posted, each as it is and in order, and one
/// doorbell ends them. None is left.
pub proof fn pulls_are_posted(pre: RdmaQueue, post: RdmaQueue, k: int)
    requires
        reap::reads_posted(pre, post),
        0 <= k < pre.read_batch@.len(),
    ensures
        post.posts@.len() == pre.posts@.len() + pre.read_batch@.len() + 1,
        post.posts@.subrange(0, pre.posts@.len() as int) == pre.posts@,
        post.posts@[pre.posts@.len() + k] == (Wr::Read { read: pre.read_batch@[k] }),
        post.posts@.last() == Wr::Doorbell,
        post.read_batch@.len() == 0,
        post.nvme.slots == pre.nvme.slots,
{
    assert(post.posts@.subrange(0, pre.posts@.len() as int) =~= pre.posts@);
}

/// A pull that completed hands its command to the slot: the command that was
/// being received on that tag is ready now, and its data stays as it is.
pub proof fn pulled_command_is_ready(pre: RdmaQueue, post: RdmaQueue, role: Role, tag: u16)
    requires
        pre.wf(),
        tag < pre.nvme.sqsize,
        pre.nvme.slots.slots@[tag as int].state is Receiving,
        engine::completed(
            pre,
            post,
            role,
            (Wr::Read { read: PendingRead { tag, len: 0, rkey: 0, addr: 0 } }.spec_id()->0, true),
            Ok(false),
        ),
    ensures
        post.nvme.slots.slots@[tag as int].state is Ready,
        post.nvme.slots.slots@[tag as int].cmd == pre.pending_read@[tag as int],
        post.nvme.slots.slots@[tag as int].data == pre.nvme.slots.slots@[tag as int].data,
        post.nvme.slots.slots@[tag as int].data_len == pre.nvme.slots.slots@[tag as int].data_len,
        post.nvme.slots.pool == pre.nvme.slots.pool,
{
    super::wr_id_round_trip(super::WR_READ, tag as u32);
}

/// A write or dataset management command whose data is in its capsule, which is
/// receive buffer `idx` of 4160 bytes: the offset at byte 24 and the length at
/// byte 32 of the command name it, behind the command's 64 bytes. It becomes
/// the slot's data, the command is ready, and the buffer receives again. A
/// descriptor of another type than 1 is refused as such, and one that does not
/// lie within the 4096 bytes there are as of invalid length.
pub proof fn capsule_data_is_taken(pre: RdmaQueue, post: RdmaQueue, tag: u16, sqe: Sqe, idx: u32)
    requires
        pre.wf(),
        post.wf(),
        tag < pre.nvme.sqsize,
        idx < pre.nvme.sqsize,
        sqe.bytes@[0] == 1 || sqe.bytes@[0] == 9,
        engine::routed(pre, post, Role::Io, tag, sqe, Some(idx)),
    ensures
        ({
            let cmd = sqe.bytes@;
            let off = wire::le64_at(cmd, 24);
            let len = wire::le32_at(cmd, 32);
            let slot = post.nvme.slots.slots@[tag as int];
            if cmd[39] != 1 {
                refused(pre, post, tag, sqe, 0x4011) && post.posts@.last() == (Wr::Recv { idx })
            } else if len == 0 || off + len > 4096 {
                refused(pre, post, tag, sqe, 0x400F) && post.posts@.last() == (Wr::Recv { idx })
            } else if engine::pool_full(pre, len) {
                &&& post.pool_wait@.last() == (tag, sqe, Some(idx))
                &&& post.pool_wait@.drop_last() == pre.pool_wait@
                &&& post.posts == pre.posts
            } else {
                &&& slot.state is Ready
                &&& slot.cmd == sqe
                &&& slot.data_len == len
                &&& slot.data.bytes(post.nvme.slots.pool).len() >= len
                &&& forall|i: int|
                    0 <= i < len ==> #[trigger] slot.data.bytes(post.nvme.slots.pool)[i]
                        == pre.recv_buf@[idx * 4160 + 64 + off + i]
                &&& post.posts@ == pre.posts@.push(Wr::Recv { idx })
            }
        }),
{
    let cmd = sqe.bytes@;
    let off = wire::le64_at(cmd, 24);
    let len = wire::le32_at(cmd, 32);
    if cmd[39] != 1 {
        let mid = choose|mid: RdmaQueue| #[trigger]
            RdmaQueue::recv_failed(pre, mid, tag, sqe, 0x4011) && RdmaQueue::recv_posted(
                mid,
                post,
                idx,
            );
        assert(post.responses.work@.drop_last() =~= pre.responses.work@);
    } else if len == 0 || off + len > 4096 {
        let mid = choose|mid: RdmaQueue| #[trigger]
            RdmaQueue::recv_failed(pre, mid, tag, sqe, 0x400F) && RdmaQueue::recv_posted(
                mid,
                post,
                idx,
            );
        assert(post.responses.work@.drop_last() =~= pre.responses.work@);
    } else if engine::pool_full(pre, len) {
        assert(post.pool_wait@.drop_last() =~= pre.pool_wait@);
    } else {
        let data = super::payload(pre.recv_buf@, idx as int, sqe);
        let (sized, filled, ready) = choose|sized: RdmaQueue, filled: RdmaQueue, ready: RdmaQueue|
            {
                &&& #[trigger] engine::leased(pre, sized, tag, len)
                &&& filled == sized.with_slots(filled.nvme.slots)
                &&& slotq::slot_written(sized.nvme.slots, filled.nvme.slots, tag, 0, data)
                &&& #[trigger] engine::submitted(filled, ready, tag, sqe)
                &&& RdmaQueue::recv_posted(ready, post, idx)
            };
        lemma_leased(pre, sized, tag, len);
        let slot = post.nvme.slots.slots@[tag as int];
        let pool = post.nvme.slots.pool;
        assert(slot.data.wf(pool));
        slot.data.wf_laid_out(pool);
        assert(idx * 4160 + 4160 <= pre.nvme.sqsize * 4160) by (nonlinear_arith)
            requires
                idx < pre.nvme.sqsize,
        ;
        assert(pre.recv_buf@.len() == pre.nvme.sqsize * 4160);
        assert(data.len() == len);
        assert forall|i: int| 0 <= i < len implies #[trigger] slot.data.bytes(pool)[i]
            == pre.recv_buf@[idx * 4160 + 64 + off + i] by {
            assert(data[i] == pre.recv_buf@[idx * 4160 + 64 + off + i]);
        }
    }
}

/// Any other command on an IO queue, and every command on an admin queue, is
/// ready at once, as it came.
pub proof fn other_commands_are_ready(
    pre: RdmaQueue,
    post: RdmaQueue,
    role: Role,
    tag: u16,
    sqe: Sqe,
    idx: Option<u32>,
)
    requires
        pre.wf(),
        tag < pre.nvme.sqsize,
        role is Admin || (sqe.bytes@[0] != 1 && sqe.bytes@[0] != 9),
        engine::routed(pre, post, role, tag, sqe, idx),
    ensures
        post.nvme.slots.slots@[tag as int].state is Ready,
        post.nvme.slots.slots@[tag as int].cmd == sqe,
        post == pre.with_slots(post.nvme.slots),
{
}

/// The command in receive buffer `idx` is the first 64 of its 4160 bytes.
pub proof fn command_is_read(q: RdmaQueue, idx: u32, sqe: Sqe)
    requires
        q.wf(),
        idx < q.nvme.sqsize,
        engine::command_at(q, idx, sqe),
    ensures
        forall|i: int| 0 <= i < 64 ==> #[trigger] sqe.bytes@[i] == q.recv_buf@[idx * 4160 + i],
{
    assert(idx * 4160 + 4160 <= q.nvme.sqsize * 4160) by (nonlinear_arith)
        requires
            idx < q.nvme.sqsize,
    ;
    assert(q.recv_buf@.len() == q.nvme.sqsize * 4160);
    assert forall|i: int| 0 <= i < 64 implies #[trigger] sqe.bytes@[i] == q.recv_buf@[idx * 4160
        + i] by {
        assert(super::capsule(q.recv_buf@, idx as int).subrange(0, 64)[i] == q.recv_buf@[idx * 4160
            + i]);
    }
}

/// The data of a Connect is the 1024 bytes behind its command, or where its
/// descriptor names the host's memory (type 4 in the upper half of byte 39), is
/// pulled from there, and no more than 4096 bytes of it. Either way the buffer
/// receives again.
pub proof fn connect_data_is_found(
    pre: RdmaQueue,
    post: RdmaQueue,
    idx: u32,
    sqe: Sqe,
    data: Option<Seq<u8>>,
)
    requires
        pre.wf(),
        idx < pre.nvme.sqsize,
        reap::connect_taken(pre, post, idx, sqe, data),
    ensures
        ({
            let cmd = sqe.bytes@;
            let named = cmd[32] + cmd[33] * 0x100 + cmd[34] * 0x1_0000;
            if cmd[39] / 16 == 4 {
                &&& data is None
                &&& post.posts@ == pre.posts@.push(Wr::Recv { idx }).push(
                    Wr::ReadConnect {
                        len: if named < 4096 {
                            named as u32
                        } else {
                            4096
                        },
                        rkey: wire::le32_at(cmd, 35) as u32,
                        addr: wire::le64_at(cmd, 24) as u64,
                    },
                ).push(Wr::Doorbell)
            } else {
                &&& data is Some
                &&& data->0.len() == 1024
                &&& forall|i: int|
                    0 <= i < 1024 ==> #[trigger] data->0[i] == pre.recv_buf@[idx * 4160 + 64 + i]
                &&& post.posts@ == pre.posts@.push(Wr::Recv { idx })
            }
        }),
{
    if sqe.bytes@[39] / 16 != 4 {
        assert(idx * 4160 + 4160 <= pre.nvme.sqsize * 4160) by (nonlinear_arith)
            requires
                idx < pre.nvme.sqsize,
        ;
        assert(pre.recv_buf@.len() == pre.nvme.sqsize * 4160);
        assert forall|i: int| 0 <= i < 1024 implies #[trigger] data->0[i] == pre.recv_buf@[idx
            * 4160 + 64 + i] by {
            assert(super::capsule(pre.recv_buf@, idx as int)[64 + i] == pre.recv_buf@[idx * 4160
                + (64 + i)]);
        }
    }
}

/// The completion of a request tells what was requested: requests of different
/// kinds, or on different tags or buffers, have different ids.
pub proof fn ids_tell_requests_apart(a: Wr, b: Wr)
    requires
        a.spec_id() is Some,
        a.spec_id() == b.spec_id(),
    ensures
        match a {
            Wr::Recv { idx } => b == (Wr::Recv { idx }),
            Wr::Read { read } => (b matches Wr::Read { read: other } && other.tag == read.tag) || (
            b is ReadConnect && read.tag == 0),
            Wr::ReadConnect { .. } => b is ReadConnect || (b matches Wr::Read { read } && read.tag
                == 0),
            Wr::Write { tag, .. } => b matches Wr::Write { tag: other, .. } && other == tag,
            Wr::Send { tag, .. } => b matches Wr::Send { tag: other, .. } && other == tag,
            Wr::Doorbell => false,
        },
{
}

/// A command that is done is answered: its response, for its tag, its command
/// and its outcome, goes out when the queue next wakes for one, behind the
/// request that woke it, and its data is left as it is until then.
pub proof fn done_command_is_answered(
    pre: RdmaQueue,
    queued: RdmaQueue,
    post: RdmaQueue,
    role: Role,
    first: RdmaResp,
    resp: RdmaResp,
    r: Result<bool, reap::RunError>,
)
    requires
        pre.wf(),
        resp.tag < pre.nvme.sqsize,
        reap::response_queued(pre, queued, resp),
        reap::run_stepped(queued, post, role, reap::RunEvent::Response { first }, r),
    ensures
        r == Ok::<bool, reap::RunError>(false),
        queued.nvme.slots.slots@[resp.tag as int].state is Responding,
        queued.nvme.slots.slots@[resp.tag as int].data == pre.nvme.slots.slots@[resp.tag as int].data,
        queued.nvme.slots.pool == pre.nvme.slots.pool,
        post.posts@.len() >= 2,
        post.posts@.last() == Wr::Doorbell,
        post.posts@[post.posts@.len() - 2] == (Wr::Send {
            tag: resp.tag,
            invalidate: if resp.cmd.bytes@[39] == 0x4F {
                Some(wire::le32_at(resp.cmd.bytes@, 35) as u32)
            } else {
                None
            },
        }),
        resp.outcome.data_len > 0 ==> post.posts@.len() >= 3 && post.posts@[post.posts@.len() - 3]
            == (Wr::Write {
            tag: resp.tag,
            len: resp.outcome.data_len,
            rkey: wire::le32_at(resp.cmd.bytes@, 35) as u32,
            addr: wire::le64_at(resp.cmd.bytes@, 24) as u64,
        }),
{
    let batch = seq![first] + queued.responses.work@;
    let drained = choose|drained: RdmaQueue|
        {
            &&& drained.responses.work@.len() == 0
            &&& drained.responses.closed == queued.responses.closed
            &&& drained == (RdmaQueue { responses: drained.responses, ..queued })
            &&& #[trigger] reap::responses_posted(drained, post, batch)
        };
    let k = batch.len() - 1;
    assert(batch[k] == resp);
    lemma_place(batch, k);
    responses_reach_host(drained, post, batch, k);
}

/// A host is taken for gone when it has been silent for longer than two
/// keep-alive times and five seconds, never where keep-alive is off, and an IO
/// queue's when its controller is gone. The watchdog looks every second tick.
pub proof fn silent_hosts_are_dropped(
    pre: RdmaQueue,
    post: RdmaQueue,
    h: reap::HostState,
    gone: bool,
)
    requires
        reap::watched(pre, post, h, gone),
        pre.watchdog_tick < u32::MAX,
    ensures
        post.watchdog_tick == pre.watchdog_tick + 1,
        pre.watchdog_tick % 2 == 0 ==> !gone,
        pre.watchdog_tick % 2 == 1 ==> gone == (match h {
            reap::HostState::Admin { kato_ms, silent_ms } => kato_ms > 0 && silent_ms > 2 * kato_ms
                + 5000,
            reap::HostState::Io { cntlid, known } => cntlid > 0 && !known,
        }),
{
}

/// The pool of an admin queue holds the largest reply for every slot; that of an
/// IO queue is as large as configured.
pub proof fn pools_are_sized(qid: u16, sqsize: u16, queue_buf: int, admin_max: int)
    requires
        sqsize > 0,
    ensures
        qid == 0 ==> super::pool_bytes(qid, sqsize, queue_buf, admin_max) == sqsize * admin_max,
        qid != 0 ==> super::pool_bytes(qid, sqsize, queue_buf, admin_max) == queue_buf,
{
}

/// Before a queue serves, a receive or a pull is awaited: what is found is the
/// first completion of that kind, by the number in its id; all before it
/// succeeded and were of other kinds, and a failed one ends the wait.
pub proof fn awaited_completion_is_found(
    pre: RdmaQueue,
    post: RdmaQueue,
    kind: u64,
    comps: Seq<(u64, bool)>,
    r: Result<Option<u32>, QueueError>,
) -> (at: int)
    requires
        kind == super::WR_RECV || kind == super::WR_READ,
        reap::boot_awaited(pre, post, kind, comps, r),
    ensures
        0 <= at <= comps.len(),
        forall|i: int|
            0 <= i < at ==> (#[trigger] comps[i]).1 && super::kind_of(comps[i].0) != kind,
        r matches Ok(Some(low)) ==> at < comps.len() && comps[at].1 && super::kind_of(comps[at].0)
            == kind && low == super::low_of(comps[at].0) as u32,
        r == Ok::<Option<u32>, QueueError>(None) ==> at == comps.len(),
        at < comps.len() && !comps[at].1 ==> r == Err::<Option<u32>, QueueError>(
            QueueError::PeerGone,
        ),
        r is Err ==> at < comps.len(),
{
    let trace = choose|trace: Seq<RdmaQueue>|
        {
            &&& #[trigger] reap::boot_passed(trace, pre, kind, comps)
            &&& if r == Ok::<Option<u32>, QueueError>(None) {
                trace.len() == comps.len() + 1 && trace.last() == post
            } else {
                trace.len() <= comps.len() && reap::boot_step(
                    trace.last(),
                    post,
                    kind,
                    comps[trace.len() - 1],
                    r,
                )
            }
        };
    let at = trace.len() - 1;
    assert forall|i: int| 0 <= i < at implies (#[trigger] comps[i]).1 && super::kind_of(comps[i].0)
        != kind by {
        assert(reap::boot_step(trace[i], trace[i + 1], kind, comps[i], Ok(None)));
    }
    at
}

} // verus!
