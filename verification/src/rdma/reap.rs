//! The reap loop's work: process a batch of completions, post what it
//! collected, bootstrap the queue from the Connect capsule, watch for a
//! vanished host.

use vstd::prelude::*;

use crate::nvme::{Outcome, Role, Sqe};
use crate::sgl::{invalidate_rkey_for, keyed, parse_keyed_sgl, staged_len};
use crate::slotq::SlotState;
use crate::wrstats::RdmaWrStats;
use super::{
    PendingRead, QueueError, RdmaQueue, RdmaResp, Wr, CAPSULE_LEN, CONNECT_DATA_LEN, CQE_BYTES,
    ICD_LEN,
};

verus! {

/// `trace` runs through the states after each of the first `trace.len() - 1`
/// completions, none of which ended the batch.
pub open spec fn comps_handled(
    trace: Seq<RdmaQueue>,
    pre: RdmaQueue,
    role: Role,
    comps: Seq<(u64, bool)>,
) -> bool {
    &&& 0 < trace.len() <= comps.len() + 1
    &&& trace[0] == pre
    &&& forall|i: int|
        0 <= i < trace.len() - 1 ==> super::engine::completed(
            #[trigger] trace[i],
            trace[i + 1],
            role,
            comps[i],
            Ok(false),
        )
}

/// Bytes of pool lease the deferred command `w` needs.
pub open spec fn wait_len(w: (u16, Sqe, Option<u32>)) -> int {
    if w.2 is Some {
        crate::sgl::inline_sgl(w.1).1 as int
    } else {
        crate::sgl::staged(w.1) as int
    }
}

/// The oldest deferred command was staged and taken off the wait list.
pub open spec fn wait_staged(pre: RdmaQueue, post: RdmaQueue) -> bool {
    let w = pre.pool_wait@[0];
    let before = RdmaQueue { pool_wait: pre.pool_wait, ..post };
    &&& pre.pool_wait@.len() > 0
    &&& pre.nvme.slots.slots@[w.0 as int].state is Receiving
    &&& !super::engine::pool_full(pre, wait_len(w))
    &&& post.pool_wait@ == pre.pool_wait@.subrange(1, pre.pool_wait@.len() as int)
    &&& match w.2 {
        Some(idx) => super::engine::inline_staged(pre, before, w.0, w.1, idx),
        None => super::engine::write_staged(pre, before, w.0, w.1, wait_len(w)),
    }
}

/// `trace` stages deferred commands, oldest first, until none is left or the
/// oldest finds no lease. A deferred command whose slot is no longer receiving
/// is an error.
pub open spec fn waits_retried(
    trace: Seq<RdmaQueue>,
    pre: RdmaQueue,
    post: RdmaQueue,
    r: Result<(), QueueError>,
) -> bool {
    &&& 0 < trace.len()
    &&& trace[0] == pre
    &&& trace.last() == post
    &&& forall|i: int|
        0 <= i < trace.len() - 1 ==> wait_staged(#[trigger] trace[i], trace[i + 1])
    &&& match r {
        Ok(()) => post.pool_wait@.len() == 0 || super::engine::pool_full(post, wait_len(post.pool_wait@[0])),
        Err(e) => e is Stray && post.pool_wait@.len() > 0
            && !(post.nvme.slots.slots@[post.pool_wait@[0].0 as int].state is Receiving),
    }
}

/// The oldest parked command got the next free tag and was routed.
pub open spec fn unparked(pre: RdmaQueue, post: RdmaQueue, role: Role) -> bool {
    &&& pre.parked@.len() > 0
    &&& exists|on: RdmaQueue, popped: RdmaQueue|
        {
            &&& #[trigger] super::engine::claimed(pre, on, pre.nvme.slots.free_tags@.last())
            &&& popped.parked@ == pre.parked@.subrange(1, pre.parked@.len() as int)
            &&& popped == (RdmaQueue { parked: popped.parked, ..on })
            &&& #[trigger] super::engine::routed(
                popped,
                post,
                role,
                pre.nvme.slots.free_tags@.last(),
                pre.parked@[0].0,
                pre.parked@[0].1,
            )
        }
}

/// `trace` routes parked commands, oldest first, until none is left or no tag
/// is free.
pub open spec fn parked_drained(
    trace: Seq<RdmaQueue>,
    pre: RdmaQueue,
    post: RdmaQueue,
    role: Role,
) -> bool {
    &&& 0 < trace.len()
    &&& trace[0] == pre
    &&& trace.last() == post
    &&& forall|i: int|
        0 <= i < trace.len() - 1 ==> unparked(#[trigger] trace[i], trace[i + 1], role)
    &&& post.parked@.len() == 0 || post.nvme.slots.free_tags@.len() == 0
}

/// The pulls of `batch`, in order.
pub open spec fn read_wrs(batch: Seq<PendingRead>) -> Seq<Wr> {
    Seq::new(batch.len(), |i: int| Wr::Read { read: batch[i] })
}

/// Every collected host-data pull was posted on one doorbell.
pub open spec fn reads_posted(pre: RdmaQueue, post: RdmaQueue) -> bool {
    if pre.read_batch@.len() == 0 {
        post == pre
    } else {
        let n = pre.read_batch@.len() as int;
        let w = pre.wr();
        &&& post.posts@ == pre.posts@ + read_wrs(pre.read_batch@).push(Wr::Doorbell)
        &&& post.read_batch@.len() == 0
        &&& post == (RdmaQueue {
            posts: post.posts,
            read_batch: post.read_batch,
            ..pre.with_wr(
                RdmaWrStats {
                    read: w.read.with_posted(n),
                    sq_doorbells: crate::queue::wadd(w.sq_doorbells, 1),
                    read_db: w.read_db.with(n),
                    ..w
                },
            )
        })
    }
}

/// After the completions: deferred writes first, then parked commands, then
/// the collected pulls on one doorbell.
pub open spec fn tail_done(pre: RdmaQueue, post: RdmaQueue, role: Role) -> bool {
    exists|waits: Seq<RdmaQueue>, staged: RdmaQueue, parks: Seq<RdmaQueue>, drained: RdmaQueue|
        {
            &&& #[trigger] waits_retried(waits, pre, staged, Ok(()))
            &&& #[trigger] parked_drained(parks, staged, drained, role)
            &&& reads_posted(drained, post)
        }
}

/// The queue after a poll returned `comps`, before any is handled.
pub open spec fn polled(q: RdmaQueue, comps: Seq<(u64, bool)>) -> RdmaQueue {
    if comps.len() == 0 {
        q
    } else {
        q.with_wr(
            RdmaWrStats {
                poll_batches: crate::queue::wadd(q.wr().poll_batches, 1),
                poll: q.wr().poll.with(comps.len() as int),
                ..q.wr()
            },
        )
    }
}

/// What processing the completions `comps` does. `Ok(true)` says the peer is
/// gone.
pub open spec fn processed(
    pre: RdmaQueue,
    post: RdmaQueue,
    role: Role,
    comps: Seq<(u64, bool)>,
    r: Result<bool, QueueError>,
) -> bool {
    exists|trace: Seq<RdmaQueue>|
        {
            &&& #[trigger] comps_handled(trace, polled(pre, comps), role, comps)
            &&& match r {
                Ok(false) => trace.len() == comps.len() + 1 && tail_done(trace.last(), post, role),
                Ok(true) => trace.len() <= comps.len() && super::engine::completed(
                    trace.last(),
                    post,
                    role,
                    comps[trace.len() - 1],
                    r,
                ),
                Err(e) => {
                    ||| trace.len() <= comps.len() && super::engine::completed(
                        trace.last(),
                        post,
                        role,
                        comps[trace.len() - 1],
                        r,
                    )
                    ||| trace.len() == comps.len() + 1 && exists|waits: Seq<RdmaQueue>| #[trigger]
                        waits_retried(waits, trace.last(), post, Err(e))
                },
            }
        }
}

impl RdmaQueue {
    /// Post every collected host-data pull on one doorbell.
    pub fn post_reads_batch(&mut self)
        requires
            old(self).wf(),
        ensures
            final(self).wf(),
            reads_posted(*old(self), *final(self)),
    {
        let ghost pre = *self;
        if self.read_batch.len() == 0 {
            return;
        }
        let n: usize = self.read_batch.len();
        let mut i: usize = 0;
        assert(read_wrs(pre.read_batch@).subrange(0, 0) =~= seq![]);
        assert(self.posts@ =~= pre.posts@ + read_wrs(pre.read_batch@).subrange(0, 0));
        while i < n
            invariant
                i <= n,
                n == pre.read_batch.len(),
                *self == (RdmaQueue { posts: self.posts, ..pre }),
                self.posts@ == pre.posts@ + read_wrs(pre.read_batch@).subrange(0, i as int),
            decreases n - i,
        {
            let read: PendingRead = self.read_batch[i];
            self.posts.push(Wr::Read { read });
            i += 1;
            assert(read_wrs(pre.read_batch@).subrange(0, i as int) =~= read_wrs(
                pre.read_batch@,
            ).subrange(0, i - 1).push(Wr::Read { read }));
            assert(self.posts@ =~= pre.posts@ + read_wrs(pre.read_batch@).subrange(0, i as int));
        }
        assert(read_wrs(pre.read_batch@).subrange(0, n as int) =~= read_wrs(pre.read_batch@));
        self.posts.push(Wr::Doorbell);
        assert(self.posts@ =~= pre.posts@ + read_wrs(pre.read_batch@).push(Wr::Doorbell));
        let mut w = self.wr_now();
        w.read.post_n(n as u64);
        w.doorbell();
        w.read_db.record(n);
        self.set_wr(w);
        self.read_batch.clear();
    }

    /// Stage deferred commands, oldest first, while the pool has leases.
    fn retry_waits(&mut self) -> (r: Result<(), QueueError>)
        requires
            old(self).wf(),
        ensures
            final(self).wf(),
            final(self).nvme.sqsize == old(self).nvme.sqsize,
            exists|trace: Seq<RdmaQueue>| #[trigger]
                waits_retried(trace, *old(self), *final(self), r),
    {
        let ghost pre = *self;
        let ghost mut trace: Seq<RdmaQueue> = seq![*self];
        while self.pool_wait.len() > 0
            invariant_except_break
                self.wf(),
                self.nvme.sqsize == pre.nvme.sqsize,
                pre == *old(self),
                0 < trace.len(),
                trace[0] == pre,
                trace.last() == *self,
                forall|i: int|
                    0 <= i < trace.len() - 1 ==> wait_staged(#[trigger] trace[i], trace[i + 1]),
            ensures
                self.wf(),
                self.nvme.sqsize == pre.nvme.sqsize,
                waits_retried(trace, pre, *self, Ok(())),
            decreases self.pool_wait@.len(),
        {
            let ghost before = *self;
            let (tag, sqe, held) = self.pool_wait[0];
            assert((tag, sqe, held) == before.pool_wait@[0]);
            if !matches!(self.nvme.slots.slot(tag).state(), SlotState::Receiving) {
                assert(waits_retried(trace, pre, *self, Err(QueueError::Stray)));
                return Err(QueueError::Stray);
            }
            let staged: bool = match held {
                Some(idx) => self.try_stage_inline(tag, sqe, idx),
                None => {
                    let len: usize = staged_len(&sqe);
                    self.try_stage_write(tag, sqe, len)
                },
            };
            if !staged {
                break ;
            }
            let ghost mid = *self;
            assert(mid.pool_wait == before.pool_wait);
            let _ = self.pool_wait.pop_front();
            proof {
                assert(RdmaQueue { pool_wait: before.pool_wait, ..*self } == mid);
                assert(wait_staged(before, *self));
                let longer = trace.push(*self);
                assert forall|i: int| 0 <= i < longer.len() - 1 implies wait_staged(
                    #[trigger] longer[i],
                    longer[i + 1],
                ) by {
                    if i < trace.len() - 1 {
                        assert(longer[i] == trace[i] && longer[i + 1] == trace[i + 1]);
                    }
                }
                trace = longer;
            }
        }
        Ok(())
    }

    /// Route parked commands, oldest first, while tags are free.
    fn drain_parked(&mut self, role: Role)
        requires
            old(self).wf(),
        ensures
            final(self).wf(),
            final(self).nvme.sqsize == old(self).nvme.sqsize,
            exists|trace: Seq<RdmaQueue>| #[trigger]
                parked_drained(trace, *old(self), *final(self), role),
    {
        let ghost pre = *self;
        let ghost mut trace: Seq<RdmaQueue> = seq![*self];
        while self.parked.len() > 0
            invariant_except_break
                self.wf(),
                self.nvme.sqsize == pre.nvme.sqsize,
                pre == *old(self),
                0 < trace.len(),
                trace[0] == pre,
                trace.last() == *self,
                forall|i: int|
                    0 <= i < trace.len() - 1 ==> unparked(#[trigger] trace[i], trace[i + 1], role),
            ensures
                self.wf(),
                self.nvme.sqsize == pre.nvme.sqsize,
                parked_drained(trace, pre, *self, role),
            decreases self.parked@.len(),
        {
            let ghost before = *self;
            let tag: u16 = match self.nvme.slots.claim_tag() {
                Some(tag) => tag,
                None => {
                    break ;
                },
            };
            let ghost on = *self;
            assert(super::engine::claimed(before, on, tag));
            let front = self.parked.pop_front();
            let ghost popped = *self;
            match front {
                Some((sqe, held)) => {
                    assert((sqe, held) == before.parked@[0]);
                    self.route_cmd(role, tag, sqe, held);
                },
                None => {},
            }
            proof {
                assert(super::engine::routed(
                    popped,
                    *self,
                    role,
                    before.nvme.slots.free_tags@.last(),
                    before.parked@[0].0,
                    before.parked@[0].1,
                ));
                assert(unparked(before, *self, role));
                let longer = trace.push(*self);
                assert forall|i: int| 0 <= i < longer.len() - 1 implies unparked(
                    #[trigger] longer[i],
                    longer[i + 1],
                    role,
                ) by {
                    if i < trace.len() - 1 {
                        assert(longer[i] == trace[i] && longer[i + 1] == trace[i + 1]);
                    }
                }
                trace = longer;
            }
        }
    }
}

impl RdmaQueue {
    /// Process a batch of completions, oldest first. `Ok(true)` says the peer
    /// is gone and the queue should stop.
    pub fn process_cqes(&mut self, role: Role, comps: &Vec<(u64, bool)>) -> (r: Result<
        bool,
        QueueError,
    >)
        requires
            old(self).wf(),
        ensures
            final(self).wf(),
            final(self).nvme.sqsize == old(self).nvme.sqsize,
            processed(*old(self), *final(self), role, comps@, r),
    {
        let ghost pre = *self;
        if comps.len() > 0 {
            let mut w = self.wr_now();
            w.poll_batches = w.poll_batches.wrapping_add(1);
            w.poll.record(comps.len());
            self.set_wr(w);
        }
        assert(*self == polled(pre, comps@));
        let ghost start = *self;
        let ghost mut trace: Seq<RdmaQueue> = seq![*self];
        let mut i: usize = 0;
        while i < comps.len()
            invariant
                i <= comps@.len(),
                self.wf(),
                self.nvme.sqsize == pre.nvme.sqsize,
                pre == *old(self),
                start == polled(pre, comps@),
                trace.len() == i + 1,
                trace.last() == *self,
                comps_handled(trace, start, role, comps@),
            decreases comps@.len() - i,
        {
            let (id, ok) = comps[i];
            let ghost before = *self;
            let r = self.on_completion(role, id, ok);
            assert(super::engine::completed(before, *self, role, comps@[i as int], r));
            match r {
                Ok(false) => {
                    proof {
                        let longer = trace.push(*self);
                        assert forall|k: int| 0 <= k < longer.len() - 1 implies super::engine::completed(
                            #[trigger] longer[k],
                            longer[k + 1],
                            role,
                            comps@[k],
                            Ok(false),
                        ) by {
                            if k < trace.len() - 1 {
                                assert(longer[k] == trace[k] && longer[k + 1] == trace[k + 1]);
                            }
                        }
                        trace = longer;
                    }
                },
                _ => {
                    assert(processed(pre, *self, role, comps@, r));
                    return r;
                },
            }
            i += 1;
        }
        let ghost handled = *self;
        let retried = self.retry_waits();
        match retried {
            Ok(_) => {},
            Err(e) => {
                assert(processed(pre, *self, role, comps@, Err(e)));
                return Err(e);
            },
        }
        let ghost staged = *self;
        self.drain_parked(role);
        let ghost drained = *self;
        self.post_reads_batch();
        proof {
            let waits = choose|t: Seq<RdmaQueue>| #[trigger]
                waits_retried(t, handled, staged, retried);
            let parks = choose|t: Seq<RdmaQueue>| #[trigger]
                parked_drained(t, staged, drained, role);
            assert(waits_retried(waits, handled, staged, Ok(())));
            assert(parked_drained(parks, staged, drained, role));
            assert(tail_done(handled, *self, role));
            assert(processed(pre, *self, role, comps@, Ok(false)));
        }
        Ok(false)
    }
}

/// The requests that carry response `resp` to the host: its read data first,
/// if it has any, and the completion entry.
pub open spec fn resp_wr(resp: RdmaResp) -> Seq<Wr> {
    let dst = crate::sgl::keyed_sgl(resp.cmd);
    let send = Wr::Send { tag: resp.tag, invalidate: crate::sgl::invalidate_rkey(resp.cmd) };
    if resp.outcome.data_len > 0 {
        seq![
            Wr::Write {
                tag: resp.tag,
                len: resp.outcome.data_len,
                rkey: dst.rkey,
                addr: dst.addr,
            },
            send,
        ]
    } else {
        seq![send]
    }
}

/// The requests of a batch, in order.
pub open spec fn resp_wrs(batch: Seq<RdmaResp>) -> Seq<Wr>
    decreases batch.len(),
{
    if batch.len() == 0 {
        seq![]
    } else {
        resp_wrs(batch.drop_last()) + resp_wr(batch.last())
    }
}

/// How many responses of a batch carry read data.
pub open spec fn data_resps(batch: Seq<RdmaResp>) -> nat
    decreases batch.len(),
{
    if batch.len() == 0 {
        0
    } else {
        data_resps(batch.drop_last()) + (if batch.last().outcome.data_len > 0 {
            1nat
        } else {
            0nat
        })
    }
}

/// The response staging after a batch: each completion entry in its tag's
/// place.
pub open spec fn resps_staged(buf: Seq<u8>, batch: Seq<RdmaResp>) -> Seq<u8>
    decreases batch.len(),
{
    if batch.len() == 0 {
        buf
    } else {
        crate::wire::put(
            resps_staged(buf, batch.drop_last()),
            batch.last().tag * CQE_BYTES,
            batch.last().outcome.cqe.wire(),
        )
    }
}

/// Outstanding requests per tag after a batch.
pub open spec fn inflight_after(inflight: Seq<u8>, batch: Seq<RdmaResp>) -> Seq<u8>
    decreases batch.len(),
{
    if batch.len() == 0 {
        inflight
    } else {
        inflight_after(inflight, batch.drop_last()).update(
            batch.last().tag as int,
            if batch.last().outcome.data_len > 0 {
                2u8
            } else {
                1u8
            },
        )
    }
}

/// Every response of `batch` was posted on one doorbell.
pub open spec fn responses_posted(
    pre: RdmaQueue,
    post: RdmaQueue,
    batch: Seq<RdmaResp>,
) -> bool {
    if batch.len() == 0 {
        post == pre
    } else {
        let n = batch.len() as int;
        let writes = data_resps(batch) as int;
        let w = pre.wr();
        &&& post.posts@ == pre.posts@ + resp_wrs(batch).push(Wr::Doorbell)
        &&& post.resp_buf@ == resps_staged(pre.resp_buf@, batch)
        &&& post.inflight@ == inflight_after(pre.inflight@, batch)
        &&& post == (RdmaQueue {
            posts: post.posts,
            resp_buf: post.resp_buf,
            inflight: post.inflight,
            ..pre.with_wr(
                RdmaWrStats {
                    write: w.write.with_posted(writes),
                    send: w.send.with_posted(n),
                    sq_doorbells: crate::queue::wadd(w.sq_doorbells, 1),
                    resp_db: w.resp_db.with(writes + n),
                    ..w
                },
            )
        })
    }
}

/// The number of requests a batch takes: one per response, two where it
/// carries read data; and each tag counts what was posted for it.
pub proof fn batch_counts_requests(batch: Seq<RdmaResp>)
    ensures
        resp_wrs(batch).len() == batch.len() + data_resps(batch),
        data_resps(batch) <= batch.len(),
    decreases batch.len(),
{
    if batch.len() > 0 {
        batch_counts_requests(batch.drop_last());
    }
}

impl RdmaQueue {
    /// Post every response of `batch` on one doorbell: for each the read-data
    /// push, if any, and the completion capsule.
    pub fn post_responses_batch(&mut self, batch: &Vec<RdmaResp>)
        requires
            old(self).wf(),
            forall|i: int|
                0 <= i < batch@.len() ==> (#[trigger] batch@[i]).tag < old(self).nvme.sqsize,
        ensures
            final(self).wf(),
            responses_posted(*old(self), *final(self), batch@),
    {
        let ghost pre = *self;
        if batch.len() == 0 {
            return;
        }
        let n: usize = batch.len();
        let mut writes: u64 = 0;
        let mut i: usize = 0;
        assert(batch@.subrange(0, 0) =~= seq![]);
        assert(self.posts@ =~= pre.posts@ + resp_wrs(batch@.subrange(0, 0)));
        while i < n
            invariant
                i <= n,
                n == batch.len(),
                forall|k: int|
                    0 <= k < batch@.len() ==> (#[trigger] batch@[k]).tag < pre.nvme.sqsize,
                pre.wf(),
                self.wf(),
                *self == (RdmaQueue {
                    posts: self.posts,
                    resp_buf: self.resp_buf,
                    inflight: self.inflight,
                    ..pre
                }),
                self.posts@ == pre.posts@ + resp_wrs(batch@.subrange(0, i as int)),
                self.resp_buf@ == resps_staged(pre.resp_buf@, batch@.subrange(0, i as int)),
                self.inflight@ == inflight_after(pre.inflight@, batch@.subrange(0, i as int)),
                writes == data_resps(batch@.subrange(0, i as int)),
                writes <= i,
            decreases n - i,
        {
            let resp: RdmaResp = batch[i];
            let ghost posts0 = self.posts@;
            let ghost done = batch@.subrange(0, i as int);
            assert(batch@[i as int].tag < pre.nvme.sqsize);
            let mut pending: u8 = 1;
            if resp.outcome.data_len > 0 {
                let dst = parse_keyed_sgl(&resp.cmd);
                self.posts.push(
                    Wr::Write {
                        tag: resp.tag,
                        len: resp.outcome.data_len,
                        rkey: dst.rkey,
                        addr: dst.addr,
                    },
                );
                pending = 2;
                writes += 1;
            }
            let mut entry: Vec<u8> = Vec::new();
            resp.outcome.cqe.encode(&mut entry);
            proof {
                crate::nvme::cqe_wire_len(resp.outcome.cqe);
                assert(entry@ =~= resp.outcome.cqe.wire());
                assert(resp.tag * CQE_BYTES + CQE_BYTES <= pre.nvme.sqsize * CQE_BYTES)
                    by (nonlinear_arith)
                    requires
                        resp.tag < pre.nvme.sqsize,
                        CQE_BYTES == 16,
                ;
            }
            crate::wire::store(
                &mut self.resp_buf,
                resp.tag as usize * CQE_BYTES,
                entry.as_slice(),
            );
            self.posts.push(
                Wr::Send { tag: resp.tag, invalidate: invalidate_rkey_for(&resp.cmd) },
            );
            self.inflight.set(resp.tag as usize, pending);
            i += 1;
            proof {
                let next = batch@.subrange(0, i as int);
                assert(next.drop_last() =~= done);
                assert(next.last() == resp);
                assert(self.posts@ =~= posts0 + resp_wr(resp));
                assert(self.posts@ =~= pre.posts@ + resp_wrs(next));
            }
        }
        assert(batch@.subrange(0, n as int) =~= batch@);
        self.posts.push(Wr::Doorbell);
        assert(self.posts@ =~= pre.posts@ + resp_wrs(batch@).push(Wr::Doorbell));
        let mut w = self.wr_now();
        w.write.post_n(writes);
        w.send.post_n(n as u64);
        w.doorbell();
        let count: usize = if n > 16 {
            17
        } else {
            n + writes as usize
        };
        w.resp_db.record(count);
        self.set_wr(w);
    }
}

/// What the bootstrap does with one completion while it waits for one of
/// `kind`: `Some` is the low bits of the one waited for. Responses are
/// serviced meanwhile; anything else is passed over.
pub open spec fn boot_step(
    pre: RdmaQueue,
    post: RdmaQueue,
    kind: u64,
    comp: (u64, bool),
    r: Result<Option<u32>, QueueError>,
) -> bool {
    let k = super::kind_of(comp.0);
    let w = pre.wr();
    if !comp.1 {
        r == Err::<Option<u32>, QueueError>(QueueError::PeerGone) && post == pre
    } else if k == kind {
        &&& r == Ok::<Option<u32>, QueueError>(Some(super::low_of(comp.0) as u32))
        &&& post == pre.with_wr(
            if kind == super::WR_RECV {
                RdmaWrStats { recv: w.recv.with_done(), ..w }
            } else {
                RdmaWrStats { read: w.read.with_done(), ..w }
            },
        )
    } else if k == super::WR_SEND || k == super::WR_WRITE {
        match r {
            Ok(low) => low is None && super::engine::completed(pre, post, Role::Admin, comp, Ok(false)),
            Err(e) => super::engine::completed(pre, post, Role::Admin, comp, Err(e)),
        }
    } else {
        r == Ok::<Option<u32>, QueueError>(None) && post == pre
    }
}

/// `trace` runs through the states after each completion the bootstrap passed.
pub open spec fn boot_passed(
    trace: Seq<RdmaQueue>,
    pre: RdmaQueue,
    kind: u64,
    comps: Seq<(u64, bool)>,
) -> bool {
    &&& 0 < trace.len() <= comps.len() + 1
    &&& trace[0] == pre
    &&& forall|i: int|
        0 <= i < trace.len() - 1 ==> boot_step(
            #[trigger] trace[i],
            trace[i + 1],
            kind,
            comps[i],
            Ok(None),
        )
}

/// The bootstrap looked through `comps` for a completion of `kind`: it stops
/// at the first, or at an error; `Ok(None)` says there was neither.
pub open spec fn boot_awaited(
    pre: RdmaQueue,
    post: RdmaQueue,
    kind: u64,
    comps: Seq<(u64, bool)>,
    r: Result<Option<u32>, QueueError>,
) -> bool {
    exists|trace: Seq<RdmaQueue>|
        {
            &&& #[trigger] boot_passed(trace, pre, kind, comps)
            &&& if r == Ok::<Option<u32>, QueueError>(None) {
                trace.len() == comps.len() + 1 && trace.last() == post
            } else {
                trace.len() <= comps.len() && boot_step(
                    trace.last(),
                    post,
                    kind,
                    comps[trace.len() - 1],
                    r,
                )
            }
        }
}

/// The pull of host-resident Connect data was posted.
pub open spec fn connect_read_posted(pre: RdmaQueue, post: RdmaQueue, sqe: Sqe) -> bool {
    let sgl = crate::sgl::keyed_sgl(sqe);
    let len: u32 = if sgl.len < ICD_LEN {
        sgl.len
    } else {
        ICD_LEN as u32
    };
    let w = pre.wr();
    &&& post.posts@ == pre.posts@.push(
        Wr::ReadConnect { len, rkey: sgl.rkey, addr: sgl.addr },
    ).push(Wr::Doorbell)
    &&& post == (RdmaQueue {
        posts: post.posts,
        ..pre.with_wr(
            RdmaWrStats {
                read: w.read.with_posted(1),
                sq_doorbells: crate::queue::wadd(w.sq_doorbells, 1),
                ..w
            },
        )
    })
}

/// The Connect capsule in buffer `idx` was read: its command is `sqe`, and
/// `data` the Connect data if it is in the capsule; if the host holds it, its
/// pull was posted. The capsule buffer was posted again.
pub open spec fn connect_taken(
    pre: RdmaQueue,
    post: RdmaQueue,
    idx: u32,
    sqe: Sqe,
    data: Option<Seq<u8>>,
) -> bool {
    &&& super::engine::command_at(pre, idx, sqe)
    &&& if crate::sgl::is_keyed(sqe) {
        data is None && exists|mid: RdmaQueue| #[trigger]
            RdmaQueue::recv_posted(pre, mid, idx) && connect_read_posted(mid, post, sqe)
    } else {
        &&& data == Some(
            super::capsule(pre.recv_buf@, idx as int).subrange(
                crate::nvme::SQE_LEN as int,
                crate::nvme::SQE_LEN + CONNECT_DATA_LEN,
            ),
        )
        &&& RdmaQueue::recv_posted(pre, post, idx)
    }
}

/// The counters after `n` single receive posts.
pub open spec fn primed(w: RdmaWrStats, n: int) -> RdmaWrStats {
    RdmaWrStats {
        recv: w.recv.with_posted(n),
        recv_db: crate::wrstats::BatchHist {
            b1: crate::queue::wadd(w.recv_db.b1, n as u64),
            ..w.recv_db
        },
        ..w
    }
}

/// A tag whose response took two requests is still held after one of them
/// completed, and released when the other does.
pub proof fn response_held_until_last(pre: RdmaQueue, mid: RdmaQueue, post: RdmaQueue, tag: u16)
    requires
        pre.wf(),
        tag < pre.nvme.sqsize,
        pre.inflight@[tag as int] == 2,
        super::engine::response_done(pre, mid, tag),
        super::engine::response_done(mid, post, tag),
    ensures
        mid.nvme.slots == pre.nvme.slots,
        crate::slotq::tag_released(mid.nvme.slots, post.nvme.slots, tag),
{
}

/// The response of a command that was executing is queued, behind the others.
pub open spec fn response_queued(pre: RdmaQueue, post: RdmaQueue, resp: RdmaResp) -> bool {
    &&& post.nvme.slots.slot_now(
        &pre.nvme.slots,
        resp.tag,
        crate::slotq::Slot {
            state: SlotState::Responding,
            ..pre.nvme.slots.slots@[resp.tag as int]
        },
    )
    &&& post.nvme.slots.free_tags@ == pre.nvme.slots.free_tags@
    &&& post.nvme.slots.executing == pre.nvme.slots.executing - 1
    &&& post.responses.work@ == pre.responses.work@.push(resp)
    &&& post.responses.closed == pre.responses.closed
    &&& post == (RdmaQueue {
        responses: post.responses,
        ..pre.with_slots(post.nvme.slots)
    })
}

/// What the watchdog looks at: how long the admin queue's host has been
/// silent, or whether an IO queue's controller still exists.
#[derive(Debug, Clone, Copy, PartialEq, Eq, Structural)]
pub enum HostState {
    Admin { kato_ms: u32, silent_ms: u64 },
    Io { cntlid: u16, known: bool },
}

/// Grace on top of two keep-alive periods.
pub const KEEP_ALIVE_GRACE_MS: u64 = 5000;

/// The host is gone: silent past two keep-alive periods and the grace (a
/// period of 0 disables that), or the controller removed.
pub open spec fn host_gone(h: HostState) -> bool {
    match h {
        HostState::Admin { kato_ms, silent_ms } => kato_ms != 0 && silent_ms > kato_ms * 2
            + KEEP_ALIVE_GRACE_MS,
        HostState::Io { cntlid, known } => cntlid != 0 && !known,
    }
}

/// What woke the reap loop.
pub enum RunEvent {
    /// The completion channel's poll ended.
    PollEnded,
    /// A wait, an acknowledgement or a re-arm failed.
    Failed,
    /// Completions were drained.
    Completions { comps: Vec<(u64, bool)> },
    /// A slot task finished a command.
    Response { first: RdmaResp },
    /// The connection manager reported a disconnect.
    Stop,
    /// The backstop timer fired; `resleep` says whether it could be set again.
    Backstop { armed: bool, comps: Vec<(u64, bool)>, resleep: bool, host: HostState },
}

/// Why the reap loop ends in error.
#[derive(Debug, Clone, Copy, PartialEq, Eq, Structural)]
pub enum RunError {
    Queue { error: QueueError },
    /// The failure the event reported.
    Io,
}

/// The result of the reap loop for a processing result.
pub open spec fn step_of(r: Result<bool, QueueError>) -> Result<bool, RunError> {
    match r {
        Ok(b) => Ok(b),
        Err(error) => Err(RunError::Queue { error }),
    }
}

/// The watchdog ticked: it looks at the host on every second tick.
pub open spec fn watched(pre: RdmaQueue, post: RdmaQueue, h: HostState, gone: bool) -> bool {
    let tick: u32 = if pre.watchdog_tick == u32::MAX {
        0
    } else {
        (pre.watchdog_tick + 1) as u32
    };
    &&& post == (RdmaQueue { watchdog_tick: tick, ..pre })
    &&& gone == (tick % 2 == 0 && host_gone(h))
}

/// What one event does to the queue: `Ok(true)` stops the loop.
pub open spec fn run_stepped(
    pre: RdmaQueue,
    post: RdmaQueue,
    role: Role,
    ev: RunEvent,
    r: Result<bool, RunError>,
) -> bool {
    match ev {
        RunEvent::PollEnded | RunEvent::Stop => post == pre && r == Ok::<bool, RunError>(true),
        RunEvent::Failed => post == pre && r == Err::<bool, RunError>(RunError::Io),
        RunEvent::Completions { comps } => exists|p: Result<bool, QueueError>|
            #[trigger] processed(pre, post, role, comps@, p) && r == step_of(p),
        RunEvent::Response { first } => {
            let batch = seq![first] + pre.responses.work@;
            &&& r == Ok::<bool, RunError>(false)
            &&& exists|drained: RdmaQueue|
                {
                    &&& drained.responses.work@.len() == 0
                    &&& drained.responses.closed == pre.responses.closed
                    &&& drained == (RdmaQueue { responses: drained.responses, ..pre })
                    &&& #[trigger] responses_posted(drained, post, batch)
                }
        },
        RunEvent::Backstop { armed, comps, resleep, host } => {
            if !armed {
                post == pre && r == Err::<bool, RunError>(RunError::Io)
            } else {
                exists|mid: RdmaQueue, p: Result<bool, QueueError>|
                    {
                        &&& #[trigger] processed(pre, mid, role, comps@, p)
                        &&& if !resleep {
                            post == mid && r == Err::<bool, RunError>(RunError::Io)
                        } else if p == Ok::<bool, QueueError>(false) {
                            exists|gone: bool| #[trigger]
                                watched(mid, post, host, gone) && r == Ok::<bool, RunError>(gone)
                        } else {
                            post == mid && r == step_of(p)
                        }
                    }
            }
        },
    }
}

impl RdmaQueue {
    /// Look through a batch of completions for one of `kind`, servicing
    /// responses on the way.
    pub fn await_bootstrap(&mut self, kind: u64, comps: &Vec<(u64, bool)>) -> (r: Result<
        Option<u32>,
        QueueError,
    >)
        requires
            old(self).wf(),
            kind == super::WR_RECV || kind == super::WR_READ,
        ensures
            final(self).wf(),
            final(self).nvme.sqsize == old(self).nvme.sqsize,
            boot_awaited(*old(self), *final(self), kind, comps@, r),
    {
        let ghost pre = *self;
        let ghost mut trace: Seq<RdmaQueue> = seq![*self];
        let mut i: usize = 0;
        while i < comps.len()
            invariant
                i <= comps@.len(),
                kind == super::WR_RECV || kind == super::WR_READ,
                self.wf(),
                self.nvme.sqsize == pre.nvme.sqsize,
                pre == *old(self),
                trace.len() == i + 1,
                trace.last() == *self,
                boot_passed(trace, pre, kind, comps@),
            decreases comps@.len() - i,
        {
            let (id, ok) = comps[i];
            let ghost before = *self;
            let r: Result<Option<u32>, QueueError> = if !ok {
                Err(QueueError::PeerGone)
            } else {
                let k: u64 = super::wr_kind(id);
                if k == kind {
                    let mut w = self.wr_now();
                    if kind == super::WR_RECV {
                        w.recv.complete();
                    } else {
                        w.read.complete();
                    }
                    self.set_wr(w);
                    Ok(Some(super::wr_low(id)))
                } else if k == super::WR_SEND || k == super::WR_WRITE {
                    match self.on_completion(Role::Admin, id, ok) {
                        Ok(_) => Ok(None),
                        Err(e) => Err(e),
                    }
                } else {
                    Ok(None)
                }
            };
            assert(boot_step(before, *self, kind, comps@[i as int], r));
            match r {
                Ok(None) => {
                    proof {
                        let longer = trace.push(*self);
                        assert forall|k: int| 0 <= k < longer.len() - 1 implies boot_step(
                            #[trigger] longer[k],
                            longer[k + 1],
                            kind,
                            comps@[k],
                            Ok(None),
                        ) by {
                            if k < trace.len() - 1 {
                                assert(longer[k] == trace[k] && longer[k + 1] == trace[k + 1]);
                            }
                        }
                        trace = longer;
                    }
                },
                _ => {
                    assert(boot_awaited(pre, *self, kind, comps@, r));
                    return r;
                },
            }
            i += 1;
        }
        assert(boot_awaited(pre, *self, kind, comps@, Ok(None)));
        Ok(None)
    }

    /// Read the Connect capsule in buffer `idx` and post its buffer again. The
    /// Connect data is returned if it is in the capsule; if the host holds it,
    /// its pull is posted.
    pub fn connect_capsule(&mut self, idx: u32) -> (r: (Sqe, Option<Vec<u8>>))
        requires
            old(self).wf(),
            idx < old(self).nvme.sqsize,
        ensures
            final(self).wf(),
            final(self).nvme.sqsize == old(self).nvme.sqsize,
            connect_taken(
                *old(self),
                *final(self),
                idx,
                r.0,
                match r.1 {
                    Some(d) => Some(d@),
                    None => None,
                },
            ),
    {
        let ghost pre = *self;
        proof {
            super::engine::lemma_capsule(idx as int, self.nvme.sqsize as int);
        }
        let base: usize = idx as usize * CAPSULE_LEN;
        let cap = vstd::slice::slice_subrange(
            self.recv_buf.as_slice(),
            base,
            base + CAPSULE_LEN,
        );
        let sqe = Sqe::from_bytes(cap);
        assert(super::engine::command_at(pre, idx, sqe));
        if keyed(&sqe) {
            self.post_recv(idx);
            let ghost mid = *self;
            let sgl = parse_keyed_sgl(&sqe);
            let len: u32 = if sgl.len < ICD_LEN as u32 {
                sgl.len
            } else {
                ICD_LEN as u32
            };
            self.posts.push(Wr::ReadConnect { len, rkey: sgl.rkey, addr: sgl.addr });
            self.posts.push(Wr::Doorbell);
            let mut w = self.wr_now();
            w.read.post();
            w.doorbell();
            self.set_wr(w);
            assert(connect_read_posted(mid, *self, sqe));
            (sqe, None)
        } else {
            let data = vstd::slice::slice_to_vec(
                vstd::slice::slice_subrange(
                    cap,
                    crate::nvme::SQE_LEN,
                    crate::nvme::SQE_LEN + CONNECT_DATA_LEN,
                ),
            );
            self.post_recv(idx);
            (sqe, Some(data))
        }
    }

    /// The Connect data that was pulled from the host.
    pub fn connect_data(&self) -> (d: Vec<u8>)
        requires
            self.wf(),
        ensures
            d@ == self.cdata_buf@.subrange(0, CONNECT_DATA_LEN as int),
    {
        vstd::slice::slice_to_vec(
            vstd::slice::slice_subrange(self.cdata_buf.as_slice(), 0, CONNECT_DATA_LEN),
        )
    }

    /// Put the Connect command on a slot and take it for dispatch.
    pub fn connect_submit(&mut self, sqe: Sqe) -> (r: Result<u16, QueueError>)
        requires
            old(self).wf(),
        ensures
            final(self).wf(),
            final(self).nvme.sqsize == old(self).nvme.sqsize,
            match r {
                Err(e) => e is NoTag && old(self).nvme.slots.free_tags@.len() == 0
                    && *final(self) == *old(self),
                Ok(tag) => {
                    let slots = old(self).nvme.slots;
                    &&& slots.free_tags@.len() > 0
                    &&& tag == slots.free_tags@.last()
                    &&& tag < old(self).nvme.sqsize
                    &&& final(self).nvme.slots.free_tags@ == slots.free_tags@.drop_last()
                    &&& final(self).nvme.slots.executing == slots.executing + 1
                    &&& final(self).nvme.slots.slot_now(
                        &slots,
                        tag,
                        crate::slotq::Slot {
                            state: SlotState::Executing,
                            cmd: sqe,
                            data_len: 0,
                            recv_offset: 0,
                            ..slots.slots@[tag as int]
                        },
                    )
                    &&& *final(self) == old(self).with_slots(final(self).nvme.slots)
                },
            },
    {
        let ghost pre = self.nvme.slots;
        match self.nvme.slots.claim_tag() {
            None => Err(QueueError::NoTag),
            Some(tag) => {
                self.nvme.slots.submit(tag, sqe);
                let _ = self.nvme.slots.poll_command(tag);
                assert(self.nvme.slots.slots@ =~= pre.slots@.update(
                    tag as int,
                    self.nvme.slots.slots@[tag as int],
                ));
                Ok(tag)
            },
        }
    }

    /// Answer the Connect command dispatched on `tag`.
    pub fn connect_respond(&mut self, tag: u16, cmd: Sqe, outcome: Outcome)
        requires
            old(self).wf(),
            tag < old(self).nvme.sqsize,
            old(self).nvme.slots.slots@[tag as int].state is Executing,
        ensures
            final(self).wf(),
            exists|mid: RdmaQueue|
                {
                    &&& mid == old(self).with_slots(mid.nvme.slots)
                    &&& mid.nvme.slots.slot_now(
                        &old(self).nvme.slots,
                        tag,
                        crate::slotq::Slot {
                            state: SlotState::Responding,
                            ..old(self).nvme.slots.slots@[tag as int]
                        },
                    )
                    &&& mid.nvme.slots.free_tags@ == old(self).nvme.slots.free_tags@
                    &&& mid.nvme.slots.executing == old(self).nvme.slots.executing - 1
                    &&& #[trigger] responses_posted(
                        mid,
                        *final(self),
                        seq![RdmaResp { tag, cmd, outcome }],
                    )
                },
    {
        self.nvme.slots.begin_respond(tag);
        let ghost mid = *self;
        let batch: Vec<RdmaResp> = vec![RdmaResp { tag, cmd, outcome }];
        assert(batch@ =~= seq![RdmaResp { tag, cmd, outcome }]);
        self.post_responses_batch(&batch);
        assert(responses_posted(mid, *self, seq![RdmaResp { tag, cmd, outcome }]));
    }

    /// A slot task finished `cmd` on `tag`: queue its response.
    pub fn slot_done(&mut self, tag: u16, cmd: Sqe, outcome: Outcome)
        requires
            old(self).wf(),
            tag < old(self).nvme.sqsize,
            old(self).nvme.slots.slots@[tag as int].state is Executing,
        ensures
            final(self).wf(),
            response_queued(*old(self), *final(self), RdmaResp { tag, cmd, outcome }),
    {
        self.nvme.slots.begin_respond(tag);
        self.responses.push(RdmaResp { tag, cmd, outcome });
    }

    /// Post every receive, before the connection is accepted.
    pub fn prime(&mut self)
        requires
            old(self).wf(),
            old(self).posts@.len() == 0,
        ensures
            final(self).wf(),
            final(self).posts@ == Seq::new(
                old(self).nvme.sqsize as nat,
                |i: int| Wr::Recv { idx: i as u32 },
            ),
            *final(self) == (RdmaQueue {
                posts: final(self).posts,
                ..old(self).with_wr(primed(old(self).wr(), old(self).nvme.sqsize as int))
            }),
    {
        let n: u32 = self.nvme.sqsize as u32;
        let mut idx: u32 = 0;
        assert(self.posts@ =~= Seq::new(0, |i: int| Wr::Recv { idx: i as u32 }));
        assert(*self == (RdmaQueue { posts: self.posts, ..self.with_wr(primed(self.wr(), 0)) }));
        while idx < n
            invariant
                idx <= n,
                n == self.nvme.sqsize,
                old(self).wf(),
                self.wf(),
                *self == (RdmaQueue {
                    posts: self.posts,
                    ..old(self).with_wr(primed(old(self).wr(), idx as int))
                }),
                self.posts@ == Seq::new(idx as nat, |i: int| Wr::Recv { idx: i as u32 }),
            decreases n - idx,
        {
            self.post_recv(idx);
            idx += 1;
            assert(self.posts@ =~= Seq::new(idx as nat, |i: int| Wr::Recv { idx: i as u32 }));
        }
    }

    /// Tick the watchdog; `true` says the queue must be torn down.
    pub fn watchdog(&mut self, host: HostState) -> (gone: bool)
        requires
            old(self).wf(),
        ensures
            final(self).wf(),
            watched(*old(self), *final(self), host, gone),
    {
        self.watchdog_tick = self.watchdog_tick.wrapping_add(1);
        if self.watchdog_tick % 2 != 0 {
            return false;
        }
        match host {
            HostState::Admin { kato_ms, silent_ms } => kato_ms != 0 && silent_ms > kato_ms as u64
                * 2 + KEEP_ALIVE_GRACE_MS,
            HostState::Io { cntlid, known } => cntlid != 0 && !known,
        }
    }

    /// Take every queued response behind `first`.
    fn collect_responses(&mut self, first: RdmaResp) -> (batch: Vec<RdmaResp>)
        requires
            old(self).wf(),
        ensures
            final(self).wf(),
            batch@ == seq![first] + old(self).responses.work@,
            final(self).responses.work@.len() == 0,
            final(self).responses.closed == old(self).responses.closed,
            *final(self) == (RdmaQueue { responses: final(self).responses, ..*old(self) }),
    {
        let ghost pre = *self;
        let ghost all = self.responses.work@;
        let mut batch: Vec<RdmaResp> = vec![first];
        let ghost mut taken: int = 0;
        assert(batch@ =~= seq![first] + all.subrange(0, 0));
        assert(all.subrange(0, all.len() as int) =~= all);
        while self.responses.work.len() > 0
            invariant
                self.wf(),
                pre.wf(),
                all == pre.responses.work@,
                0 <= taken <= all.len(),
                batch@ == seq![first] + all.subrange(0, taken),
                self.responses.work@ == all.subrange(taken, all.len() as int),
                self.responses.closed == pre.responses.closed,
                *self == (RdmaQueue { responses: self.responses, ..pre }),
            decreases self.responses.work@.len(),
        {
            match self.responses.try_next() {
                Some(resp) => {
                    batch.push(resp);
                    proof {
                        taken = taken + 1;
                        assert(all.subrange(0, taken) =~= all.subrange(0, taken - 1).push(resp));
                        assert(batch@ =~= seq![first] + all.subrange(0, taken));
                        assert(self.responses.work@ =~= all.subrange(taken, all.len() as int));
                    }
                },
                None => {},
            }
        }
        assert(all.subrange(0, taken) =~= all);
        batch
    }

    /// Handle one event of the reap loop. `Ok(true)` stops it.
    pub fn run_step(&mut self, role: Role, ev: RunEvent) -> (r: Result<bool, RunError>)
        requires
            old(self).wf(),
            ev matches RunEvent::Response { first } ==> first.tag < old(self).nvme.sqsize,
        ensures
            final(self).wf(),
            final(self).nvme.sqsize == old(self).nvme.sqsize,
            run_stepped(*old(self), *final(self), role, ev, r),
    {
        let ghost pre = *self;
        match ev {
            RunEvent::PollEnded => Ok(true),
            RunEvent::Stop => Ok(true),
            RunEvent::Failed => Err(RunError::Io),
            RunEvent::Completions { comps } => {
                let p = self.process_cqes(role, &comps);
                assert(processed(pre, *self, role, comps@, p));
                match p {
                    Ok(b) => Ok(b),
                    Err(error) => Err(RunError::Queue { error }),
                }
            },
            RunEvent::Response { first } => {
                let batch = self.collect_responses(first);
                let ghost drained = *self;
                assert forall|i: int| 0 <= i < batch@.len() implies (#[trigger] batch@[i]).tag
                    < self.nvme.sqsize by {
                    if i > 0 {
                        assert(batch@[i] == pre.responses.work@[i - 1]);
                    }
                }
                self.post_responses_batch(&batch);
                assert(responses_posted(drained, *self, seq![first] + pre.responses.work@));
                Ok(false)
            },
            RunEvent::Backstop { armed, comps, resleep, host } => {
                if !armed {
                    return Err(RunError::Io);
                }
                let p = self.process_cqes(role, &comps);
                let ghost mid = *self;
                assert(processed(pre, mid, role, comps@, p));
                if !resleep {
                    return Err(RunError::Io);
                }
                match p {
                    Ok(false) => {
                        let gone: bool = self.watchdog(host);
                        assert(watched(mid, *self, host, gone));
                        Ok(gone)
                    },
                    Ok(true) => Ok(true),
                    Err(error) => Err(RunError::Queue { error }),
                }
            },
        }
    }
}

} // verus!
