//! The life of one NVMe/TCP connection: how its queue is sized, its first
//! command, the keep-alive watchdog, and how it is torn down.

use vstd::prelude::*;

use crate::nvme::Sqe;
use crate::pdu::encode_c2h_term;
use crate::pool::BufPool;
use crate::queue::{QueueCore, Teardown};
use crate::slotq::SlotArray;
use crate::tcp::recv::RecvEnd;
use crate::tcp::send::ARENA_PER_ITEM;
use crate::tcp::NvmeTcpQueue;

verus! {

/// How long teardown waits for one condition, in milliseconds.
pub const QUIESCE_MS: u32 = 10_000;

/// The pace of that wait.
pub const QUIESCE_STEP_MS: u32 = 2;

/// What a connection's queue is built with.
#[derive(Debug, Clone, Copy, PartialEq, Eq, Structural)]
pub struct QueueSizes {
    /// Data-buffer pool.
    pub pool_bytes: usize,
    /// Receive ring; 0 keeps the plain receive buffer.
    pub recv_buf_bytes: usize,
    /// Send arena to reserve from the pool once it is registered: two gathers.
    pub arena_bytes: usize,
}

/// Size a connection's queue. An admin queue's pool is large enough that its
/// leases never block, and it has no receive ring: it carries no write payload.
/// An IO queue shares a pool smaller than depth times transfer size.
pub fn queue_sizes(
    qid: u16,
    sqsize: u16,
    queue_buf_bytes: usize,
    recv_buf_bytes: usize,
    admin_data_max: usize,
) -> (s: QueueSizes)
    requires
        crate::rdma::pool_bytes(qid, sqsize, queue_buf_bytes as int, admin_data_max as int)
            <= usize::MAX,
    ensures
        s.pool_bytes == crate::rdma::pool_bytes(
            qid,
            sqsize,
            queue_buf_bytes as int,
            admin_data_max as int,
        ),
        s.recv_buf_bytes == (if qid == 0 {
            0
        } else {
            recv_buf_bytes
        }),
        s.arena_bytes == arena_need(sqsize),
{
    let slots: usize = if sqsize == 0 {
        1
    } else {
        sqsize as usize
    };
    QueueSizes {
        pool_bytes: if qid == 0 {
            slots * admin_data_max
        } else {
            queue_buf_bytes
        },
        recv_buf_bytes: if qid == 0 {
            0
        } else {
            recv_buf_bytes
        },
        arena_bytes: 2 * sqsize as usize * ARENA_PER_ITEM,
    }
}

/// Encoded bytes of two gathers: one being filled while one is being sent.
pub open spec fn arena_need(sqsize: u16) -> int {
    2 * sqsize * ARENA_PER_ITEM
}

/// The pool was registered as fixed buffer `idx`, and the send arena reserved
/// from it, which is `reserved` if it could be.
pub open spec fn pool_registered(
    pre: NvmeTcpQueue,
    post: NvmeTcpQueue,
    idx: u16,
    reserved: bool,
) -> bool {
    let named = BufPool { buf_index: Some(idx), ..pre.nvme.slots.pool };
    &&& exists|r: Option<(usize, usize)>|
        #![trigger BufPool::arena_reserved(named, post.nvme.slots.pool, arena_need(pre.nvme.sqsize), r)]
        BufPool::arena_reserved(named, post.nvme.slots.pool, arena_need(pre.nvme.sqsize), r)
            && reserved == (r is Some)
    &&& post == (NvmeTcpQueue {
        nvme: QueueCore {
            slots: SlotArray { pool: post.nvme.slots.pool, ..pre.nvme.slots },
            ..pre.nvme
        },
        ..pre
    })
}

/// Take note of the pool's registration, where there is one, before any slot
/// leases: headers and payload then share one fixed buffer. Says whether the
/// send arena could be reserved.
pub fn register_pool(queue: &mut NvmeTcpQueue, idx: Option<u16>) -> (reserved: bool)
    requires
        old(queue).wf(),
        forall|t: int|
            0 <= t < old(queue).nvme.slots.slots@.len() ==> (#[trigger] old(
                queue,
            ).nvme.slots.slots@[t]).data.owner is Empty,
    ensures
        final(queue).wf(),
        match idx {
            None => !reserved && *final(queue) == *old(queue),
            Some(i) => pool_registered(*old(queue), *final(queue), i, reserved),
        },
{
    match idx {
        None => false,
        Some(i) => {
            let ghost pre = *queue;
            queue.nvme.slots.pool.set_buf_index(i);
            let ghost named = queue.nvme.slots.pool;
            let bytes: usize = 2 * queue.nvme.sqsize as usize * ARENA_PER_ITEM;
            let r = queue.nvme.slots.pool.reserve_arena(bytes);
            assert(BufPool::arena_reserved(
                named,
                queue.nvme.slots.pool,
                arena_need(pre.nvme.sqsize),
                r,
            ));
            r.is_some()
        },
    }
}

/// The send arena's offset and the fixed buffer it lies in, for the send path;
/// `None` keeps its headers on the heap.
pub fn pool_arena(queue: &NvmeTcpQueue) -> (r: Option<(usize, u16)>)
    requires
        queue.nvme.slots.pool.send_arena matches Some(a) ==> a.1 >= arena_need(queue.nvme.sqsize),
    ensures
        r == (match (queue.nvme.slots.pool.send_arena, queue.nvme.slots.pool.buf_index) {
            (Some(a), Some(idx)) => Some((a.0, idx)),
            _ => None,
        }),
{
    match queue.nvme.slots.pool.send_arena() {
        None => None,
        Some(a) => match queue.nvme.slots.pool.buf_index() {
            None => None,
            Some(idx) => Some((a.0, idx)),
        },
    }
}

/// A send arena that registration reserved holds the encoded bytes of two
/// gathers of as many items as the queue has slots.
pub proof fn reserved_arena_suffices(pre: NvmeTcpQueue, post: NvmeTcpQueue, idx: u16, reserved: bool)
    requires
        pre.wf(),
        post.wf(),
        pre.nvme.slots.pool.send_arena is None,
        pool_registered(pre, post, idx, reserved),
    ensures
        reserved == (post.nvme.slots.pool.send_arena is Some),
        post.nvme.slots.pool.send_arena matches Some(a) ==> a.1 >= arena_need(post.nvme.sqsize),
{
    let named = BufPool { buf_index: Some(idx), ..pre.nvme.slots.pool };
    let need = arena_need(pre.nvme.sqsize);
    let r = choose|r: Option<(usize, usize)>|
        #![trigger BufPool::arena_reserved(named, post.nvme.slots.pool, need, r)]
        BufPool::arena_reserved(named, post.nvme.slots.pool, need, r) && reserved == (r is Some);
    assert(BufPool::arena_reserved(named, post.nvme.slots.pool, need, r));
    if reserved {
        let a = r->0;
        assert(post.nvme.slots.pool.in_arena(crate::pool::Seg { off: a.0, len: a.1 }));
        assert(need <= crate::pool::pages_for(need) * crate::pool::PAGE);
    }
}

/// Run the already consumed Connect command as the queue's first command.
pub fn first_command(queue: &mut NvmeTcpQueue, connect: Sqe) -> (tag: u16)
    requires
        old(queue).wf(),
        old(queue).nvme.slots.free_tags@.len() > 0,
    ensures
        final(queue).wf(),
        tag == old(queue).nvme.slots.free_tags@.last(),
        exists|claimed: NvmeTcpQueue| #[trigger]
            crate::tcp::recv::claims(*old(queue), claimed) && crate::tcp::submitted(
                claimed,
                *final(queue),
                tag,
                connect,
            ),
{
    let ghost pre = *queue;
    match queue.nvme.slots.claim_tag() {
        Some(tag) => {
            assert(crate::tcp::recv::claims(pre, *queue));
            queue.submit(tag, connect);
            tag
        },
        None => 0,
    }
}

/// What is sent before the connection closes: a termination request after a
/// protocol violation, nothing otherwise.
pub fn closing_reply(end: &RecvEnd) -> (reply: Option<Vec<u8>>)
    ensures
        match *end {
            RecvEnd::Term(e) => reply matches Some(b) && b@ == crate::pdu::c2h_term(e),
            _ => reply is None,
        },
{
    match *end {
        RecvEnd::Term(e) => {
            let mut b: Vec<u8> = Vec::new();
            encode_c2h_term(&mut b, e);
            assert(b@ =~= crate::pdu::c2h_term(e));
            Some(b)
        },
        _ => None,
    }
}

/// Wait another step of a teardown wait: the time waited after it, or `None`
/// when the condition holds or the budget is spent.
pub fn quiesce_step(done: bool, waited_ms: u32) -> (r: Option<u32>)
    ensures
        r == (if !done && waited_ms < QUIESCE_MS {
            Some((waited_ms + QUIESCE_STEP_MS) as u32)
        } else {
            None
        }),
{
    if !done && waited_ms < QUIESCE_MS {
        Some(waited_ms + QUIESCE_STEP_MS)
    } else {
        None
    }
}

/// Time waited after `n` steps of a wait whose condition never holds.
pub open spec fn waited_after(n: nat) -> int {
    n * QUIESCE_STEP_MS
}

/// A wait takes another step as long as its budget lasts, and no longer.
pub proof fn quiesce_bounded(n: nat)
    ensures
        waited_after(n) < QUIESCE_MS <==> n < 5000,
        waited_after(n) + QUIESCE_STEP_MS == waited_after(n + 1),
{
}

/// Where a teardown stands.
#[derive(Debug, Clone, Copy, PartialEq, Eq, Structural)]
pub enum Stage {
    /// Commands in dispatch may reference slot memory: wait for them.
    Drain { waited_ms: u32 },
    /// The send path was told to end: wait for it, with a budget of its own.
    Join { waited_ms: u32 },
    Over,
}

/// What a teardown does next.
#[derive(Debug, Clone, Copy, PartialEq, Eq, Structural)]
pub enum Next {
    /// Sleep for a step and look again.
    Sleep,
    /// Close the send list and shut the socket down.
    EndSend,
    /// Decide how the queue ends.
    Decide,
}

/// The stage after `stage` and what is done on the way.
pub open spec fn stage_after(stage: Stage, executing: u16, send_finished: bool) -> (Stage, Next) {
    match stage {
        Stage::Drain { waited_ms } => if executing > 0 && waited_ms < QUIESCE_MS {
            (Stage::Drain { waited_ms: (waited_ms + QUIESCE_STEP_MS) as u32 }, Next::Sleep)
        } else {
            (Stage::Join { waited_ms: 0 }, Next::EndSend)
        },
        Stage::Join { waited_ms } => if !send_finished && waited_ms < QUIESCE_MS {
            (Stage::Join { waited_ms: (waited_ms + QUIESCE_STEP_MS) as u32 }, Next::Sleep)
        } else {
            (Stage::Over, Next::Decide)
        },
        Stage::Over => (Stage::Over, Next::Decide),
    }
}

/// Take a teardown one step further.
pub fn teardown_step(stage: Stage, executing: u16, send_finished: bool) -> (r: (Stage, Next))
    ensures
        r == stage_after(stage, executing, send_finished),
{
    match stage {
        Stage::Drain { waited_ms } => match quiesce_step(executing == 0, waited_ms) {
            Some(waited_ms) => (Stage::Drain { waited_ms }, Next::Sleep),
            None => (Stage::Join { waited_ms: 0 }, Next::EndSend),
        },
        Stage::Join { waited_ms } => match quiesce_step(send_finished, waited_ms) {
            Some(waited_ms) => (Stage::Join { waited_ms }, Next::Sleep),
            None => (Stage::Over, Next::Decide),
        },
        Stage::Over => (Stage::Over, Next::Decide),
    }
}

/// Steps a teardown can still take.
pub open spec fn steps_left(stage: Stage) -> int {
    match stage {
        Stage::Drain { waited_ms } => QUIESCE_MS + 2 + wait_left(waited_ms),
        Stage::Join { waited_ms } => 1 + wait_left(waited_ms),
        Stage::Over => 0,
    }
}

/// Milliseconds left of a wait's budget.
pub open spec fn wait_left(waited_ms: u32) -> int {
    if waited_ms < QUIESCE_MS {
        QUIESCE_MS - waited_ms
    } else {
        0
    }
}

/// A teardown ends, whatever the backend and the send path do.
pub proof fn teardown_ends(stage: Stage, executing: u16, send_finished: bool)
    requires
        !(stage is Over),
    ensures
        0 <= steps_left(stage_after(stage, executing, send_finished).0) < steps_left(stage),
{
}

/// Decide how the queue ends, once both waits are over.
pub fn teardown(queue: &mut NvmeTcpQueue, send_finished: bool) -> (t: Teardown)
    requires
        old(queue).wf(),
    ensures
        if old(queue).nvme.slots.executing > 0 || !send_finished {
            t is Leak && *final(queue) == *old(queue)
        } else {
            &&& t == (Teardown::Free { buf_index: old(queue).nvme.slots.pool.buf_index })
            &&& *final(queue) == (NvmeTcpQueue {
                nvme: QueueCore {
                    slots: SlotArray {
                        pool: BufPool { buf_index: None, ..old(queue).nvme.slots.pool },
                        ..old(queue).nvme.slots
                    },
                    ..old(queue).nvme
                },
                ..*old(queue)
            })
        },
{
    if queue.nvme.slots.executing() > 0 || !send_finished {
        return Teardown::Leak;
    }
    let buf_index: Option<u16> = queue.nvme.slots.pool.take_buf_index();
    Teardown::Free { buf_index }
}

/// A host's sign of life, as the watchdog sees it.
#[derive(Debug, Clone, Copy, PartialEq, Eq, Structural)]
pub struct KeepAlive {
    /// When the host was last heard from, in milliseconds.
    pub last_ms: u64,
}

/// The watchdog's pace: half the keep-alive timeout.
pub open spec fn tick_ms(kato_ms: u32) -> int {
    kato_ms as int / 2
}

/// The silence that ends a controller: two timeouts and one tick.
pub open spec fn silence_ms(kato_ms: u32) -> int {
    2 * kato_ms + tick_ms(kato_ms)
}

impl KeepAlive {
    /// The host was looked at: the clock after it, and the length of the silence
    /// where that ends the controller.
    pub open spec fn looked(
        self,
        now_ms: u64,
        kato_ms: u32,
        traffic: bool,
        post: KeepAlive,
        expired: Option<u64>,
    ) -> bool {
        &&& post.last_ms == (if traffic {
            now_ms
        } else {
            self.last_ms
        })
        &&& expired == (if kato_ms != 0 && now_ms - post.last_ms >= silence_ms(kato_ms) {
            Some((now_ms - post.last_ms) as u64)
        } else {
            None
        })
    }

    /// When to look again; `None` while keep-alive is off.
    pub fn period(kato_ms: u32) -> (p: Option<u32>)
        ensures
            p == (if kato_ms == 0 {
                None
            } else {
                Some(tick_ms(kato_ms) as u32)
            }),
    {
        if kato_ms == 0 {
            None
        } else {
            Some(kato_ms / 2)
        }
    }

    /// Look at the host: traffic on any of the controller's queues since the
    /// last look restarts the clock. The length of the silence, once it ends
    /// the controller.
    pub fn look(&mut self, now_ms: u64, kato_ms: u32, traffic: bool) -> (expired: Option<u64>)
        requires
            old(self).last_ms <= now_ms,
        ensures
            old(self).looked(now_ms, kato_ms, traffic, *final(self), expired),
    {
        if traffic {
            self.last_ms = now_ms;
        }
        let silent: u64 = now_ms - self.last_ms;
        if kato_ms != 0 && silent >= 2 * kato_ms as u64 + (kato_ms / 2) as u64 {
            Some(silent)
        } else {
            None
        }
    }
}

/// The controller to drop with its admin queue: none before one was allocated.
pub fn controller_gone(qid: u16, cntlid: u16) -> (r: Option<u16>)
    ensures
        r == (if qid == 0 && cntlid != 0 {
            Some(cntlid)
        } else {
            None
        }),
{
    if qid == 0 && cntlid != 0 {
        Some(cntlid)
    } else {
        None
    }
}

/// The peer's name: its address and port, an IPv6 address in brackets, `?`
/// when unknown.
pub open spec fn peer(ip: Option<Seq<char>>, v6: bool, port: u16) -> Seq<char> {
    match ip {
        None => "?"@,
        Some(t) => if v6 {
            "["@ + t + "]:"@ + crate::text::dec(port as nat)
        } else {
            t + ":"@ + crate::text::dec(port as nat)
        },
    }
}

/// The peer's name.
pub fn peer_name(ip: Option<&str>, v6: bool, port: u16) -> (s: String)
    ensures
        s@ == peer(
            match ip {
                Some(t) => Some(t@),
                None => None,
            },
            v6,
            port,
        ),
{
    match ip {
        None => "?".to_owned(),
        Some(t) => {
            if v6 {
                let mut s = "[".to_owned();
                s.append(t);
                s.append("]:");
                crate::text::push_dec(&mut s, port as u64);
                s
            } else {
                let mut s = t.to_owned();
                s.append(":");
                crate::text::push_dec(&mut s, port as u64);
                s
            }
        },
    }
}

} // verus!
