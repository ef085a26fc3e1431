//! What a connection is built with: queue depth, completion-queue and
//! queue-pair sizes, how it ends, and the table of live connections.

use vstd::prelude::*;

use crate::pool::BufPool;
use crate::queue::Teardown;
use crate::rdma::RdmaQueue;
use crate::slotq::SlotArray;

verus! {

/// Depth of the admin queue, whatever the host asks for.
pub const ADMIN_QUEUE_DEPTH: u32 = 32;

/// Most segments of one request; a pool lease never spans more runs.
pub const MAX_DATA_SGE: u32 = 32;

/// ACK timeout exponent of IO queues.
pub const IO_ACK_TIMEOUT: u8 = 20;

/// Attempts to bind before a failure is final.
pub const BIND_ATTEMPTS: u32 = 120;

/// Milliseconds a teardown waits for dispatches to drain.
pub const DRAIN_MS: u32 = 10_000;

/// Microseconds an idle queue keeps spinning in poll mode.
pub const SPIN_GRACE_US: u64 = 200;

/// Slots of a queue the host asked `hsqsize + 1` entries for.
pub open spec fn depth_for(qid: u16, hsqsize: u16, io_queue_size: u16) -> int {
    let cap: int = if qid == 0 {
        ADMIN_QUEUE_DEPTH as int
    } else if io_queue_size == 0 {
        1
    } else {
        io_queue_size as int
    };
    if hsqsize + 1 < cap {
        hsqsize + 1
    } else {
        cap
    }
}

/// Slots of a queue: what the host asked for, clamped to what is advertised.
pub fn queue_depth(qid: u16, hsqsize: u16, io_queue_size: u16) -> (n: u16)
    ensures
        n == depth_for(qid, hsqsize, io_queue_size),
        n >= 1,
{
    let cap: u32 = if qid == 0 {
        ADMIN_QUEUE_DEPTH
    } else if io_queue_size == 0 {
        1
    } else {
        io_queue_size as u32
    };
    let want: u32 = hsqsize as u32 + 1;
    if want < cap {
        want as u16
    } else {
        cap as u16
    }
}

/// The ACK timeout to set on the queue, if the connection's own is not kept:
/// IO queues get a wide one; the admin queue carries the keep-alive and must
/// recover fast.
pub fn ack_timeout(qid: u16) -> (t: Option<u8>)
    ensures
        t == (if qid != 0 {
            Some(IO_ACK_TIMEOUT)
        } else {
            None::<u8>
        }),
{
    if qid != 0 {
        Some(IO_ACK_TIMEOUT)
    } else {
        None
    }
}

/// Sizes of a connection's resources.
#[derive(Debug, Clone, Copy, PartialEq, Eq, Structural)]
pub struct ConnSizes {
    /// Entries of the completion queue.
    pub cq_depth: u32,
    /// Preferred completion vector; vector 0 where the device refuses it.
    pub comp_vector: u32,
    pub max_send_wr: u32,
    pub max_recv_wr: u32,
    pub max_send_sge: u32,
    pub max_recv_sge: u32,
}

/// Resources for a queue of `sqsize` slots.
pub open spec fn sizes_for(sqsize: u16, qid: u16) -> ConnSizes {
    ConnSizes {
        cq_depth: (sqsize * 3 + 16) as u32,
        comp_vector: qid as u32,
        max_send_wr: (sqsize * 2 + 8) as u32,
        max_recv_wr: (sqsize + 8) as u32,
        max_send_sge: MAX_DATA_SGE,
        max_recv_sge: 1,
    }
}

/// Resources for a queue of `sqsize` slots: each command takes a receive, and
/// up to a push and a send.
pub fn conn_sizes(sqsize: u16, qid: u16) -> (s: ConnSizes)
    ensures
        s == sizes_for(sqsize, qid),
{
    ConnSizes {
        cq_depth: sqsize as u32 * 3 + 16,
        comp_vector: qid as u32,
        max_send_wr: sqsize as u32 * 2 + 8,
        max_recv_wr: sqsize as u32 + 8,
        max_send_sge: MAX_DATA_SGE,
        max_recv_sge: 1,
    }
}

/// A connection's resources suffice: there is a receive for every slot, a push
/// and a send for every command, and the completion queue holds a completion for
/// every request that can be outstanding, with none to spare. A push takes as
/// many segments as a slot's buffer can have, and queues spread over the
/// completion vectors by their id.
pub proof fn cq_holds_all(sqsize: u16, qid: u16)
    ensures
        ({
            let s = sizes_for(sqsize, qid);
            &&& s.max_recv_wr >= sqsize
            &&& s.max_send_wr >= 2 * sqsize
            &&& s.cq_depth == s.max_send_wr + s.max_recv_wr
            &&& s.max_send_sge == 32
            &&& s.max_recv_sge == 1
            &&& s.comp_vector == qid
        }),
{
}

/// A queue gets the entries that the host asks for, one more than it says, and
/// no more than 32 on the admin queue or than advertised on an IO queue; at
/// least one in any case.
pub proof fn depth_is_what_was_asked(qid: u16, hsqsize: u16, io_queue_size: u16)
    ensures
        ({
            let n = depth_for(qid, hsqsize, io_queue_size);
            &&& 1 <= n <= hsqsize + 1
            &&& qid == 0 ==> n <= 32
            &&& qid != 0 && io_queue_size > 0 ==> n <= io_queue_size
            &&& n == hsqsize + 1 || (qid == 0 && n == 32) || (qid != 0 && (n == io_queue_size || n
                == 1))
        }),
{
}

/// The name a queue's host is reported under.
pub fn peer_name(qid: u16) -> (s: String)
    ensures
        s@ == "rdma:qid"@ + crate::text::dec(qid as nat),
{
    let mut s = "rdma:qid".to_owned();
    crate::text::push_dec(&mut s, qid as u64);
    s
}

/// Whether a queue busy-polls: never the admin queue, whose parked event
/// request keeps a slot for the controller's lifetime.
pub fn polls(port_poll: bool, qid: u16) -> (b: bool)
    ensures
        b == (port_poll && qid != 0),
{
    port_poll && qid != 0
}

/// A polling queue keeps the thread from sleeping while it has commands in
/// flight, and for a while after.
pub open spec fn spins(idle: bool, idle_us: u64) -> bool {
    !idle || idle_us < SPIN_GRACE_US
}

/// The completion queue is armed before the thread may sleep: nothing is
/// staged, and the queue is event-driven or idle.
pub open spec fn arms(staged_empty: bool, poll: bool, idle: bool) -> bool {
    staged_empty && (!poll || idle)
}

/// Whether a polling queue keeps the thread from sleeping.
pub fn keeps_spinning(idle: bool, idle_us: u64) -> (b: bool)
    ensures
        b == spins(idle, idle_us),
{
    !idle || idle_us < SPIN_GRACE_US
}

/// Whether the completion queue is armed before the thread may sleep.
pub fn probe_arms(staged_empty: bool, poll: bool, idle: bool) -> (b: bool)
    ensures
        b == arms(staged_empty, poll, idle),
{
    staged_empty && (!poll || idle)
}

/// The thread never sleeps on a queue that was not armed: with nothing staged,
/// a queue that does not keep the thread spinning is armed, however long it has
/// been idle.
pub proof fn sleep_is_armed(poll: bool, idle: bool, idle_us: u64)
    requires
        !(poll && spins(idle, idle_us)),
    ensures
        arms(true, poll, idle),
{
}

/// Whether teardown waits another round for dispatches to finish.
pub fn drain_waits(executing: u16, waited_ms: u32) -> (b: bool)
    ensures
        b == (executing > 0 && waited_ms < DRAIN_MS),
{
    executing > 0 && waited_ms < DRAIN_MS
}

/// This queue with the pool known as fixed buffer `idx`, or as none.
pub open spec fn with_buf_index(q: RdmaQueue, idx: Option<u16>) -> RdmaQueue {
    q.with_slots(SlotArray { pool: BufPool { buf_index: idx, ..q.nvme.slots.pool }, ..q.nvme.slots })
}

/// Which fixed buffer the pool is known as matters to nothing else.
proof fn lemma_buf_index(q: RdmaQueue, idx: Option<u16>)
    requires
        q.wf(),
    ensures
        with_buf_index(q, idx).wf(),
{
    let post = with_buf_index(q, idx);
    let a = q.nvme.slots;
    let b = post.nvme.slots;
    assert forall|t: int| 0 <= t < b.slots@.len() implies (#[trigger] b.slots@[t]).data.wf(
        b.pool,
    ) by {
        let d = a.slots@[t].data;
        assert(d.wf(a.pool));
        if d.owner is Pool {
            crate::pool::lemma_same_leased(a.pool, b.pool, d.segs@);
        }
    }
}

/// Take note of the pool's registration, where there is one: backend transfers
/// from leased slots then go through the fixed buffer.
pub fn register_pool(queue: &mut RdmaQueue, idx: Option<u16>)
    requires
        old(queue).wf(),
    ensures
        final(queue).wf(),
        *final(queue) == (match idx {
            Some(_) => with_buf_index(*old(queue), idx),
            None => *old(queue),
        }),
{
    if let Some(i) = idx {
        proof {
            lemma_buf_index(*queue, idx);
        }
        queue.nvme.slots.pool.set_buf_index(i);
    }
}

/// Decide how the queue ends, once the drain is over: with a command still
/// executing the kernel may write into the pool, which must then never be freed.
pub fn teardown(queue: &mut RdmaQueue) -> (t: Teardown)
    requires
        old(queue).wf(),
    ensures
        final(queue).wf(),
        if old(queue).nvme.slots.executing > 0 {
            t is Leak && *final(queue) == *old(queue)
        } else {
            &&& t == (Teardown::Free { buf_index: old(queue).nvme.slots.pool.buf_index })
            &&& *final(queue) == with_buf_index(*old(queue), None)
        },
{
    if queue.nvme.slots.executing() > 0 {
        return Teardown::Leak;
    }
    proof {
        lemma_buf_index(*queue, None);
    }
    let buf_index: Option<u16> = queue.nvme.slots.pool.take_buf_index();
    Teardown::Free { buf_index }
}

/// Milliseconds left of a drain's budget.
pub open spec fn drain_left(waited_ms: u32) -> int {
    if waited_ms < DRAIN_MS {
        DRAIN_MS - waited_ms
    } else {
        0
    }
}

/// A drain that waits some time in every round ends, whatever the backend does.
pub proof fn drain_ends(executing: u16, waited_ms: u32, step_ms: u32)
    requires
        executing > 0 && waited_ms < DRAIN_MS,
        0 < step_ms,
        waited_ms + step_ms <= u32::MAX,
    ensures
        0 <= drain_left((waited_ms + step_ms) as u32) < drain_left(waited_ms),
{
}

/// Whether a failed bind is tried again.
pub fn bind_again(attempt: u32) -> (b: bool)
    ensures
        b == (attempt < BIND_ATTEMPTS),
{
    attempt < BIND_ATTEMPTS
}

/// The live accepted connections, by identifier.
pub struct ConnTable {
    pub ids: Vec<u64>,
}

impl ConnTable {
    pub fn new() -> (t: ConnTable)
        ensures
            t.ids@.len() == 0,
    {
        ConnTable { ids: Vec::new() }
    }

    /// Track an accepted connection.
    pub fn accepted(&mut self, id: u64)
        ensures
            final(self).ids@ == old(self).ids@.push(id),
    {
        self.ids.push(id);
    }

    /// A connection was torn down: forget its first entry and say where it
    /// was; the last entry takes its place.
    pub fn disconnected(&mut self, id: u64) -> (pos: Option<usize>)
        ensures
            match pos {
                None => !old(self).ids@.contains(id) && final(self).ids@ == old(self).ids@,
                Some(p) => {
                    let n = old(self).ids@.len();
                    &&& p < n
                    &&& old(self).ids@[p as int] == id
                    &&& forall|i: int| 0 <= i < p ==> old(self).ids@[i] != id
                    &&& final(self).ids@ == old(self).ids@.update(
                        p as int,
                        old(self).ids@.last(),
                    ).drop_last()
                },
            },
    {
        let n: usize = self.ids.len();
        let mut i: usize = 0;
        while i < n
            invariant
                i <= n,
                n == self.ids@.len(),
                self.ids@ == old(self).ids@,
                forall|k: int| 0 <= k < i ==> self.ids@[k] != id,
            decreases n - i,
        {
            if self.ids[i] == id {
                let ghost pre = self.ids@;
                let last: u64 = self.ids[n - 1];
                self.ids.set(i, last);
                let _ = self.ids.pop();
                assert(self.ids@ =~= pre.update(i as int, pre.last()).drop_last());
                return Some(i);
            }
            i += 1;
        }
        None
    }
}

} // verus!
