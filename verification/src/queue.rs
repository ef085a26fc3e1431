//! Per-queue context: the slot array plus submission-queue-head flow control
//! and per-queue lifetime counters. The send list is absent on purpose: its
//! work type belongs to the transport.

use vstd::prelude::*;

use crate::slotq::SlotArray;

verus! {

/// `a + b` modulo 2^64.
pub open spec fn wadd(a: u64, b: u64) -> u64 {
    if a + b <= u64::MAX {
        (a + b) as u64
    } else {
        (a + b - 0x1_0000_0000_0000_0000) as u64
    }
}

/// Optional transport-specific per-queue counters, reported next to the core
/// counters under a `"wr"` object.
pub trait TransportStats: Sized {
    /// The `(label, value)` pairs to report.
    spec fn pairs(&self) -> Seq<(Seq<char>, u64)>;

    /// The pairs a reset leaves.
    spec fn cleared(&self) -> Seq<(Seq<char>, u64)>;

    /// `(label, value)` counter pairs.
    fn snapshot(&self) -> (v: Vec<(&'static str, u64)>)
        ensures
            v@.len() == self.pairs().len(),
            forall|i: int|
                0 <= i < v@.len() ==> (#[trigger] v@[i]).0@ == self.pairs()[i].0 && v@[i].1
                    == self.pairs()[i].1,
    ;

    /// Zero the counters.
    fn reset(&mut self)
        ensures
            final(self).pairs() == old(self).cleared(),
    ;
}

/// The counters of a transport that has none.
#[derive(Debug, Clone, Copy, PartialEq, Eq, Structural)]
pub struct NoTransport;

impl TransportStats for NoTransport {
    open spec fn pairs(&self) -> Seq<(Seq<char>, u64)> {
        seq![]
    }

    open spec fn cleared(&self) -> Seq<(Seq<char>, u64)> {
        seq![]
    }

    fn snapshot(&self) -> (v: Vec<(&'static str, u64)>) {
        Vec::new()
    }

    fn reset(&mut self) {
    }
}

/// Per-queue lifetime counters.
pub struct QueueStats<T: TransportStats = NoTransport> {
    /// Queue id (immutable; reporting identity together with `cntlid`).
    pub qid: u16,
    /// Owning controller, set when Connect executes (0 until then).
    pub cntlid: u16,
    /// Read commands dispatched.
    pub read_cmds: u64,
    /// Write commands dispatched.
    pub write_cmds: u64,
    /// Flush commands dispatched.
    pub flush_cmds: u64,
    /// Admin, fabrics, and other IO commands.
    pub other_cmds: u64,
    /// Payload bytes of successful backend reads.
    pub read_bytes: u64,
    /// Payload bytes of successful backend writes.
    pub write_bytes: u64,
    /// IO-path commands completed with non-success status.
    pub errors: u64,
    /// Transport-specific counters, for transports that have them.
    pub transport: Option<T>,
}

/// Plain copy of [`QueueStats`]; doubles as the accumulator for queues that
/// are gone ([`QueueStatsSnapshot::absorb`]).
#[derive(Debug, Clone, Copy, PartialEq, Eq, Structural)]
pub struct QueueStatsSnapshot {
    pub qid: u16,
    pub cntlid: u16,
    pub read_cmds: u64,
    pub write_cmds: u64,
    pub flush_cmds: u64,
    pub other_cmds: u64,
    pub read_bytes: u64,
    pub write_bytes: u64,
    pub errors: u64,
}

impl QueueStatsSnapshot {
    /// All counters zero, identity `(qid, cntlid)`.
    pub open spec fn zero(qid: u16, cntlid: u16) -> QueueStatsSnapshot {
        QueueStatsSnapshot {
            qid,
            cntlid,
            read_cmds: 0,
            write_cmds: 0,
            flush_cmds: 0,
            other_cmds: 0,
            read_bytes: 0,
            write_bytes: 0,
            errors: 0,
        }
    }

    /// The counters of `self` and `other` added, `self`'s identity.
    pub open spec fn plus(self, other: QueueStatsSnapshot) -> QueueStatsSnapshot {
        QueueStatsSnapshot {
            qid: self.qid,
            cntlid: self.cntlid,
            read_cmds: wadd(self.read_cmds, other.read_cmds),
            write_cmds: wadd(self.write_cmds, other.write_cmds),
            flush_cmds: wadd(self.flush_cmds, other.flush_cmds),
            other_cmds: wadd(self.other_cmds, other.other_cmds),
            read_bytes: wadd(self.read_bytes, other.read_bytes),
            write_bytes: wadd(self.write_bytes, other.write_bytes),
            errors: wadd(self.errors, other.errors),
        }
    }

    /// Accumulate `other`'s counters; identity fields stay untouched (the
    /// accumulator stands for all retired queues).
    pub fn absorb(&mut self, other: &QueueStatsSnapshot)
        ensures
            *final(self) == old(self).plus(*other),
    {
        self.read_cmds = self.read_cmds.wrapping_add(other.read_cmds);
        self.write_cmds = self.write_cmds.wrapping_add(other.write_cmds);
        self.flush_cmds = self.flush_cmds.wrapping_add(other.flush_cmds);
        self.other_cmds = self.other_cmds.wrapping_add(other.other_cmds);
        self.read_bytes = self.read_bytes.wrapping_add(other.read_bytes);
        self.write_bytes = self.write_bytes.wrapping_add(other.write_bytes);
        self.errors = self.errors.wrapping_add(other.errors);
    }
}

impl Default for QueueStatsSnapshot {
    fn default() -> (s: QueueStatsSnapshot)
        ensures
            s == QueueStatsSnapshot::zero(0, 0),
    {
        QueueStatsSnapshot {
            qid: 0,
            cntlid: 0,
            read_cmds: 0,
            write_cmds: 0,
            flush_cmds: 0,
            other_cmds: 0,
            read_bytes: 0,
            write_bytes: 0,
            errors: 0,
        }
    }
}

/// Folding queues into the accumulator gives the same totals in either order.
pub proof fn absorb_commutes(
    acc: QueueStatsSnapshot,
    a: QueueStatsSnapshot,
    b: QueueStatsSnapshot,
)
    ensures
        acc.plus(a).plus(b) == acc.plus(b).plus(a),
{
}

/// A counter only grows by what is added to it, short of 2^64.
pub proof fn absorb_grows(acc: QueueStatsSnapshot, a: QueueStatsSnapshot)
    requires
        acc.read_cmds + a.read_cmds <= u64::MAX,
        acc.write_cmds + a.write_cmds <= u64::MAX,
        acc.flush_cmds + a.flush_cmds <= u64::MAX,
        acc.other_cmds + a.other_cmds <= u64::MAX,
        acc.read_bytes + a.read_bytes <= u64::MAX,
        acc.write_bytes + a.write_bytes <= u64::MAX,
        acc.errors + a.errors <= u64::MAX,
    ensures
        acc.plus(a).read_cmds == acc.read_cmds + a.read_cmds,
        acc.plus(a).write_cmds == acc.write_cmds + a.write_cmds,
        acc.plus(a).flush_cmds == acc.flush_cmds + a.flush_cmds,
        acc.plus(a).other_cmds == acc.other_cmds + a.other_cmds,
        acc.plus(a).read_bytes == acc.read_bytes + a.read_bytes,
        acc.plus(a).write_bytes == acc.write_bytes + a.write_bytes,
        acc.plus(a).errors == acc.errors + a.errors,
{
}

/// Counter increment used on the IO path.
pub fn stat_add(cell: &mut u64, n: u64)
    ensures
        *final(cell) == wadd(*old(cell), n),
{
    *cell = cell.wrapping_add(n);
}

impl<T: TransportStats> QueueStats<T> {
    /// The current values.
    pub open spec fn snap(&self) -> QueueStatsSnapshot {
        QueueStatsSnapshot {
            qid: self.qid,
            cntlid: self.cntlid,
            read_cmds: self.read_cmds,
            write_cmds: self.write_cmds,
            flush_cmds: self.flush_cmds,
            other_cmds: self.other_cmds,
            read_bytes: self.read_bytes,
            write_bytes: self.write_bytes,
            errors: self.errors,
        }
    }

    /// Fresh zeroed counters for queue `qid`.
    pub fn new(qid: u16) -> (s: QueueStats<T>)
        ensures
            s.snap() == QueueStatsSnapshot::zero(qid, 0),
            s.transport is None,
    {
        QueueStats {
            qid,
            cntlid: 0,
            read_cmds: 0,
            write_cmds: 0,
            flush_cmds: 0,
            other_cmds: 0,
            read_bytes: 0,
            write_bytes: 0,
            errors: 0,
            transport: None,
        }
    }

    /// Attach transport-specific counters.
    pub fn set_transport(&mut self, t: T)
        ensures
            *final(self) == (QueueStats { transport: Some(t), ..*old(self) }),
    {
        self.transport = Some(t);
    }

    /// The transport-specific counters, if any.
    pub fn transport_snapshot(&self) -> (r: Option<Vec<(&'static str, u64)>>)
        ensures
            match self.transport {
                None => r is None,
                Some(t) => {
                    &&& r matches Some(v)
                    &&& v@.len() == t.pairs().len()
                    &&& forall|i: int|
                        0 <= i < v@.len() ==> (#[trigger] v@[i]).0@ == t.pairs()[i].0 && v@[i].1
                            == t.pairs()[i].1
                },
            },
    {
        match &self.transport {
            Some(t) => Some(t.snapshot()),
            None => None,
        }
    }

    /// Copy out the current values.
    pub fn snapshot(&self) -> (s: QueueStatsSnapshot)
        ensures
            s == self.snap(),
    {
        QueueStatsSnapshot {
            qid: self.qid,
            cntlid: self.cntlid,
            read_cmds: self.read_cmds,
            write_cmds: self.write_cmds,
            flush_cmds: self.flush_cmds,
            other_cmds: self.other_cmds,
            read_bytes: self.read_bytes,
            write_bytes: self.write_bytes,
            errors: self.errors,
        }
    }

    /// Zero the counters. Identity (`qid`, `cntlid`) is preserved.
    pub fn reset(&mut self)
        ensures
            final(self).snap() == QueueStatsSnapshot::zero(old(self).qid, old(self).cntlid),
            match old(self).transport {
                None => final(self).transport is None,
                Some(t) => final(self).transport matches Some(u) && u.pairs() == t.cleared(),
            },
    {
        self.read_cmds = 0;
        self.write_cmds = 0;
        self.flush_cmds = 0;
        self.other_cmds = 0;
        self.read_bytes = 0;
        self.write_bytes = 0;
        self.errors = 0;
        match &mut self.transport {
            Some(t) => t.reset(),
            None => {},
        }
    }
}

/// Transport-neutral per-queue context.
pub struct QueueCore<C: Copy, T: TransportStats = NoTransport> {
    /// The command slots.
    pub slots: SlotArray<C>,
    /// Queue depth in entries; slot count.
    pub sqsize: u16,
    /// Queue id (0 = admin).
    pub qid: u16,
    /// Submission-queue head last reported.
    pub sqhd: u16,
    /// The host asked for submission-queue flow control to be off.
    pub sqhd_disabled: bool,
    /// Lifetime counters.
    pub stats: QueueStats<T>,
}

/// The head that follows `sqhd` in a circular queue of `sqsize` entries.
pub open spec fn next_sqhd(sqhd: int, sqsize: int) -> int {
    (sqhd + 1) % sqsize
}

/// The head after `n` completions.
pub open spec fn sqhd_after(sqhd: int, sqsize: int, n: nat) -> int
    decreases n,
{
    if n == 0 {
        sqhd
    } else {
        next_sqhd(sqhd_after(sqhd, sqsize, (n - 1) as nat), sqsize)
    }
}

/// The head counts completions modulo the queue size.
pub proof fn sqhd_counts_completions(sqsize: int, n: nat)
    requires
        0 < sqsize,
    ensures
        sqhd_after(0, sqsize, n) == n % (sqsize as nat),
    decreases n,
{
    if n == 0 {
        vstd::arithmetic::div_mod::lemma_small_mod(0, sqsize as nat);
    } else {
        sqhd_counts_completions(sqsize, (n - 1) as nat);
        vstd::arithmetic::div_mod::lemma_add_mod_noop((n - 1) as int, 1, sqsize);
        vstd::arithmetic::div_mod::lemma_add_mod_noop(((n - 1) as int) % sqsize, 1, sqsize);
        vstd::arithmetic::div_mod::lemma_mod_twice((n - 1) as int, sqsize);
    }
}

impl<C: Copy, T: TransportStats> QueueCore<C, T> {
    pub open spec fn wf(&self) -> bool {
        &&& self.slots.wf()
        &&& self.slots.nslots == self.sqsize
        &&& self.sqhd == 0 || self.sqhd < self.sqsize
    }

    /// The head the next completion reports: one further around the queue, or
    /// 0 when flow control is off.
    pub open spec fn head_after(&self) -> u16 {
        if self.sqhd_disabled {
            0
        } else {
            next_sqhd(self.sqhd as int, self.sqsize as int) as u16
        }
    }

    /// A queue of `sqsize` slots sharing a pool of `pool_bytes`, every slot's
    /// command stash initialized to `init`.
    pub fn new(
        qid: u16,
        sqsize: u16,
        pool_bytes: usize,
        sqhd_disabled: bool,
        init: C,
    ) -> (q: QueueCore<C, T>)
        requires
            pool_bytes + crate::pool::PAGE - 1 <= usize::MAX,
            crate::pool::pages_for(pool_bytes as int) <= u32::MAX,
        ensures
            q.wf(),
            q.qid == qid,
            q.sqsize == sqsize,
            q.sqhd == 0,
            q.sqhd_disabled == sqhd_disabled,
            q.stats.snap() == QueueStatsSnapshot::zero(qid, 0),
            q.stats.transport is None,
            q.slots.executing == 0,
            q.slots.ring_done@.len() == 0,
            q.slots.free_tags@ == Seq::new(sqsize as nat, |i: int| (sqsize - 1 - i) as u16),
            forall|t: int|
                0 <= t < sqsize ==> {
                    let s = #[trigger] q.slots.slots@[t];
                    s.state is Free && s.cmd == init && s.data.owner is Empty && s.data_len == 0
                        && s.recv_offset == 0
                },
            q.slots.pool.npages == crate::pool::pages_for(pool_bytes as int),
            q.slots.pool.free_pages == q.slots.pool.npages,
            q.slots.pool.buf_index is None,
            q.slots.pool.send_arena is None,
    {
        QueueCore {
            slots: SlotArray::new(sqsize, pool_bytes, init),
            sqsize,
            qid,
            sqhd: 0,
            sqhd_disabled,
            stats: QueueStats::new(qid),
        }
    }

    /// Advance and report the submission-queue head (once per completion):
    /// circular per the negotiated queue size, or 0 when flow control is off.
    pub fn advance_sqhd(&mut self) -> (head: u16)
        requires
            old(self).wf(),
            old(self).sqhd_disabled || 0 < old(self).sqsize,
        ensures
            final(self).wf(),
            head == old(self).head_after(),
            *final(self) == (QueueCore {
                sqhd: if old(self).sqhd_disabled {
                    old(self).sqhd
                } else {
                    head
                },
                ..*old(self)
            }),
    {
        if self.sqhd_disabled {
            return 0;
        }
        let next: u16 = (self.sqhd + 1) % self.sqsize;
        self.sqhd = next;
        next
    }
}

/// How the queue ends.
#[derive(Debug, Clone, Copy, PartialEq, Eq, Structural)]
pub enum Teardown {
    /// A kernel operation may still reference the queue's memory: keep the
    /// queue and its tasks for the rest of the process.
    Leak,
    /// All operations have drained: abort the tasks and free the queue, and
    /// give the pool's fixed-buffer registration back.
    Free { buf_index: Option<u16> },
}

} // verus!
