//! Work-request counters of an RDMA queue: posted, done and in-flight counts
//! per request class, and how many requests share a doorbell or a poll.

use vstd::prelude::*;

use crate::queue::TransportStats;

verus! {

/// One class of work requests. `posted` and `done` are cumulative; `inflight`
/// is a live gauge that a reset leaves alone.
#[derive(Debug, Clone, Copy, PartialEq, Eq, Structural)]
pub struct WrClass {
    pub posted: u64,
    pub done: u64,
    pub inflight: i64,
}

/// `a + d` in 64 bits, two's complement.
pub open spec fn gauge_add(a: i64, d: int) -> i64 {
    if a + d > i64::MAX {
        (a + d - 0x1_0000_0000_0000_0000) as i64
    } else if a + d < i64::MIN {
        (a + d + 0x1_0000_0000_0000_0000) as i64
    } else {
        (a + d) as i64
    }
}

impl WrClass {
    /// No request yet.
    pub open spec fn zero() -> WrClass {
        WrClass { posted: 0, done: 0, inflight: 0 }
    }

    /// After `n` more posted requests.
    pub open spec fn with_posted(self, n: int) -> WrClass {
        WrClass {
            posted: crate::queue::wadd(self.posted, n as u64),
            inflight: gauge_add(self.inflight, n),
            ..self
        }
    }

    /// After one more completed request.
    pub open spec fn with_done(self) -> WrClass {
        WrClass { done: crate::queue::wadd(self.done, 1), inflight: gauge_add(self.inflight, -1), ..self }
    }

    /// Cumulative counts cleared, the gauge kept.
    pub open spec fn cleared(self) -> WrClass {
        WrClass { posted: 0, done: 0, ..self }
    }

    /// The gauge as it is reported: never below zero.
    pub open spec fn gauge(self) -> u64 {
        if self.inflight > 0 {
            self.inflight as u64
        } else {
            0
        }
    }

    pub fn new() -> (c: WrClass)
        ensures
            c == WrClass::zero(),
    {
        WrClass { posted: 0, done: 0, inflight: 0 }
    }

    /// Count `n` posted requests.
    pub fn post_n(&mut self, n: u64)
        ensures
            *final(self) == old(self).with_posted(n as int),
    {
        self.posted = self.posted.wrapping_add(n);
        self.inflight = self.inflight.wrapping_add_unsigned(n);
    }

    /// Count one posted request.
    pub fn post(&mut self)
        ensures
            *final(self) == old(self).with_posted(1),
    {
        self.post_n(1);
    }

    /// Count one completed request.
    pub fn complete(&mut self)
        ensures
            *final(self) == old(self).with_done(),
    {
        self.done = self.done.wrapping_add(1);
        self.inflight = self.inflight.wrapping_sub(1);
    }

    fn read_gauge(&self) -> (g: u64)
        ensures
            g == self.gauge(),
    {
        if self.inflight > 0 {
            self.inflight as u64
        } else {
            0
        }
    }
}

/// Posting `n` requests and completing `n` of them leaves the gauge where it
/// was.
pub proof fn gauge_balances(a: i64, n: nat)
    requires
        n <= i64::MAX,
    ensures
        gauge_add(gauge_add(a, n as int), -(n as int)) == a,
{
}

/// Batch-size histogram with buckets for 1, 2, 3-4, 5-8, 9-16 and 17 or more.
#[derive(Debug, Clone, Copy, PartialEq, Eq, Structural)]
pub struct BatchHist {
    pub b1: u64,
    pub b2: u64,
    pub b4: u64,
    pub b8: u64,
    pub b16: u64,
    pub b32: u64,
}

impl BatchHist {
    pub open spec fn zero() -> BatchHist {
        BatchHist { b1: 0, b2: 0, b4: 0, b8: 0, b16: 0, b32: 0 }
    }

    /// After one more batch of `n`; an empty batch is not counted.
    pub open spec fn with(self, n: int) -> BatchHist {
        if n <= 0 {
            self
        } else if n == 1 {
            BatchHist { b1: crate::queue::wadd(self.b1, 1), ..self }
        } else if n == 2 {
            BatchHist { b2: crate::queue::wadd(self.b2, 1), ..self }
        } else if n <= 4 {
            BatchHist { b4: crate::queue::wadd(self.b4, 1), ..self }
        } else if n <= 8 {
            BatchHist { b8: crate::queue::wadd(self.b8, 1), ..self }
        } else if n <= 16 {
            BatchHist { b16: crate::queue::wadd(self.b16, 1), ..self }
        } else {
            BatchHist { b32: crate::queue::wadd(self.b32, 1), ..self }
        }
    }

    pub fn new() -> (h: BatchHist)
        ensures
            h == BatchHist::zero(),
    {
        BatchHist { b1: 0, b2: 0, b4: 0, b8: 0, b16: 0, b32: 0 }
    }

    /// Count a batch of `n`.
    pub fn record(&mut self, n: usize)
        ensures
            *final(self) == old(self).with(n as int),
    {
        if n == 0 {
        } else if n == 1 {
            self.b1 = self.b1.wrapping_add(1);
        } else if n == 2 {
            self.b2 = self.b2.wrapping_add(1);
        } else if n <= 4 {
            self.b4 = self.b4.wrapping_add(1);
        } else if n <= 8 {
            self.b8 = self.b8.wrapping_add(1);
        } else if n <= 16 {
            self.b16 = self.b16.wrapping_add(1);
        } else {
            self.b32 = self.b32.wrapping_add(1);
        }
    }
}

/// Per-queue work-request counters.
#[derive(Debug, Clone, Copy, PartialEq, Eq, Structural)]
pub struct RdmaWrStats {
    /// Host write-data pulls.
    pub read: WrClass,
    /// Read-data pushes.
    pub write: WrClass,
    /// Response capsules.
    pub send: WrClass,
    /// Command capsules.
    pub recv: WrClass,
    /// Non-empty completion-queue polls.
    pub poll_batches: u64,
    /// Send-queue doorbells rung.
    pub sq_doorbells: u64,
    /// Requests per read-batch doorbell.
    pub read_db: BatchHist,
    /// Requests per response-batch doorbell.
    pub resp_db: BatchHist,
    /// Requests per receive-queue doorbell.
    pub recv_db: BatchHist,
    /// Completions per non-empty poll.
    pub poll: BatchHist,
}

/// The reported form of a list of counters.
pub open spec fn labelled(v: Seq<(&'static str, u64)>) -> Seq<(Seq<char>, u64)> {
    Seq::new(v.len(), |i: int| (v[i].0@, v[i].1))
}

/// The reported counters of one class.
pub open spec fn class_pairs(
    posted: Seq<char>,
    done: Seq<char>,
    inflight: Seq<char>,
    c: WrClass,
) -> Seq<(Seq<char>, u64)> {
    seq![(posted, c.posted), (done, c.done), (inflight, c.gauge())]
}

fn push_class(
    out: &mut Vec<(&'static str, u64)>,
    posted: &'static str,
    done: &'static str,
    inflight: &'static str,
    c: &WrClass,
)
    ensures
        labelled(final(out)@) == labelled(old(out)@) + class_pairs(posted@, done@, inflight@, *c),
{
    let ghost start = labelled(out@);
    out.push((posted, c.posted));
    out.push((done, c.done));
    out.push((inflight, c.read_gauge()));
    assert(labelled(out@) =~= start + class_pairs(posted@, done@, inflight@, *c));
}

/// The reported counters of one histogram, under `keys` from the smallest
/// bucket up.
pub open spec fn hist_pairs(keys: Seq<Seq<char>>, h: BatchHist) -> Seq<(Seq<char>, u64)> {
    seq![
        (keys[0], h.b1),
        (keys[1], h.b2),
        (keys[2], h.b4),
        (keys[3], h.b8),
        (keys[4], h.b16),
        (keys[5], h.b32),
    ]
}

fn push_hist(out: &mut Vec<(&'static str, u64)>, keys: [&'static str; 6], h: &BatchHist)
    ensures
        labelled(final(out)@) == labelled(old(out)@) + hist_pairs(
            Seq::new(6, |i: int| keys@[i]@),
            *h,
        ),
{
    let ghost start = labelled(out@);
    out.push((keys[0], h.b1));
    out.push((keys[1], h.b2));
    out.push((keys[2], h.b4));
    out.push((keys[3], h.b8));
    out.push((keys[4], h.b16));
    out.push((keys[5], h.b32));
    assert(labelled(out@) =~= start + hist_pairs(Seq::new(6, |i: int| keys@[i]@), *h));
}

/// Keys of the read-doorbell histogram.
pub open spec fn read_db_keys() -> Seq<Seq<char>> {
    seq![
        "read_db_b1"@,
        "read_db_b2"@,
        "read_db_b4"@,
        "read_db_b8"@,
        "read_db_b16"@,
        "read_db_b32"@,
    ]
}

/// Keys of the response-doorbell histogram.
pub open spec fn resp_db_keys() -> Seq<Seq<char>> {
    seq![
        "resp_db_b1"@,
        "resp_db_b2"@,
        "resp_db_b4"@,
        "resp_db_b8"@,
        "resp_db_b16"@,
        "resp_db_b32"@,
    ]
}

/// Keys of the receive-doorbell histogram.
pub open spec fn recv_db_keys() -> Seq<Seq<char>> {
    seq![
        "recv_db_b1"@,
        "recv_db_b2"@,
        "recv_db_b4"@,
        "recv_db_b8"@,
        "recv_db_b16"@,
        "recv_db_b32"@,
    ]
}

/// Keys of the poll histogram.
pub open spec fn poll_keys() -> Seq<Seq<char>> {
    seq!["poll_b1"@, "poll_b2"@, "poll_b4"@, "poll_b8"@, "poll_b16"@, "poll_b32"@]
}

impl RdmaWrStats {
    pub open spec fn zero() -> RdmaWrStats {
        RdmaWrStats {
            read: WrClass::zero(),
            write: WrClass::zero(),
            send: WrClass::zero(),
            recv: WrClass::zero(),
            poll_batches: 0,
            sq_doorbells: 0,
            read_db: BatchHist::zero(),
            resp_db: BatchHist::zero(),
            recv_db: BatchHist::zero(),
            poll: BatchHist::zero(),
        }
    }

    /// Everything cleared but the in-flight gauges.
    pub open spec fn after_reset(self) -> RdmaWrStats {
        RdmaWrStats {
            read: self.read.cleared(),
            write: self.write.cleared(),
            send: self.send.cleared(),
            recv: self.recv.cleared(),
            ..RdmaWrStats::zero()
        }
    }

    /// The counters in the order they are reported.
    pub open spec fn report(self) -> Seq<(Seq<char>, u64)> {
        class_pairs("read_posted"@, "read_done"@, "read_inflight"@, self.read) + class_pairs(
            "write_posted"@,
            "write_done"@,
            "write_inflight"@,
            self.write,
        ) + class_pairs("send_posted"@, "send_done"@, "send_inflight"@, self.send) + class_pairs(
            "recv_posted"@,
            "recv_done"@,
            "recv_inflight"@,
            self.recv,
        ) + seq![
            ("poll_batches"@, self.poll_batches),
            ("sq_doorbells"@, self.sq_doorbells),
        ] + hist_pairs(read_db_keys(), self.read_db) + hist_pairs(resp_db_keys(), self.resp_db)
            + hist_pairs(recv_db_keys(), self.recv_db) + hist_pairs(poll_keys(), self.poll)
    }

    pub fn new() -> (s: RdmaWrStats)
        ensures
            s == RdmaWrStats::zero(),
    {
        RdmaWrStats {
            read: WrClass::new(),
            write: WrClass::new(),
            send: WrClass::new(),
            recv: WrClass::new(),
            poll_batches: 0,
            sq_doorbells: 0,
            read_db: BatchHist::new(),
            resp_db: BatchHist::new(),
            recv_db: BatchHist::new(),
            poll: BatchHist::new(),
        }
    }

    /// Count a send-queue doorbell, whatever it batched.
    pub fn doorbell(&mut self)
        ensures
            *final(self) == (RdmaWrStats {
                sq_doorbells: crate::queue::wadd(old(self).sq_doorbells, 1),
                ..*old(self)
            }),
    {
        self.sq_doorbells = self.sq_doorbells.wrapping_add(1);
    }
}

impl TransportStats for RdmaWrStats {
    open spec fn pairs(&self) -> Seq<(Seq<char>, u64)> {
        self.report()
    }

    open spec fn cleared(&self) -> Seq<(Seq<char>, u64)> {
        self.after_reset().report()
    }

    fn snapshot(&self) -> (out: Vec<(&'static str, u64)>)
        ensures
            labelled(out@) == self.report(),
    {
        let mut out: Vec<(&'static str, u64)> = Vec::new();
        assert(labelled(out@) =~= seq![]);
        push_class(&mut out, "read_posted", "read_done", "read_inflight", &self.read);
        push_class(&mut out, "write_posted", "write_done", "write_inflight", &self.write);
        push_class(&mut out, "send_posted", "send_done", "send_inflight", &self.send);
        push_class(&mut out, "recv_posted", "recv_done", "recv_inflight", &self.recv);
        let ghost mid = labelled(out@);
        out.push(("poll_batches", self.poll_batches));
        out.push(("sq_doorbells", self.sq_doorbells));
        assert(labelled(out@) =~= mid + seq![
            ("poll_batches"@, self.poll_batches),
            ("sq_doorbells"@, self.sq_doorbells),
        ]);
        let read_keys: [&'static str; 6] = [
            "read_db_b1",
            "read_db_b2",
            "read_db_b4",
            "read_db_b8",
            "read_db_b16",
            "read_db_b32",
        ];
        assert(Seq::new(6, |i: int| read_keys@[i]@) =~= read_db_keys());
        push_hist(&mut out, read_keys, &self.read_db);
        let resp_keys: [&'static str; 6] = [
            "resp_db_b1",
            "resp_db_b2",
            "resp_db_b4",
            "resp_db_b8",
            "resp_db_b16",
            "resp_db_b32",
        ];
        assert(Seq::new(6, |i: int| resp_keys@[i]@) =~= resp_db_keys());
        push_hist(&mut out, resp_keys, &self.resp_db);
        let recv_keys: [&'static str; 6] = [
            "recv_db_b1",
            "recv_db_b2",
            "recv_db_b4",
            "recv_db_b8",
            "recv_db_b16",
            "recv_db_b32",
        ];
        assert(Seq::new(6, |i: int| recv_keys@[i]@) =~= recv_db_keys());
        push_hist(&mut out, recv_keys, &self.recv_db);
        let keys: [&'static str; 6] = [
            "poll_b1",
            "poll_b2",
            "poll_b4",
            "poll_b8",
            "poll_b16",
            "poll_b32",
        ];
        assert(Seq::new(6, |i: int| keys@[i]@) =~= poll_keys());
        push_hist(&mut out, keys, &self.poll);
        assert(labelled(out@) == self.report());
        assert forall|i: int| 0 <= i < out@.len() implies (#[trigger] out@[i]).0@
            == self.report()[i].0 && out@[i].1 == self.report()[i].1 by {
            assert(labelled(out@)[i] == self.report()[i]);
        }
        out
    }

    fn reset(&mut self)
        ensures
            *final(self) == old(self).after_reset(),
    {
        self.read.posted = 0;
        self.read.done = 0;
        self.write.posted = 0;
        self.write.done = 0;
        self.send.posted = 0;
        self.send.done = 0;
        self.recv.posted = 0;
        self.recv.done = 0;
        self.poll_batches = 0;
        self.sq_doorbells = 0;
        self.read_db = BatchHist::new();
        self.resp_db = BatchHist::new();
        self.recv_db = BatchHist::new();
        self.poll = BatchHist::new();
    }
}

/// Clearing the counters leaves every in-flight gauge as it was.
pub proof fn reset_keeps_gauges(s: RdmaWrStats)
    ensures
        s.after_reset().read.inflight == s.read.inflight,
        s.after_reset().write.inflight == s.write.inflight,
        s.after_reset().send.inflight == s.send.inflight,
        s.after_reset().recv.inflight == s.recv.inflight,
{
}

/// Every counter is reported, each under its own name: of reads, writes, sends
/// and receives what was posted, what is done and what is under way (never less
/// than none), the polls and doorbells, and the sizes of batches.
pub proof fn counters_are_named(s: RdmaWrStats)
    ensures
        s.report().len() == 38,
        s.report()[0] == ("read_posted"@, s.read.posted),
        s.report()[1] == ("read_done"@, s.read.done),
        s.report()[2] == ("read_inflight"@, (if s.read.inflight > 0 { s.read.inflight as u64 } else { 0 })),
        s.report()[3] == ("write_posted"@, s.write.posted),
        s.report()[4] == ("write_done"@, s.write.done),
        s.report()[5] == ("write_inflight"@, (if s.write.inflight > 0 { s.write.inflight as u64 } else { 0 })),
        s.report()[6] == ("send_posted"@, s.send.posted),
        s.report()[7] == ("send_done"@, s.send.done),
        s.report()[8] == ("send_inflight"@, (if s.send.inflight > 0 { s.send.inflight as u64 } else { 0 })),
        s.report()[9] == ("recv_posted"@, s.recv.posted),
        s.report()[10] == ("recv_done"@, s.recv.done),
        s.report()[11] == ("recv_inflight"@, (if s.recv.inflight > 0 { s.recv.inflight as u64 } else { 0 })),
        s.report()[12] == ("poll_batches"@, s.poll_batches),
        s.report()[13] == ("sq_doorbells"@, s.sq_doorbells),
        s.report()[14] == ("read_db_b1"@, s.read_db.b1),
        s.report()[15] == ("read_db_b2"@, s.read_db.b2),
        s.report()[16] == ("read_db_b4"@, s.read_db.b4),
        s.report()[17] == ("read_db_b8"@, s.read_db.b8),
        s.report()[18] == ("read_db_b16"@, s.read_db.b16),
        s.report()[19] == ("read_db_b32"@, s.read_db.b32),
        s.report()[20] == ("resp_db_b1"@, s.resp_db.b1),
        s.report()[21] == ("resp_db_b2"@, s.resp_db.b2),
        s.report()[22] == ("resp_db_b4"@, s.resp_db.b4),
        s.report()[23] == ("resp_db_b8"@, s.resp_db.b8),
        s.report()[24] == ("resp_db_b16"@, s.resp_db.b16),
        s.report()[25] == ("resp_db_b32"@, s.resp_db.b32),
        s.report()[26] == ("recv_db_b1"@, s.recv_db.b1),
        s.report()[27] == ("recv_db_b2"@, s.recv_db.b2),
        s.report()[28] == ("recv_db_b4"@, s.recv_db.b4),
        s.report()[29] == ("recv_db_b8"@, s.recv_db.b8),
        s.report()[30] == ("recv_db_b16"@, s.recv_db.b16),
        s.report()[31] == ("recv_db_b32"@, s.recv_db.b32),
        s.report()[32] == ("poll_b1"@, s.poll.b1),
        s.report()[33] == ("poll_b2"@, s.poll.b2),
        s.report()[34] == ("poll_b4"@, s.poll.b4),
        s.report()[35] == ("poll_b8"@, s.poll.b8),
        s.report()[36] == ("poll_b16"@, s.poll.b16),
        s.report()[37] == ("poll_b32"@, s.poll.b32),
{
}

/// A batch counts once, by its size: 1, 2, up to 4, 8 and 16, or more. An empty
/// one does not count.
pub proof fn batches_count_by_size(h: BatchHist, n: int)
    requires
        h.b1 < u64::MAX,
        h.b2 < u64::MAX,
        h.b4 < u64::MAX,
        h.b8 < u64::MAX,
        h.b16 < u64::MAX,
        h.b32 < u64::MAX,
    ensures
        ({
            let g = h.with(n);
            &&& g.b1 - h.b1 == (if n == 1 { 1int } else { 0 })
            &&& g.b2 - h.b2 == (if n == 2 { 1int } else { 0 })
            &&& g.b4 - h.b4 == (if 3 <= n <= 4 { 1int } else { 0 })
            &&& g.b8 - h.b8 == (if 5 <= n <= 8 { 1int } else { 0 })
            &&& g.b16 - h.b16 == (if 9 <= n <= 16 { 1int } else { 0 })
            &&& g.b32 - h.b32 == (if n >= 17 { 1int } else { 0 })
        }),
{
}

} // verus!
