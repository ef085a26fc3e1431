//! Rendering of the target's counters, as totals or as rates between two
//! snapshots. How a rate, a ratio and a size are rounded and written is the
//! caller's: they come in as functions.

use vstd::prelude::*;

use crate::client::push_kind;
use crate::json::{child, count, item, number, push_opt, same_opt, string_or, Json};
use crate::text::{push_dec, same_text};

verus! {

/// How numbers are scaled and written.
pub struct Scale<F, G, H> where
    F: Fn(u64) -> u64,
    G: Fn(u64, u64) -> String,
    H: Fn(u64) -> String,
 {
    /// A count over the interval as a count per second.
    pub rate: F,
    /// The quotient of two counts, as text.
    pub ratio: G,
    /// A byte count, as text.
    pub mib: H,
}

/// What a [`Scale`] computes, and whether the counters are shown as rates.
pub struct ScaleV {
    pub rate: spec_fn(u64) -> u64,
    pub ratio: spec_fn(u64, u64) -> Seq<char>,
    pub mib: spec_fn(u64) -> Seq<char>,
    pub interval: bool,
}

/// `cur - before`, or 0 where the counter went back.
pub open spec fn delta(cur: u64, before: u64) -> u64 {
    if cur > before {
        (cur - before) as u64
    } else {
        0
    }
}

impl ScaleV {
    /// The number shown for a counter.
    pub open spec fn val(self, cur: u64, before: u64) -> u64 {
        if self.interval {
            (self.rate)(delta(cur, before))
        } else {
            cur
        }
    }

    /// What the counter amounts to before it is scaled.
    pub open spec fn amt(self, cur: u64, before: u64) -> u64 {
        if self.interval {
            delta(cur, before)
        } else {
            cur
        }
    }

    /// The unit behind a number.
    pub open spec fn suffix(self) -> Seq<char> {
        if self.interval {
            "/s"@
        } else {
            ""@
        }
    }

    /// The number shown for counter `key` of `v`, which was `v0` before.
    pub open spec fn show(self, v: crate::json::JsonV, v0: crate::json::JsonV, key: Seq<char>) -> Seq<
        char,
    > {
        crate::text::dec(self.val(crate::json::num(v, key), crate::json::num(v0, key)) as nat)
    }

    /// The amount of counter `key` of `v`, which was `v0` before.
    pub open spec fn amount(
        self,
        v: crate::json::JsonV,
        v0: crate::json::JsonV,
        key: Seq<char>,
    ) -> u64 {
        self.amt(crate::json::num(v, key), crate::json::num(v0, key))
    }

    /// The byte count shown for counter `key` of `v`.
    pub open spec fn bytes(self, v: crate::json::JsonV, v0: crate::json::JsonV, key: Seq<char>) -> Seq<
        char,
    > {
        (self.mib)(self.val(crate::json::num(v, key), crate::json::num(v0, key)))
    }
}

/// `acc` with a batch-size histogram: the counters `prefix_b1` to
/// `prefix_b32`.
pub open spec fn hist_text(
    acc: Seq<char>,
    f: ScaleV,
    v: crate::json::JsonV,
    v0: crate::json::JsonV,
    prefix: Seq<char>,
) -> Seq<char> {
    acc + "1:"@ + f.show(v, v0, prefix + "_b1"@) + " 2:"@ + f.show(v, v0, prefix + "_b2"@)
        + " <=4:"@ + f.show(v, v0, prefix + "_b4"@) + " <=8:"@ + f.show(v, v0, prefix + "_b8"@)
        + " <=16:"@ + f.show(v, v0, prefix + "_b16"@) + " >16:"@ + f.show(
        v,
        v0,
        prefix + "_b32"@,
    )
}

/// The sum of a histogram's amounts.
pub open spec fn hist_amount(
    f: ScaleV,
    v: crate::json::JsonV,
    v0: crate::json::JsonV,
    prefix: Seq<char>,
) -> u64 {
    crate::queue::wadd(
        crate::queue::wadd(
            crate::queue::wadd(
                crate::queue::wadd(
                    crate::queue::wadd(
                        f.amount(v, v0, prefix + "_b1"@),
                        f.amount(v, v0, prefix + "_b2"@),
                    ),
                    f.amount(v, v0, prefix + "_b4"@),
                ),
                f.amount(v, v0, prefix + "_b8"@),
            ),
            f.amount(v, v0, prefix + "_b16"@),
        ),
        f.amount(v, v0, prefix + "_b32"@),
    )
}

/// The first thread called `name` from `i` on; null where there is none.
pub open spec fn thread_named(s: Seq<crate::json::JsonV>, name: Seq<char>, i: int) -> crate::json::JsonV
    decreases s.len() - i,
{
    if i < 0 || i >= s.len() {
        crate::json::JsonV::Null
    } else if crate::json::at(s[i], "name"@) == crate::json::JsonV::Str(name) {
        s[i]
    } else {
        thread_named(s, name, i + 1)
    }
}

/// The first queue from `i` on with the controller and queue id of `q`; null
/// where there is none.
pub open spec fn queue_like(
    s: Seq<crate::json::JsonV>,
    q: crate::json::JsonV,
    i: int,
) -> crate::json::JsonV
    decreases s.len() - i,
{
    if i < 0 || i >= s.len() {
        crate::json::JsonV::Null
    } else if crate::json::alike(
        crate::json::at(s[i], "cntlid"@),
        crate::json::at(q, "cntlid"@),
    ) && crate::json::alike(crate::json::at(s[i], "qid"@), crate::json::at(q, "qid"@)) {
        s[i]
    } else {
        queue_like(s, q, i + 1)
    }
}

/// The queues of a thread.
pub open spec fn queues_of(t: crate::json::JsonV) -> Seq<crate::json::JsonV> {
    crate::json::items(crate::json::at(t, "queues"@))
}

/// The sum of counter `key` over the first `n` queues.
pub open spec fn live_total(s: Seq<crate::json::JsonV>, key: Seq<char>, n: int) -> u64
    decreases n,
{
    if n <= 0 {
        0
    } else {
        crate::queue::wadd(live_total(s, key, n - 1), crate::json::num(s[n - 1], key))
    }
}

/// Counter `key` of a thread: its live queues and its retired ones. A queue
/// that retires moves its counts, so the total never shrinks.
pub open spec fn thread_total(t: crate::json::JsonV, key: Seq<char>) -> u64 {
    crate::queue::wadd(
        live_total(queues_of(t), key, queues_of(t).len() as int),
        crate::json::num(crate::json::at(t, "retired"@), key),
    )
}

/// What the rows of the first `n` queues show of counter `key`.
pub open spec fn shown_total(
    s: Seq<crate::json::JsonV>,
    before: Seq<crate::json::JsonV>,
    key: Seq<char>,
    n: int,
) -> u64
    decreases n,
{
    if n <= 0 {
        0
    } else {
        crate::queue::wadd(
            shown_total(s, before, key, n - 1),
            delta(
                crate::json::num(s[n - 1], key),
                crate::json::num(queue_like(before, s[n - 1], 0), key),
            ),
        )
    }
}

/// The number shown in the retired row for counter `key`: over an interval,
/// what the thread did beyond what the rows of its live queues show.
pub open spec fn retired(
    f: ScaleV,
    t: crate::json::JsonV,
    before: crate::json::JsonV,
    key: Seq<char>,
) -> u64 {
    if f.interval {
        (f.rate)(
            delta(
                delta(thread_total(t, key), thread_total(before, key)),
                shown_total(queues_of(t), queues_of(before), key, queues_of(t).len() as int),
            ),
        )
    } else {
        crate::json::num(crate::json::at(t, "retired"@), key)
    }
}

/// The line of a controller's identity.
pub open spec fn identity_line(acc: Seq<char>, c: crate::json::JsonV) -> Seq<char> {
    acc + "controller "@ + crate::json::compact(crate::json::at(c, "cntlid"@))
        + crate::client::kind_text(c) + ": "@ + crate::json::text_or(
        crate::json::at(c, "subsysnqn"@),
        "?"@,
    ) + "  host "@ + crate::json::text_or(crate::json::at(c, "hostnqn"@), "?"@) + "\n"@
}

pub open spec fn identity_lines(acc: Seq<char>, s: Seq<crate::json::JsonV>, i: int) -> Seq<char>
    decreases s.len() - i,
{
    if i < 0 || i >= s.len() {
        acc
    } else {
        identity_lines(identity_line(acc, s[i]), s, i + 1)
    }
}

/// The line of a thread's ring counters.
pub open spec fn ring_line(
    acc: Seq<char>,
    f: ScaleV,
    t: crate::json::JsonV,
    before: crate::json::JsonV,
) -> Seq<char> {
    let ring = crate::json::at(t, "ring"@);
    let ring0 = crate::json::at(before, "ring"@);
    acc + crate::json::text_or(crate::json::at(t, "name"@), "?"@) + "  tid "@
        + crate::json::compact(crate::json::at(t, "tid"@)) + "  parks"@ + f.suffix() + " "@
        + f.show(ring, ring0, "parks"@) + "  sqes"@ + f.suffix() + " "@ + f.show(
        ring,
        ring0,
        "sqes"@,
    ) + "  sqes/park "@ + (f.ratio)(
        f.amount(ring, ring0, "sqes"@),
        f.amount(ring, ring0, "parks"@),
    ) + "  send"@ + f.suffix() + " "@ + f.show(ring, ring0, "send_sqes"@) + "  recv"@ + f.suffix()
        + " "@ + f.show(ring, ring0, "recv_sqes"@) + "  read"@ + f.suffix() + " "@ + f.show(
        ring,
        ring0,
        "read_sqes"@,
    ) + "  write"@ + f.suffix() + " "@ + f.show(ring, ring0, "write_sqes"@) + "  cqes"@
        + f.suffix() + " "@ + f.show(ring, ring0, "cqes"@) + "\n"@
}

/// The line of a thread's storage submissions, where there were any.
pub open spec fn backend_line(
    acc: Seq<char>,
    f: ScaleV,
    t: crate::json::JsonV,
    before: crate::json::JsonV,
) -> Seq<char> {
    let ring = crate::json::at(t, "ring"@);
    let ring0 = crate::json::at(before, "ring"@);
    if hist_amount(f, ring, ring0, "rw_sq"@) > 0 {
        hist_text(acc + "  backend rw/submit ["@, f, ring, ring0, "rw_sq"@) + "]\n"@
    } else {
        acc
    }
}

/// The line of a queue's command counters.
pub open spec fn queue_line(
    acc: Seq<char>,
    f: ScaleV,
    q: crate::json::JsonV,
    q0: crate::json::JsonV,
) -> Seq<char> {
    acc + "  cntlid "@ + crate::json::compact(crate::json::at(q, "cntlid"@)) + " qid "@
        + crate::json::compact(crate::json::at(q, "qid"@)) + "   read "@ + f.show(
        q,
        q0,
        "read_cmds"@,
    ) + f.suffix() + " ("@ + f.bytes(q, q0, "read_bytes"@) + f.suffix() + ")  write "@ + f.show(
        q,
        q0,
        "write_cmds"@,
    ) + f.suffix() + " ("@ + f.bytes(q, q0, "write_bytes"@) + f.suffix() + ")  flush "@ + f.show(
        q,
        q0,
        "flush_cmds"@,
    ) + f.suffix() + "  other "@ + f.show(q, q0, "other_cmds"@) + f.suffix() + "  err "@ + f.show(
        q,
        q0,
        "errors"@,
    ) + f.suffix() + "\n"@
}

/// Work requests completed, of all classes.
pub open spec fn done_amount(f: ScaleV, w: crate::json::JsonV, w0: crate::json::JsonV) -> u64 {
    crate::queue::wadd(
        crate::queue::wadd(
            crate::queue::wadd(f.amount(w, w0, "read_done"@), f.amount(w, w0, "write_done"@)),
            f.amount(w, w0, "send_done"@),
        ),
        f.amount(w, w0, "recv_done"@),
    )
}

/// Work requests posted to the send queue.
pub open spec fn posted_amount(f: ScaleV, w: crate::json::JsonV, w0: crate::json::JsonV) -> u64 {
    crate::queue::wadd(
        crate::queue::wadd(f.amount(w, w0, "read_posted"@), f.amount(w, w0, "write_posted"@)),
        f.amount(w, w0, "send_posted"@),
    )
}

/// The line of a queue's work-request counters.
pub open spec fn wr_line(
    acc: Seq<char>,
    f: ScaleV,
    w: crate::json::JsonV,
    w0: crate::json::JsonV,
) -> Seq<char> {
    acc + "    wr  read "@ + f.show(w, w0, "read_done"@) + f.suffix() + " if "@ + crate::text::dec(
        crate::json::num(w, "read_inflight"@) as nat,
    ) + "  write "@ + f.show(w, w0, "write_done"@) + f.suffix() + " if "@ + crate::text::dec(
        crate::json::num(w, "write_inflight"@) as nat,
    ) + "  send "@ + f.show(w, w0, "send_done"@) + f.suffix() + " if "@ + crate::text::dec(
        crate::json::num(w, "send_inflight"@) as nat,
    ) + "  recv "@ + f.show(w, w0, "recv_done"@) + f.suffix() + " if "@ + crate::text::dec(
        crate::json::num(w, "recv_inflight"@) as nat,
    ) + "  poll "@ + f.show(w, w0, "poll_batches"@) + f.suffix() + " ("@ + (f.ratio)(
        done_amount(f, w, w0),
        f.amount(w, w0, "poll_batches"@),
    ) + "/poll)  db "@ + f.show(w, w0, "sq_doorbells"@) + f.suffix() + " ("@ + (f.ratio)(
        posted_amount(f, w, w0),
        f.amount(w, w0, "sq_doorbells"@),
    ) + " wr/db)\n"@
}

/// The line of a queue's batch-size distributions.
pub open spec fn batch_line(
    acc: Seq<char>,
    f: ScaleV,
    w: crate::json::JsonV,
    w0: crate::json::JsonV,
) -> Seq<char> {
    let a = hist_text(acc + "    batch  read/db ["@, f, w, w0, "read_db"@);
    let b = hist_text(a + "]  resp/db ["@, f, w, w0, "resp_db"@);
    let c = hist_text(b + "]  recv/db ["@, f, w, w0, "recv_db"@);
    hist_text(c + "]  cqe/poll ["@, f, w, w0, "poll"@) + "]\n"@
}

/// The lines of a queue: its commands, and its work requests where its
/// transport has them.
pub open spec fn queue_block(
    acc: Seq<char>,
    f: ScaleV,
    q: crate::json::JsonV,
    q0: crate::json::JsonV,
) -> Seq<char> {
    let line = queue_line(acc, f, q, q0);
    let w = crate::json::at(q, "wr"@);
    let w0 = crate::json::at(q0, "wr"@);
    if w is Obj {
        let row = wr_line(line, f, w, w0);
        if crate::json::field(w, "poll_b1"@) is Some {
            batch_line(row, f, w, w0)
        } else {
            row
        }
    } else {
        line
    }
}

pub open spec fn queue_blocks(
    acc: Seq<char>,
    f: ScaleV,
    s: Seq<crate::json::JsonV>,
    before: Seq<crate::json::JsonV>,
    i: int,
) -> Seq<char>
    decreases s.len() - i,
{
    if i < 0 || i >= s.len() {
        acc
    } else {
        queue_blocks(queue_block(acc, f, s[i], queue_like(before, s[i], 0)), f, s, before, i + 1)
    }
}

/// The line of a thread's retired queues, where they count any command.
pub open spec fn retired_line(
    acc: Seq<char>,
    f: ScaleV,
    t: crate::json::JsonV,
    before: crate::json::JsonV,
) -> Seq<char> {
    let reads = retired(f, t, before, "read_cmds"@);
    let read_bytes = retired(f, t, before, "read_bytes"@);
    let writes = retired(f, t, before, "write_cmds"@);
    let write_bytes = retired(f, t, before, "write_bytes"@);
    let flushes = retired(f, t, before, "flush_cmds"@);
    let others = retired(f, t, before, "other_cmds"@);
    let errors = retired(f, t, before, "errors"@);
    if reads > 0 || writes > 0 || flushes > 0 || others > 0 || errors > 0 {
        acc + "  retired          read "@ + crate::text::dec(reads as nat) + f.suffix() + " ("@ + (
        f.mib)(read_bytes) + f.suffix() + ")  write "@ + crate::text::dec(writes as nat)
            + f.suffix() + " ("@ + (f.mib)(write_bytes) + f.suffix() + ")  flush "@
            + crate::text::dec(flushes as nat) + f.suffix() + "  other "@ + crate::text::dec(
            others as nat,
        ) + f.suffix() + "  err "@ + crate::text::dec(errors as nat) + f.suffix() + "\n"@
    } else {
        acc
    }
}

/// The lines of a thread; `prev` are the threads of the snapshot before.
pub open spec fn thread_block(
    acc: Seq<char>,
    f: ScaleV,
    t: crate::json::JsonV,
    prev: Seq<crate::json::JsonV>,
) -> Seq<char> {
    match crate::json::at(t, "error"@) {
        crate::json::JsonV::Str(err) => acc + "thread "@ + crate::json::text_or(
            crate::json::at(t, "name"@),
            "?"@,
        ) + ": "@ + err + "\n"@,
        _ => {
            let before = thread_named(
                prev,
                crate::json::text_or(crate::json::at(t, "name"@), "?"@),
                0,
            );
            let a = backend_line(ring_line(acc, f, t, before), f, t, before);
            retired_line(
                queue_blocks(a, f, queues_of(t), queues_of(before), 0),
                f,
                t,
                before,
            )
        },
    }
}

pub open spec fn thread_blocks(
    acc: Seq<char>,
    f: ScaleV,
    s: Seq<crate::json::JsonV>,
    prev: Seq<crate::json::JsonV>,
    i: int,
) -> Seq<char>
    decreases s.len() - i,
{
    if i < 0 || i >= s.len() {
        acc
    } else {
        thread_blocks(thread_block(acc, f, s[i], prev), f, s, prev, i + 1)
    }
}

/// The counters in `data`: the controllers' identities, and a block for each
/// thread. `prev` is the snapshot before, null where totals are shown.
pub open spec fn stat_text(f: ScaleV, data: crate::json::JsonV, prev: crate::json::JsonV) -> Seq<
    char,
> {
    thread_blocks(
        identity_lines(
            Seq::<char>::empty(),
            crate::json::items(crate::json::at(data, "controller_info"@)),
            0,
        ),
        f,
        crate::json::items(crate::json::at(data, "threads"@)),
        crate::json::items(crate::json::at(prev, "threads"@)),
        0,
    )
}

fn sat_delta(cur: u64, before: u64) -> (d: u64)
    ensures
        d == delta(cur, before),
{
    if cur > before {
        cur - before
    } else {
        0
    }
}

fn key_of(prefix: &str, bucket: &str) -> (k: String)
    ensures
        k@ == prefix@ + bucket@,
{
    prefix.to_owned().concat(bucket)
}

fn find_queue<'a>(before: Option<&'a Json>, q: Option<&Json>) -> (r: Option<&'a Json>)
    ensures
        crate::json::opt(r) == queue_like(
            queues_of(crate::json::opt(before)),
            crate::json::opt(q),
            0,
        ),
{
    let queues = child(before, "queues");
    let ghost s = queues_of(crate::json::opt(before));
    let n: usize = count(queues);
    let mut i: usize = 0;
    while i < n
        invariant
            i <= n,
            n == s.len(),
            s == crate::json::items(crate::json::opt(queues)),
            s == queues_of(crate::json::opt(before)),
            queue_like(s, crate::json::opt(q), 0) == queue_like(s, crate::json::opt(q), i as int),
        decreases n - i,
    {
        let p = item(queues, i);
        if same_opt(child(p, "cntlid"), child(q, "cntlid")) && same_opt(
            child(p, "qid"),
            child(q, "qid"),
        ) {
            return p;
        }
        i += 1;
    }
    None
}

fn find_thread<'a>(prev: Option<&'a Json>, name: &str) -> (r: Option<&'a Json>)
    ensures
        crate::json::opt(r) == thread_named(
            crate::json::items(crate::json::at(crate::json::opt(prev), "threads"@)),
            name@,
            0,
        ),
{
    let threads = child(prev, "threads");
    let ghost s = crate::json::items(crate::json::opt(threads));
    let n: usize = count(threads);
    let mut i: usize = 0;
    while i < n
        invariant
            i <= n,
            n == s.len(),
            s == crate::json::items(crate::json::opt(threads)),
            s == crate::json::items(crate::json::at(crate::json::opt(prev), "threads"@)),
            thread_named(s, name@, 0) == thread_named(s, name@, i as int),
        decreases n - i,
    {
        let t = item(threads, i);
        let found: bool = match child(t, "name") {
            Some(Json::Str(other)) => same_text(other.as_str(), name),
            _ => false,
        };
        if found {
            return t;
        }
        i += 1;
    }
    None
}

fn total_of(t: Option<&Json>, key: &str) -> (n: u64)
    ensures
        n == thread_total(crate::json::opt(t), key@),
{
    let queues = child(t, "queues");
    let ghost s = queues_of(crate::json::opt(t));
    let n: usize = count(queues);
    let mut sum: u64 = 0;
    let mut i: usize = 0;
    while i < n
        invariant
            i <= n,
            n == s.len(),
            s == crate::json::items(crate::json::opt(queues)),
            sum == live_total(s, key@, i as int),
        decreases n - i,
    {
        sum = sum.wrapping_add(number(item(queues, i), key));
        i += 1;
    }
    sum.wrapping_add(number(child(t, "retired"), key))
}

fn shown_of(t: Option<&Json>, before: Option<&Json>, key: &str) -> (n: u64)
    ensures
        n == shown_total(
            queues_of(crate::json::opt(t)),
            queues_of(crate::json::opt(before)),
            key@,
            queues_of(crate::json::opt(t)).len() as int,
        ),
{
    let queues = child(t, "queues");
    let ghost s = queues_of(crate::json::opt(t));
    let n: usize = count(queues);
    let mut sum: u64 = 0;
    let mut i: usize = 0;
    while i < n
        invariant
            i <= n,
            n == s.len(),
            s == crate::json::items(crate::json::opt(queues)),
            sum == shown_total(s, queues_of(crate::json::opt(before)), key@, i as int),
        decreases n - i,
    {
        let q = item(queues, i);
        let d: u64 = sat_delta(number(q, key), number(find_queue(before, q), key));
        sum = sum.wrapping_add(d);
        i += 1;
    }
    sum
}

impl<F, G, H> Scale<F, G, H> where
    F: Fn(u64) -> u64,
    G: Fn(u64, u64) -> String,
    H: Fn(u64) -> String,
 {
    /// The functions take every argument and give one result for each.
    pub open spec fn wf(&self) -> bool {
        &&& forall|x: u64| #[trigger] self.rate.requires((x,))
        &&& forall|x: u64, y: u64| #[trigger] self.ratio.requires((x, y))
        &&& forall|x: u64| #[trigger] self.mib.requires((x,))
        &&& forall|x: u64, a: u64, b: u64| #[trigger]
            self.rate.ensures((x,), a) && #[trigger] self.rate.ensures((x,), b) ==> a == b
        &&& forall|x: u64, y: u64, a: String, b: String| #[trigger]
            self.ratio.ensures((x, y), a) && #[trigger] self.ratio.ensures((x, y), b) ==> a@ == b@
        &&& forall|x: u64, a: String, b: String| #[trigger]
            self.mib.ensures((x,), a) && #[trigger] self.mib.ensures((x,), b) ==> a@ == b@
    }

    /// What the functions compute.
    pub open spec fn model(&self, interval: bool) -> ScaleV {
        ScaleV {
            rate: |x: u64| choose|y: u64| self.rate.ensures((x,), y),
            ratio: |x: u64, y: u64| (choose|s: String| self.ratio.ensures((x, y), s))@,
            mib: |x: u64| (choose|s: String| self.mib.ensures((x,), s))@,
            interval,
        }
    }

    fn value(&self, interval: bool, cur: u64, before: u64) -> (y: u64)
        requires
            self.wf(),
        ensures
            y == self.model(interval).val(cur, before),
    {
        if interval {
            let y: u64 = (self.rate)(sat_delta(cur, before));
            y
        } else {
            cur
        }
    }

    fn amount(&self, interval: bool, v: Option<&Json>, v0: Option<&Json>, key: &str) -> (y: u64)
        ensures
            y == self.model(interval).amount(crate::json::opt(v), crate::json::opt(v0), key@),
    {
        let cur: u64 = number(v, key);
        if interval {
            sat_delta(cur, number(v0, key))
        } else {
            cur
        }
    }

    fn push_val(
        &self,
        out: &mut String,
        interval: bool,
        v: Option<&Json>,
        v0: Option<&Json>,
        key: &str,
    )
        requires
            self.wf(),
        ensures
            final(out)@ == old(out)@ + self.model(interval).show(
                crate::json::opt(v),
                crate::json::opt(v0),
                key@,
            ),
    {
        let y: u64 = self.value(interval, number(v, key), number(v0, key));
        push_dec(out, y);
    }

    fn push_bytes(
        &self,
        out: &mut String,
        interval: bool,
        v: Option<&Json>,
        v0: Option<&Json>,
        key: &str,
    )
        requires
            self.wf(),
        ensures
            final(out)@ == old(out)@ + self.model(interval).bytes(
                crate::json::opt(v),
                crate::json::opt(v0),
                key@,
            ),
    {
        let y: u64 = self.value(interval, number(v, key), number(v0, key));
        self.push_size(out, interval, y);
    }

    fn push_size(&self, out: &mut String, interval: bool, y: u64)
        requires
            self.wf(),
        ensures
            final(out)@ == old(out)@ + (self.model(interval).mib)(y),
    {
        let s = (self.mib)(y);
        out.append(s.as_str());
    }

    fn push_ratio(&self, out: &mut String, interval: bool, x: u64, y: u64)
        requires
            self.wf(),
        ensures
            final(out)@ == old(out)@ + (self.model(interval).ratio)(x, y),
    {
        let s = (self.ratio)(x, y);
        out.append(s.as_str());
    }

    fn push_suffix(&self, out: &mut String, interval: bool)
        ensures
            final(out)@ == old(out)@ + self.model(interval).suffix(),
    {
        if interval {
            out.append("/s");
        } else {
            out.append("");
        }
    }

    fn push_hist(
        &self,
        out: &mut String,
        interval: bool,
        v: Option<&Json>,
        v0: Option<&Json>,
        prefix: &str,
    )
        requires
            self.wf(),
        ensures
            final(out)@ == hist_text(
                old(out)@,
                self.model(interval),
                crate::json::opt(v),
                crate::json::opt(v0),
                prefix@,
            ),
    {
        out.append("1:");
        self.push_val(out, interval, v, v0, key_of(prefix, "_b1").as_str());
        out.append(" 2:");
        self.push_val(out, interval, v, v0, key_of(prefix, "_b2").as_str());
        out.append(" <=4:");
        self.push_val(out, interval, v, v0, key_of(prefix, "_b4").as_str());
        out.append(" <=8:");
        self.push_val(out, interval, v, v0, key_of(prefix, "_b8").as_str());
        out.append(" <=16:");
        self.push_val(out, interval, v, v0, key_of(prefix, "_b16").as_str());
        out.append(" >16:");
        self.push_val(out, interval, v, v0, key_of(prefix, "_b32").as_str());
    }

    fn push_ring(
        &self,
        out: &mut String,
        interval: bool,
        t: Option<&Json>,
        before: Option<&Json>,
    )
        requires
            self.wf(),
        ensures
            final(out)@ == backend_line(
                ring_line(
                    old(out)@,
                    self.model(interval),
                    crate::json::opt(t),
                    crate::json::opt(before),
                ),
                self.model(interval),
                crate::json::opt(t),
                crate::json::opt(before),
            ),
    {
        let ring = child(t, "ring");
        let ring0 = child(before, "ring");
        out.append(string_or(child(t, "name"), "?"));
        out.append("  tid ");
        push_opt(out, child(t, "tid"));
        out.append("  parks");
        self.push_suffix(out, interval);
        out.append(" ");
        self.push_val(out, interval, ring, ring0, "parks");
        out.append("  sqes");
        self.push_suffix(out, interval);
        out.append(" ");
        self.push_val(out, interval, ring, ring0, "sqes");
        out.append("  sqes/park ");
        let sqes: u64 = self.amount(interval, ring, ring0, "sqes");
        let parks: u64 = self.amount(interval, ring, ring0, "parks");
        self.push_ratio(out, interval, sqes, parks);
        out.append("  send");
        self.push_suffix(out, interval);
        out.append(" ");
        self.push_val(out, interval, ring, ring0, "send_sqes");
        out.append("  recv");
        self.push_suffix(out, interval);
        out.append(" ");
        self.push_val(out, interval, ring, ring0, "recv_sqes");
        out.append("  read");
        self.push_suffix(out, interval);
        out.append(" ");
        self.push_val(out, interval, ring, ring0, "read_sqes");
        out.append("  write");
        self.push_suffix(out, interval);
        out.append(" ");
        self.push_val(out, interval, ring, ring0, "write_sqes");
        out.append("  cqes");
        self.push_suffix(out, interval);
        out.append(" ");
        self.push_val(out, interval, ring, ring0, "cqes");
        out.append("\n");
        assert(out@ == ring_line(
            old(out)@,
            self.model(interval),
            crate::json::opt(t),
            crate::json::opt(before),
        ));
        let b1: u64 = self.amount(interval, ring, ring0, key_of("rw_sq", "_b1").as_str());
        let b2: u64 = self.amount(interval, ring, ring0, key_of("rw_sq", "_b2").as_str());
        let b4: u64 = self.amount(interval, ring, ring0, key_of("rw_sq", "_b4").as_str());
        let b8: u64 = self.amount(interval, ring, ring0, key_of("rw_sq", "_b8").as_str());
        let b16: u64 = self.amount(interval, ring, ring0, key_of("rw_sq", "_b16").as_str());
        let b32: u64 = self.amount(interval, ring, ring0, key_of("rw_sq", "_b32").as_str());
        let total: u64 = b1.wrapping_add(b2).wrapping_add(b4).wrapping_add(b8).wrapping_add(
            b16,
        ).wrapping_add(b32);
        if total > 0 {
            out.append("  backend rw/submit [");
            self.push_hist(out, interval, ring, ring0, "rw_sq");
            out.append("]\n");
        }
    }

    fn push_wr(&self, out: &mut String, interval: bool, w: Option<&Json>, w0: Option<&Json>)
        requires
            self.wf(),
        ensures
            final(out)@ == wr_line(
                old(out)@,
                self.model(interval),
                crate::json::opt(w),
                crate::json::opt(w0),
            ),
    {
        out.append("    wr  read ");
        self.push_val(out, interval, w, w0, "read_done");
        self.push_suffix(out, interval);
        out.append(" if ");
        push_dec(out, number(w, "read_inflight"));
        out.append("  write ");
        self.push_val(out, interval, w, w0, "write_done");
        self.push_suffix(out, interval);
        out.append(" if ");
        push_dec(out, number(w, "write_inflight"));
        out.append("  send ");
        self.push_val(out, interval, w, w0, "send_done");
        self.push_suffix(out, interval);
        out.append(" if ");
        push_dec(out, number(w, "send_inflight"));
        out.append("  recv ");
        self.push_val(out, interval, w, w0, "recv_done");
        self.push_suffix(out, interval);
        out.append(" if ");
        push_dec(out, number(w, "recv_inflight"));
        out.append("  poll ");
        self.push_val(out, interval, w, w0, "poll_batches");
        self.push_suffix(out, interval);
        out.append(" (");
        let done: u64 = self.amount(interval, w, w0, "read_done").wrapping_add(
            self.amount(interval, w, w0, "write_done"),
        ).wrapping_add(self.amount(interval, w, w0, "send_done")).wrapping_add(
            self.amount(interval, w, w0, "recv_done"),
        );
        let polls: u64 = self.amount(interval, w, w0, "poll_batches");
        self.push_ratio(out, interval, done, polls);
        out.append("/poll)  db ");
        self.push_val(out, interval, w, w0, "sq_doorbells");
        self.push_suffix(out, interval);
        out.append(" (");
        let posted: u64 = self.amount(interval, w, w0, "read_posted").wrapping_add(
            self.amount(interval, w, w0, "write_posted"),
        ).wrapping_add(self.amount(interval, w, w0, "send_posted"));
        let bells: u64 = self.amount(interval, w, w0, "sq_doorbells");
        self.push_ratio(out, interval, posted, bells);
        out.append(" wr/db)\n");
    }

    fn push_queue(&self, out: &mut String, interval: bool, q: Option<&Json>, q0: Option<&Json>)
        requires
            self.wf(),
        ensures
            final(out)@ == queue_block(
                old(out)@,
                self.model(interval),
                crate::json::opt(q),
                crate::json::opt(q0),
            ),
    {
        out.append("  cntlid ");
        push_opt(out, child(q, "cntlid"));
        out.append(" qid ");
        push_opt(out, child(q, "qid"));
        out.append("   read ");
        self.push_val(out, interval, q, q0, "read_cmds");
        self.push_suffix(out, interval);
        out.append(" (");
        self.push_bytes(out, interval, q, q0, "read_bytes");
        self.push_suffix(out, interval);
        out.append(")  write ");
        self.push_val(out, interval, q, q0, "write_cmds");
        self.push_suffix(out, interval);
        out.append(" (");
        self.push_bytes(out, interval, q, q0, "write_bytes");
        self.push_suffix(out, interval);
        out.append(")  flush ");
        self.push_val(out, interval, q, q0, "flush_cmds");
        self.push_suffix(out, interval);
        out.append("  other ");
        self.push_val(out, interval, q, q0, "other_cmds");
        self.push_suffix(out, interval);
        out.append("  err ");
        self.push_val(out, interval, q, q0, "errors");
        self.push_suffix(out, interval);
        out.append("\n");
        assert(out@ == queue_line(
            old(out)@,
            self.model(interval),
            crate::json::opt(q),
            crate::json::opt(q0),
        ));
        let w = child(q, "wr");
        let w0 = child(q0, "wr");
        let (is_obj, has_hist) = match w {
            Some(j) => (j.is_object(), j.get("poll_b1").is_some()),
            None => (false, false),
        };
        if is_obj {
            self.push_wr(out, interval, w, w0);
            if has_hist {
                out.append("    batch  read/db [");
                self.push_hist(out, interval, w, w0, "read_db");
                out.append("]  resp/db [");
                self.push_hist(out, interval, w, w0, "resp_db");
                out.append("]  recv/db [");
                self.push_hist(out, interval, w, w0, "recv_db");
                out.append("]  cqe/poll [");
                self.push_hist(out, interval, w, w0, "poll");
                out.append("]\n");
            }
        }
    }

    fn retired_of(&self, interval: bool, t: Option<&Json>, before: Option<&Json>, key: &str) -> (y:
        u64)
        requires
            self.wf(),
        ensures
            y == retired(
                self.model(interval),
                crate::json::opt(t),
                crate::json::opt(before),
                key@,
            ),
    {
        if interval {
            let moved: u64 = sat_delta(total_of(t, key), total_of(before, key));
            let y: u64 = (self.rate)(sat_delta(moved, shown_of(t, before, key)));
            y
        } else {
            number(child(t, "retired"), key)
        }
    }

    fn push_retired(
        &self,
        out: &mut String,
        interval: bool,
        t: Option<&Json>,
        before: Option<&Json>,
    )
        requires
            self.wf(),
        ensures
            final(out)@ == retired_line(
                old(out)@,
                self.model(interval),
                crate::json::opt(t),
                crate::json::opt(before),
            ),
    {
        let reads: u64 = self.retired_of(interval, t, before, "read_cmds");
        let read_bytes: u64 = self.retired_of(interval, t, before, "read_bytes");
        let writes: u64 = self.retired_of(interval, t, before, "write_cmds");
        let write_bytes: u64 = self.retired_of(interval, t, before, "write_bytes");
        let flushes: u64 = self.retired_of(interval, t, before, "flush_cmds");
        let others: u64 = self.retired_of(interval, t, before, "other_cmds");
        let errors: u64 = self.retired_of(interval, t, before, "errors");
        if reads > 0 || writes > 0 || flushes > 0 || others > 0 || errors > 0 {
            out.append("  retired          read ");
            push_dec(out, reads);
            self.push_suffix(out, interval);
            out.append(" (");
            self.push_size(out, interval, read_bytes);
            self.push_suffix(out, interval);
            out.append(")  write ");
            push_dec(out, writes);
            self.push_suffix(out, interval);
            out.append(" (");
            self.push_size(out, interval, write_bytes);
            self.push_suffix(out, interval);
            out.append(")  flush ");
            push_dec(out, flushes);
            self.push_suffix(out, interval);
            out.append("  other ");
            push_dec(out, others);
            self.push_suffix(out, interval);
            out.append("  err ");
            push_dec(out, errors);
            self.push_suffix(out, interval);
            out.append("\n");
        }
    }

    fn push_thread(
        &self,
        out: &mut String,
        interval: bool,
        t: Option<&Json>,
        prev: Option<&Json>,
    )
        requires
            self.wf(),
        ensures
            final(out)@ == thread_block(
                old(out)@,
                self.model(interval),
                crate::json::opt(t),
                crate::json::items(crate::json::at(crate::json::opt(prev), "threads"@)),
            ),
    {
        match child(t, "error") {
            Some(Json::Str(err)) => {
                out.append("thread ");
                out.append(string_or(child(t, "name"), "?"));
                out.append(": ");
                out.append(err.as_str());
                out.append("\n");
            },
            _ => {
                let before = find_thread(prev, string_or(child(t, "name"), "?"));
                self.push_ring(out, interval, t, before);
                let queues = child(t, "queues");
                let ghost f = self.model(interval);
                let ghost s = queues_of(crate::json::opt(t));
                let ghost s0 = queues_of(crate::json::opt(before));
                let ghost pre = out@;
                let n: usize = count(queues);
                let mut i: usize = 0;
                while i < n
                    invariant
                        i <= n,
                        n == s.len(),
                        self.wf(),
                        f == self.model(interval),
                        s == crate::json::items(crate::json::opt(queues)),
                        s0 == queues_of(crate::json::opt(before)),
                        queue_blocks(pre, f, s, s0, 0) == queue_blocks(out@, f, s, s0, i as int),
                    decreases n - i,
                {
                    let q = item(queues, i);
                    let q0 = find_queue(before, q);
                    self.push_queue(out, interval, q, q0);
                    i += 1;
                }
                self.push_retired(out, interval, t, before);
            },
        }
    }

    /// Render a snapshot of the counters: as totals, or with the snapshot
    /// `prev` as rates over the interval between the two.
    pub fn render_stat(&self, data: &Json, prev: Option<&Json>) -> (text: String)
        requires
            self.wf(),
        ensures
            text@ == stat_text(self.model(prev is Some), data@, crate::json::opt(prev)),
    {
        let interval: bool = prev.is_some();
        let d: Option<&Json> = Some(data);
        let mut out = String::new();
        assert(out@ =~= Seq::<char>::empty());
        let infos = child(d, "controller_info");
        let ghost cs = crate::json::items(crate::json::opt(infos));
        let n: usize = count(infos);
        let mut i: usize = 0;
        while i < n
            invariant
                i <= n,
                n == cs.len(),
                cs == crate::json::items(crate::json::opt(infos)),
                identity_lines(Seq::<char>::empty(), cs, 0) == identity_lines(
                    out@,
                    cs,
                    i as int,
                ),
            decreases n - i,
        {
            let c = item(infos, i);
            out.append("controller ");
            push_opt(&mut out, child(c, "cntlid"));
            push_kind(&mut out, c);
            out.append(": ");
            out.append(string_or(child(c, "subsysnqn"), "?"));
            out.append("  host ");
            out.append(string_or(child(c, "hostnqn"), "?"));
            out.append("\n");
            i += 1;
        }
        let threads = child(d, "threads");
        let ghost f = self.model(interval);
        let ghost ts = crate::json::items(crate::json::opt(threads));
        let ghost ps = crate::json::items(crate::json::at(crate::json::opt(prev), "threads"@));
        let ghost pre = out@;
        let m: usize = count(threads);
        let mut k: usize = 0;
        while k < m
            invariant
                k <= m,
                m == ts.len(),
                self.wf(),
                f == self.model(interval),
                ts == crate::json::items(crate::json::opt(threads)),
                ps == crate::json::items(crate::json::at(crate::json::opt(prev), "threads"@)),
                thread_blocks(pre, f, ts, ps, 0) == thread_blocks(out@, f, ts, ps, k as int),
            decreases m - k,
        {
            self.push_thread(&mut out, interval, item(threads, k), prev);
            k += 1;
        }
        out
    }
}

/// A thread that did no work since the snapshot before shows none as retired,
/// even if queues retired meanwhile: moving a queue's counts is not work.
pub proof fn no_work_no_retired(
    f: ScaleV,
    t: crate::json::JsonV,
    before: crate::json::JsonV,
    key: Seq<char>,
)
    requires
        f.interval,
        thread_total(t, key) == thread_total(before, key),
    ensures
        retired(f, t, before, key) == (f.rate)(0),
{
}

/// Counters that went back, as after a restart, show as no work.
pub proof fn restart_shows_zero(f: ScaleV, cur: u64, before: u64)
    requires
        f.interval,
        cur <= before,
    ensures
        f.val(cur, before) == (f.rate)(0),
        f.amt(cur, before) == 0,
{
}

} // verus!
