//! Controller registry: which controllers live on this port, which queues
//! each has installed, and their routing identity (thread, CPUs, peer).
//! Control-plane rate only (Connect and teardown).

use vstd::prelude::*;

use crate::text::same_text;

verus! {

/// Traffic-based keep-alive liveness bit. A controller's queues set it when they
/// have seen command traffic; the admin queue's watchdog takes it.
#[derive(Debug, Clone, Copy, PartialEq, Eq, Structural)]
pub struct TrafficFlag(pub bool);

impl TrafficFlag {
    /// Record that this controller's host has been heard from.
    pub fn set(&mut self)
        ensures
            final(self).0,
    {
        self.0 = true;
    }

    /// Consume the flag: whether traffic was recorded since the last take.
    pub fn take(&mut self) -> (was: bool)
        ensures
            was == old(self).0,
            !final(self).0,
    {
        let was: bool = self.0;
        self.0 = false;
        was
    }
}

impl Default for TrafficFlag {
    fn default() -> (f: TrafficFlag)
        ensures
            !f.0,
    {
        TrafficFlag(false)
    }
}

/// A reference to the [`TrafficFlag`] of one controller, which the registry
/// keeps. Every record of the controller carries the same reference, so what
/// one queue sets another takes; it works on after the controller was removed.
#[derive(Debug, Clone, Copy, PartialEq, Eq, Structural)]
pub struct SharedFlag {
    pub cntlid: u16,
    /// Tells the controllers apart that had one id in turn.
    pub serial: u64,
}

/// `post` is `pre` with the flag of `f` set.
pub open spec fn flag_set(pre: Registry, post: Registry, f: SharedFlag) -> bool {
    &&& post == (Registry { flags: post.flags, ..pre })
    &&& post@ == pre@
    &&& forall|g: SharedFlag| #[trigger] post.heard(g) <==> (pre.heard(g) || g == f)
}

/// `post` is `pre` with the flag of `f` cleared, and `was` tells whether it was
/// set.
pub open spec fn flag_taken(pre: Registry, post: Registry, f: SharedFlag, was: bool) -> bool {
    &&& was == pre.heard(f)
    &&& post == (Registry { flags: post.flags, ..pre })
    &&& post@ == pre@
    &&& forall|g: SharedFlag| #[trigger] post.heard(g) <==> (pre.heard(g) && g != f)
}

impl SharedFlag {
    /// Record that this controller's host has been heard from.
    pub fn set(&self, registry: &mut Registry)
        requires
            old(registry).wf(),
        ensures
            final(registry).wf(),
            flag_set(*old(registry), *final(registry), *self),
    {
        let ghost pre = *registry;
        let at: usize = flag_at(&registry.flags, *self);
        if at == registry.flags.len() {
            registry.flags.push((*self, TrafficFlag(false)));
        }
        registry.flags[at].1.set();
        proof {
            lemma_bit_changed(pre.flags@, registry.flags@, *self, at as int);
            pre.lemma_same_view(*registry);
            assert forall|g: SharedFlag| #[trigger] registry.heard(g) <==> (pre.heard(g) || g
                == *self) by {
                assert(is_up(registry.flags@, g) == (if g == *self {
                    true
                } else {
                    is_up(pre.flags@, g)
                }));
            }
        }
    }

    /// Consume the flag: whether traffic was recorded since the last take.
    pub fn take(&self, registry: &mut Registry) -> (was: bool)
        requires
            old(registry).wf(),
        ensures
            final(registry).wf(),
            flag_taken(*old(registry), *final(registry), *self, was),
    {
        let ghost pre = *registry;
        let at: usize = flag_at(&registry.flags, *self);
        if at == registry.flags.len() {
            return false;
        }
        let was: bool = registry.flags[at].1.take();
        proof {
            lemma_bit_changed(pre.flags@, registry.flags@, *self, at as int);
            lemma_bit_at(pre.flags@, at as int);
            pre.lemma_same_view(*registry);
            assert forall|g: SharedFlag| #[trigger] registry.heard(g) <==> (pre.heard(g) && g
                != *self) by {
                assert(is_up(registry.flags@, g) == (if g == *self {
                    false
                } else {
                    is_up(pre.flags@, g)
                }));
            }
        }
        was
    }

    /// Let go of the flag: once its controller was removed, the registry need
    /// not keep it, and forgets what nobody took.
    pub fn release(self, registry: &mut Registry)
        requires
            old(registry).wf(),
        ensures
            final(registry).wf(),
            if old(registry).holds(self) {
                *final(registry) == *old(registry)
            } else {
                flag_taken(*old(registry), *final(registry), self, old(registry).heard(self))
            },
    {
        let ghost pre = *registry;
        let pos: usize = registry.position(self.cntlid);
        proof {
            pre.lemma_holds(self, pos as int);
        }
        if pos < registry.controllers.len() && registry.controllers[pos].traffic == self {
            return ;
        }
        let at: usize = flag_at(&registry.flags, self);
        if at < registry.flags.len() {
            registry.flags.remove(at);
            proof {
                lemma_bit_removed(pre.flags@, at as int);
                pre.lemma_same_view(*registry);
                assert forall|g: SharedFlag| #[trigger] registry.heard(g) <==> (pre.heard(g) && g
                    != self) by {
                    assert(is_up(registry.flags@, g) == (is_up(pre.flags@, g) && g != self));
                }
            }
        }
    }
}

/// The list holds the flag of `f`, and it is set.
pub open spec fn is_up(flags: Seq<(SharedFlag, TrafficFlag)>, f: SharedFlag) -> bool {
    exists|i: int| 0 <= i < flags.len() && (#[trigger] flags[i]).0 == f && flags[i].1.0
}

/// No reference has two flags.
pub open spec fn one_each(flags: Seq<(SharedFlag, TrafficFlag)>) -> bool {
    forall|i: int, j: int|
        0 <= i < j < flags.len() ==> (#[trigger] flags[i]).0 != (#[trigger] flags[j]).0
}

/// Where the flag of `f` stands in the list, or the list's length.
fn flag_at(flags: &Vec<(SharedFlag, TrafficFlag)>, f: SharedFlag) -> (at: usize)
    ensures
        at <= flags@.len(),
        at < flags@.len() ==> flags@[at as int].0 == f,
        forall|i: int| 0 <= i < at ==> (#[trigger] flags@[i]).0 != f,
        at == flags@.len() ==> !is_up(flags@, f),
{
    let mut at: usize = 0;
    while at < flags.len()
        invariant
            at <= flags@.len(),
            forall|i: int| 0 <= i < at ==> (#[trigger] flags@[i]).0 != f,
        decreases flags@.len() - at,
    {
        if flags[at].0 == f {
            return at;
        }
        at += 1;
    }
    at
}

/// The flag at one place says whether its reference's is set.
proof fn lemma_bit_at(flags: Seq<(SharedFlag, TrafficFlag)>, at: int)
    requires
        one_each(flags),
        0 <= at < flags.len(),
    ensures
        is_up(flags, flags[at].0) == flags[at].1.0,
{
    if is_up(flags, flags[at].0) {
        let i = choose|i: int|
            0 <= i < flags.len() && (#[trigger] flags[i]).0 == flags[at].0 && flags[i].1.0;
        if i < at {
            assert(flags[i].0 != flags[at].0);
        } else if at < i {
            assert(flags[at].0 != flags[i].0);
        }
    }
}

/// The flag of `f` at place `at` changed, or was added there: no other did.
proof fn lemma_bit_changed(
    a: Seq<(SharedFlag, TrafficFlag)>,
    b: Seq<(SharedFlag, TrafficFlag)>,
    f: SharedFlag,
    at: int,
)
    requires
        one_each(a),
        0 <= at <= a.len(),
        forall|i: int| 0 <= i < at ==> (#[trigger] a[i]).0 != f,
        at < a.len() ==> a[at].0 == f,
        b.len() == (if at < a.len() {
            a.len()
        } else {
            a.len() + 1
        }),
        b[at].0 == f,
        forall|i: int| 0 <= i < a.len() && i != at ==> #[trigger] b[i] == a[i],
    ensures
        one_each(b),
        forall|g: SharedFlag| #[trigger]
            is_up(b, g) == (if g == f {
                b[at].1.0
            } else {
                is_up(a, g)
            }),
{
    assert forall|i: int, j: int| 0 <= i < j < b.len() implies (#[trigger] b[i]).0 != (
    #[trigger] b[j]).0 by {
        if i == at {
            assert(a[at].0 != a[j].0);
        } else if j == at {
            assert(b[i] == a[i]);
        } else {
            assert(a[i].0 != a[j].0);
        }
    }
    assert forall|g: SharedFlag| #[trigger] is_up(b, g) == (if g == f {
        b[at].1.0
    } else {
        is_up(a, g)
    }) by {
        lemma_bit_at(b, at);
        if g != f {
            if is_up(a, g) {
                let i = choose|i: int|
                    0 <= i < a.len() && (#[trigger] a[i]).0 == g && a[i].1.0;
                assert(b[i] == a[i]);
            }
            if is_up(b, g) {
                let i = choose|i: int|
                    0 <= i < b.len() && (#[trigger] b[i]).0 == g && b[i].1.0;
                assert(a[i] == b[i]);
            }
        }
    }
}

/// The flag at place `at` left the list: no other did.
proof fn lemma_bit_removed(a: Seq<(SharedFlag, TrafficFlag)>, at: int)
    requires
        one_each(a),
        0 <= at < a.len(),
    ensures
        one_each(a.remove(at)),
        forall|g: SharedFlag| #[trigger]
            is_up(a.remove(at), g) == (is_up(a, g) && g != a[at].0),
{
    let b = a.remove(at);
    assert forall|i: int, j: int| 0 <= i < j < b.len() implies (#[trigger] b[i]).0 != (
    #[trigger] b[j]).0 by {
        let i0 = if i < at { i } else { i + 1 };
        let j0 = if j < at { j } else { j + 1 };
        assert(a[i0].0 != a[j0].0);
    }
    assert forall|g: SharedFlag| #[trigger] is_up(b, g) == (is_up(a, g) && g != a[at].0) by {
        if is_up(b, g) {
            let i = choose|i: int| 0 <= i < b.len() && (#[trigger] b[i]).0 == g && b[i].1.0;
            let i0 = if i < at { i } else { i + 1 };
            assert(a[i0] == b[i]);
            if i0 < at {
                assert(a[i0].0 != a[at].0);
            } else {
                assert(a[at].0 != a[i0].0);
            }
        }
        if is_up(a, g) && g != a[at].0 {
            let i = choose|i: int| 0 <= i < a.len() && (#[trigger] a[i]).0 == g && a[i].1.0;
            assert(b[if i < at { i } else { i - 1 }] == a[i]);
        }
    }
}

/// One installed queue's identity, recorded at Connect time.
#[derive(Debug)]
pub struct QueueInfo {
    /// Queue id (0 = admin, 1..=max_qid = IO).
    pub qid: u16,
    /// Queue depth in entries (wire sqsize + 1).
    pub sqsize: u16,
    /// Kernel thread id of the queue thread serving this queue.
    pub tid: i32,
    /// The serving thread's CPU affinity at Connect time: a kernel cpulist, or
    /// "*" when the mask covers every online CPU.
    pub cpus: String,
    /// Peer (remote) address of this queue's connection.
    pub peer: String,
}

/// What a [`QueueInfo`] says.
pub struct QueueInfoView {
    pub qid: u16,
    pub sqsize: u16,
    pub tid: i32,
    pub cpus: Seq<char>,
    pub peer: Seq<char>,
}

impl View for QueueInfo {
    type V = QueueInfoView;

    open spec fn view(&self) -> QueueInfoView {
        QueueInfoView {
            qid: self.qid,
            sqsize: self.sqsize,
            tid: self.tid,
            cpus: self.cpus@,
            peer: self.peer@,
        }
    }
}

impl Clone for QueueInfo {
    fn clone(&self) -> (q: QueueInfo)
        ensures
            q@ == self@,
    {
        QueueInfo {
            qid: self.qid,
            sqsize: self.sqsize,
            tid: self.tid,
            cpus: self.cpus.clone(),
            peer: self.peer.clone(),
        }
    }
}

/// The views of a queue list.
pub open spec fn queue_views(qs: Seq<QueueInfo>) -> Seq<QueueInfoView> {
    Seq::new(qs.len(), |i: int| qs[i]@)
}

/// A live controller's routing record.
#[derive(Debug)]
pub struct ControllerEntry {
    pub cntlid: u16,
    pub subsys_nqn: String,
    pub hostnqn: String,
    /// Highest IO qid this controller may install.
    pub max_qid: u16,
    /// Keep-alive timeout granted at Connect (ms).
    pub kato_ms: u32,
    /// Installed queues, admin first.
    pub queues: Vec<QueueInfo>,
    /// Bound to the well-known discovery subsystem.
    pub discovery: bool,
    /// Traffic-based keep-alive liveness, the same flag in every record of this
    /// controller.
    pub traffic: SharedFlag,
}

/// What a [`ControllerEntry`] says.
#[verifier::ext_equal]
pub struct EntryView {
    pub cntlid: u16,
    pub subsys_nqn: Seq<char>,
    pub hostnqn: Seq<char>,
    pub max_qid: u16,
    pub kato_ms: u32,
    pub queues: Seq<QueueInfoView>,
    pub discovery: bool,
    pub traffic: SharedFlag,
}

impl View for ControllerEntry {
    type V = EntryView;

    open spec fn view(&self) -> EntryView {
        EntryView {
            cntlid: self.cntlid,
            subsys_nqn: self.subsys_nqn@,
            hostnqn: self.hostnqn@,
            max_qid: self.max_qid,
            kato_ms: self.kato_ms,
            queues: queue_views(self.queues@),
            discovery: self.discovery,
            traffic: self.traffic,
        }
    }
}

impl Clone for ControllerEntry {
    fn clone(&self) -> (e: ControllerEntry)
        ensures
            e@ == self@,
    {
        let mut queues: Vec<QueueInfo> = Vec::new();
        let mut i: usize = 0;
        while i < self.queues.len()
            invariant
                i <= self.queues@.len(),
                queues@.len() == i,
                forall|k: int| 0 <= k < i ==> (#[trigger] queues@[k])@ == self.queues@[k]@,
            decreases self.queues@.len() - i,
        {
            queues.push(self.queues[i].clone());
            i += 1;
        }
        assert(queue_views(queues@) =~= queue_views(self.queues@));
        ControllerEntry {
            cntlid: self.cntlid,
            subsys_nqn: self.subsys_nqn.clone(),
            hostnqn: self.hostnqn.clone(),
            max_qid: self.max_qid,
            kato_ms: self.kato_ms,
            queues,
            discovery: self.discovery,
            traffic: self.traffic,
        }
    }
}

/// Highest allocatable cntlid: 0xFFF0..=0xFFFF are reserved.
pub const CNTLID_MAX: u16 = 0xFFEF;

/// The slice of cntlids for process `i` of the `n` that serve one target
/// between them, lowest and highest.
pub open spec fn slice_of(i: int, n: int) -> (int, int) {
    let width = CNTLID_MAX as int / n;
    (i * width + 1, i * width + width)
}

/// The slice of cntlids for process `i` of `n`, lowest and highest.
pub fn cntlid_slice(i: u16, n: u16) -> (r: (u16, u16))
    requires
        i < n <= CNTLID_MAX,
    ensures
        (r.0 as int, r.1 as int) == slice_of(i as int, n as int),
        1 <= r.0 <= r.1 <= CNTLID_MAX,
{
    proof {
        lemma_slice(i as int, n as int);
    }
    let width: u16 = CNTLID_MAX / n;
    (i * width + 1, i * width + width)
}

proof fn lemma_slice(i: int, n: int)
    requires
        0 <= i < n <= CNTLID_MAX,
    ensures
        1 <= CNTLID_MAX as int / n,
        0 <= i * (CNTLID_MAX as int / n),
        1 <= slice_of(i, n).0 <= slice_of(i, n).1 <= CNTLID_MAX,
{
    let width = CNTLID_MAX as int / n;
    assert(1 <= width && n * width <= CNTLID_MAX) by (nonlinear_arith)
        requires
            0 < n <= CNTLID_MAX,
            width == CNTLID_MAX as int / n,
    ;
    assert(0 <= i * width && i * width + width <= n * width) by (nonlinear_arith)
        requires
            0 <= i < n,
            1 <= width,
    ;
}

/// The processes that serve one target between them can never give out the
/// same cntlid.
pub proof fn slices_disjoint(i: int, j: int, n: int)
    requires
        0 <= i < j < n <= CNTLID_MAX,
    ensures
        slice_of(i, n).1 < slice_of(j, n).0,
{
    let width = CNTLID_MAX as int / n;
    lemma_slice(i, n);
    assert(i * width + width <= j * width) by (nonlinear_arith)
        requires
            i < j,
            1 <= width,
    ;
}

/// IO-queue Connect failure reasons.
#[derive(Debug, Clone, Copy, PartialEq, Eq, Structural)]
pub enum IoConnectError {
    UnknownController,
    HostMismatch,
    QueueExists,
    InvalidQid,
}

/// Controller registry.
pub struct Registry {
    /// Allocatable cntlid range, inclusive. A target split across processes
    /// gives each a disjoint slice, so two paths to one subsystem can never
    /// mint the same cntlid.
    pub cntlid_min: u16,
    pub cntlid_max: u16,
    pub next_cntlid: u16,
    /// Live controllers, ascending by cntlid.
    pub controllers: Vec<ControllerEntry>,
    /// The next new controller's flag serial.
    pub next_flag: u64,
    /// The flags of the live controllers, and of others still referred to.
    pub flags: Vec<(SharedFlag, TrafficFlag)>,
}

/// The serial after `serial`.
pub open spec fn serial_after(serial: u64) -> u64 {
    if serial == u64::MAX {
        0
    } else {
        (serial + 1) as u64
    }
}

/// The controller a scan for a free id visits at step `k`, within the slice
/// `min..=max` and starting from `next` clamped into it.
pub open spec fn scan_id(min: u16, max: u16, next: u16, k: int) -> int {
    let start = if next < min {
        min
    } else if next > max {
        max
    } else {
        next
    };
    min + (start - min + k) % (max - min + 1)
}

/// Whether a queue of this qid is installed.
pub open spec fn has_qid(qs: Seq<QueueInfoView>, qid: u16) -> bool {
    exists|i: int| 0 <= i < qs.len() && (#[trigger] qs[i]).qid == qid
}

impl Registry {
    pub open spec fn wf(&self) -> bool {
        &&& 1 <= self.cntlid_min <= self.cntlid_max <= CNTLID_MAX
        &&& forall|i: int, j: int|
            0 <= i < j < self.controllers@.len() ==> (#[trigger] self.controllers@[i]).cntlid < (
            #[trigger] self.controllers@[j]).cntlid
        &&& forall|i: int|
            0 <= i < self.controllers@.len() ==> self.cntlid_min <= (
            #[trigger] self.controllers@[i]).cntlid <= self.cntlid_max
        &&& forall|i: int|
            0 <= i < self.controllers@.len() ==> (#[trigger] self.controllers@[i]).traffic.cntlid
                == self.controllers@[i].cntlid
        &&& one_each(self.flags@)
    }

    /// A live controller has flag `f`.
    pub open spec fn holds(&self, f: SharedFlag) -> bool {
        self@.contains_key(f.cntlid) && self@[f.cntlid].traffic == f
    }

    /// The flag of `f` is set.
    pub open spec fn heard(&self, f: SharedFlag) -> bool {
        is_up(self.flags@, f)
    }

    /// The map depends on the controllers alone.
    proof fn lemma_same_view(&self, post: Registry)
        requires
            post.controllers == self.controllers,
        ensures
            post@ == self@,
    {
        assert forall|id: u16| post.live(id) == self.live(id) by {
            if self.live(id) {
                let i = self.lemma_live_at(id);
                assert(post.controllers@[i].cntlid == id);
            }
            if post.live(id) {
                let i = post.lemma_live_at(id);
                assert(self.controllers@[i].cntlid == id);
            }
        }
        assert(post@ =~= self@);
    }

    /// Only the controller of a flag's id can have the flag.
    proof fn lemma_holds(&self, f: SharedFlag, pos: int)
        requires
            self.wf(),
            0 <= pos <= self.controllers@.len(),
            self.live(f.cntlid) == (pos < self.controllers@.len() && self.controllers@[pos].cntlid
                == f.cntlid),
        ensures
            self.holds(f) == (pos < self.controllers@.len() && self.controllers@[pos].traffic == f),
    {
        if pos < self.controllers@.len() {
            self.lemma_view_at(pos);
        }
    }

    /// Controller `id` is live.
    pub open spec fn live(&self, id: u16) -> bool {
        exists|i: int| 0 <= i < self.controllers@.len() && (#[trigger] self.controllers@[i]).cntlid == id
    }

    /// The live controllers by id.
    pub open spec fn view(&self) -> Map<u16, EntryView> {
        Map::new(
            |id: u16| self.live(id),
            |id: u16|
                self.controllers@[choose|i: int|
                    0 <= i < self.controllers@.len() && (
                    #[trigger] self.controllers@[i]).cntlid == id]@,
        )
    }

    proof fn lemma_view_at(&self, i: int)
        requires
            self.wf(),
            0 <= i < self.controllers@.len(),
        ensures
            self@.contains_key(self.controllers@[i].cntlid),
            self@[self.controllers@[i].cntlid] == self.controllers@[i]@,
    {
        let id = self.controllers@[i].cntlid;
        assert(self.live(id));
        let j = choose|j: int|
            0 <= j < self.controllers@.len() && (#[trigger] self.controllers@[j]).cntlid == id;
        if j < i {
            assert(self.controllers@[j].cntlid < self.controllers@[i].cntlid);
        } else if i < j {
            assert(self.controllers@[i].cntlid < self.controllers@[j].cntlid);
        }
    }

    proof fn lemma_live_at(&self, id: u16) -> (i: int)
        requires
            self@.contains_key(id),
        ensures
            0 <= i < self.controllers@.len(),
            self.controllers@[i].cntlid == id,
    {
        choose|i: int|
            0 <= i < self.controllers@.len() && (#[trigger] self.controllers@[i]).cntlid == id
    }

    /// The ids are given out of the same slice as in `other`.
    pub open spec fn same_slice(&self, other: &Registry) -> bool {
        self.cntlid_min == other.cntlid_min && self.cntlid_max == other.cntlid_max
    }

    /// An empty registry allocating cntlids from the inclusive slice
    /// `cntlid_min..=cntlid_max`.
    pub fn new(cntlid_min: u16, cntlid_max: u16) -> (r: Registry)
        requires
            1 <= cntlid_min <= cntlid_max <= CNTLID_MAX,
        ensures
            r.wf(),
            r.cntlid_min == cntlid_min,
            r.cntlid_max == cntlid_max,
            r.next_cntlid == cntlid_min,
            r.controllers@.len() == 0,
            forall|f: SharedFlag| !#[trigger] r.heard(f),
            r@ == Map::<u16, EntryView>::empty(),
    {
        let r = Registry {
            cntlid_min,
            cntlid_max,
            next_cntlid: cntlid_min,
            controllers: Vec::new(),
            next_flag: 0,
            flags: Vec::new(),
        };
        assert(r@ =~= Map::<u16, EntryView>::empty());
        r
    }

    /// Position of controller `id`, or where it would be inserted.
    fn position(&self, id: u16) -> (pos: usize)
        requires
            self.wf(),
        ensures
            pos <= self.controllers@.len(),
            forall|i: int| 0 <= i < pos ==> (#[trigger] self.controllers@[i]).cntlid < id,
            forall|i: int|
                pos <= i < self.controllers@.len() ==> id <= (#[trigger] self.controllers@[i]).cntlid,
            self.live(id) == (pos < self.controllers@.len() && self.controllers@[pos as int].cntlid
                == id),
    {
        let mut pos: usize = 0;
        while pos < self.controllers.len() && self.controllers[pos].cntlid < id
            invariant
                self.wf(),
                pos <= self.controllers@.len(),
                forall|i: int| 0 <= i < pos ==> (#[trigger] self.controllers@[i]).cntlid < id,
            decreases self.controllers@.len() - pos,
        {
            pos += 1;
        }
        proof {
            assert forall|i: int| pos <= i < self.controllers@.len() implies id <= (
            #[trigger] self.controllers@[i]).cntlid by {
                if i > pos {
                    assert(self.controllers@[pos as int].cntlid < self.controllers@[i].cntlid);
                }
            }
            if self.live(id) {
                let j = choose|j: int|
                    0 <= j < self.controllers@.len() && (
                    #[trigger] self.controllers@[j]).cntlid == id;
                if j > pos {
                    assert(self.controllers@[pos as int].cntlid < self.controllers@[j].cntlid);
                }
            }
        }
        pos
    }

    /// Allocate a cntlid for a new controller: the first free id of the slice,
    /// scanning from where the last allocation left off; `None` exactly when
    /// every id of the slice is taken. `max_qid` is the highest IO queue id the
    /// controller may install; `admin_queue` is the admin queue's identity.
    pub fn allocate(
        &mut self,
        subsys_nqn: &str,
        hostnqn: &str,
        max_qid: u16,
        kato_ms: u32,
        admin_queue: QueueInfo,
        discovery: bool,
    ) -> (r: Option<u16>)
        requires
            old(self).wf(),
        ensures
            final(self).wf(),
            final(self).same_slice(old(self)),
            r is None <==> forall|id: u16|
                old(self).cntlid_min <= id <= old(self).cntlid_max ==> #[trigger] old(
                    self,
                )@.contains_key(id),
            match r {
                None => *final(self) == *old(self),
                Some(id) => {
                    &&& old(self).cntlid_min <= id <= old(self).cntlid_max
                    &&& !old(self)@.contains_key(id)
                    &&& exists|k: int|
                        {
                            &&& 0 <= k <= old(self).cntlid_max - old(self).cntlid_min
                            &&& id == #[trigger] old(self).scan(k)
                            &&& forall|j: int|
                                0 <= j < k ==> old(self)@.contains_key(
                                    #[trigger] old(self).scan(j) as u16,
                                )
                        }
                    &&& final(self).next_cntlid == id + 1
                    &&& final(self).next_flag == serial_after(old(self).next_flag)
                    &&& forall|f: SharedFlag| #[trigger]
                        final(self).heard(f) <==> (old(self).heard(f) && f != (SharedFlag {
                            cntlid: id,
                            serial: old(self).next_flag,
                        }))
                    &&& final(self)@ == old(self)@.insert(
                        id,
                        EntryView {
                            cntlid: id,
                            subsys_nqn: subsys_nqn@,
                            hostnqn: hostnqn@,
                            max_qid,
                            kato_ms,
                            queues: seq![admin_queue@],
                            discovery,
                            traffic: SharedFlag { cntlid: id, serial: old(self).next_flag },
                        },
                    )
                },
            },
    {
        let ghost pre = *self;
        let span: u32 = (self.cntlid_max - self.cntlid_min) as u32 + 1;
        let start: u32 = if self.next_cntlid < self.cntlid_min {
            self.cntlid_min as u32
        } else if self.next_cntlid > self.cntlid_max {
            self.cntlid_max as u32
        } else {
            self.next_cntlid as u32
        };
        let mut offset: u32 = 0;
        while offset < span
            invariant
                *self == pre,
                pre == *old(self),
                pre.wf(),
                span == pre.cntlid_max - pre.cntlid_min + 1,
                offset <= span,
                start == (if pre.next_cntlid < pre.cntlid_min {
                    pre.cntlid_min
                } else if pre.next_cntlid > pre.cntlid_max {
                    pre.cntlid_max
                } else {
                    pre.next_cntlid
                }),
                forall|j: int|
                    0 <= j < offset ==> pre@.contains_key(#[trigger] pre.scan(j) as u16),
            decreases span - offset,
        {
            let index: u32 = (start - self.cntlid_min as u32 + offset) % span;
            let id: u16 = self.cntlid_min + index as u16;
            let pos: usize = self.position(id);
            assert(id == pre.scan(offset as int));
            if pos < self.controllers.len() && self.controllers[pos].cntlid == id {
                assert(pre@.contains_key(id));
                offset += 1;
                continue ;
            }
            let mut queues: Vec<QueueInfo> = Vec::new();
            queues.push(admin_queue);
            let entry = ControllerEntry {
                cntlid: id,
                subsys_nqn: subsys_nqn.to_owned(),
                hostnqn: hostnqn.to_owned(),
                max_qid,
                kato_ms,
                queues,
                discovery,
                traffic: SharedFlag { cntlid: id, serial: self.next_flag },
            };
            let ghost ev = entry@;
            let flag: SharedFlag = entry.traffic;
            assert(queue_views(queues@) =~= seq![admin_queue@]);
            self.controllers.insert(pos, entry);
            self.next_cntlid = id + 1;
            self.next_flag = self.next_flag.wrapping_add(1);
            proof {
                pre.lemma_inserted(*self, pos as int, ev);
                assert(!pre@.contains_key(id));
            }
            let ghost placed = *self;
            let at: usize = flag_at(&self.flags, flag);
            if at == self.flags.len() {
                self.flags.push((flag, TrafficFlag(false)));
            } else {
                self.flags.set(at, (flag, TrafficFlag(false)));
            }
            proof {
                lemma_bit_changed(placed.flags@, self.flags@, flag, at as int);
                placed.lemma_same_view(*self);
                assert forall|f: SharedFlag| #[trigger] self.heard(f) <==> (pre.heard(f) && f
                    != flag) by {
                    assert(is_up(self.flags@, f) == (if f == flag {
                        false
                    } else {
                        is_up(pre.flags@, f)
                    }));
                }
            }
            return Some(id);
        }
        proof {
            assert forall|id: u16| pre.cntlid_min <= id <= pre.cntlid_max implies #[trigger] pre@.contains_key(
            id) by {
                let k = pre.lemma_scan_reaches(id);
                assert(pre.scan(k) == id);
            }
        }
        None
    }

    /// The id a scan for a free one visits at step `k`.
    pub open spec fn scan(&self, k: int) -> int {
        scan_id(self.cntlid_min, self.cntlid_max, self.next_cntlid, k)
    }

    /// Every id of the slice is visited within one round.
    proof fn lemma_scan_reaches(&self, id: u16) -> (k: int)
        requires
            self.wf(),
            self.cntlid_min <= id <= self.cntlid_max,
        ensures
            0 <= k < self.cntlid_max - self.cntlid_min + 1,
            self.scan(k) == id,
    {
        let min = self.cntlid_min as int;
        let span = self.cntlid_max - self.cntlid_min + 1;
        let start = self.scan(0);
        assert(0 <= start - min < span) by {
            let s = if self.next_cntlid < self.cntlid_min {
                self.cntlid_min as int
            } else if self.next_cntlid > self.cntlid_max {
                self.cntlid_max as int
            } else {
                self.next_cntlid as int
            };
            vstd::arithmetic::div_mod::lemma_small_mod((s - min) as nat, span as nat);
        }
        let s = if self.next_cntlid < self.cntlid_min {
            self.cntlid_min as int
        } else if self.next_cntlid > self.cntlid_max {
            self.cntlid_max as int
        } else {
            self.next_cntlid as int
        };
        let k = if id >= s {
            id - s
        } else {
            id - s + span
        };
        if id >= s {
            vstd::arithmetic::div_mod::lemma_small_mod((id - min) as nat, span as nat);
        } else {
            vstd::arithmetic::div_mod::lemma_small_mod((id - min) as nat, span as nat);
            vstd::arithmetic::div_mod::lemma_mod_add_multiples_vanish(id - min, span);
            assert(s - min + k == span + (id - min));
        }
        k
    }

    /// The map after an entry joined the list at its place.
    proof fn lemma_inserted(&self, post: Registry, pos: int, ev: EntryView)
        requires
            self.wf(),
            0 <= pos <= self.controllers@.len(),
            post.same_slice(self),
            exists|e: ControllerEntry| e@ == ev && post.controllers@ == #[trigger] self.controllers@.insert(pos, e),
            self.cntlid_min <= ev.cntlid <= self.cntlid_max,
            ev.traffic.cntlid == ev.cntlid,
            post.flags == self.flags,
            forall|i: int| 0 <= i < pos ==> (#[trigger] self.controllers@[i]).cntlid < ev.cntlid,
            forall|i: int|
                pos <= i < self.controllers@.len() ==> ev.cntlid < (
                #[trigger] self.controllers@[i]).cntlid,
        ensures
            post.wf(),
            post@ == self@.insert(ev.cntlid, ev),
    {
        let a = self.controllers@;
        let b = post.controllers@;
        assert forall|i: int, j: int| 0 <= i < j < b.len() implies (#[trigger] b[i]).cntlid < (
        #[trigger] b[j]).cntlid by {
            let i0 = if i < pos { i } else { i - 1 };
            let j0 = if j < pos { j } else { j - 1 };
            if i != pos && j != pos {
                assert(a[i0].cntlid < a[j0].cntlid);
            } else if i == pos {
                assert(b[j] == a[j - 1]);
            } else {
                assert(b[i] == a[i]);
            }
        }
        assert forall|i: int| 0 <= i < b.len() implies post.cntlid_min <= (#[trigger] b[i]).cntlid
            <= post.cntlid_max by {
            if i < pos {
                assert(b[i] == a[i]);
            } else if i > pos {
                assert(b[i] == a[i - 1]);
            }
        }
        assert forall|i: int| 0 <= i < b.len() implies (#[trigger] b[i]).traffic.cntlid
            == b[i].cntlid by {
            if i < pos {
                assert(b[i] == a[i]);
            } else if i > pos {
                assert(b[i] == a[i - 1]);
            }
        }
        let m = self@.insert(ev.cntlid, ev);
        assert forall|id: u16| post@.contains_key(id) <==> #[trigger] m.contains_key(id) by {
            if post@.contains_key(id) {
                let i = choose|i: int| 0 <= i < b.len() && (#[trigger] b[i]).cntlid == id;
                if i < pos {
                    assert(a[i].cntlid == id);
                } else if i > pos {
                    assert(a[i - 1].cntlid == id);
                }
            }
            if m.contains_key(id) {
                if id == ev.cntlid {
                    assert(b[pos].cntlid == id);
                } else {
                    let i = choose|i: int| 0 <= i < a.len() && (#[trigger] a[i]).cntlid == id;
                    if i < pos {
                        assert(b[i].cntlid == id);
                    } else {
                        assert(b[i + 1].cntlid == id);
                    }
                }
            }
        }
        assert forall|id: u16| #[trigger] m.contains_key(id) implies m[id] == post@[id] by {
            if id == ev.cntlid {
                post.lemma_view_at(pos);
            } else {
                let i = choose|i: int| 0 <= i < a.len() && (#[trigger] a[i]).cntlid == id;
                self.lemma_view_at(i);
                post.lemma_view_at(if i < pos { i } else { i + 1 });
            }
        }
        assert(post@ =~= m);
    }

    /// The map after the entry at `pos` was replaced by one of the same id.
    proof fn lemma_updated(&self, post: Registry, pos: int)
        requires
            self.wf(),
            0 <= pos < self.controllers@.len(),
            post.same_slice(self),
            post.controllers@.len() == self.controllers@.len(),
            forall|i: int|
                0 <= i < self.controllers@.len() && i != pos ==> #[trigger] post.controllers@[i]
                    == self.controllers@[i],
            post.controllers@[pos].cntlid == self.controllers@[pos].cntlid,
            post.controllers@[pos].traffic == self.controllers@[pos].traffic,
            post.flags == self.flags,
        ensures
            post.wf(),
            post@ == self@.insert(self.controllers@[pos].cntlid, post.controllers@[pos]@),
    {
        let a = self.controllers@;
        let b = post.controllers@;
        assert forall|i: int, j: int| 0 <= i < j < b.len() implies (#[trigger] b[i]).cntlid < (
        #[trigger] b[j]).cntlid by {
            assert(a[i].cntlid < a[j].cntlid);
        }
        assert forall|i: int| 0 <= i < b.len() implies post.cntlid_min <= (#[trigger] b[i]).cntlid
            <= post.cntlid_max by {
            assert(self.cntlid_min <= a[i].cntlid <= self.cntlid_max);
        }
        assert forall|i: int| 0 <= i < b.len() implies (#[trigger] b[i]).traffic.cntlid
            == b[i].cntlid by {
            assert(a[i].traffic.cntlid == a[i].cntlid);
        }
        let m = self@.insert(a[pos].cntlid, b[pos]@);
        assert forall|id: u16| post@.contains_key(id) <==> #[trigger] m.contains_key(id) by {
            if post@.contains_key(id) {
                let i = choose|i: int| 0 <= i < b.len() && (#[trigger] b[i]).cntlid == id;
                assert(a[i].cntlid == id);
            }
            if m.contains_key(id) {
                if id != a[pos].cntlid {
                    let i = choose|i: int| 0 <= i < a.len() && (#[trigger] a[i]).cntlid == id;
                    assert(b[i].cntlid == id);
                } else {
                    assert(b[pos].cntlid == id);
                }
            }
        }
        assert forall|id: u16| #[trigger] m.contains_key(id) implies m[id] == post@[id] by {
            if id == a[pos].cntlid {
                post.lemma_view_at(pos);
            } else {
                let i = choose|i: int| 0 <= i < a.len() && (#[trigger] a[i]).cntlid == id;
                self.lemma_view_at(i);
                post.lemma_view_at(i);
            }
        }
        assert(post@ =~= m);
    }

    /// Install an IO queue: the controller exists, belongs to the same host,
    /// and the qid is within its grant and fresh. Returns the controller's
    /// record with the queue on it.
    pub fn install_io_queue(&mut self, cntlid: u16, hostnqn: &str, queue: QueueInfo) -> (r: Result<
        ControllerEntry,
        IoConnectError,
    >)
        requires
            old(self).wf(),
        ensures
            final(self).wf(),
            final(self).same_slice(old(self)),
            final(self).next_cntlid == old(self).next_cntlid,
            final(self).next_flag == old(self).next_flag,
            final(self).flags == old(self).flags,
            forall|f: SharedFlag| #[trigger] final(self).heard(f) == old(self).heard(f),
            r is Err ==> *final(self) == *old(self),
            installed(old(self)@, final(self)@, cntlid, hostnqn@, queue@, r),
    {
        let ghost pre = *self;
        let pos: usize = self.position(cntlid);
        if pos >= self.controllers.len() || self.controllers[pos].cntlid != cntlid {
            return Err(IoConnectError::UnknownController);
        }
        proof {
            pre.lemma_view_at(pos as int);
        }
        let ghost entry = self.controllers@[pos as int]@;
        if !same_text(self.controllers[pos].hostnqn.as_str(), hostnqn) {
            return Err(IoConnectError::HostMismatch);
        }
        if queue.qid == 0 || queue.qid > self.controllers[pos].max_qid {
            return Err(IoConnectError::InvalidQid);
        }
        let mut i: usize = 0;
        while i < self.controllers[pos].queues.len()
            invariant
                *self == pre,
                pos < self.controllers@.len(),
                i <= self.controllers@[pos as int].queues@.len(),
                forall|k: int|
                    0 <= k < i ==> (#[trigger] self.controllers@[pos as int].queues@[k]).qid
                        != queue.qid,
                pre.wf(),
                pre@.contains_key(cntlid),
                pre@[cntlid] == pre.controllers@[pos as int]@,
                entry == pre@[cntlid],
                entry.hostnqn == hostnqn@,
                !(queue.qid == 0 || queue.qid > entry.max_qid),
            decreases self.controllers@[pos as int].queues@.len() - i,
        {
            if self.controllers[pos].queues[i].qid == queue.qid {
                assert(entry.queues[i as int].qid == queue.qid);
                return Err(IoConnectError::QueueExists);
            }
            i += 1;
        }
        proof {
            if has_qid(entry.queues, queue.qid) {
                let k = choose|k: int|
                    0 <= k < entry.queues.len() && (#[trigger] entry.queues[k]).qid == queue.qid;
                assert(pre.controllers@[pos as int].queues@[k].qid == queue.qid);
            }
        }
        let ghost qv = queue@;
        self.controllers[pos].queues.push(queue);
        proof {
            pre.lemma_updated(*self, pos as int);
            assert(queue_views(self.controllers@[pos as int].queues@) =~= entry.queues.push(qv));
        }
        Ok(self.controllers[pos].clone())
    }

    /// Remove a controller.
    pub fn remove(&mut self, cntlid: u16) -> (r: Option<ControllerEntry>)
        requires
            old(self).wf(),
        ensures
            final(self).wf(),
            final(self).same_slice(old(self)),
            final(self).next_cntlid == old(self).next_cntlid,
            final(self).next_flag == old(self).next_flag,
            final(self)@ == old(self)@.remove(cntlid),
            final(self).flags == old(self).flags,
            forall|f: SharedFlag| #[trigger] final(self).heard(f) == old(self).heard(f),
            r is Some == old(self)@.contains_key(cntlid),
            r matches Some(e) ==> e@ == old(self)@[cntlid],
    {
        let ghost pre = *self;
        let pos: usize = self.position(cntlid);
        if pos >= self.controllers.len() || self.controllers[pos].cntlid != cntlid {
            assert(self@.remove(cntlid) =~= self@);
            return None;
        }
        proof {
            pre.lemma_view_at(pos as int);
        }
        let e = self.controllers.remove(pos);
        proof {
            let a = pre.controllers@;
            let b = self.controllers@;
            assert forall|i: int, j: int| 0 <= i < j < b.len() implies (#[trigger] b[i]).cntlid < (
            #[trigger] b[j]).cntlid by {
                let i0 = if i < pos { i } else { i + 1 };
                let j0 = if j < pos { j } else { j + 1 };
                assert(a[i0].cntlid < a[j0].cntlid);
            }
            assert forall|i: int| 0 <= i < b.len() implies self.cntlid_min <= (
            #[trigger] b[i]).cntlid <= self.cntlid_max by {
                let i0 = if i < pos { i } else { i + 1 };
                assert(pre.cntlid_min <= a[i0].cntlid <= pre.cntlid_max);
            }
            assert forall|i: int| 0 <= i < b.len() implies (#[trigger] b[i]).traffic.cntlid
                == b[i].cntlid by {
                let i0 = if i < pos { i } else { i + 1 };
                assert(a[i0].traffic.cntlid == a[i0].cntlid);
            }
            let m = pre@.remove(cntlid);
            assert forall|id: u16| self@.contains_key(id) <==> #[trigger] m.contains_key(id) by {
                if self@.contains_key(id) {
                    let i = choose|i: int| 0 <= i < b.len() && (#[trigger] b[i]).cntlid == id;
                    let i0 = if i < pos { i } else { i + 1 };
                    assert(a[i0].cntlid == id);
                    if i0 < pos {
                        assert(a[i0].cntlid < a[pos as int].cntlid);
                    } else {
                        assert(a[pos as int].cntlid < a[i0].cntlid);
                    }
                }
                if m.contains_key(id) {
                    let i = choose|i: int| 0 <= i < a.len() && (#[trigger] a[i]).cntlid == id;
                    let i1 = if i < pos { i } else { i - 1 };
                    assert(b[i1].cntlid == id);
                }
            }
            assert forall|id: u16| #[trigger] m.contains_key(id) implies m[id] == self@[id] by {
                let i = choose|i: int| 0 <= i < a.len() && (#[trigger] a[i]).cntlid == id;
                pre.lemma_view_at(i);
                self.lemma_view_at(if i < pos { i } else { i - 1 });
            }
            assert(self@ =~= m);
        }
        Some(e)
    }

    /// A controller's traffic-based keep-alive flag: the one that every record
    /// of it carries.
    pub fn traffic(&self, cntlid: u16) -> (r: Option<SharedFlag>)
        requires
            self.wf(),
        ensures
            r == (if self@.contains_key(cntlid) {
                Some(self@[cntlid].traffic)
            } else {
                None
            }),
            r matches Some(f) ==> f.cntlid == cntlid && self.holds(f),
    {
        let pos: usize = self.position(cntlid);
        if pos >= self.controllers.len() || self.controllers[pos].cntlid != cntlid {
            return None;
        }
        proof {
            self.lemma_view_at(pos as int);
        }
        Some(self.controllers[pos].traffic)
    }

    /// Whether a controller is still live.
    pub fn contains(&self, cntlid: u16) -> (b: bool)
        requires
            self.wf(),
        ensures
            b == self@.contains_key(cntlid),
    {
        let pos: usize = self.position(cntlid);
        pos < self.controllers.len() && self.controllers[pos].cntlid == cntlid
    }

    /// Number of live controllers.
    pub fn len(&self) -> (n: usize)
        requires
            self.wf(),
        ensures
            n == self@.len(),
            n == self.controllers@.len(),
    {
        proof {
            self.lemma_len();
        }
        self.controllers.len()
    }

    proof fn lemma_len(&self)
        requires
            self.wf(),
        ensures
            self@.dom().finite(),
            self@.len() == self.controllers@.len(),
    {
        let ids = self.controllers@.map_values(|e: ControllerEntry| e.cntlid);
        assert(ids.no_duplicates()) by {
            assert forall|i: int, j: int| 0 <= i < ids.len() && 0 <= j < ids.len() && i != j implies ids[i]
                != ids[j] by {
                if i < j {
                    assert(self.controllers@[i].cntlid < self.controllers@[j].cntlid);
                } else {
                    assert(self.controllers@[j].cntlid < self.controllers@[i].cntlid);
                }
            }
        }
        ids.unique_seq_to_set();
        assert forall|id: u16| self@.dom().contains(id) <==> #[trigger] ids.to_set().contains(id) by {
            if self@.dom().contains(id) {
                let i = choose|i: int|
                    0 <= i < self.controllers@.len() && (
                    #[trigger] self.controllers@[i]).cntlid == id;
                assert(ids[i] == id);
            }
            if ids.to_set().contains(id) {
                let i = choose|i: int| 0 <= i < ids.len() && ids[i] == id;
                assert(self.controllers@[i].cntlid == id);
            }
        }
        assert(self@.dom() =~= ids.to_set());
    }

    /// True when no controllers are registered.
    pub fn is_empty(&self) -> (b: bool)
        requires
            self.wf(),
        ensures
            b == (self@.len() == 0),
    {
        self.len() == 0
    }

    /// Clone out all live controllers, sorted by cntlid.
    pub fn snapshot(&self) -> (v: Vec<ControllerEntry>)
        requires
            self.wf(),
        ensures
            v@.len() == self@.len(),
            forall|i: int, j: int|
                0 <= i < j < v@.len() ==> (#[trigger] v@[i]).cntlid < (#[trigger] v@[j]).cntlid,
            forall|i: int|
                0 <= i < v@.len() ==> {
                    let e = #[trigger] v@[i];
                    self@.contains_key(e.cntlid) && e@ == self@[e.cntlid]
                },
            forall|i: int|
                0 <= i < v@.len() ==> (#[trigger] v@[i])@ == self.controllers@[i]@,
    {
        let mut out: Vec<ControllerEntry> = Vec::new();
        let mut i: usize = 0;
        while i < self.controllers.len()
            invariant
                self.wf(),
                i <= self.controllers@.len(),
                out@.len() == i,
                forall|k: int| 0 <= k < i ==> (#[trigger] out@[k])@ == self.controllers@[k]@,
            decreases self.controllers@.len() - i,
        {
            out.push(self.controllers[i].clone());
            i += 1;
        }
        proof {
            self.lemma_len();
            assert forall|i: int, j: int| 0 <= i < j < out@.len() implies (
            #[trigger] out@[i]).cntlid < (#[trigger] out@[j]).cntlid by {
                assert(out@[i]@ == self.controllers@[i]@ && out@[j]@ == self.controllers@[j]@);
                assert(self.controllers@[i].cntlid < self.controllers@[j].cntlid);
            }
            assert forall|i: int| 0 <= i < out@.len() implies {
                let e = #[trigger] out@[i];
                self@.contains_key(e.cntlid) && e@ == self@[e.cntlid]
            } by {
                assert(out@[i]@ == self.controllers@[i]@);
                self.lemma_view_at(i);
            }
        }
        out
    }
}

/// An allocated id is new, and stays inside the slice: two allocations in a
/// row never give the same id.
pub proof fn allocations_differ(before: Registry, between: Registry, a: u16, b: u16)
    requires
        before.wf(),
        between.wf(),
        !before@.contains_key(a),
        between@.contains_key(a),
        !between@.contains_key(b),
    ensures
        a != b,
{
}

/// Dropping the controller that was just made leaves the ones there were.
pub proof fn remove_undoes_allocate(live: Map<u16, EntryView>, id: u16, e: EntryView)
    requires
        !live.contains_key(id),
    ensures
        live.insert(id, e).remove(id) == live,
{
    assert(live.insert(id, e).remove(id) =~= live);
}

/// IO queue `queue` of host `hostnqn` asked to join controller `cntlid`.
pub open spec fn installed(
    pre: Map<u16, EntryView>,
    post: Map<u16, EntryView>,
    cntlid: u16,
    hostnqn: Seq<char>,
    queue: QueueInfoView,
    r: Result<ControllerEntry, IoConnectError>,
) -> bool {
    if !pre.contains_key(cntlid) {
        r == Err::<ControllerEntry, _>(IoConnectError::UnknownController)
    } else {
        let entry = pre[cntlid];
        if entry.hostnqn != hostnqn {
            r == Err::<ControllerEntry, _>(IoConnectError::HostMismatch)
        } else if queue.qid == 0 || queue.qid > entry.max_qid {
            r == Err::<ControllerEntry, _>(IoConnectError::InvalidQid)
        } else if has_qid(entry.queues, queue.qid) {
            r == Err::<ControllerEntry, _>(IoConnectError::QueueExists)
        } else {
            let now = EntryView { queues: entry.queues.push(queue), ..entry };
            &&& r matches Ok(e)
            &&& e@ == now
            &&& post == pre.insert(cntlid, now)
        }
    }
}

/// An IO queue joins its host's controller, and only that. It joins where the
/// controller lives, belongs to the host, allows a queue of that id, which is
/// not 0, and has none of that id yet; it is then the last of its queues, and
/// everything else of it and every other controller is as before.
pub proof fn queues_join_their_hosts_controller(
    pre: Map<u16, EntryView>,
    post: Map<u16, EntryView>,
    cntlid: u16,
    hostnqn: Seq<char>,
    queue: QueueInfoView,
    r: Result<ControllerEntry, IoConnectError>,
)
    requires
        installed(pre, post, cntlid, hostnqn, queue, r),
    ensures
        r is Ok <==> pre.contains_key(cntlid) && pre[cntlid].hostnqn == hostnqn && 1 <= queue.qid
            <= pre[cntlid].max_qid && forall|i: int|
            0 <= i < pre[cntlid].queues.len() ==> (#[trigger] pre[cntlid].queues[i]).qid
                != queue.qid,
        r matches Ok(e) ==> {
            &&& post.contains_key(cntlid)
            &&& e@ == post[cntlid]
            &&& e@.cntlid == pre[cntlid].cntlid
            &&& e@.subsys_nqn == pre[cntlid].subsys_nqn
            &&& e@.hostnqn == pre[cntlid].hostnqn
            &&& e@.kato_ms == pre[cntlid].kato_ms
            &&& e@.traffic == pre[cntlid].traffic
            &&& e@.queues.last() == queue
            &&& e@.queues.drop_last() == pre[cntlid].queues
            &&& forall|id: u16|
                id != cntlid ==> (#[trigger] post.contains_key(id) == pre.contains_key(id)) && (
                pre.contains_key(id) ==> post[id] == pre[id])
        },
        r matches Err(e) ==> e == (if !pre.contains_key(cntlid) {
            IoConnectError::UnknownController
        } else if pre[cntlid].hostnqn != hostnqn {
            IoConnectError::HostMismatch
        } else if queue.qid == 0 || queue.qid > pre[cntlid].max_qid {
            IoConnectError::InvalidQid
        } else {
            IoConnectError::QueueExists
        }),
{
    if r is Ok {
        assert(r->Ok_0@.queues.drop_last() =~= pre[cntlid].queues);
    }
}

/// The queues of a controller share one flag: what any of them sets, through
/// the record `io` it got at Connect, the next take on controller `a` sees and
/// consumes, and the flags of all other controllers stay as they were.
pub proof fn traffic_is_shared(
    start: Registry,
    set: Registry,
    taken: Registry,
    again: Registry,
    a: u16,
    io: EntryView,
    first: bool,
    second: bool,
)
    requires
        start.wf(),
        start@.contains_key(a),
        io.traffic == start@[a].traffic,
        flag_set(start, set, io.traffic),
        flag_taken(set, taken, set@[a].traffic, first),
        flag_taken(taken, again, taken@[a].traffic, second),
    ensures
        first,
        !second,
        forall|b: u16|
            b != a && start@.contains_key(b) ==> set.heard(#[trigger] start@[b].traffic)
                == start.heard(start@[b].traffic) && again.heard(start@[b].traffic)
                == start.heard(start@[b].traffic),
{
    let p = start.lemma_live_at(a);
    start.lemma_view_at(p);
    assert forall|b: u16| b != a && start@.contains_key(b) implies set.heard(
        #[trigger] start@[b].traffic,
    ) == start.heard(start@[b].traffic) && again.heard(start@[b].traffic) == start.heard(
        start@[b].traffic,
    ) by {
        let q = start.lemma_live_at(b);
        start.lemma_view_at(q);
        assert(start@[b].traffic.cntlid == b && start@[a].traffic.cntlid == a);
    }
}

/// Of any flag, whether a live controller has it or not: a take sees that it
/// was set since the last take, however often and though a controller was
/// removed since, and the one after sees nothing.
pub proof fn taken_iff_set(
    start: Registry,
    once: Registry,
    twice: Registry,
    removed: Registry,
    taken: Registry,
    again: Registry,
    f: SharedFlag,
    cntlid: u16,
    first: bool,
    second: bool,
)
    requires
        flag_set(start, once, f),
        twice == once || flag_set(once, twice, f),
        removed@ == twice@.remove(cntlid),
        forall|g: SharedFlag| #[trigger] removed.heard(g) == twice.heard(g),
        flag_taken(removed, taken, f, first),
        flag_taken(taken, again, f, second),
    ensures
        first,
        !second,
{
}

/// The serial `n` allocations after `serial`.
pub open spec fn serial_later(serial: u64, n: nat) -> u64
    decreases n,
{
    if n == 0 {
        serial
    } else {
        serial_after(serial_later(serial, (n - 1) as nat))
    }
}

/// A controller does not get the flag of an earlier one, even where it gets
/// the earlier one's id: `n` is the number of allocations between them.
pub proof fn flags_differ(id: u16, serial: u64, n: nat)
    requires
        0 < n <= u64::MAX,
    ensures
        (SharedFlag { cntlid: id, serial }) != (SharedFlag {
            cntlid: id,
            serial: serial_later(serial, n),
        }),
{
    lemma_serial_later(serial, n);
}

proof fn lemma_serial_later(serial: u64, n: nat)
    requires
        n <= u64::MAX,
    ensures
        serial_later(serial, n) == (if serial + n > u64::MAX {
            serial + n - u64::MAX - 1
        } else {
            serial + n
        }),
    decreases n,
{
    if n > 0 {
        lemma_serial_later(serial, (n - 1) as nat);
    }
}

/// An exhausted slice gives a freed id out again: where `freed` is the only
/// unused id, any allocation gives it.
pub proof fn freed_id_comes_back(r: Registry, freed: u16, id: u16)
    requires
        r.cntlid_min <= freed <= r.cntlid_max,
        !r@.contains_key(freed),
        forall|x: u16|
            r.cntlid_min <= x <= r.cntlid_max && x != freed ==> #[trigger] r@.contains_key(x),
        r.cntlid_min <= id <= r.cntlid_max,
        !r@.contains_key(id),
    ensures
        id == freed,
{
}

/// The search for a free id goes around: it starts where the next id is due, if
/// that is in the slice, goes up by one, and from the end of the slice on to its
/// beginning.
pub proof fn search_goes_around(min: u16, max: u16, next: u16, k: int)
    requires
        min <= max,
        0 <= k,
    ensures
        min <= scan_id(min, max, next, k) <= max,
        min <= next <= max ==> scan_id(min, max, next, 0) == next,
        scan_id(min, max, next, k) < max ==> scan_id(min, max, next, k + 1) == scan_id(
            min,
            max,
            next,
            k,
        ) + 1,
        scan_id(min, max, next, k) == max ==> scan_id(min, max, next, k + 1) == min,
{
    let span = max - min + 1;
    let start = if next < min {
        0int
    } else if next > max {
        max - min
    } else {
        next - min
    };
    vstd::arithmetic::div_mod::lemma_small_mod(start as nat, span as nat);
    vstd::arithmetic::div_mod::lemma_fundamental_div_mod(start + k, span);
    let q = (start + k) / span;
    let m = (start + k) % span;
    if m + 1 < span {
        vstd::arithmetic::div_mod::lemma_fundamental_div_mod_converse(
            start + k + 1,
            span,
            q,
            m + 1,
        );
    } else {
        assert(span * (q + 1) == span * q + span) by (nonlinear_arith);
        assert((q + 1) * span == span * (q + 1)) by (nonlinear_arith);
        vstd::arithmetic::div_mod::lemma_fundamental_div_mod_converse(start + k + 1, span, q + 1, 0);
    }
}

} // verus!
