//! The target around its queues: configuration, admission and routing of
//! connections, idle teardown of the queue threads, and their statistics.

use vstd::prelude::*;

use crate::config::{BackendConfig, NamespaceConfig, SubsystemConfig};
use crate::control::{array, object, push_member};
use crate::json::Json;
use crate::pool::DEFAULT_POOL_MB;
use crate::queue::{QueueStats, QueueStatsSnapshot, TransportStats};

verus! {

/// Most connections served at once; bounds the queue memory in use.
pub const MAX_CONNECTIONS: usize = 256;

/// One MiB.
pub const MIB: usize = 1_048_576;

/// One second, in nanoseconds.
pub const SEC_NS: u64 = 1_000_000_000;

/// Shortest and longest pace of the idle check, and its pace when there is no
/// teardown, in nanoseconds.
pub const IDLE_PERIOD_MIN_NS: u64 = 100_000_000;
pub const IDLE_PERIOD_MAX_NS: u64 = 5_000_000_000;
pub const IDLE_PERIOD_OFF_NS: u64 = 3_600_000_000_000;

/// Target configuration.
pub struct TargetConfig {
    /// Address and port to listen on.
    pub listen: String,
    /// IO queue threads, in addition to the admin thread.
    pub io_threads: usize,
    pub allow_hdgst: bool,
    pub allow_ddgst: bool,
    /// Pin each IO queue thread to one CPU of its group.
    pub pin_threads: bool,
    /// Zero-copy sends.
    pub send_zc: bool,
    /// Busy-poll completions.
    pub poll: bool,
    /// Deepest IO queue the host may use.
    pub io_queue_size: u16,
    /// Data-buffer pool of one IO queue, in bytes.
    pub queue_buf_bytes: usize,
    /// Receive ring of one connection, in bytes; 0 for none.
    pub recv_buf_bytes: usize,
    /// Path of the control socket.
    pub control_socket: Option<String>,
    /// Tear the queue threads down after this long without connections, in
    /// nanoseconds; `None` keeps them.
    pub idle_teardown_ns: Option<u128>,
    pub subsystems: Vec<SubsystemConfig>,
}

/// A configuration file's fields.
pub struct FileConfig {
    pub listen: String,
    pub io_threads: usize,
    pub header_digest: bool,
    pub data_digest: bool,
    pub pin_threads: bool,
    pub send_zc: bool,
    pub io_queue_size: u16,
    pub queue_buf_mb: usize,
    pub recv_buf_mb: usize,
    pub control_socket: Option<String>,
    /// 0 keeps the queue threads.
    pub idle_teardown_secs: u64,
    pub subsystems: Vec<SubsystemConfig>,
}

/// `mb` MiB in bytes, or the most that can be said.
pub open spec fn mib_bytes(mb: int) -> int {
    if mb * MIB > usize::MAX {
        usize::MAX as int
    } else {
        mb * MIB
    }
}

/// `mb` MiB in bytes, or the most that can be said.
pub fn buf_bytes(mb: usize) -> (n: usize)
    ensures
        n == mib_bytes(mb as int),
{
    match mb.checked_mul(MIB) {
        Some(n) => n,
        None => usize::MAX,
    }
}

/// The grace period for `secs`, in nanoseconds: none for 0.
pub open spec fn grace_of(secs: u64) -> Option<u128> {
    if secs == 0 {
        None
    } else {
        Some((secs * SEC_NS) as u128)
    }
}

/// The grace period for `secs`, in nanoseconds.
pub fn grace(secs: u64) -> (g: Option<u128>)
    ensures
        g == grace_of(secs),
{
    if secs == 0 {
        None
    } else {
        let unit: u128 = SEC_NS as u128;
        assert(0 <= secs * unit <= u128::MAX && secs * unit == secs * SEC_NS) by (nonlinear_arith)
            requires
                secs <= u64::MAX,
                unit == SEC_NS,
                unit == 1_000_000_000,
        ;
        Some(secs as u128 * unit)
    }
}

/// The configuration a file describes.
pub open spec fn config_of(file: FileConfig) -> TargetConfig {
    TargetConfig {
        listen: file.listen,
        io_threads: file.io_threads,
        allow_hdgst: file.header_digest,
        allow_ddgst: file.data_digest,
        pin_threads: file.pin_threads,
        send_zc: file.send_zc,
        poll: false,
        io_queue_size: file.io_queue_size,
        queue_buf_bytes: mib_bytes(file.queue_buf_mb as int) as usize,
        recv_buf_bytes: mib_bytes(file.recv_buf_mb as int) as usize,
        control_socket: file.control_socket,
        idle_teardown_ns: grace_of(file.idle_teardown_secs),
        subsystems: file.subsystems,
    }
}

/// A file's settings are the target's: each under its own name, buffers counted
/// in MiB there and in bytes here, and the grace period in seconds there and in
/// nanoseconds here, where 0 keeps the threads.
pub proof fn file_settings_are_kept(file: FileConfig)
    ensures
        ({
            let c = config_of(file);
            &&& c.listen == file.listen
            &&& c.io_threads == file.io_threads
            &&& c.allow_hdgst == file.header_digest
            &&& c.allow_ddgst == file.data_digest
            &&& c.pin_threads == file.pin_threads
            &&& c.send_zc == file.send_zc
            &&& !c.poll
            &&& c.io_queue_size == file.io_queue_size
            &&& file.queue_buf_mb * 1_048_576 <= usize::MAX ==> c.queue_buf_bytes
                == file.queue_buf_mb * 1_048_576
            &&& file.recv_buf_mb * 1_048_576 <= usize::MAX ==> c.recv_buf_bytes == file.recv_buf_mb
                * 1_048_576
            &&& c.control_socket == file.control_socket
            &&& c.idle_teardown_ns is None == (file.idle_teardown_secs == 0)
            &&& c.idle_teardown_ns matches Some(ns) ==> ns == file.idle_teardown_secs
                * 1_000_000_000
            &&& c.subsystems == file.subsystems
        }),
{
}

impl TargetConfig {
    /// One subsystem with one memory namespace.
    pub fn single_memory(nqn: &str, size_mb: u64) -> (c: TargetConfig)
        ensures
            c.listen@ == "0.0.0.0:4420"@,
            c.io_threads == 2,
            c.allow_hdgst,
            c.allow_ddgst,
            !c.pin_threads,
            !c.send_zc,
            !c.poll,
            c.io_queue_size == 128,
            c.queue_buf_bytes == DEFAULT_POOL_MB * MIB,
            c.recv_buf_bytes == 0,
            c.control_socket is None,
            c.idle_teardown_ns == Some((30 * SEC_NS) as u128),
            c.subsystems@.len() == 1,
            c.subsystems@[0].nqn@ == nqn@,
            c.subsystems@[0].serial@ == "IOUTGT0001"@,
            c.subsystems@[0].model@ == "ioutgt"@,
            c.subsystems@[0].allow_any_host,
            c.subsystems@[0].allowed_hosts@.len() == 0,
            c.subsystems@[0].namespaces@.len() == 1,
            c.subsystems@[0].namespaces@[0].nsid == 1,
            c.subsystems@[0].namespaces@[0].uuid is None,
            c.subsystems@[0].namespaces@[0].backend == (BackendConfig::Memory { size_mb }),
    {
        let mut namespaces: Vec<NamespaceConfig> = Vec::new();
        namespaces.push(
            NamespaceConfig { nsid: 1, backend: BackendConfig::Memory { size_mb }, uuid: None },
        );
        let mut subsystems: Vec<SubsystemConfig> = Vec::new();
        subsystems.push(
            SubsystemConfig {
                nqn: nqn.to_owned(),
                serial: crate::config::default_serial(),
                model: crate::config::default_model(),
                allow_any_host: true,
                allowed_hosts: Vec::new(),
                namespaces,
            },
        );
        TargetConfig {
            listen: "0.0.0.0:4420".to_owned(),
            io_threads: 2,
            allow_hdgst: true,
            allow_ddgst: true,
            pin_threads: false,
            send_zc: false,
            poll: false,
            io_queue_size: 128,
            queue_buf_bytes: DEFAULT_POOL_MB * MIB,
            recv_buf_bytes: 0,
            control_socket: None,
            idle_teardown_ns: Some(30 * SEC_NS as u128),
            subsystems,
        }
    }

    /// The configuration a file describes.
    pub fn from_file(file: FileConfig) -> (c: TargetConfig)
        ensures
            c == config_of(file),
    {
        TargetConfig {
            listen: file.listen,
            io_threads: file.io_threads,
            allow_hdgst: file.header_digest,
            allow_ddgst: file.data_digest,
            pin_threads: file.pin_threads,
            send_zc: file.send_zc,
            poll: false,
            io_queue_size: file.io_queue_size,
            queue_buf_bytes: buf_bytes(file.queue_buf_mb),
            recv_buf_bytes: buf_bytes(file.recv_buf_mb),
            control_socket: file.control_socket,
            idle_teardown_ns: grace(file.idle_teardown_secs),
            subsystems: file.subsystems,
        }
    }
}

/// The backend a command-line name asks for: `memory`, `null`, or a path.
pub fn backend_named(name: &str, size_mb: u64) -> (b: BackendConfig)
    ensures
        if name@ == "memory"@ {
            b == (BackendConfig::Memory { size_mb })
        } else if name@ == "null"@ {
            b == (BackendConfig::Null { size_mb })
        } else {
            b matches BackendConfig::File { path } && path@ == name@
        },
{
    if crate::text::same_text(name, "memory") {
        BackendConfig::Memory { size_mb }
    } else if crate::text::same_text(name, "null") {
        BackendConfig::Null { size_mb }
    } else {
        BackendConfig::File { path: name.to_owned() }
    }
}

/// Account for a new connection: the count with it, or `None` when the limit
/// is reached and it is turned away.
pub fn accept_one(active: usize) -> (r: Option<usize>)
    ensures
        r == (if active < MAX_CONNECTIONS {
            Some((active + 1) as usize)
        } else {
            None
        }),
{
    if active < MAX_CONNECTIONS {
        Some(active + 1)
    } else {
        None
    }
}

/// Where a connection's queue runs.
#[derive(Debug, Clone, Copy, PartialEq, Eq, Structural)]
pub enum Route {
    /// The admin thread.
    Admin,
    /// An IO thread.
    Io(usize),
    /// Nowhere: there are no IO threads.
    Dropped,
}

/// Where queue `qid` runs: IO queues go around the IO threads.
pub open spec fn route_of(qid: u16, io_threads: usize) -> Route {
    if qid == 0 {
        Route::Admin
    } else if io_threads == 0 {
        Route::Dropped
    } else {
        Route::Io(((qid - 1) as int % io_threads as int) as usize)
    }
}

/// Route queue `qid` to a thread: IO queues go around the IO threads.
pub fn route(qid: u16, io_threads: usize) -> (r: Route)
    ensures
        r == route_of(qid, io_threads),
        r matches Route::Io(i) ==> i < io_threads,
{
    if qid == 0 {
        Route::Admin
    } else if io_threads == 0 {
        Route::Dropped
    } else {
        Route::Io((qid as usize - 1) % io_threads)
    }
}

/// As many consecutive IO queues as there are IO threads run on different
/// threads.
pub proof fn routes_spread(io_threads: int, first: int, a: int, b: int)
    requires
        0 < io_threads,
        1 <= first,
        first <= a < b < first + io_threads,
    ensures
        (a - 1) % io_threads != (b - 1) % io_threads,
{
    if (a - 1) % io_threads == (b - 1) % io_threads {
        vstd::arithmetic::div_mod::lemma_fundamental_div_mod(a - 1, io_threads);
        vstd::arithmetic::div_mod::lemma_fundamental_div_mod(b - 1, io_threads);
        let p = (a - 1) / io_threads;
        let q = (b - 1) / io_threads;
        assert(b - a == io_threads * (q - p)) by (nonlinear_arith)
            requires
                a - 1 == io_threads * p + (a - 1) % io_threads,
                b - 1 == io_threads * q + (b - 1) % io_threads,
                (a - 1) % io_threads == (b - 1) % io_threads,
        ;
        assert(false) by (nonlinear_arith)
            requires
                0 < b - a < io_threads,
                b - a == io_threads * (q - p),
        ;
    }
}

/// The admin queue runs on the admin thread and no other does. The first IO
/// queues run on the threads in order, queue 1 on the first; queues that are as
/// far apart as there are threads share one, and queues that are closer do not.
pub proof fn queues_go_around(a: u16, b: u16, io_threads: usize)
    requires
        0 < io_threads,
        1 <= a < b,
    ensures
        route_of(0, io_threads) is Admin,
        route_of(a, io_threads) is Io,
        a <= io_threads ==> route_of(a, io_threads) == Route::Io((a - 1) as usize),
        b - a == io_threads ==> route_of(a, io_threads) == route_of(b, io_threads),
        b - a < io_threads ==> route_of(a, io_threads) != route_of(b, io_threads),
        route_of(a, 0) is Dropped,
{
    let n = io_threads as int;
    if b - a < n {
        routes_spread(n, a as int, a as int, b as int);
    }
    if a <= n {
        vstd::arithmetic::div_mod::lemma_small_mod((a - 1) as nat, n as nat);
    }
    if b - a == n {
        vstd::arithmetic::div_mod::lemma_mod_add_multiples_vanish(a - 1, n);
        assert(n + (a - 1) == b - 1);
    }
    vstd::arithmetic::div_mod::lemma_mod_bound(a - 1, n);
    vstd::arithmetic::div_mod::lemma_mod_bound(b - 1, n);
}

/// The CPUs that are reported for a queue are those of the thread it runs on.
pub proof fn reported_cpus_are_the_threads(groups: Seq<String>, qid: u16, io_threads: usize)
    requires
        groups.len() == io_threads,
    ensures
        match route_of(qid, io_threads) {
            Route::Io(i) => crate::control::group_of(groups, qid) == groups[i as int]@,
            _ => crate::control::group_of(groups, qid) == "*"@,
        },
{
    if qid > 0 && io_threads > 0 {
        vstd::arithmetic::div_mod::lemma_mod_bound(qid - 1, io_threads as int);
    }
}

/// Idle teardown of the queue threads: the grace period, and when the pool
/// last went fully idle.
#[derive(Debug, Clone, Copy, PartialEq, Eq, Structural)]
pub struct IdleTeardown {
    pub grace_ns: Option<u128>,
    pub idle_since_ns: Option<u128>,
}

/// The pool is up and has no connection.
pub open spec fn is_idle(up: bool, active: usize) -> bool {
    up && active == 0
}

impl IdleTeardown {
    pub fn new(grace_ns: Option<u128>) -> (t: IdleTeardown)
        ensures
            t == (IdleTeardown { grace_ns, idle_since_ns: None }),
    {
        IdleTeardown { grace_ns, idle_since_ns: None }
    }

    /// How often to check: a quarter of the grace period, within bounds.
    pub fn period(&self) -> (p: u64)
        ensures
            p == (match self.grace_ns {
                None => IDLE_PERIOD_OFF_NS,
                Some(g) => if g / 4 < IDLE_PERIOD_MIN_NS {
                    IDLE_PERIOD_MIN_NS
                } else if g / 4 > IDLE_PERIOD_MAX_NS {
                    IDLE_PERIOD_MAX_NS
                } else {
                    (g / 4) as u64
                },
            }),
    {
        match self.grace_ns {
            None => IDLE_PERIOD_OFF_NS,
            Some(g) => {
                let quarter: u128 = g / 4;
                if quarter < IDLE_PERIOD_MIN_NS as u128 {
                    IDLE_PERIOD_MIN_NS
                } else if quarter > IDLE_PERIOD_MAX_NS as u128 {
                    IDLE_PERIOD_MAX_NS
                } else {
                    quarter as u64
                }
            },
        }
    }

    /// Connection activity: restart the idle clock.
    pub fn reset(&mut self)
        ensures
            *final(self) == (IdleTeardown { idle_since_ns: None, ..*old(self) }),
    {
        self.idle_since_ns = None;
    }

    /// Whether to tear the pool down now: it has had no connection for the
    /// whole grace period. Otherwise keep track of since when it is idle.
    pub fn check(&mut self, up: bool, active: usize, now_ns: u128) -> (down: bool)
        requires
            old(self).idle_since_ns matches Some(t) ==> t <= now_ns,
        ensures
            final(self).grace_ns == old(self).grace_ns,
            match old(self).grace_ns {
                None => !down && *final(self) == *old(self),
                Some(g) => if !is_idle(up, active) {
                    !down && final(self).idle_since_ns is None
                } else {
                    let since = match old(self).idle_since_ns {
                        Some(t) => t,
                        None => now_ns,
                    };
                    &&& down == (now_ns - since >= g)
                    &&& final(self).idle_since_ns == (if down {
                        None
                    } else {
                        Some(since)
                    })
                },
            },
    {
        match self.grace_ns {
            None => false,
            Some(g) => {
                if up && active == 0 {
                    let since: u128 = match self.idle_since_ns {
                        Some(t) => t,
                        None => now_ns,
                    };
                    if now_ns - since >= g {
                        self.idle_since_ns = None;
                        true
                    } else {
                        self.idle_since_ns = Some(since);
                        false
                    }
                } else {
                    self.idle_since_ns = None;
                    false
                }
            },
        }
    }
}

/// One check after another: the idle states they saw, and since when the clock
/// runs after them.
pub open spec fn clock_after(since: Option<u128>, idle: Seq<bool>, now: Seq<u128>) -> Option<u128>
    decreases idle.len(),
{
    if idle.len() == 0 {
        since
    } else if !idle.last() {
        None
    } else {
        match clock_after(since, idle.drop_last(), now.drop_last()) {
            Some(t) => Some(t),
            None => Some(now.last()),
        }
    }
}

/// A pool whose clock runs was idle at every check since the clock started: a
/// single check that sees a connection restarts the grace period.
pub proof fn teardown_needs_unbroken_idleness(idle: Seq<bool>, now: Seq<u128>, k: int)
    requires
        idle.len() == now.len(),
        0 <= k < idle.len(),
        !idle[k],
        forall|a: int, b: int| 0 <= a <= b < now.len() ==> now[a] <= now[b],
    ensures
        clock_after(None, idle, now) matches Some(t) ==> t >= now[k],
    decreases idle.len(),
{
    if k < idle.len() - 1 {
        teardown_needs_unbroken_idleness(idle.drop_last(), now.drop_last(), k);
    }
}

/// A queue of a thread, and whether its connection is still there.
pub struct QueueEntry<T: TransportStats> {
    pub stats: QueueStats<T>,
    pub live: bool,
}

/// The queues whose connection is still there, in order.
pub open spec fn live_of<T: TransportStats>(q: Seq<QueueEntry<T>>) -> Seq<QueueEntry<T>>
    decreases q.len(),
{
    if q.len() == 0 {
        seq![]
    } else if q.last().live {
        live_of(q.drop_last()).push(q.last())
    } else {
        live_of(q.drop_last())
    }
}

/// `acc` with the counters of all the queues.
pub open spec fn folded<T: TransportStats>(
    acc: QueueStatsSnapshot,
    q: Seq<QueueEntry<T>>,
) -> QueueStatsSnapshot
    decreases q.len(),
{
    if q.len() == 0 {
        acc
    } else {
        folded(acc, q.drop_last()).plus(q.last().stats.snap())
    }
}

/// `acc` with the counters of the queues whose connection is gone.
pub open spec fn retired_after<T: TransportStats>(
    acc: QueueStatsSnapshot,
    q: Seq<QueueEntry<T>>,
) -> QueueStatsSnapshot
    decreases q.len(),
{
    if q.len() == 0 {
        acc
    } else if q.last().live {
        retired_after(acc, q.drop_last())
    } else {
        retired_after(acc, q.drop_last()).plus(q.last().stats.snap())
    }
}

/// Fold queues whose connection is gone into the accumulator, so that lifetime
/// totals survive reconnects.
pub fn prune_dead_queues<T: TransportStats>(
    queues: &mut Vec<QueueEntry<T>>,
    retired: &mut QueueStatsSnapshot,
)
    ensures
        final(queues)@ == live_of(old(queues)@),
        *final(retired) == retired_after(*old(retired), old(queues)@),
{
    let ghost all = queues@;
    let ghost acc = *retired;
    let mut i: usize = 0;
    let ghost mut seen: int = 0;
    assert(all.take(0) =~= seq![]);
    assert(all.skip(0) =~= all);
    assert(queues@ =~= live_of(all.take(0)) + all.skip(0));
    while i < queues.len()
        invariant
            0 <= seen <= all.len(),
            i <= queues@.len(),
            i == live_of(all.take(seen)).len(),
            queues@ == live_of(all.take(seen)) + all.skip(seen),
            *retired == retired_after(acc, all.take(seen)),
        decreases all.len() - seen,
    {
        assert(queues@[i as int] == all[seen]);
        assert(all.take(seen + 1).drop_last() =~= all.take(seen));
        assert(all.take(seen + 1).last() == all[seen]);
        if queues[i].live {
            assert(queues@ =~= live_of(all.take(seen + 1)) + all.skip(seen + 1));
            i += 1;
        } else {
            let gone = queues.remove(i);
            let snap = gone.stats.snapshot();
            retired.absorb(&snap);
            assert(queues@ =~= live_of(all.take(seen + 1)) + all.skip(seen + 1));
        }
        proof {
            seen = seen + 1;
        }
    }
    proof {
        assert(all.take(seen) =~= all);
        assert(all.skip(seen) =~= seq![]);
        assert(queues@ =~= live_of(all));
    }
}

/// Pruning loses no count: the retired counters and those of the queues still
/// there add up to what all of them did before.
pub proof fn prune_keeps_totals<T: TransportStats>(acc: QueueStatsSnapshot, q: Seq<QueueEntry<T>>)
    ensures
        folded(retired_after(acc, q), live_of(q)) == folded(acc, q),
    decreases q.len(),
{
    if q.len() > 0 {
        let rest = q.drop_last();
        let snap = q.last().stats.snap();
        prune_keeps_totals(acc, rest);
        if q.last().live {
            assert(live_of(q).drop_last() =~= live_of(rest));
        } else {
            lemma_folded_plus(retired_after(acc, rest), live_of(rest), snap);
        }
    }
}

proof fn lemma_folded_plus<T: TransportStats>(
    acc: QueueStatsSnapshot,
    q: Seq<QueueEntry<T>>,
    s: QueueStatsSnapshot,
)
    ensures
        folded(acc.plus(s), q) == folded(acc, q).plus(s),
    decreases q.len(),
{
    if q.len() > 0 {
        lemma_folded_plus(acc, q.drop_last(), s);
        crate::queue::absorb_commutes(folded(acc, q.drop_last()), s, q.last().stats.snap());
    }
}

/// Zero everything a queue thread counts.
pub fn clear_thread_stats<T: TransportStats>(
    queues: &mut Vec<QueueEntry<T>>,
    retired: &mut QueueStatsSnapshot,
)
    ensures
        *final(retired) == QueueStatsSnapshot::zero(0, 0),
        final(queues)@.len() == old(queues)@.len(),
        forall|i: int|
            0 <= i < old(queues)@.len() ==> is_cleared(old(queues)@[i], #[trigger] final(queues)@[i]),
{
    let ghost all = queues@;
    let mut i: usize = 0;
    while i < queues.len()
        invariant
            i <= queues@.len(),
            queues@.len() == all.len(),
            forall|k: int| 0 <= k < i ==> is_cleared(all[k], #[trigger] queues@[k]),
            forall|k: int| i <= k < all.len() ==> #[trigger] queues@[k] == all[k],
        decreases all.len() - i,
    {
        queues[i].stats.reset();
        i += 1;
    }
    *retired = QueueStatsSnapshot::default();
}

/// `now` is `was` with its counters zeroed.
pub open spec fn is_cleared<T: TransportStats>(was: QueueEntry<T>, now: QueueEntry<T>) -> bool {
    &&& now.live == was.live
    &&& now.stats.snap() == QueueStatsSnapshot::zero(was.stats.qid, was.stats.cntlid)
    &&& match was.stats.transport {
        None => now.stats.transport is None,
        Some(t) => now.stats.transport matches Some(u) && u.pairs() == t.cleared(),
    }
}

/// A queue thread's ring counters.
#[derive(Debug, Clone, Copy, PartialEq, Eq, Structural)]
pub struct RingStats {
    pub parks: u64,
    pub sqes: u64,
    pub send_sqes: u64,
    pub recv_sqes: u64,
    pub read_sqes: u64,
    pub write_sqes: u64,
    pub cqes: u64,
}

impl Default for RingStats {
    fn default() -> (s: RingStats)
        ensures
            s == RingStats::none(),
    {
        RingStats {
            parks: 0,
            sqes: 0,
            send_sqes: 0,
            recv_sqes: 0,
            read_sqes: 0,
            write_sqes: 0,
            cqes: 0,
        }
    }
}

impl RingStats {
    /// No activity.
    pub open spec fn none() -> RingStats {
        RingStats {
            parks: 0,
            sqes: 0,
            send_sqes: 0,
            recv_sqes: 0,
            read_sqes: 0,
            write_sqes: 0,
            cqes: 0,
        }
    }
}

/// `s` with member `k` set, members in key order.
pub open spec fn put(
    s: Seq<(Seq<char>, crate::json::JsonV)>,
    k: Seq<char>,
    v: crate::json::JsonV,
) -> Seq<(Seq<char>, crate::json::JsonV)>
    decreases s.len(),
{
    if s.len() == 0 {
        seq![(k, v)]
    } else if crate::text::precedes(s[0].0, k) {
        seq![s[0]] + put(s.drop_first(), k, v)
    } else if s[0].0 == k {
        seq![(k, v)] + s.drop_first()
    } else {
        seq![(k, v)] + s
    }
}

/// `put` in terms of the place found.
proof fn lemma_put(
    s: Seq<(Seq<char>, crate::json::JsonV)>,
    k: Seq<char>,
    v: crate::json::JsonV,
    i: int,
)
    requires
        0 <= i <= s.len(),
        forall|j: int| 0 <= j < i ==> crate::text::precedes((#[trigger] s[j]).0, k),
        i < s.len() ==> !crate::text::precedes(s[i].0, k),
    ensures
        put(s, k, v) == s.take(i) + seq![(k, v)] + (if i < s.len() && s[i].0 == k {
            s.skip(i + 1)
        } else {
            s.skip(i)
        }),
    decreases s.len(),
{
    let tail = if i < s.len() && s[i].0 == k {
        s.skip(i + 1)
    } else {
        s.skip(i)
    };
    let whole = s.take(i) + seq![(k, v)] + tail;
    if s.len() == 0 {
        assert(whole =~= seq![(k, v)]);
    } else if i > 0 {
        let rest = s.drop_first();
        assert forall|j: int| 0 <= j < i - 1 implies crate::text::precedes(
            (#[trigger] rest[j]).0,
            k,
        ) by {
            assert(rest[j] == s[j + 1]);
        }
        assert(s[0] == s[0]);
        lemma_put(rest, k, v, i - 1);
        assert(put(s, k, v) =~= whole);
    } else {
        assert(put(s, k, v) =~= whole);
    }
}

/// The counters as members in key order.
pub open spec fn counters_object(pairs: Seq<(Seq<char>, u64)>) -> Seq<
    (Seq<char>, crate::json::JsonV),
>
    decreases pairs.len(),
{
    if pairs.len() == 0 {
        seq![]
    } else {
        put(
            counters_object(pairs.drop_last()),
            pairs.last().0,
            crate::json::JsonV::Uint(pairs.last().1),
        )
    }
}

fn put_member(m: &mut Vec<(String, Json)>, k: &str, v: u64)
    ensures
        crate::control::members(final(m)@) == put(
            crate::control::members(old(m)@),
            k@,
            crate::json::JsonV::Uint(v),
        ),
{
    let ghost was = crate::control::members(m@);
    let ghost val = crate::json::JsonV::Uint(v);
    let mut i: usize = 0;
    while i < m.len() && crate::text::text_precedes(m[i].0.as_str(), k)
        invariant
            i <= m@.len(),
            was == crate::control::members(m@),
            forall|j: int| 0 <= j < i ==> crate::text::precedes((#[trigger] was[j]).0, k@),
        decreases m@.len() - i,
    {
        i += 1;
    }
    proof {
        lemma_put(was, k@, val, i as int);
    }
    if i < m.len() && crate::text::same_text(m[i].0.as_str(), k) {
        m.set(i, (k.to_owned(), Json::Uint(v)));
        assert(crate::control::members(m@) =~= put(was, k@, val));
    } else {
        m.insert(i, (k.to_owned(), Json::Uint(v)));
        assert(crate::control::members(m@) =~= put(was, k@, val));
    }
}

fn counters(pairs: &Vec<(&'static str, u64)>) -> (j: Json)
    ensures
        j@ == crate::json::JsonV::Obj(
            counters_object(Seq::new(pairs@.len(), |i: int| (pairs@[i].0@, pairs@[i].1))),
        ),
{
    let ghost all = Seq::new(pairs@.len(), |i: int| (pairs@[i].0@, pairs@[i].1));
    let mut m: Vec<(String, Json)> = Vec::new();
    let mut i: usize = 0;
    assert(all.take(0) =~= seq![]);
    assert(crate::control::members(m@) =~= seq![]);
    while i < pairs.len()
        invariant
            i <= pairs@.len(),
            all == Seq::new(pairs@.len(), |i: int| (pairs@[i].0@, pairs@[i].1)),
            crate::control::members(m@) == counters_object(all.take(i as int)),
        decreases pairs@.len() - i,
    {
        put_member(&mut m, pairs[i].0, pairs[i].1);
        i += 1;
        assert(all.take(i as int).drop_last() =~= all.take(i - 1));
    }
    assert(all.take(i as int) =~= all);
    object(m)
}

/// The reported counters of retired queues.
pub open spec fn retired_value(s: QueueStatsSnapshot) -> crate::json::JsonV {
    crate::json::JsonV::Obj(
        seq![
            ("errors"@, crate::json::JsonV::Uint(s.errors)),
            ("flush_cmds"@, crate::json::JsonV::Uint(s.flush_cmds)),
            ("other_cmds"@, crate::json::JsonV::Uint(s.other_cmds)),
            ("read_bytes"@, crate::json::JsonV::Uint(s.read_bytes)),
            ("read_cmds"@, crate::json::JsonV::Uint(s.read_cmds)),
            ("write_bytes"@, crate::json::JsonV::Uint(s.write_bytes)),
            ("write_cmds"@, crate::json::JsonV::Uint(s.write_cmds)),
        ],
    )
}

/// The reported counters of a queue, with those of its transport under `wr`.
pub open spec fn queue_value<T: TransportStats>(q: QueueStats<T>) -> crate::json::JsonV {
    let s = q.snap();
    let head = seq![
        ("cntlid"@, crate::json::JsonV::Uint(s.cntlid as u64)),
        ("errors"@, crate::json::JsonV::Uint(s.errors)),
        ("flush_cmds"@, crate::json::JsonV::Uint(s.flush_cmds)),
        ("other_cmds"@, crate::json::JsonV::Uint(s.other_cmds)),
        ("qid"@, crate::json::JsonV::Uint(s.qid as u64)),
        ("read_bytes"@, crate::json::JsonV::Uint(s.read_bytes)),
        ("read_cmds"@, crate::json::JsonV::Uint(s.read_cmds)),
    ];
    let wr = match q.transport {
        None => seq![],
        Some(t) => seq![("wr"@, crate::json::JsonV::Obj(counters_object(t.pairs())))],
    };
    let tail = seq![
        ("write_bytes"@, crate::json::JsonV::Uint(s.write_bytes)),
        ("write_cmds"@, crate::json::JsonV::Uint(s.write_cmds)),
    ];
    crate::json::JsonV::Obj(head + wr + tail)
}

/// The reported ring counters.
pub open spec fn ring_value(r: RingStats) -> crate::json::JsonV {
    crate::json::JsonV::Obj(
        seq![
            ("cqes"@, crate::json::JsonV::Uint(r.cqes)),
            ("parks"@, crate::json::JsonV::Uint(r.parks)),
            ("read_sqes"@, crate::json::JsonV::Uint(r.read_sqes)),
            ("recv_sqes"@, crate::json::JsonV::Uint(r.recv_sqes)),
            ("send_sqes"@, crate::json::JsonV::Uint(r.send_sqes)),
            ("sqes"@, crate::json::JsonV::Uint(r.sqes)),
            ("write_sqes"@, crate::json::JsonV::Uint(r.write_sqes)),
        ],
    )
}

/// A number.
pub open spec fn int_value(n: i32) -> crate::json::JsonV {
    if n >= 0 {
        crate::json::JsonV::Uint(n as u64)
    } else {
        crate::json::JsonV::Int(n as i64)
    }
}

/// One queue thread's statistics.
pub open spec fn thread_value<T: TransportStats>(
    name: Seq<char>,
    tid: i32,
    queues: Seq<QueueEntry<T>>,
    retired: QueueStatsSnapshot,
    ring: RingStats,
) -> crate::json::JsonV {
    crate::json::JsonV::Obj(
        seq![
            ("name"@, crate::json::JsonV::Str(name)),
            (
                "queues"@,
                crate::json::JsonV::Arr(
                    Seq::new(queues.len(), |i: int| queue_value(queues[i].stats)),
                ),
            ),
            ("retired"@, retired_value(retired)),
            ("ring"@, ring_value(ring)),
            ("tid"@, int_value(tid)),
        ],
    )
}

fn retired_json(s: &QueueStatsSnapshot) -> (j: Json)
    ensures
        j@ == retired_value(*s),
{
    let mut m: Vec<(String, Json)> = Vec::new();
    push_member(&mut m, "errors", Json::Uint(s.errors));
    push_member(&mut m, "flush_cmds", Json::Uint(s.flush_cmds));
    push_member(&mut m, "other_cmds", Json::Uint(s.other_cmds));
    push_member(&mut m, "read_bytes", Json::Uint(s.read_bytes));
    push_member(&mut m, "read_cmds", Json::Uint(s.read_cmds));
    push_member(&mut m, "write_bytes", Json::Uint(s.write_bytes));
    push_member(&mut m, "write_cmds", Json::Uint(s.write_cmds));
    let j = object(m);
    assert(j@->Obj_0 =~= retired_value(*s)->Obj_0);
    j
}

fn queue_json<T: TransportStats>(q: &QueueStats<T>) -> (j: Json)
    ensures
        j@ == queue_value(*q),
{
    let s = q.snapshot();
    let mut m: Vec<(String, Json)> = Vec::new();
    push_member(&mut m, "cntlid", Json::Uint(s.cntlid as u64));
    push_member(&mut m, "errors", Json::Uint(s.errors));
    push_member(&mut m, "flush_cmds", Json::Uint(s.flush_cmds));
    push_member(&mut m, "other_cmds", Json::Uint(s.other_cmds));
    push_member(&mut m, "qid", Json::Uint(s.qid as u64));
    push_member(&mut m, "read_bytes", Json::Uint(s.read_bytes));
    push_member(&mut m, "read_cmds", Json::Uint(s.read_cmds));
    match q.transport_snapshot() {
        Some(wr) => {
            proof {
                let t = q.transport.unwrap();
                assert(Seq::new(wr@.len(), |i: int| (wr@[i].0@, wr@[i].1)) =~= t.pairs());
            }
            push_member(&mut m, "wr", counters(&wr));
        },
        None => {},
    }
    push_member(&mut m, "write_bytes", Json::Uint(s.write_bytes));
    push_member(&mut m, "write_cmds", Json::Uint(s.write_cmds));
    let j = object(m);
    assert(j@->Obj_0 =~= queue_value(*q)->Obj_0);
    j
}

fn ring_json(r: &RingStats) -> (j: Json)
    ensures
        j@ == ring_value(*r),
{
    let mut m: Vec<(String, Json)> = Vec::new();
    push_member(&mut m, "cqes", Json::Uint(r.cqes));
    push_member(&mut m, "parks", Json::Uint(r.parks));
    push_member(&mut m, "read_sqes", Json::Uint(r.read_sqes));
    push_member(&mut m, "recv_sqes", Json::Uint(r.recv_sqes));
    push_member(&mut m, "send_sqes", Json::Uint(r.send_sqes));
    push_member(&mut m, "sqes", Json::Uint(r.sqes));
    push_member(&mut m, "write_sqes", Json::Uint(r.write_sqes));
    let j = object(m);
    assert(j@->Obj_0 =~= ring_value(*r)->Obj_0);
    j
}

/// One queue thread's statistics.
pub fn thread_stats_json<T: TransportStats>(
    name: &str,
    tid: i32,
    queues: &Vec<QueueEntry<T>>,
    retired: &QueueStatsSnapshot,
    ring: &RingStats,
) -> (j: Json)
    ensures
        j@ == thread_value(name@, tid, queues@, *retired, *ring),
{
    let ghost want = thread_value(name@, tid, queues@, *retired, *ring);
    let mut qs: Vec<Json> = Vec::new();
    let mut i: usize = 0;
    while i < queues.len()
        invariant
            i <= queues@.len(),
            qs@.len() == i,
            forall|k: int| 0 <= k < i ==> (#[trigger] qs@[k])@ == queue_value(queues@[k].stats),
        decreases queues@.len() - i,
    {
        qs.push(queue_json(&queues[i].stats));
        i += 1;
    }
    assert(crate::control::values(qs@) =~= want->Obj_0[1].1->Arr_0);
    let mut m: Vec<(String, Json)> = Vec::new();
    push_member(&mut m, "name", Json::Str(name.to_owned()));
    push_member(&mut m, "queues", array(qs));
    push_member(&mut m, "retired", retired_json(retired));
    push_member(&mut m, "ring", ring_json(ring));
    let id = if tid >= 0 {
        Json::Uint(tid as u64)
    } else {
        Json::Int(tid as i64)
    };
    push_member(&mut m, "tid", id);
    let j = object(m);
    assert(j@->Obj_0 =~= want->Obj_0);
    j
}

/// The reply for a thread while the pool is down.
pub fn zeroed_stats(name: &str, tid: i32) -> (j: Json)
    ensures
        j@ == thread_value(
            name@,
            tid,
            Seq::<QueueEntry<crate::queue::NoTransport>>::empty(),
            QueueStatsSnapshot::zero(0, 0),
            RingStats::none(),
        ),
{
    let none: Vec<QueueEntry<crate::queue::NoTransport>> = Vec::new();
    assert(none@ =~= Seq::empty());
    thread_stats_json(name, tid, &none, &QueueStatsSnapshot::default(), &RingStats::default())
}

/// The name of IO thread `i`.
pub fn io_thread_name(i: usize) -> (s: String)
    ensures
        s@ == "ioutgt-io"@ + crate::text::dec(i as nat),
{
    let mut s = "ioutgt-io".to_owned();
    crate::text::push_dec(&mut s, i as u64);
    s
}

} // verus!
