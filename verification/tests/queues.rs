//! Slots, queue context, controller registry.

use ioutgt::pool::PAGE;
use ioutgt::queue::{stat_add, NoTransport, QueueCore, QueueStats, QueueStatsSnapshot};
use ioutgt::registry::{
    cntlid_slice, IoConnectError, QueueInfo, Registry, TrafficFlag, CNTLID_MAX,
};
use ioutgt::slotq::{Next, SendList, SlotArray, SlotState};

#[derive(Clone, Copy, Default, PartialEq, Eq, Debug)]
struct TestCmd(u64);

/// The well-known discovery name; the registry treats it as opaque.
const DISCOVERY_NQN: &str = "nqn.2014-08.org.nvmexpress.discovery";

fn qi(qid: u16) -> QueueInfo {
    QueueInfo {
        qid,
        sqsize: 32,
        tid: 42,
        cpus: "0-3".to_owned(),
        peer: "127.0.0.1:0".to_owned(),
    }
}

fn queue_core(qid: u16, sqsize: u16, pool: usize, sqhd_disabled: bool) -> QueueCore<u64, NoTransport> {
    QueueCore::new(qid, sqsize, pool, sqhd_disabled, 0u64)
}

#[test]
fn tag_lifecycle_and_sqhd_wrap() {
    let mut q = queue_core(1, 4, 4096, false);
    // sqhd wraps modulo sqsize.
    assert_eq!(q.advance_sqhd(), 1);
    assert_eq!(q.advance_sqhd(), 2);
    assert_eq!(q.advance_sqhd(), 3);
    assert_eq!(q.advance_sqhd(), 0);
    assert_eq!(q.advance_sqhd(), 1);

    // Claim all four tags; the fifth fails.
    let tags: Vec<u16> = (0..4).map(|_| q.slots.claim_tag().unwrap()).collect();
    assert!(q.slots.claim_tag().is_none());
    assert!(!q.slots.idle());

    // Walk one slot through the full lifecycle.
    let tag = tags[0];
    q.slots.submit(tag, 0u64);
    assert_eq!(q.slots.slot(tag).state(), SlotState::Ready);
    assert_eq!(q.slots.poll_command(tag), Some(0), "ready slot must dispatch immediately");
    assert_eq!(q.slots.executing(), 1);
    q.slots.begin_respond(tag);
    assert_eq!(q.slots.executing(), 0);
    assert_eq!(q.slots.slot(tag).state(), SlotState::Responding);
    q.slots.release_tag(tag);
    assert_eq!(q.slots.slot(tag).state(), SlotState::Free);
    assert_eq!(q.slots.free_tags(), 1);
}

#[test]
fn sqhd_disabled_reports_zero() {
    let mut q = queue_core(1, 8, 64, true);
    assert_eq!(q.advance_sqhd(), 0);
    assert_eq!(q.advance_sqhd(), 0);
}

#[test]
fn queue_stats_snapshot_and_absorb() {
    let mut stats: QueueStats<NoTransport> = QueueStats::new(3);
    stats.cntlid = 7;
    stat_add(&mut stats.read_cmds, 2);
    stat_add(&mut stats.read_bytes, 8192);
    stat_add(&mut stats.errors, 1);
    let snap = stats.snapshot();
    assert_eq!((snap.qid, snap.cntlid), (3, 7));
    assert_eq!((snap.read_cmds, snap.read_bytes, snap.errors), (2, 8192, 1));

    let mut retired = QueueStatsSnapshot::default();
    retired.absorb(&snap);
    retired.absorb(&snap);
    assert_eq!(retired.read_cmds, 4);
    assert_eq!(retired.read_bytes, 16384);
    assert_eq!(retired.errors, 2);
    // Identity does not aggregate: the accumulator stands for all retired
    // queues, not any one of them.
    assert_eq!((retired.qid, retired.cntlid), (0, 0));

    // Reset zeros the counters but keeps the identity.
    stats.reset();
    let snap = stats.snapshot();
    assert_eq!((snap.qid, snap.cntlid), (3, 7));
    assert_eq!(
        snap,
        QueueStatsSnapshot {
            qid: 3,
            cntlid: 7,
            ..QueueStatsSnapshot::default()
        }
    );
}

#[test]
fn queue_core_owns_zeroed_stats() {
    let queue = queue_core(1, 4, 4096, false);
    assert_eq!(
        queue.stats.snapshot(),
        QueueStatsSnapshot {
            qid: 1,
            ..QueueStatsSnapshot::default()
        }
    );
}

#[test]
fn counters_wrap() {
    let mut c = u64::MAX;
    stat_add(&mut c, 2);
    assert_eq!(c, 1);
}

#[test]
fn absorb_order_does_not_matter() {
    let mut a = QueueStatsSnapshot::default();
    a.read_cmds = 5;
    a.errors = u64::MAX;
    let mut b = QueueStatsSnapshot::default();
    b.read_cmds = 7;
    b.errors = 3;
    let mut x = QueueStatsSnapshot::default();
    x.absorb(&a);
    x.absorb(&b);
    let mut y = QueueStatsSnapshot::default();
    y.absorb(&b);
    y.absorb(&a);
    assert_eq!(x, y);
    assert_eq!((x.read_cmds, x.errors), (12, 2));
}

#[test]
fn tag_lifecycle() {
    let mut a: SlotArray<TestCmd> = SlotArray::new(4, 4096, TestCmd::default());
    let tags: Vec<u16> = (0..4).map(|_| a.claim_tag().unwrap()).collect();
    assert!(a.claim_tag().is_none());
    assert!(!a.idle());

    let tag = tags[0];
    a.submit(tag, TestCmd(7));
    assert_eq!(a.slot(tag).state(), SlotState::Ready);
    assert_eq!(a.poll_command(tag), Some(TestCmd(7)));
    assert_eq!(a.poll_command(tag), None, "a command is delivered once");
    assert_eq!(a.executing(), 1);
    a.begin_respond(tag);
    assert_eq!(a.executing(), 0);
    assert_eq!(a.slot(tag).state(), SlotState::Responding);
    a.release_tag(tag);
    assert_eq!(a.slot(tag).state(), SlotState::Free);
    assert_eq!(a.free_tags(), 1);
}

#[test]
fn lease_returns_to_pool_on_release() {
    // One-page pool, two slots: leasing the page then releasing the tag must
    // hand the page back.
    let mut a: SlotArray<TestCmd> = SlotArray::new(2, PAGE, TestCmd::default());
    let full = a.pool().free_pages();
    assert_eq!(full, 1);

    let tag = a.claim_tag().unwrap();
    a.lease_or_owned(tag, PAGE);
    assert_eq!(a.pool().free_pages(), 0, "page leased");

    a.respond_receiving(tag);
    a.release_tag(tag);
    assert_eq!(a.pool().free_pages(), full, "page returned on release");
}

#[test]
fn over_subscribed_lease_falls_back_to_owned() {
    // The pool holds one page; a second concurrent lease falls back to a
    // private buffer and the pool stays at zero.
    let mut a: SlotArray<TestCmd> = SlotArray::new(2, PAGE, TestCmd::default());
    let t0 = a.claim_tag().unwrap();
    let t1 = a.claim_tag().unwrap();
    a.lease_or_owned(t0, PAGE);
    assert!(!a.try_lease(t1, PAGE));
    a.lease_or_owned(t1, PAGE); // pool empty: owned fallback
    assert_eq!(a.pool().free_pages(), 0);
    assert_eq!(a.slot(t1).data().len(), PAGE);
}

#[test]
fn respond_receiving_skips_executing() {
    let mut a: SlotArray<TestCmd> = SlotArray::new(2, 64, TestCmd::default());
    let tag = a.claim_tag().unwrap();
    a.respond_receiving(tag);
    assert_eq!(a.executing(), 0);
    a.release_tag(tag);
    assert!(a.idle());
}

#[test]
fn await_tag_parks_until_release() {
    let mut a: SlotArray<TestCmd> = SlotArray::new(1, 64, TestCmd::default());
    let t0 = a.claim_tag().unwrap();
    assert!(a.claim_tag().is_none(), "the waiter parks");

    a.submit(t0, TestCmd(1));
    assert!(a.poll_command(t0).is_some());
    a.begin_respond(t0);
    a.release_tag(t0);

    assert!(matches!(a.claim_tag(), Some(tag) if tag == t0));
}

#[test]
fn send_list_close_drains_then_ends() {
    let mut s: SendList<u16> = SendList::new(4);
    s.push(42);
    s.close();
    assert_eq!(s.try_next(), Some(42));
    assert!(matches!(s.poll_next(), Next::Closed));
}

#[test]
fn send_list_waits_while_open() {
    let mut s: SendList<u16> = SendList::new(4);
    assert!(matches!(s.poll_next(), Next::Pending));
    s.push(1);
    s.push(2);
    assert!(matches!(s.poll_next(), Next::Work(1)), "oldest first");
}

#[test]
fn discovery_entries_flagged() {
    let mut registry = Registry::new(1, CNTLID_MAX);
    registry
        .allocate(DISCOVERY_NQN, "nqn.host", 0, 120_000, qi(0), true)
        .unwrap();
    let snap = registry.snapshot();
    assert!(snap[0].discovery);
    assert_eq!(snap[0].kato_ms, 120_000);
    // max_qid 0: any IO-queue Connect must be rejected.
    assert_eq!(
        registry.install_io_queue(snap[0].cntlid, "nqn.host", qi(1)).err(),
        Some(IoConnectError::InvalidQid)
    );
}

#[test]
fn cntlid_slice_respected_and_exhausted() {
    // A narrow slice: every id stays inside it, allocation wraps to reclaim
    // freed ids, and an exhausted slice refuses.
    let mut registry = Registry::new(10, 12);
    let ids: Vec<u16> = (0..3)
        .map(|_| {
            registry
                .allocate("nqn.a", "nqn.host", 1, 0, qi(0), false)
                .unwrap()
        })
        .collect();
    assert_eq!(ids, [10, 11, 12]);
    assert!(
        registry
            .allocate("nqn.a", "nqn.host", 1, 0, qi(0), false)
            .is_none(),
        "slice exhausted"
    );
    registry.remove(11).unwrap();
    assert_eq!(
        registry
            .allocate("nqn.a", "nqn.host", 1, 0, qi(0), false)
            .unwrap(),
        11,
        "freed id reclaimed within the slice"
    );
}

#[test]
fn registry_allocates_unique_cntlids() {
    let mut registry = Registry::new(1, CNTLID_MAX);
    let a = registry
        .allocate("nqn.test", "nqn.host", 4, 60_000, qi(0), false)
        .unwrap();
    let b = registry
        .allocate("nqn.test", "nqn.host", 4, 60_000, qi(0), false)
        .unwrap();
    assert_ne!(a, b);
    assert!(a >= 1 && b >= 1);

    // IO queue install: unknown controller rejected, dup qid rejected.
    assert_eq!(
        registry.install_io_queue(0xBEEF, "nqn.host", qi(1)).err(),
        Some(IoConnectError::UnknownController)
    );
    registry.install_io_queue(a, "nqn.host", qi(1)).unwrap();
    assert_eq!(
        registry.install_io_queue(a, "nqn.host", qi(1)).err(),
        Some(IoConnectError::QueueExists)
    );
    assert_eq!(
        registry.install_io_queue(a, "nqn.other", qi(2)).err(),
        Some(IoConnectError::HostMismatch)
    );
    // qid 0 and qid > max_qid are rejected.
    assert_eq!(
        registry.install_io_queue(a, "nqn.host", qi(0)).err(),
        Some(IoConnectError::InvalidQid)
    );
    assert_eq!(
        registry.install_io_queue(a, "nqn.host", qi(5)).err(),
        Some(IoConnectError::InvalidQid)
    );
    registry.remove(a).unwrap();
    assert_eq!(registry.len(), 1);
}

#[test]
fn snapshot_reports_queues_and_kato() {
    let mut registry = Registry::new(1, CNTLID_MAX);
    let a = registry
        .allocate("nqn.test", "nqn.host", 4, 5000, qi(0), false)
        .unwrap();
    registry.install_io_queue(a, "nqn.host", qi(1)).unwrap();
    let snap = registry.snapshot();
    assert_eq!(snap.len(), 1);
    assert_eq!(snap[0].cntlid, a);
    assert_eq!(snap[0].kato_ms, 5000);
    let qids: Vec<u16> = snap[0].queues.iter().map(|q| q.qid).collect();
    assert_eq!(qids, vec![0, 1]);
    // The snapshot echoes the identity recorded at install time.
    assert!(snap[0].queues.iter().all(|q| q.tid == 42));
    assert!(snap[0].queues.iter().all(|q| q.cpus == "0-3"));
    assert!(!snap[0].queues[0].cpus.is_empty());
    assert!(!snap[0].discovery);
}

#[test]
fn traffic_flag_shared_by_all_queues() {
    let mut registry = Registry::new(1, CNTLID_MAX);
    let a = registry
        .allocate("nqn.test", "nqn.host", 4, 5000, qi(0), false)
        .unwrap();
    let admin = registry.traffic(a).unwrap();
    // The IO queue's entry carries the very same flag, which is the
    // whole point: setting it there is visible to the admin watchdog.
    let io = registry.install_io_queue(a, "nqn.host", qi(1)).unwrap();
    assert!(!admin.take(&mut registry));
    io.traffic.set(&mut registry);
    assert!(admin.take(&mut registry), "io traffic visible to the admin queue");
    assert!(!admin.take(&mut registry), "take consumes the flag");
    // Each controller gets its own flag.
    let b = registry
        .allocate("nqn.test", "nqn.host", 4, 5000, qi(0), false)
        .unwrap();
    registry.traffic(b).unwrap().set(&mut registry);
    assert!(!admin.take(&mut registry));
    assert!(registry.traffic(0xBEEF).is_none());
}

#[test]
fn every_record_carries_the_flag() {
    let mut registry = Registry::new(1, CNTLID_MAX);
    let a = registry
        .allocate("nqn.test", "nqn.host", 4, 5000, qi(0), false)
        .unwrap();
    let first = registry.install_io_queue(a, "nqn.host", qi(1)).unwrap();
    let second = registry.install_io_queue(a, "nqn.host", qi(2)).unwrap();
    let listed = registry.snapshot();
    assert_eq!(first.traffic, second.traffic);
    assert_eq!(registry.traffic(a), Some(listed[0].traffic));
    // Two queues set it before the watchdog looks: one take answers both.
    first.traffic.set(&mut registry);
    second.traffic.set(&mut registry);
    assert!(listed[0].traffic.take(&mut registry));
    assert!(!first.traffic.take(&mut registry));
}

#[test]
fn flag_tells_whether_it_was_set_since_the_last_take() {
    let mut flag = TrafficFlag::default();
    assert!(!flag.take());
    flag.set();
    flag.set();
    assert!(flag.take());
    assert!(!flag.take());
    flag.set();
    assert!(flag.take());
}

#[test]
fn flag_outlives_its_controller() {
    let mut registry = Registry::new(7, 7);
    let a = registry
        .allocate("nqn.test", "nqn.host", 4, 5000, qi(0), false)
        .unwrap();
    let admin = registry.traffic(a).unwrap();
    let io = registry.install_io_queue(a, "nqn.host", qi(1)).unwrap();
    io.traffic.set(&mut registry);
    registry.remove(a).unwrap();
    assert!(registry.traffic(a).is_none());
    assert!(admin.take(&mut registry), "set before the removal");
    io.traffic.set(&mut registry);
    assert!(admin.take(&mut registry), "set after the removal");
    assert!(!admin.take(&mut registry));
    // The next controller of the same id has a flag of its own.
    let again = registry
        .allocate("nqn.test", "nqn.host", 4, 5000, qi(0), false)
        .unwrap();
    assert_eq!(a, again);
    io.traffic.set(&mut registry);
    let now = registry.traffic(again).unwrap();
    assert_ne!(now, io.traffic);
    assert!(!now.take(&mut registry));
    assert!(io.traffic.take(&mut registry));
}

#[test]
fn released_flags_are_not_kept() {
    let mut registry = Registry::new(1, CNTLID_MAX);
    for _ in 0..3 {
        let a = registry
            .allocate("nqn.test", "nqn.host", 4, 5000, qi(0), false)
            .unwrap();
        let io = registry.install_io_queue(a, "nqn.host", qi(1)).unwrap();
        io.traffic.set(&mut registry);
        // While the controller lives its flag stays.
        io.traffic.release(&mut registry);
        assert!(io.traffic.take(&mut registry));
        io.traffic.set(&mut registry);
        registry.remove(a).unwrap();
        assert_eq!(registry.flags.len(), 1);
        io.traffic.release(&mut registry);
        assert!(registry.flags.is_empty());
    }
}

#[test]
fn cntlid_slices_do_not_overlap() {
    assert_eq!(cntlid_slice(0, 1), (1, CNTLID_MAX));
    assert_eq!(cntlid_slice(0, 3), (1, 21839));
    assert_eq!(cntlid_slice(1, 3), (21840, 43678));
    assert_eq!(cntlid_slice(2, 3), (43679, 65517));
    assert_eq!(cntlid_slice(CNTLID_MAX - 1, CNTLID_MAX), (CNTLID_MAX, CNTLID_MAX));
}

#[test]
fn snapshot_sorts_by_cntlid() {
    let mut registry = Registry::new(1, CNTLID_MAX);
    let mut ids: Vec<u16> = (0..3)
        .map(|_| {
            registry
                .allocate("nqn.test", "nqn.host", 4, 60_000, qi(0), false)
                .unwrap()
        })
        .collect();
    ids.sort_unstable();
    let snap_ids: Vec<u16> = registry.snapshot().iter().map(|e| e.cntlid).collect();
    assert_eq!(snap_ids, ids);
    assert!(snap_ids.windows(2).all(|w| w[0] < w[1]));
}

#[test]
fn removed_controller_is_gone() {
    let mut registry = Registry::new(1, CNTLID_MAX);
    assert!(registry.is_empty());
    let a = registry
        .allocate("nqn.test", "nqn.host", 4, 5000, qi(0), false)
        .unwrap();
    assert!(registry.contains(a));
    assert_eq!(registry.remove(a).unwrap().cntlid, a);
    assert!(!registry.contains(a));
    assert!(registry.remove(a).is_none());
    assert!(registry.is_empty());
}
