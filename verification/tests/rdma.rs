//! NVMe/RDMA: scatter-gather descriptors, work requests, the queue engine.

use ioutgt::nvme::{Cqe, Outcome, Role, Sqe};
use ioutgt::cmproto::{check_request, reject_status, CmReq, CM_FMT_1_0};
use ioutgt::rdma::conn::{
    ack_timeout, bind_again, conn_sizes, drain_waits, keeps_spinning, polls, probe_arms,
    queue_depth, register_pool, teardown, ConnTable,
};
use ioutgt::queue::Teardown;
use ioutgt::rdma::engine::fill_sges;
use ioutgt::rdma::reap::{HostState, RunEvent};
use ioutgt::rdma::{
    wr, wr_kind, wr_low, QueueError, RdmaQueue, Wr, CAPSULE_LEN, WR_READ, WR_RECV, WR_SEND,
    WR_WRITE,
};
use ioutgt::sgl::{host_data_in, invalidate_rkey_for, parse_inline_sgl, parse_keyed_sgl};
use ioutgt::slotq::SlotState;
use ioutgt::wrstats::{BatchHist, WrClass};

/// A command with a keyed descriptor.
fn keyed_sqe(opcode: u8, cid: u16, addr: u64, len: u32, key: u32, invalidate: bool) -> Sqe {
    let mut b = [0u8; 64];
    b[0] = opcode;
    b[2..4].copy_from_slice(&cid.to_le_bytes());
    b[24..32].copy_from_slice(&addr.to_le_bytes());
    b[32..35].copy_from_slice(&len.to_le_bytes()[..3]);
    b[35..39].copy_from_slice(&key.to_le_bytes());
    b[39] = if invalidate { 0x4f } else { 0x40 };
    Sqe::from_bytes(&b)
}

/// A command with its data in the capsule, `off` bytes behind the entry.
fn inline_sqe(opcode: u8, cid: u16, off: u64, len: u32) -> Sqe {
    let mut b = [0u8; 64];
    b[0] = opcode;
    b[2..4].copy_from_slice(&cid.to_le_bytes());
    b[24..32].copy_from_slice(&off.to_le_bytes());
    b[32..36].copy_from_slice(&len.to_le_bytes());
    b[39] = 0x01;
    Sqe::from_bytes(&b)
}

fn queue(sqsize: u16, pool: usize) -> RdmaQueue {
    let mut q = RdmaQueue::new(1, sqsize, false, pool, 8192);
    q.prime();
    q.posts.clear();
    q
}

/// Put a capsule into receive buffer `idx`.
fn arrive(q: &mut RdmaQueue, idx: usize, sqe: &Sqe, data: &[u8]) {
    let at = idx * CAPSULE_LEN;
    q.recv_buf[at..at + 64].copy_from_slice(&sqe.bytes);
    q.recv_buf[at + 64..at + 64 + data.len()].copy_from_slice(data);
}

#[test]
fn work_request_ids_round_trip() {
    for kind in [WR_RECV, WR_SEND, WR_WRITE, WR_READ] {
        for low in [0u32, 1, 255, u32::MAX] {
            let id = wr(kind, low);
            assert_eq!((wr_kind(id), wr_low(id)), (kind, low));
        }
    }
}

#[test]
fn descriptors() {
    let s = keyed_sqe(1, 7, 0x1122_3344_5566_7788, 0x0102_03, 0xAABB_CCDD, true);
    let k = parse_keyed_sgl(&s);
    assert_eq!((k.addr, k.len, k.rkey), (0x1122_3344_5566_7788, 0x0102_03, 0xAABB_CCDD));
    assert_eq!(invalidate_rkey_for(&s), Some(0xAABB_CCDD));
    assert_eq!(invalidate_rkey_for(&keyed_sqe(1, 7, 0, 0, 5, false)), None);
    assert_eq!(parse_inline_sgl(&inline_sqe(1, 7, 16, 512)), (16, 512));
    assert!(host_data_in(Role::Io, 1) && !host_data_in(Role::Io, 2));
}

#[test]
fn host_resident_write_is_pulled_before_dispatch() {
    let mut q = queue(4, 64 * 1024);
    let sqe = keyed_sqe(1, 9, 0x1000, 8192, 77, false);
    arrive(&mut q, 0, &sqe, &[]);
    q.process_cqes(Role::Io, &vec![(wr(WR_RECV, 0), true)]).ok().unwrap();
    let read = q.posts.iter().find_map(|w| match w {
        Wr::Read { read } => Some(read.tag),
        _ => None,
    });
    let tag = read.expect("a read was posted");
    assert_eq!(q.nvme.slots.slot(tag).state(), SlotState::Receiving);
    assert_eq!(q.nvme.slots.slot(tag).data().len(), 8192);
    // The data is here: the command goes to its slot task.
    q.process_cqes(Role::Io, &vec![(wr(WR_READ, u32::from(tag)), true)]).ok().unwrap();
    assert_eq!(q.nvme.slots.slot(tag).state(), SlotState::Ready);
}

#[test]
fn inline_write_is_copied_out_of_the_capsule() {
    let mut q = queue(4, 64 * 1024);
    let data: Vec<u8> = (0..512u32).map(|i| (i % 251) as u8).collect();
    arrive(&mut q, 1, &inline_sqe(1, 5, 0, 512), &data);
    q.process_cqes(Role::Io, &vec![(wr(WR_RECV, 1), true)]).ok().unwrap();
    let tag = (0..4u16)
        .find(|t| q.nvme.slots.slot(*t).state() == SlotState::Ready)
        .expect("submitted");
    let mut got: Vec<u8> = Vec::new();
    q.nvme.slots.slot(tag).data().for_each_seg(q.nvme.slots.pool(), &[], 0, 512, &mut got);
    assert_eq!(got, data);
    assert!(q.posts.iter().any(|w| matches!(w, Wr::Recv { idx: 1 })), "buffer re-armed");
}

#[test]
fn read_response_holds_its_tag_until_both_requests_complete() {
    let mut q = queue(4, 64 * 1024);
    arrive(&mut q, 0, &keyed_sqe(2, 3, 0x2000, 4096, 11, true), &[]);
    q.process_cqes(Role::Io, &vec![(wr(WR_RECV, 0), true)]).ok().unwrap();
    let tag = (0..4u16)
        .find(|t| q.nvme.slots.slot(*t).state() == SlotState::Ready)
        .expect("submitted");
    let cmd = q.nvme.slots.poll_command(tag).unwrap();
    q.nvme.slots.lease_or_owned(tag, 4096);
    q.posts.clear();
    q.slot_done(tag, cmd, Outcome::with_data(Cqe::new(0, 1, 1, 3, 0), 4096));
    let first = q.responses.try_next().expect("a response is queued");
    q.run_step(Role::Io, RunEvent::Response { first }).ok().unwrap();
    assert!(q.posts.iter().any(|w| matches!(w, Wr::Write { len: 4096, rkey: 11, .. })));
    assert!(q.posts.iter().any(|w| matches!(w, Wr::Send { invalidate: Some(11), .. })));
    assert_eq!(q.nvme.slots.slot(tag).state(), SlotState::Responding);
    q.process_cqes(Role::Io, &vec![(wr(WR_WRITE, u32::from(tag)), true)]).ok().unwrap();
    assert_eq!(q.nvme.slots.slot(tag).state(), SlotState::Responding);
    q.process_cqes(Role::Io, &vec![(wr(WR_SEND, u32::from(tag)), true)]).ok().unwrap();
    assert_eq!(q.nvme.slots.slot(tag).state(), SlotState::Free);
}

#[test]
fn completions_that_end_the_queue() {
    let mut q = queue(2, 64 * 1024);
    assert!(matches!(q.process_cqes(Role::Io, &vec![(wr(WR_SEND, 0), false)]), Ok(true)));
    let mut q = queue(2, 64 * 1024);
    assert!(matches!(
        q.process_cqes(Role::Io, &vec![(wr(WR_SEND, 1), true)]),
        Err(QueueError::Stray)
    ));
}

#[test]
fn silent_host_expires() {
    let mut q = queue(2, 64 * 1024);
    let quiet = HostState::Admin { kato_ms: 1000, silent_ms: 7001 };
    let busy = HostState::Admin { kato_ms: 1000, silent_ms: 7000 };
    let off = HostState::Admin { kato_ms: 0, silent_ms: u64::MAX };
    // Every other tick looks.
    let looked = [q.watchdog(quiet), q.watchdog(quiet)];
    assert_eq!(looked.iter().filter(|g| **g).count(), 1);
    assert!(!(q.watchdog(busy) || q.watchdog(busy)));
    assert!(!(q.watchdog(off) || q.watchdog(off)));
}

#[test]
fn connection_parameters() {
    let s = conn_sizes(128, 3);
    assert_eq!((s.cq_depth, s.max_send_wr, s.max_recv_wr), (400, 264, 136));
    assert!(s.cq_depth >= s.max_send_wr + s.max_recv_wr);
    assert_eq!(queue_depth(1, 127, 64), 64);
    assert_eq!(queue_depth(1, 31, 64), 32);
    assert!(ack_timeout(0).is_some() != ack_timeout(1).is_some());
    let mut t = ConnTable::new();
    t.accepted(5);
    t.accepted(6);
    assert_eq!(t.disconnected(5), Some(0));
    assert_eq!(t.disconnected(5), None);
}

#[test]
fn gauges_survive_a_reset_of_counts() {
    let mut c = WrClass::new();
    c.post_n(3);
    c.complete();
    assert_eq!((c.posted, c.done), (3, 1));
    assert_eq!(c.inflight, 2);
    let mut h = BatchHist::new();
    for n in [1usize, 2, 3, 9, 17, 100] {
        h.record(n);
    }
    assert_eq!((h.b1, h.b2, h.b4, h.b8, h.b16, h.b32), (1, 1, 1, 0, 1, 2));
}

#[test]
fn sleeping_and_spinning() {
    assert!(keeps_spinning(false, u64::MAX) && keeps_spinning(true, 199));
    assert!(!keeps_spinning(true, 200));
    assert!(probe_arms(true, false, false) && probe_arms(true, true, true));
    assert!(!probe_arms(true, true, false) && !probe_arms(false, false, true));
    assert!(polls(true, 1) && !polls(true, 0) && !polls(false, 1));
}

#[test]
fn waits_are_bounded() {
    assert!(drain_waits(1, 9_999) && !drain_waits(1, 10_000) && !drain_waits(0, 0));
    assert!(bind_again(119) && !bind_again(120));
}

#[test]
fn connect_requests_are_checked() {
    let req = CmReq { recfmt: CM_FMT_1_0, qid: 3, hrqsize: 32, hsqsize: 31, cntlid: 7 };
    let bytes = req.to_bytes();
    assert_eq!(check_request(&bytes), Ok(req));
    assert_eq!(check_request(&bytes[..31]), Err(reject_status::INVALID_LEN));
    let other = CmReq { recfmt: 1, ..req };
    assert_eq!(check_request(&other.to_bytes()), Err(reject_status::INVALID_RECFMT));
}

#[test]
fn inline_connect() {
    let mut q = RdmaQueue::new(1, 4, false, 64 * 1024, 8192);
    q.prime();
    q.posts.clear();
    assert_eq!(q.await_bootstrap(WR_RECV, &vec![]), Ok(None));
    let data: Vec<u8> = (0..1024u32).map(|i| (i % 251) as u8).collect();
    let sqe = inline_sqe(0x7f, 5, 0, 1024);
    arrive(&mut q, 2, &sqe, &data);
    assert_eq!(q.await_bootstrap(WR_RECV, &vec![(wr(WR_RECV, 2), true)]), Ok(Some(2)));
    let (got, inline) = q.connect_capsule(2);
    assert_eq!(got.bytes, sqe.bytes);
    assert_eq!(inline, Some(data));
    assert_eq!(q.posts, vec![Wr::Recv { idx: 2 }]);

    let tag = q.connect_submit(sqe).unwrap();
    assert_eq!(tag, 0);
    assert_eq!(q.nvme.slots.slot(tag).state(), SlotState::Executing);
    q.posts.clear();
    q.connect_respond(tag, sqe, Outcome::status(Cqe::new(1, 1, 1, 5, 0)));
    assert_eq!(q.posts, vec![Wr::Send { tag, invalidate: None }, Wr::Doorbell]);
    assert_eq!(&q.resp_buf[..4], &[1, 0, 0, 0]);
}

#[test]
fn host_resident_connect_is_pulled() {
    let mut q = RdmaQueue::new(0, 4, false, 0, 8192);
    q.prime();
    q.posts.clear();
    let sqe = keyed_sqe(0x7f, 5, 0x9000, 1024, 33, true);
    arrive(&mut q, 0, &sqe, &[]);
    let (_, inline) = q.connect_capsule(0);
    assert_eq!(inline, None);
    assert!(q.posts.contains(&Wr::ReadConnect { len: 1024, rkey: 33, addr: 0x9000 }));
    q.cdata_buf[..3].copy_from_slice(&[1, 2, 3]);
    assert_eq!(q.await_bootstrap(WR_READ, &vec![(wr(WR_READ, 0), true)]), Ok(Some(0)));
    assert_eq!(&q.connect_data()[..4], &[1, 2, 3, 0]);
    assert_eq!(q.connect_data().len(), 1024);
    // A failed completion ends the connection.
    let lost = q.await_bootstrap(WR_READ, &vec![(wr(WR_READ, 0), false)]);
    assert_eq!(lost, Err(QueueError::PeerGone));
}

#[test]
fn connect_needs_a_tag() {
    let mut q = queue(1, 64 * 1024);
    let sqe = inline_sqe(0x7f, 5, 0, 1024);
    assert_eq!(q.connect_submit(sqe), Ok(0));
    assert_eq!(q.connect_submit(sqe), Err(QueueError::NoTag));
}

#[test]
fn scatter_list_covers_a_prefix() {
    let mut q = queue(2, 64 * 1024);
    assert!(q.nvme.slots.try_lease(0, 8192));
    let segs = fill_sges(q.nvme.slots.slot(0).data(), 5000);
    assert_eq!(segs.iter().map(|s| s.len).sum::<usize>(), 5000);
    assert_eq!(segs[0].off, q.nvme.slots.slot(0).data().segs()[0].off);
    assert!(fill_sges(q.nvme.slots.slot(0).data(), 0).is_empty());
}

#[test]
fn a_new_queue_holds_nothing() {
    let q = RdmaQueue::new(1, 4, false, 64 * 1024, 8192);
    assert_eq!(q.nvme.slots.pool().buf_index(), None);
    assert_eq!(q.nvme.slots.pool().send_arena(), None);
    assert!(q.nvme.slots.idle());
    for tag in 0..4u16 {
        let s = q.nvme.slots.slot(tag);
        assert_eq!((s.data_len(), s.recv_offset(), s.data().len()), (0, 0, 0));
        assert_eq!(s.cmd().bytes, [0u8; 64]);
        assert_eq!(q.pending_read[usize::from(tag)].bytes, [0u8; 64]);
    }
}

#[test]
fn a_drained_queue_is_freed_and_another_is_not() {
    let mut q = RdmaQueue::new(1, 4, false, 64 * 1024, 8192);
    register_pool(&mut q, None);
    assert_eq!(q.nvme.slots.pool().buf_index(), None);
    register_pool(&mut q, Some(9));
    assert_eq!(q.nvme.slots.pool().buf_index(), Some(9));
    // A command that still executes pins the pool.
    let tag = q.connect_submit(keyed_sqe(1, 5, 0, 0, 0, false)).ok().unwrap();
    assert!(matches!(teardown(&mut q), Teardown::Leak));
    assert_eq!(q.nvme.slots.pool().buf_index(), Some(9), "the registration stays");
    q.nvme.slots.begin_respond(tag);
    assert_eq!(teardown(&mut q), Teardown::Free { buf_index: Some(9) });
    assert_eq!(q.nvme.slots.pool().buf_index(), None);
    assert_eq!(teardown(&mut q), Teardown::Free { buf_index: None });
}
