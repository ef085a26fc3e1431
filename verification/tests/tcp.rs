//! NVMe/TCP: digests, encoders, send staging, payload reassembly.

use ioutgt::digest::{crc32c, Crc32c};
use ioutgt::nvme::{Cqe, Sqe, SC_DATA_XFER_ERROR, SC_DNR};
use ioutgt::pdu::{
    answer_ic, encode_c2h_data, encode_c2h_term, encode_capsule_resp, encode_r2t, DecodedPdu, PduError,
    PduDecoder, PduKind, FES_DATA_LIMIT_EXCEEDED, FES_DATA_OUT_OF_RANGE, FES_HDR_DIGEST,
    FES_INVALID_PDU_HDR, FES_PDU_SEQ_ERR,
};
use ioutgt::pool::{Seg, SlotData, PAGE};
use ioutgt::queue::Teardown;
use ioutgt::slotq::SlotState;
use ioutgt::tcp::conn::{
    closing_reply, controller_gone, first_command, peer_name, queue_sizes, quiesce_step, teardown,
    KeepAlive, pool_arena, register_pool, teardown_step, Next, Stage};
use ioutgt::tcp::recv::{
    direct_tail, handle_pdu, needs_r2t, tail_landed, DataPhase, Pause, PayloadKind, Receiver,
    RecvEnd, RecvPhase, RingWindow, Routed, H2C_DIRECT_MIN,
};
use ioutgt::tcp::send::{
    release_class, stage_pending, stage_send_work, GatherBatch, Iov, Staged, ARENA_PER_ITEM, IOVS_PER_ITEM,
};
use ioutgt::tcp::{Completion, NvmeTcpQueue, SendWork};

fn gather_for(sqsize: u16) -> GatherBatch {
    let n = usize::from(sqsize);
    GatherBatch::new(n * ARENA_PER_ITEM, n * IOVS_PER_ITEM + IOVS_PER_ITEM)
}

/// Linearize the staged entries (what the kernel would put on the wire).
fn gather(g: &GatherBatch, q: &NvmeTcpQueue) -> Vec<u8> {
    let mut out = Vec::new();
    for e in &g.iovs {
        match *e {
            Iov::Arena { off, len } => out.extend_from_slice(&g.arena[off..off + len]),
            Iov::Payload { tag, seg } => {
                assert!(q.nvme.slots.slot(tag).data().is_pool());
                out.extend_from_slice(&q.nvme.slots.pool().arena()[seg.off..seg.off + seg.len]);
            }
        }
    }
    out
}

fn write_at(q: &mut NvmeTcpQueue, tag: u16, bytes: &[u8]) {
    q.nvme.slots.write_slot(tag, 0, bytes);
}

fn slot_bytes(q: &NvmeTcpQueue, tag: u16, len: usize) -> Vec<u8> {
    let mut out: Vec<u8> = Vec::new();
    q.nvme.slots.slot(tag).data().for_each_seg(q.nvme.slots.pool(), &[], 0, len, &mut out);
    out
}

/// A read or write command: `transport` leaves its data with the host.
fn rw_sqe(opcode: u8, cid: u16, len: u32, transport: bool) -> Sqe {
    let mut b = [0u8; 64];
    b[0] = opcode;
    b[2..4].copy_from_slice(&cid.to_le_bytes());
    b[32..36].copy_from_slice(&len.to_le_bytes());
    b[39] = if transport { 0x5A } else { 0x01 };
    Sqe::from_bytes(&b)
}

fn capsule(sqe: Sqe, data_len: u32, ddgst: bool) -> DecodedPdu {
    DecodedPdu { kind: PduKind::CapsuleCmd(sqe), data_len, ddgst }
}

fn h2c(cid: u16, ttag: u16, offset: u32, length: u32, last: bool) -> DecodedPdu {
    DecodedPdu {
        kind: PduKind::H2CData { cid, ttag, offset, length, last },
        data_len: length,
        ddgst: false,
    }
}

fn next(r: Result<Routed, RecvEnd>) -> Option<RecvPhase> {
    match r {
        Ok(Routed::Next(p)) => p,
        Ok(Routed::NoTag) => panic!("no tag"),
        Err(e) => panic!("{e:?}"),
    }
}

/// Feed a payload through the phases in windows of `step` bytes.
fn feed(q: &mut NvmeTcpQueue, mut phase: RecvPhase, stream: &[u8], step: usize) -> RecvPhase {
    let mut at = 0;
    while at < stream.len() {
        let end = (at + step).min(stream.len());
        while at < end {
            let (taken, r) = phase.advance(q, &stream[at..end]);
            phase = match r {
                Ok(p) => p,
                Err(e) => panic!("{e:?}"),
            };
            at += taken;
        }
    }
    phase
}

fn pattern(n: usize, seed: u8) -> Vec<u8> {
    (0..n).map(|i| (i as u8).wrapping_mul(31).wrapping_add(seed)).collect()
}

#[test]
fn crc_check_value() {
    assert_eq!(crc32c(b"123456789"), 0xE306_9283);
    assert_eq!(crc32c(b""), 0);
    let mut c = Crc32c::new();
    c.update(b"1234");
    c.update(b"56789");
    assert_eq!(c.finalize(), 0xE306_9283);
}

#[test]
fn header_layouts() {
    let mut b = Vec::new();
    encode_r2t(&mut b, 9, 3, 0x0102_0304, 4096, false);
    assert_eq!(
        b,
        vec![9, 0, 24, 0, 24, 0, 0, 0, 9, 0, 3, 0, 4, 3, 2, 1, 0, 16, 0, 0, 0, 0, 0, 0]
    );
    let mut b = Vec::new();
    encode_c2h_data(&mut b, 7, 0, 1000, true, true, true, true);
    assert_eq!(b.len(), 28);
    assert_eq!(&b[..8], &[7, 15, 24, 28, 0x08, 0x04, 0, 0]);
    assert_eq!(&b[24..], &crc32c(&b[..24]).to_le_bytes());
    let mut b = Vec::new();
    encode_capsule_resp(&mut b, &Cqe::new(1, 2, 3, 4, 5), false);
    assert_eq!(
        b,
        vec![5, 0, 24, 0, 24, 0, 0, 0, 1, 0, 0, 0, 0, 0, 0, 0, 2, 0, 3, 0, 4, 0, 10, 0]
    );
    let mut b = Vec::new();
    encode_c2h_term(&mut b, PduError { fes: 4, fei: 16 });
    assert_eq!(b.len(), 24);
    assert_eq!(&b[..14], &[3, 0, 24, 0, 24, 0, 0, 0, 4, 0, 16, 0, 0, 0]);
}

#[test]
fn scattered_read_payload_linearizes() {
    // Fragment a 4-page pool so a 2-page read lease must scatter.
    let mut queue = NvmeTcpQueue::new(1, 8, 4 * PAGE, false);
    let mut held: Vec<u16> = Vec::new();
    for _ in 0..4 {
        let tag = queue.nvme.slots.claim_tag().unwrap();
        queue.nvme.slots.lease_or_owned(tag, PAGE);
        held.push(tag);
    }
    // Free pages 0 and 2: two non-adjacent holes.
    for tag in [held[0], held[2]] {
        queue.nvme.slots.respond_receiving(tag);
        queue.nvme.slots.release_tag(tag);
    }
    let tag = queue.nvme.slots.claim_tag().unwrap();
    queue.nvme.slots.lease_or_owned(tag, 2 * PAGE);
    assert!(
        !queue.nvme.slots.slot(tag).data().is_contiguous(),
        "the 2-page lease should be scattered across the holes"
    );

    let payload: Vec<u8> = (0..(2 * PAGE) as u32).map(|i| (i % 251) as u8).collect();
    write_at(&mut queue, tag, &payload);

    let mut g = gather_for(queue.nvme.sqsize);
    let cqe = Cqe::new(0, 1, 1, 7, 0);
    let len = (2 * PAGE) as u32;
    let item = SendWork::Response(Completion { tag, cqe, data_len: len });
    assert!(g.fits(ARENA_PER_ITEM, IOVS_PER_ITEM));
    stage_send_work(&mut g, &queue, &[], &item, true, true);

    // The scattered payload must linearize to the same wire bytes as a
    // contiguous one: data header, payload, digest, response capsule.
    let mut expect = Vec::new();
    encode_c2h_data(&mut expect, 7, 0, len, true, false, true, true);
    expect.extend_from_slice(&payload);
    expect.extend_from_slice(&crc32c(&payload).to_le_bytes());
    encode_capsule_resp(&mut expect, &cqe, true);

    assert_eq!(gather(&g, &queue), expect, "scattered payload sends correct bytes");
    // Payload contributes two (non-merged) entries.
    assert!(g.iovs.len() >= 4, "header + 2 payload segs + trailer");
}

#[test]
fn payload_in_the_receive_ring_is_digested_there() {
    let mut queue = NvmeTcpQueue::new(1, 4, PAGE, false);
    let ring: Vec<u8> = (0..64).collect();
    let tag = queue.nvme.slots.claim_tag().unwrap();
    queue.nvme.slots.set_data(tag, SlotData::ring(3, 8, 16));
    let cqe = Cqe::new(0, 1, 1, 7, 0);
    let item = SendWork::Response(Completion { tag, cqe, data_len: 16 });
    let mut g = gather_for(4);
    stage_send_work(&mut g, &queue, &ring, &item, false, true);
    assert!(g.iovs.contains(&Iov::Payload { tag, seg: Seg { off: 8, len: 16 } }));
    let sum = crc32c(&ring[8..24]).to_le_bytes();
    assert_eq!(&g.arena[24..28], &sum, "the digest follows the 24-byte data header");
}

#[test]
fn batch_matches_linear_encoding() {
    let mut queue = NvmeTcpQueue::new(1, 4, 128 * 1024, false);
    let payload: Vec<u8> = (0..1000u32).map(|i| i as u8).collect();
    queue.nvme.slots.lease_or_owned(2, 1000);
    write_at(&mut queue, 2, &payload);

    let mut g = gather_for(queue.nvme.sqsize);
    let cqe = Cqe::new(0, 1, 1, 7, 0);
    let items = [
        SendWork::R2t { tag: 3, cid: 9, offset: 0, length: 4096 },
        SendWork::Response(Completion { tag: 2, cqe, data_len: 1000 }),
    ];
    for item in &items {
        assert!(g.fits(ARENA_PER_ITEM, IOVS_PER_ITEM));
        stage_send_work(&mut g, &queue, &[], item, true, true);
    }

    // The same PDUs encoded linearly.
    let mut expect = Vec::new();
    encode_r2t(&mut expect, 9, 3, 0, 4096, true);
    encode_c2h_data(&mut expect, 7, 0, 1000, true, false, true, true);
    expect.extend_from_slice(&payload);
    expect.extend_from_slice(&crc32c(&payload).to_le_bytes());
    encode_capsule_resp(&mut expect, &cqe, true);

    assert_eq!(gather(&g, &queue), expect);
    // Adjacent arena chunks merge: [R2T + data header][payload][digest + capsule].
    assert_eq!(g.iovs.len(), 3);
    assert_eq!((g.payload_items, g.payload_bytes), (1, 1000));
}

#[test]
fn batch_elides_and_merges_without_digests() {
    // Flow control off: a successful read elides the response capsule.
    let mut queue = NvmeTcpQueue::new(1, 4, 128 * 1024, true);
    let payload = [0xa5u8; 512];
    queue.nvme.slots.lease_or_owned(1, 512);
    write_at(&mut queue, 1, &payload);

    let mut g = gather_for(queue.nvme.sqsize);
    let read_cqe = Cqe::new(0, 1, 1, 5, 0);
    let flush_cqe = Cqe::new(0, 2, 1, 6, 0);
    let items = [
        // Elided: data header and payload, no capsule.
        SendWork::Response(Completion { tag: 1, cqe: read_cqe, data_len: 512 }),
        // Data-less response: capsule only.
        SendWork::Response(Completion { tag: 3, cqe: flush_cqe, data_len: 0 }),
    ];
    for item in &items {
        assert!(g.fits(ARENA_PER_ITEM, IOVS_PER_ITEM));
        stage_send_work(&mut g, &queue, &[], item, false, false);
    }

    let mut expect = Vec::new();
    encode_c2h_data(&mut expect, 5, 0, 512, true, true, false, false);
    expect.extend_from_slice(&payload);
    encode_capsule_resp(&mut expect, &flush_cqe, false);

    assert_eq!(gather(&g, &queue), expect);
    // [data header][payload][capsule]: the capsule cannot merge across the
    // slot-payload entry.
    assert_eq!(g.iovs.len(), 3);
}

#[test]
fn release_class_splits_tag_release() {
    let read_cqe = Cqe::new(0, 1, 1, 5, 0);
    let flush_cqe = Cqe::new(0, 2, 1, 6, 0);
    // Payload-carrying: slot referenced by the operation.
    assert_eq!(
        release_class(&SendWork::Response(Completion { tag: 1, cqe: read_cqe, data_len: 4096 })),
        Staged::AtNotif(1),
    );
    // Capsule-only: arena bytes only.
    assert_eq!(
        release_class(&SendWork::Response(Completion { tag: 2, cqe: flush_cqe, data_len: 0 })),
        Staged::AtCqe(2),
    );
    // Solicitation: no tag to release at all.
    assert_eq!(
        release_class(&SendWork::R2t { tag: 3, cid: 9, offset: 0, length: 4096 }),
        Staged::NoRelease,
    );
}

#[test]
fn in_capsule_payload_lands_whatever_the_windows() {
    let data = pattern(4096, 3);
    for step in [4096usize, 1000, 1] {
        let mut q = NvmeTcpQueue::new(1, 4, 64 * 1024, false);
        let phase = next(handle_pdu(&mut q, capsule(rw_sqe(1, 7, 4096, false), 4096, false), true, None));
        let end = feed(&mut q, phase.unwrap(), &data, step);
        assert!(matches!(end, RecvPhase::Header));
        assert_eq!(q.nvme.slots.slot(0).state(), SlotState::Ready);
        assert_eq!(slot_bytes(&q, 0, 4096), data);
        assert!(q.take_traffic() && !q.take_traffic());
    }
}

#[test]
fn solicited_transfer_in_two_pdus() {
    let mut q = NvmeTcpQueue::new(1, 4, 256 * 1024, false);
    assert!(next(handle_pdu(&mut q, capsule(rw_sqe(1, 4, 131_072, true), 0, false), false, None)).is_none());
    assert!(matches!(
        q.send.try_next(),
        Some(SendWork::R2t { tag: 0, cid: 4, offset: 0, length: 131_072 })
    ));
    let data = pattern(131_072, 9);
    let p = next(handle_pdu(&mut q, h2c(4, 0, 0, 65_536, false), false, None)).unwrap();
    assert!(matches!(feed(&mut q, p, &data[..65_536], 50_000), RecvPhase::Header));
    assert_eq!(q.nvme.slots.slot(0).state(), SlotState::Receiving);
    let p = next(handle_pdu(&mut q, h2c(4, 0, 65_536, 65_536, true), false, None)).unwrap();
    assert!(matches!(feed(&mut q, p, &data[65_536..], 50_000), RecvPhase::Header));
    assert_eq!(q.nvme.slots.slot(0).state(), SlotState::Ready);
    assert_eq!(slot_bytes(&q, 0, 131_072), data);
}

#[test]
fn last_pdu_with_bytes_missing_terminates() {
    let mut q = NvmeTcpQueue::new(1, 4, 256 * 1024, false);
    next(handle_pdu(&mut q, capsule(rw_sqe(1, 4, 8192, true), 0, false), false, None));
    let p = next(handle_pdu(&mut q, h2c(4, 0, 0, 4096, true), false, None)).unwrap();
    let (_, r) = p.advance(&mut q, &[0u8; 4096]);
    assert!(matches!(
        r,
        Err(RecvEnd::Term(PduError { fes: FES_DATA_OUT_OF_RANGE, fei: 0 }))
    ));
}

#[test]
fn bogus_ttag_h2cdata_terminates() {
    let mut q = NvmeTcpQueue::new(1, 32, 64 * 1024, false);
    // Data for a tag nobody solicited, beyond the queue.
    let r = handle_pdu(&mut q, h2c(7, 9999, 0, 64, true), false, None);
    assert!(matches!(
        r,
        Err(RecvEnd::Term(PduError { fes: FES_INVALID_PDU_HDR, fei: 10 }))
    ));
    // And for a free slot.
    let r = handle_pdu(&mut q, h2c(7, 3, 0, 64, true), false, None);
    assert!(matches!(
        r,
        Err(RecvEnd::Term(PduError { fes: FES_DATA_OUT_OF_RANGE, fei: 0 }))
    ));
}

#[test]
fn wrong_offset_h2cdata_terminates() {
    let mut q = NvmeTcpQueue::new(1, 32, 256 * 1024, false);
    // Solicit a 128K transfer, and send data at a bogus offset.
    assert!(next(handle_pdu(&mut q, capsule(rw_sqe(1, 4, 131_072, true), 0, false), false, None)).is_none());
    let ttag = match q.send.try_next() {
        Some(SendWork::R2t { tag, .. }) => tag,
        _ => panic!("expected R2T"),
    };
    let r = handle_pdu(&mut q, h2c(4, ttag, 4096, 4096, false), false, None); // offset must be 0
    let end = match r {
        Err(end) => end,
        Ok(_) => panic!("accepted"),
    };
    assert!(matches!(
        end,
        RecvEnd::Term(PduError { fes: FES_DATA_OUT_OF_RANGE, fei: 0 })
    ));
    let reply = closing_reply(&end).unwrap();
    assert_eq!((reply[0], reply[8]), (3, 4));
}

#[test]
fn h2c_length_field_must_match_the_payload() {
    let mut q = NvmeTcpQueue::new(1, 32, 256 * 1024, false);
    next(handle_pdu(&mut q, capsule(rw_sqe(1, 4, 8192, true), 0, false), false, None));
    let pdu = DecodedPdu {
        kind: PduKind::H2CData { cid: 4, ttag: 0, offset: 0, length: 4096, last: false },
        data_len: 4000,
        ddgst: false,
    };
    assert!(matches!(
        handle_pdu(&mut q, pdu, false, None),
        Err(RecvEnd::Term(PduError { fes: FES_INVALID_PDU_HDR, fei: 16 }))
    ));
}

#[test]
fn ddgst_mismatch_fails_command_keeps_connection() {
    let mut q = NvmeTcpQueue::new(1, 32, 64 * 1024, false);
    // In-capsule write with a corrupted data digest.
    let payload = pattern(4096, 1);
    let mut stream = payload.clone();
    let bad_crc = crc32c(&payload) ^ 0xFFFF_FFFF;
    stream.extend_from_slice(&bad_crc.to_le_bytes());
    let p = next(handle_pdu(&mut q, capsule(rw_sqe(1, 5, 4096, false), 4096, true), true, None)).unwrap();
    assert!(matches!(feed(&mut q, p, &stream, 999), RecvPhase::Header), "connection stays up");
    match q.send.try_next() {
        Some(SendWork::Response(c)) => {
            assert_eq!(c.cqe.cid, 5);
            assert_eq!(c.cqe.status, SC_DATA_XFER_ERROR | SC_DNR, "data digest error status");
            assert_eq!(c.data_len, 0);
            q.nvme.slots.release_tag(c.tag);
        }
        _ => panic!("expected the failed command's response"),
    }
    // The same connection keeps serving: a clean write goes through.
    let data = pattern(4096, 9);
    let mut stream = data.clone();
    stream.extend_from_slice(&crc32c(&data).to_le_bytes());
    let p = next(handle_pdu(&mut q, capsule(rw_sqe(1, 6, 4096, false), 4096, true), true, None)).unwrap();
    let tag = match p {
        RecvPhase::Data(d) => d.tag,
        _ => panic!("payload expected"),
    };
    assert!(matches!(feed(&mut q, p, &stream, 1), RecvPhase::Header));
    assert_eq!(q.nvme.slots.slot(tag).state(), SlotState::Ready);
    assert_eq!(slot_bytes(&q, tag, 4096), data);
}

#[test]
fn oversized_transfers_terminate() {
    let mut q = NvmeTcpQueue::new(1, 4, 64 * 1024, false);
    let r = handle_pdu(&mut q, capsule(rw_sqe(1, 1, 0, false), 131_073, false), false, None);
    assert!(matches!(r, Err(RecvEnd::Term(PduError { fes: FES_DATA_LIMIT_EXCEEDED, fei: 0 }))));
    let r = handle_pdu(&mut q, capsule(rw_sqe(1, 1, 131_073, true), 0, false), false, None);
    assert!(matches!(r, Err(RecvEnd::Term(PduError { fes: FES_DATA_LIMIT_EXCEEDED, fei: 0 }))));
}

#[test]
fn unexpected_and_terminating_pdus() {
    let mut q = NvmeTcpQueue::new(1, 4, 64 * 1024, false);
    let pdu = DecodedPdu { kind: PduKind::Unexpected, data_len: 0, ddgst: false };
    assert!(matches!(
        handle_pdu(&mut q, pdu, false, None),
        Err(RecvEnd::Term(PduError { fes: FES_PDU_SEQ_ERR, fei: 0 }))
    ));
    let pdu = DecodedPdu { kind: PduKind::H2CTerm { fes: 2, fei: 8 }, data_len: 0, ddgst: false };
    let end = handle_pdu(&mut q, pdu, false, None).err().unwrap();
    assert!(matches!(end, RecvEnd::HostTerm { fes: 2, fei: 8 }));
    assert!(closing_reply(&end).is_none());
    assert!(closing_reply(&RecvEnd::Closed).is_none());
}

#[test]
fn commands_wait_for_a_tag() {
    let mut q = NvmeTcpQueue::new(1, 1, 64 * 1024, false);
    let flush = rw_sqe(0, 1, 0, false);
    assert!(next(handle_pdu(&mut q, capsule(flush, 0, false), false, None)).is_none());
    assert!(matches!(handle_pdu(&mut q, capsule(flush, 0, false), false, None), Ok(Routed::NoTag)));
    assert!(q.nvme.slots.poll_command(0).is_some());
    q.complete(0, Cqe::new(0, 1, 1, 1, 0), 0);
    q.nvme.slots.release_tag(0);
    assert!(matches!(handle_pdu(&mut q, capsule(flush, 0, false), false, None), Ok(Routed::Next(None))));
}

#[test]
fn ring_payload_is_retained_only_where_it_fits() {
    let mut q = NvmeTcpQueue::new(1, 4, 64 * 1024, false);
    let fits = RingWindow { bid: 6, off: 100, cap: 4196 };
    let p = next(handle_pdu(&mut q, capsule(rw_sqe(1, 1, 0, false), 4096, false), false, Some(fits)));
    match p {
        Some(RecvPhase::Data(d)) => {
            assert!(d.retained);
            let data = q.nvme.slots.slot(d.tag).data();
            assert_eq!((data.segs()[0].off, data.len()), (100, 4096));
            assert_eq!(q.nvme.slots.pool().free_pages(), 16, "nothing leased");
        }
        _ => panic!("payload expected"),
    }
    let tag = match &p {
        Some(RecvPhase::Data(d)) => d.tag,
        _ => panic!("payload expected"),
    };
    let end = feed(&mut q, p.unwrap(), &pattern(4096, 1), 512);
    assert!(matches!(end, RecvPhase::Header));
    // The sub-buffer goes back once the command is done with it.
    assert!(q.nvme.slots.poll_command(tag).is_some());
    q.nvme.slots.begin_respond(tag);
    assert!(q.nvme.slots.take_ring_done().is_empty());
    q.nvme.slots.release_tag(tag);
    assert_eq!(q.nvme.slots.take_ring_done(), vec![6]);
    let short = RingWindow { bid: 6, off: 101, cap: 4196 };
    let p = next(handle_pdu(&mut q, capsule(rw_sqe(1, 2, 0, false), 4096, false), false, Some(short)));
    assert!(matches!(p, Some(RecvPhase::Data(DataPhase { retained: false, .. }))));
    assert_eq!(q.nvme.slots.pool().free_pages(), 15);
}

#[test]
fn large_tails_go_straight_to_the_slot() {
    let mut q = NvmeTcpQueue::new(1, 4, 256 * 1024, false);
    next(handle_pdu(&mut q, capsule(rw_sqe(1, 4, 65_536, true), 0, false), false, None));
    let mut pdu = h2c(4, 0, 0, 65_536, true);
    pdu.ddgst = true;
    let p = next(handle_pdu(&mut q, pdu, true, None)).unwrap();
    let data = pattern(65_536, 5);
    let (taken, r) = p.advance(&mut q, &data[..1000]);
    assert_eq!(taken, 1000);
    let p = r.ok().unwrap();
    let parts = direct_tail(&q, &p, false).unwrap();
    assert_eq!(parts.iter().map(|s| s.len).sum::<usize>(), 64_536);
    assert!(direct_tail(&q, &p, true).is_none(), "a ring owns the socket");
    // The kernel puts the rest where it was told to.
    let mut at = 1000;
    for s in &parts {
        q.nvme.slots.pool.mem[s.off..s.off + s.len].copy_from_slice(&data[at..at + s.len]);
        at += s.len;
    }
    let d = match p {
        RecvPhase::Data(d) => d,
        _ => panic!("payload expected"),
    };
    assert!(matches!(tail_landed(&mut q, d, 64_535), Err(RecvEnd::Closed)));
    let p = tail_landed(&mut q, d, 64_536).ok().unwrap();
    assert!(matches!(p, RecvPhase::Ddgst(_)));
    assert!(matches!(feed(&mut q, p, &crc32c(&data).to_le_bytes(), 4), RecvPhase::Header));
    assert_eq!(q.nvme.slots.slot(0).state(), SlotState::Ready);
    assert_eq!(slot_bytes(&q, 0, 65_536), data);
}

#[test]
fn small_tails_are_copied() {
    let mut q = NvmeTcpQueue::new(1, 4, 256 * 1024, false);
    next(handle_pdu(&mut q, capsule(rw_sqe(1, 4, 65_536, true), 0, false), false, None));
    let p = next(handle_pdu(&mut q, h2c(4, 0, 0, 65_536, true), false, None)).unwrap();
    let cut = 65_536 - H2C_DIRECT_MIN as usize;
    let (_, r) = p.advance(&mut q, &vec![0u8; cut]);
    let at_gate = r.ok().unwrap();
    assert!(direct_tail(&q, &at_gate, false).is_some());
    let (_, r) = at_gate.advance(&mut q, &[0u8]);
    assert!(direct_tail(&q, &r.ok().unwrap(), false).is_none());
    // In-capsule payloads never take the direct path.
    let p = next(handle_pdu(&mut q, capsule(rw_sqe(1, 5, 0, false), 65_536, false), false, None)).unwrap();
    assert!(matches!(p, RecvPhase::Data(DataPhase { kind: PayloadKind::InCapsule, .. })));
    assert!(direct_tail(&q, &p, false).is_none());
}

#[test]
fn solicitation_needs_a_host_resident_write() {
    assert!(needs_r2t(&rw_sqe(1, 1, 4096, true)));
    assert!(!needs_r2t(&rw_sqe(2, 1, 4096, true)), "a read");
    assert!(!needs_r2t(&rw_sqe(1, 1, 4096, false)), "in-capsule");
    assert!(!needs_r2t(&rw_sqe(1, 1, 0, true)), "no data");
}

#[test]
fn mid_r2t_disconnect_recovers() {
    // Solicit 128K, deliver only 64K, and the connection goes: nothing
    // executes, so the queue can be freed.
    let mut q = NvmeTcpQueue::new(1, 32, 256 * 1024, false);
    next(handle_pdu(&mut q, capsule(rw_sqe(1, 6, 131_072, true), 0, false), false, None));
    let p = next(handle_pdu(&mut q, h2c(6, 0, 0, 65_536, false), false, None)).unwrap();
    feed(&mut q, p, &pattern(65_536, 3), 16_384);
    q.nvme.slots.pool.set_buf_index(9);
    q.close_send();
    assert_eq!(teardown(&mut q, true), Teardown::Free { buf_index: Some(9) });
}

#[test]
fn busy_queue_is_leaked() {
    let mut q = NvmeTcpQueue::new(0, 2, 64 * 1024, false);
    let tag = first_command(&mut q, rw_sqe(0x7F, 1, 0, false));
    assert_eq!(teardown(&mut q, false), Teardown::Leak);
    assert!(q.nvme.slots.poll_command(tag).is_some());
    assert_eq!(teardown(&mut q, true), Teardown::Leak);
    q.complete(tag, Cqe::new(0, 1, 0, 1, 0), 0);
    assert_eq!(teardown(&mut q, true), Teardown::Free { buf_index: None });
}

#[test]
fn queues_are_sized_by_role() {
    let s = queue_sizes(0, 32, 8 << 20, 1 << 20, 8192);
    assert_eq!((s.pool_bytes, s.recv_buf_bytes, s.arena_bytes), (32 * 8192, 0, 4096));
    let s = queue_sizes(3, 128, 8 << 20, 1 << 20, 8192);
    assert_eq!((s.pool_bytes, s.recv_buf_bytes, s.arena_bytes), (8 << 20, 1 << 20, 16_384));
}

#[test]
fn quiesce_waits_ten_seconds() {
    let mut waited = 0;
    let mut steps = 0;
    while let Some(next) = quiesce_step(false, waited) {
        waited = next;
        steps += 1;
    }
    assert_eq!((waited, steps), (10_000, 5000));
    assert_eq!(quiesce_step(true, 0), None);
}

#[test]
fn kato_expiry_closes_connection() {
    // KATO = 1 s and silence: polled every 500 ms, gone at 2.5 s.
    let mut k = KeepAlive { last_ms: 0 };
    assert_eq!(KeepAlive::period(1000), Some(500));
    let mut now = 0;
    while now < 2500 {
        assert_eq!(k.look(now, 1000, false), None);
        now += 500;
    }
    assert_eq!(k.look(now, 1000, false), Some(2500));
}

#[test]
fn idle_io_queue_does_not_keep_controller_alive() {
    // One command, and silence on both queues.
    let mut k = KeepAlive { last_ms: 0 };
    assert_eq!(k.look(500, 1000, true), None);
    assert_eq!(k.look(2500, 1000, false), None);
    assert_eq!(k.look(3000, 1000, false), Some(2500));
    // Off.
    assert_eq!(KeepAlive::period(0), None);
    assert_eq!(k.look(1_000_000, 0, false), None);
}

#[test]
fn peers_are_named() {
    assert_eq!(peer_name(Some("10.0.0.7"), false, 4420), "10.0.0.7:4420");
    assert_eq!(peer_name(Some("::1"), true, 80), "[::1]:80");
    assert_eq!(peer_name(None, false, 0), "?");
    assert_eq!(controller_gone(0, 7), Some(7));
    assert_eq!(controller_gone(0, 0), None);
    assert_eq!(controller_gone(1, 7), None);
}

#[test]
fn registered_pool_gives_a_send_arena() {
    let mut q = NvmeTcpQueue::new(1, 128, 64 * 1024, false);
    assert!(!register_pool(&mut q, None));
    assert_eq!(pool_arena(&q), None);
    // Two gathers of 128 items of 64 bytes: four pages.
    assert!(register_pool(&mut q, Some(9)));
    assert_eq!(q.nvme.slots.pool().send_arena(), Some((0, 16384)));
    assert_eq!(pool_arena(&q), Some((0, 9)));
    assert_eq!(q.nvme.slots.pool().free_pages(), 12);
    // Too small a pool is still registered, without an arena.
    let mut small = NvmeTcpQueue::new(1, 128, 8192, false);
    assert!(!register_pool(&mut small, Some(9)));
    assert_eq!((pool_arena(&small), small.nvme.slots.pool().buf_index()), (None, Some(9)));
}

#[test]
fn teardown_waits_for_commands_and_for_the_send_path() {
    let start = Stage::Drain { waited_ms: 0 };
    assert_eq!(teardown_step(start, 1, false), (Stage::Drain { waited_ms: 2 }, Next::Sleep));
    assert_eq!(teardown_step(start, 0, false), (Stage::Join { waited_ms: 0 }, Next::EndSend));
    let spent = Stage::Drain { waited_ms: 10_000 };
    assert_eq!(teardown_step(spent, 1, false), (Stage::Join { waited_ms: 0 }, Next::EndSend));
    let join = Stage::Join { waited_ms: 9_998 };
    assert_eq!(teardown_step(join, 1, false), (Stage::Join { waited_ms: 10_000 }, Next::Sleep));
    assert_eq!(teardown_step(join, 1, true), (Stage::Over, Next::Decide));
    let mut stage = start;
    let mut steps = 0;
    while stage != Stage::Over {
        stage = teardown_step(stage, 1, false).0;
        steps += 1;
    }
    assert_eq!(steps, 10_002);
}

/// A command capsule's header.
fn capsule_bytes(sqe: &Sqe, hdgst: bool, data_len: u32, ddgst: bool) -> Vec<u8> {
    let full = if hdgst { 76 } else { 72 };
    let tail = if data_len == 0 {
        0
    } else if ddgst {
        data_len + 4
    } else {
        data_len
    };
    let flags = u8::from(hdgst) + if ddgst && data_len > 0 { 2 } else { 0 };
    let pdo = if data_len == 0 { 0 } else { full };
    let mut b = vec![4, flags, 72, pdo];
    b.extend_from_slice(&(u32::from(full) + tail).to_le_bytes());
    b.extend_from_slice(&sqe.bytes);
    if hdgst {
        let sum = crc32c(&b);
        b.extend_from_slice(&sum.to_le_bytes());
    }
    b
}

/// A host-to-controller data header.
fn h2c_bytes(cid: u16, ttag: u16, offset: u32, length: u32, last: bool) -> Vec<u8> {
    let mut b = vec![6, if last { 4 } else { 0 }, 24, 24];
    b.extend_from_slice(&(24 + length).to_le_bytes());
    b.extend_from_slice(&cid.to_le_bytes());
    b.extend_from_slice(&ttag.to_le_bytes());
    b.extend_from_slice(&offset.to_le_bytes());
    b.extend_from_slice(&length.to_le_bytes());
    b.extend_from_slice(&[0; 4]);
    b
}

fn term_of(r: Result<Pause, RecvEnd>) -> PduError {
    match r {
        Err(RecvEnd::Term(e)) => e,
        other => panic!("{other:?}"),
    }
}

#[test]
fn unknown_pdu_type_terminates() {
    let mut q = NvmeTcpQueue::new(0, 32, 64 * 1024, false);
    let mut rx = Receiver::new(false);
    let (taken, r) = rx.receive(&mut q, &[0xEE, 0, 24, 0, 24, 0, 0, 0], false, None);
    assert_eq!(taken, 8);
    let e = term_of(r);
    assert_eq!(e.fes, FES_INVALID_PDU_HDR);
    let reply = closing_reply(&RecvEnd::Term(e)).unwrap();
    assert_eq!((reply[0], reply[8], reply.len()), (3, 1, 24));
    // A fresh connection is served.
    let mut rx = Receiver::new(false);
    let (_, r) = rx.receive(&mut q, &capsule_bytes(&rw_sqe(2, 3, 0, false), false, 0, false), false, None);
    assert_eq!(r.ok(), Some(Pause::Drained));
    assert_eq!(q.nvme.slots.free_tags(), 31);
}

#[test]
fn oversized_plen_terminates() {
    // A command capsule that claims 64 MiB, over the protocol's 32 MiB.
    let mut hdr = [0u8; 8];
    hdr[0] = 4;
    hdr[2] = 72;
    hdr[4..8].copy_from_slice(&(64u32 << 20).to_le_bytes());
    let mut q = NvmeTcpQueue::new(0, 32, 64 * 1024, false);
    let (_, r) = Receiver::new(false).receive(&mut q, &hdr, false, None);
    assert_eq!(term_of(r).fes, FES_INVALID_PDU_HDR);
}

#[test]
fn garbage_after_handshake_terminates() {
    let mut state = 0x1234_5678_u32;
    let garbage: Vec<u8> = (0..512)
        .map(|_| {
            state = state.wrapping_mul(1664525).wrapping_add(1013904223);
            (state >> 24) as u8
        })
        .collect();
    let mut q = NvmeTcpQueue::new(0, 32, 64 * 1024, false);
    let (_, r) = Receiver::new(false).receive(&mut q, &garbage, false, None);
    assert!(r.is_err());
    assert_eq!(q.nvme.slots.free_tags(), 32, "nothing was claimed");
}

#[test]
fn header_faults() {
    let good = capsule_bytes(&rw_sqe(1, 3, 512, false), true, 512, true);
    let judge = |b: &[u8], hdgst: bool| match PduDecoder::new(hdgst).feed(b) {
        (n, Ok(Some(d))) => Ok((n, d.data_len, d.ddgst)),
        (_, Ok(None)) => panic!("more expected"),
        (_, Err(e)) => Err((e.fes, e.fei)),
    };
    assert_eq!(judge(&good, true), Ok((76, 512, true)));
    // A digest that was not negotiated, or is missing.
    assert_eq!(judge(&good, false), Err((FES_INVALID_PDU_HDR, 1)));
    let mut b = good.clone();
    b[2] = 24;
    assert_eq!(judge(&b, true), Err((FES_INVALID_PDU_HDR, 2)));
    let mut b = good.clone();
    b[3] = 72;
    assert_eq!(judge(&b, true), Err((FES_INVALID_PDU_HDR, 3)));
    let mut b = good.clone();
    b[4..8].copy_from_slice(&79u32.to_le_bytes());
    assert_eq!(judge(&b, true), Err((FES_INVALID_PDU_HDR, 4)));
    let mut b = good.clone();
    b[40] ^= 1;
    let got = u32::from_le_bytes([b[72], b[73], b[74], b[75]]);
    assert_eq!(judge(&b, true), Err((FES_HDR_DIGEST, got)));
    // A host's termination carries its reason.
    let mut t = vec![2, 0, 24, 0, 24, 0, 0, 0, 5, 0, 9, 0, 0, 0];
    t.resize(24, 0);
    match PduDecoder::new(true).feed(&t) {
        (24, Ok(Some(d))) => assert!(matches!(d.kind, PduKind::H2CTerm { fes: 5, fei: 9 })),
        _ => panic!("a whole header"),
    }
}

#[test]
fn a_stream_is_received_whatever_its_windows() {
    let payload = pattern(2048, 5);
    let mut stream = capsule_bytes(&rw_sqe(1, 7, 2048, false), true, 2048, true);
    stream.extend_from_slice(&payload);
    stream.extend_from_slice(&crc32c(&payload).to_le_bytes());
    stream.extend_from_slice(&capsule_bytes(&rw_sqe(2, 8, 0, false), true, 0, false));
    for step in [1, 3, 8, 76, 1000, stream.len()] {
        let mut q = NvmeTcpQueue::new(1, 4, 64 * 1024, false);
        let mut rx = Receiver::new(true);
        for window in stream.chunks(step) {
            let (taken, r) = rx.receive(&mut q, window, true, None);
            assert_eq!((taken, r.ok()), (window.len(), Some(Pause::Drained)));
        }
        assert!(matches!(rx.phase, RecvPhase::Header));
        let cmd = q.nvme.slots.poll_command(0).expect("the write is ready");
        assert_eq!(cmd.cid(), 7);
        assert_eq!(slot_bytes(&q, 0, 2048), payload);
        assert_eq!(q.nvme.slots.poll_command(1).map(|c| c.cid()), Some(8));
    }
}

#[test]
fn a_solicited_transfer_arrives_as_a_stream() {
    let mut q = NvmeTcpQueue::new(1, 4, 64 * 1024, false);
    let mut rx = Receiver::new(false);
    let (_, r) = rx.receive(&mut q, &capsule_bytes(&rw_sqe(1, 4, 8192, true), false, 0, false), false, None);
    assert_eq!(r.ok(), Some(Pause::Drained));
    assert!(matches!(q.send.try_next(), Some(SendWork::R2t { tag: 0, cid: 4, offset: 0, length: 8192 })));
    let payload = pattern(8192, 9);
    let mut stream = h2c_bytes(4, 0, 0, 4096, false);
    stream.extend_from_slice(&payload[..4096]);
    stream.extend_from_slice(&h2c_bytes(4, 0, 4096, 4096, true));
    stream.extend_from_slice(&payload[4096..]);
    for window in stream.chunks(777) {
        let (_, r) = rx.receive(&mut q, window, false, None);
        assert_eq!(r.ok(), Some(Pause::Drained));
    }
    assert!(q.nvme.slots.poll_command(0).is_some());
    assert_eq!(slot_bytes(&q, 0, 8192), payload);
}

#[test]
fn a_command_without_a_tag_is_held() {
    let mut q = NvmeTcpQueue::new(1, 1, 64 * 1024, false);
    let mut rx = Receiver::new(false);
    let one = capsule_bytes(&rw_sqe(2, 1, 0, false), false, 0, false);
    let two = capsule_bytes(&rw_sqe(2, 2, 0, false), false, 0, false);
    let stream = [one.clone(), two, one].concat();
    let (taken, r) = rx.receive(&mut q, &stream, false, None);
    assert_eq!((taken, r.ok()), (144, Some(Pause::NoTag)));
    assert_eq!(q.nvme.slots.poll_command(0).map(|c| c.cid()), Some(1));
    q.nvme.slots.begin_respond(0);
    q.nvme.slots.release_tag(0);
    let (taken, r) = rx.receive(&mut q, &stream[144..], false, None);
    assert_eq!((taken, r.ok()), (72, Some(Pause::NoTag)));
    assert_eq!(q.nvme.slots.poll_command(0).map(|c| c.cid()), Some(2));
}

#[test]
fn digests_are_negotiated() {
    let mut req = vec![0u8; 128];
    req[2] = 128;
    req[4] = 128;
    req[11] = 3;
    let (reply, hdgst, ddgst) = answer_ic(&req, true, true, 1 << 20).unwrap();
    assert_eq!((hdgst, ddgst), (true, true));
    assert_eq!(reply.len(), 128);
    assert_eq!(&reply[..16], &[1, 0, 128, 0, 128, 0, 0, 0, 0, 0, 0, 3, 0, 0, 16, 0]);
    let (reply, hdgst, ddgst) = answer_ic(&req, false, true, 0).unwrap();
    assert_eq!((hdgst, ddgst, reply[11]), (false, true, 2));
    req[11] = 0;
    assert_eq!(answer_ic(&req, true, true, 0).map(|r| (r.1, r.2)), Ok((false, false)));
    req[8] = 1;
    assert_eq!(answer_ic(&req, true, true, 0).err(), Some(PduError { fes: FES_INVALID_PDU_HDR, fei: 8 }));
    req[4] = 0;
    assert_eq!(answer_ic(&req, true, true, 0).err(), Some(PduError { fes: FES_INVALID_PDU_HDR, fei: 4 }));
    req[2] = 24;
    assert_eq!(answer_ic(&req, true, true, 0).err(), Some(PduError { fes: FES_INVALID_PDU_HDR, fei: 2 }));
    req[0] = 4;
    assert_eq!(answer_ic(&req, true, true, 0).err(), Some(PduError { fes: FES_PDU_SEQ_ERR, fei: 0 }));
}

#[test]
fn pending_work_is_staged_in_order() {
    let mut q = NvmeTcpQueue::new(1, 4, 64 * 1024, true);
    for tag in 0..3u16 {
        assert_eq!(q.nvme.slots.claim_tag(), Some(tag));
        q.submit(tag, rw_sqe(2, tag, 0, false));
        assert!(q.nvme.slots.poll_command(tag).is_some());
    }
    assert!(q.nvme.slots.try_lease(0, 512));
    write_at(&mut q, 0, &pattern(512, 3));
    q.complete(0, Cqe::new(0, 1, 1, 0, 0), 512);
    q.complete(1, Cqe::new(0, 2, 1, 1, 5), 0);
    q.complete(2, Cqe::new(0, 3, 1, 2, 0), 0);
    // Room for two items.
    let mut g = GatherBatch::new(2 * ARENA_PER_ITEM, 2 * IOVS_PER_ITEM);
    let staged = stage_pending(&mut g, &mut q, &[], false, false);
    assert_eq!(staged[0], Staged::AtNotif(0));
    assert_eq!(staged[1], Staged::AtCqe(1));
    let mut want = Vec::new();
    encode_c2h_data(&mut want, 0, 0, 512, true, true, false, false);
    want.extend_from_slice(&pattern(512, 3));
    encode_capsule_resp(&mut want, &Cqe::new(0, 2, 1, 1, 5), false);
    if staged.len() == 3 {
        encode_capsule_resp(&mut want, &Cqe::new(0, 3, 1, 2, 0), false);
    }
    assert_eq!(gather(&g, &q), want);
    assert_eq!(q.send.work.len(), 3 - staged.len());
    // The rest follows in the next batch.
    let mut g = GatherBatch::new(8 * ARENA_PER_ITEM, 8 * IOVS_PER_ITEM);
    assert_eq!(stage_pending(&mut g, &mut q, &[], false, false).len(), 3 - staged.len());
    assert!(q.send.work.is_empty());
}
