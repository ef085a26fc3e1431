//! NVMe/TCP protocol data units: what arrives, decoded, and the bytes of what
//! is sent.

use vstd::prelude::*;

use crate::nvme::{Cqe, Sqe};
use crate::wire::{le16, le32};

verus! {

/// PDU types.
pub const TYPE_IC_REQ: u8 = 0x00;
pub const TYPE_IC_RESP: u8 = 0x01;
pub const TYPE_H2C_TERM: u8 = 0x02;
pub const TYPE_C2H_TERM: u8 = 0x03;
pub const TYPE_CAPSULE_CMD: u8 = 0x04;
pub const TYPE_CAPSULE_RESP: u8 = 0x05;
pub const TYPE_H2C_DATA: u8 = 0x06;
pub const TYPE_C2H_DATA: u8 = 0x07;
pub const TYPE_R2T: u8 = 0x09;

/// Header flags.
pub const FLAG_HDGST: u8 = 1;
pub const FLAG_DDGST: u8 = 2;
pub const FLAG_LAST: u8 = 4;
pub const FLAG_SUCCESS: u8 = 8;

/// Fatal error statuses.
pub const FES_INVALID_PDU_HDR: u16 = 1;
pub const FES_PDU_SEQ_ERR: u16 = 2;
pub const FES_HDR_DIGEST: u16 = 3;
pub const FES_DATA_OUT_OF_RANGE: u16 = 4;
pub const FES_DATA_LIMIT_EXCEEDED: u16 = 5;

/// Longest PDU the protocol allows.
pub const PLEN_MAX: u32 = 0x200_0000;

/// Length of what every header starts with.
pub const COMMON_LEN: usize = 8;

/// Length of every header this side sends, without its digest.
pub const HEADER_LEN: u32 = 24;
/// Length of a digest.
pub const DIGEST_LEN: u32 = 4;

/// A protocol violation: fatal error status and field-error information.
#[derive(Debug, Clone, Copy, PartialEq, Eq, Structural)]
pub struct PduError {
    pub fes: u16,
    pub fei: u32,
}

/// A decoded PDU header.
#[derive(Debug, Clone, Copy)]
pub enum PduKind {
    CapsuleCmd(Sqe),
    H2CData { cid: u16, ttag: u16, offset: u32, length: u32, last: bool },
    H2CTerm { fes: u16, fei: u32 },
    /// Anything a host may not send on an established queue.
    Unexpected,
}

/// A decoded header and what follows it on the stream.
#[derive(Debug, Clone, Copy)]
pub struct DecodedPdu {
    pub kind: PduKind,
    /// Payload bytes that follow.
    pub data_len: u32,
    /// A data digest follows the payload.
    pub ddgst: bool,
}

/// Header length of a PDU type, without its digest; `None` for a type that does
/// not exist.
pub open spec fn kind_len(kind: u8) -> Option<int> {
    if kind == TYPE_IC_REQ || kind == TYPE_IC_RESP {
        Some(128)
    } else if kind == TYPE_CAPSULE_CMD {
        Some(72)
    } else if kind == TYPE_H2C_TERM || kind == TYPE_C2H_TERM || kind == TYPE_CAPSULE_RESP || kind
        == TYPE_H2C_DATA || kind == TYPE_C2H_DATA || kind == TYPE_R2T {
        Some(24)
    } else {
        None
    }
}

/// A PDU that ends the connection: it carries no digests.
pub open spec fn is_term(kind: u8) -> bool {
    kind == TYPE_H2C_TERM || kind == TYPE_C2H_TERM
}

/// The header ends in a digest: one was negotiated, and the type has one.
pub open spec fn has_hdgst(kind: u8, hdgst: bool) -> bool {
    hdgst && !is_term(kind) && kind != TYPE_IC_REQ && kind != TYPE_IC_RESP
}

/// Header length with its digest.
pub open spec fn full_len(kind: u8, hdgst: bool) -> int {
    kind_len(kind)->0 + digest_len(has_hdgst(kind, hdgst))
}

/// The header says that a digest follows the payload.
pub open spec fn says_ddgst(b: Seq<u8>) -> bool {
    (b[1] / 2) % 2 == 1 && !is_term(b[0])
}

/// Bytes that follow the header.
pub open spec fn tail_len(b: Seq<u8>, hdgst: bool) -> int {
    crate::wire::le32_at(b, 4) - full_len(b[0], hdgst)
}

/// What is wrong with the first eight bytes of a header: the field at fault.
pub open spec fn common_fault(b: Seq<u8>, hdgst: bool) -> Option<PduError> {
    if kind_len(b[0]) is None {
        Some(PduError { fes: FES_INVALID_PDU_HDR, fei: 0 })
    } else if (b[1] % 2 == 1) != has_hdgst(b[0], hdgst) {
        Some(PduError { fes: FES_INVALID_PDU_HDR, fei: 1 })
    } else if b[2] != kind_len(b[0])->0 {
        Some(PduError { fes: FES_INVALID_PDU_HDR, fei: 2 })
    } else if crate::wire::le32_at(b, 4) > PLEN_MAX || tail_len(b, hdgst) < 0 || (says_ddgst(b)
        && 0 < tail_len(b, hdgst) < DIGEST_LEN) {
        Some(PduError { fes: FES_INVALID_PDU_HDR, fei: 4 })
    } else if tail_len(b, hdgst) > 0 && !is_term(b[0]) && b[3] != full_len(b[0], hdgst) {
        Some(PduError { fes: FES_INVALID_PDU_HDR, fei: 3 })
    } else {
        None
    }
}

/// The received header digest.
pub open spec fn got_hdgst(b: Seq<u8>) -> int {
    crate::wire::le32_at(b, kind_len(b[0])->0)
}

/// The header digest does not match.
pub open spec fn digest_fault(b: Seq<u8>, hdgst: bool) -> bool {
    has_hdgst(b[0], hdgst) && got_hdgst(b) != crate::digest::crc_of(b.take(kind_len(b[0])->0))
}

/// What a whole header says.
pub open spec fn is_decoded(d: DecodedPdu, b: Seq<u8>, hdgst: bool) -> bool {
    &&& d.ddgst == says_ddgst(b)
    &&& d.data_len == tail_len(b, hdgst) - (if says_ddgst(b) && tail_len(b, hdgst) > 0 {
        DIGEST_LEN as int
    } else {
        0
    })
    &&& if b[0] == TYPE_CAPSULE_CMD {
        d.kind matches PduKind::CapsuleCmd(sqe) && sqe.bytes@ == b.subrange(8, 72)
    } else if b[0] == TYPE_H2C_DATA {
        &&& d.kind matches PduKind::H2CData { cid, ttag, offset, length, last }
        &&& cid == crate::wire::le16_at(b, 8)
        &&& ttag == crate::wire::le16_at(b, 10)
        &&& offset == crate::wire::le32_at(b, 12)
        &&& length == crate::wire::le32_at(b, 16)
        &&& last == ((b[1] / 4) % 2 == 1)
    } else if is_term(b[0]) {
        &&& d.kind matches PduKind::H2CTerm { fes, fei }
        &&& fes == crate::wire::le16_at(b, 8)
        &&& fei == crate::wire::le32_at(b, 10)
    } else {
        d.kind is Unexpected
    }
}

/// How many of the bytes `b` belong to the header they start with: all of them
/// while it is not whole, only the first eight where those are at fault.
pub open spec fn header_part(b: Seq<u8>, hdgst: bool) -> int {
    if b.len() < COMMON_LEN {
        b.len() as int
    } else if common_fault(b, hdgst) is Some {
        COMMON_LEN as int
    } else if b.len() < full_len(b[0], hdgst) {
        b.len() as int
    } else {
        full_len(b[0], hdgst)
    }
}

/// `b` is the beginning of a header, and not the whole of it.
pub open spec fn is_partial(b: Seq<u8>, hdgst: bool) -> bool {
    b.len() < COMMON_LEN || (common_fault(b, hdgst) is None && b.len() < full_len(b[0], hdgst))
}

/// `r` is what comes of the header bytes `b`: nothing yet, a violation, or a
/// decoded header.
pub open spec fn is_judged(b: Seq<u8>, hdgst: bool, r: Result<Option<DecodedPdu>, PduError>) -> bool {
    if is_partial(b, hdgst) {
        r == Ok::<Option<DecodedPdu>, PduError>(None)
    } else if common_fault(b, hdgst) is Some {
        r == Err::<Option<DecodedPdu>, PduError>(common_fault(b, hdgst)->0)
    } else if digest_fault(b, hdgst) {
        r == Err::<Option<DecodedPdu>, PduError>(
            PduError { fes: FES_HDR_DIGEST, fei: got_hdgst(b) as u32 },
        )
    } else {
        r matches Ok(Some(d)) && is_decoded(d, b, hdgst)
    }
}

/// Assembles headers from a stream.
pub struct PduDecoder {
    /// Header digests were negotiated.
    pub hdgst: bool,
    /// The header bytes so far.
    pub buf: Vec<u8>,
}

fn header_len(kind: u8) -> (n: Option<usize>)
    ensures
        match kind_len(kind) {
            Some(k) => n == Some(k as usize),
            None => n is None,
        },
{
    if kind == TYPE_IC_REQ || kind == TYPE_IC_RESP {
        Some(128)
    } else if kind == TYPE_CAPSULE_CMD {
        Some(72)
    } else if kind == TYPE_H2C_TERM || kind == TYPE_C2H_TERM || kind == TYPE_CAPSULE_RESP || kind
        == TYPE_H2C_DATA || kind == TYPE_C2H_DATA || kind == TYPE_R2T {
        Some(24)
    } else {
        None
    }
}

fn sealed_kind(kind: u8, hdgst: bool) -> (b: bool)
    ensures
        b == has_hdgst(kind, hdgst),
{
    hdgst && kind != TYPE_H2C_TERM && kind != TYPE_C2H_TERM && kind != TYPE_IC_REQ && kind
        != TYPE_IC_RESP
}

/// Check the first eight bytes of a header: its full length, or what is wrong.
fn check_common(b: &[u8], hdgst: bool) -> (r: Result<usize, PduError>)
    requires
        b.len() >= COMMON_LEN,
    ensures
        match common_fault(b@, hdgst) {
            Some(e) => r == Err::<usize, PduError>(e),
            None => r == Ok::<usize, PduError>(full_len(b@[0], hdgst) as usize),
        },
{
    let kind: u8 = b[0];
    let len: usize = match header_len(kind) {
        Some(n) => n,
        None => return Err(PduError { fes: FES_INVALID_PDU_HDR, fei: 0 }),
    };
    let digest: bool = sealed_kind(kind, hdgst);
    if (b[1] % 2 == 1) != digest {
        return Err(PduError { fes: FES_INVALID_PDU_HDR, fei: 1 });
    }
    if b[2] as usize != len {
        return Err(PduError { fes: FES_INVALID_PDU_HDR, fei: 2 });
    }
    let full: u32 = len as u32 + extra(digest);
    let term: bool = kind == TYPE_H2C_TERM || kind == TYPE_C2H_TERM;
    let ddgst: bool = (b[1] / 2) % 2 == 1 && !term;
    let plen: u32 = le32(b, 4);
    if plen > PLEN_MAX || plen < full || (ddgst && plen > full && plen - full < DIGEST_LEN) {
        return Err(PduError { fes: FES_INVALID_PDU_HDR, fei: 4 });
    }
    if plen > full && !term && b[3] as u32 != full {
        return Err(PduError { fes: FES_INVALID_PDU_HDR, fei: 3 });
    }
    Ok(full as usize)
}

/// Decode a whole header that [`check_common`] passed.
fn decode(b: &[u8], hdgst: bool) -> (r: Result<DecodedPdu, PduError>)
    requires
        b.len() >= COMMON_LEN,
        common_fault(b@, hdgst) is None,
        b.len() == full_len(b@[0], hdgst),
    ensures
        is_judged(
            b@,
            hdgst,
            match r {
                Ok(d) => Ok(Some(d)),
                Err(e) => Err(e),
            },
        ),
{
    let kind: u8 = b[0];
    let digest: bool = sealed_kind(kind, hdgst);
    let full: usize = b.len();
    if digest {
        let len: usize = full - 4;
        let got: u32 = le32(b, len);
        let sum: u32 = crate::digest::crc32c(vstd::slice::slice_subrange(b, 0, len));
        assert(b@.subrange(0, len as int) =~= b@.take(len as int));
        if got != sum {
            return Err(PduError { fes: FES_HDR_DIGEST, fei: got });
        }
    }
    let term: bool = kind == TYPE_H2C_TERM || kind == TYPE_C2H_TERM;
    let ddgst: bool = (b[1] / 2) % 2 == 1 && !term;
    let tail: u32 = le32(b, 4) - full as u32;
    let data_len: u32 = if ddgst && tail > 0 {
        tail - DIGEST_LEN
    } else {
        tail
    };
    let decoded: PduKind = if kind == TYPE_CAPSULE_CMD {
        let body = vstd::slice::slice_subrange(b, 8, 72);
        let sqe = Sqe::from_bytes(body);
        assert(sqe.bytes@ =~= b@.subrange(8, 72));
        PduKind::CapsuleCmd(sqe)
    } else if kind == TYPE_H2C_DATA {
        PduKind::H2CData {
            cid: le16(b, 8),
            ttag: le16(b, 10),
            offset: le32(b, 12),
            length: le32(b, 16),
            last: (b[1] / 4) % 2 == 1,
        }
    } else if term {
        PduKind::H2CTerm { fes: le16(b, 8), fei: le32(b, 10) }
    } else {
        PduKind::Unexpected
    };
    Ok(DecodedPdu { kind: decoded, data_len, ddgst })
}

impl PduDecoder {
    pub open spec fn wf(&self) -> bool {
        is_partial(self.buf@, self.hdgst)
    }

    /// A decoder at the start of a header.
    pub fn new(hdgst: bool) -> (d: PduDecoder)
        ensures
            d.wf(),
            d.hdgst == hdgst,
            d.buf@.len() == 0,
    {
        PduDecoder { hdgst, buf: Vec::new() }
    }

    /// Feed the window to the header being assembled. Returns the bytes taken,
    /// and the header once it is whole; the decoder then stands at the start
    /// of the next one.
    pub fn feed(&mut self, window: &[u8]) -> (r: (usize, Result<Option<DecodedPdu>, PduError>))
        requires
            old(self).wf(),
        ensures
            final(self).hdgst == old(self).hdgst,
            ({
                let all = old(self).buf@ + window@;
                let part = all.take(header_part(all, old(self).hdgst));
                &&& r.0 == part.len() - old(self).buf@.len()
                &&& 0 <= r.0 <= window@.len()
                &&& window@.len() > 0 ==> r.0 > 0
                &&& is_judged(part, old(self).hdgst, r.1)
                &&& match r.1 {
                    Ok(None) => final(self).buf@ == part && r.0 == window@.len(),
                    Ok(Some(_)) => final(self).buf@.len() == 0,
                    Err(_) => true,
                }
                &&& r.1 is Ok ==> final(self).wf()
            }),
    {
        let ghost was = self.buf@;
        let ghost all = was + window@;
        let mut n: usize = 0;
        assert(was =~= all.take(was.len() as int));
        while self.buf.len() < COMMON_LEN && n < window.len()
            invariant
                n <= window.len(),
                all == was + window@,
                self.hdgst == old(self).hdgst,
                self.buf@ == all.take(was.len() + n),
                self.buf.len() == was.len() + n,
                self.buf.len() <= COMMON_LEN || n == 0,
            decreases window.len() - n,
        {
            self.buf.push(window[n]);
            n += 1;
            assert(self.buf@ =~= all.take(was.len() + n));
        }
        if self.buf.len() < COMMON_LEN {
            assert(all.take(all.len() as int) =~= all);
            return (n, Ok(None));
        }
        proof {
            lemma_prefix(self.buf@, all, self.hdgst);
        }
        let full: usize = match check_common(self.buf.as_slice(), self.hdgst) {
            Ok(k) => k,
            Err(e) => {
                return (n, Err(e));
            },
        };
        while self.buf.len() < full && n < window.len()
            invariant
                n <= window.len(),
                all == was + window@,
                self.hdgst == old(self).hdgst,
                self.buf@ == all.take(was.len() + n),
                self.buf.len() == was.len() + n,
                COMMON_LEN <= self.buf.len() <= full,
            decreases window.len() - n,
        {
            self.buf.push(window[n]);
            n += 1;
            assert(self.buf@ =~= all.take(was.len() + n));
        }
        proof {
            lemma_prefix(self.buf@, all, self.hdgst);
        }
        if self.buf.len() < full {
            assert(all.take(all.len() as int) =~= all);
            return (n, Ok(None));
        }
        let r = decode(self.buf.as_slice(), self.hdgst);
        match r {
            Err(e) => (n, Err(e)),
            Ok(d) => {
                self.buf = Vec::new();
                (n, Ok(Some(d)))
            },
        }
    }
}

/// The first eight bytes decide whether a header is at fault.
proof fn lemma_prefix(b: Seq<u8>, all: Seq<u8>, hdgst: bool)
    requires
        COMMON_LEN <= b.len() <= all.len(),
        b == all.take(b.len() as int),
    ensures
        common_fault(b, hdgst) == common_fault(all, hdgst),
        b[0] == all[0],
{
}

/// Length of a connection-initialization PDU.
pub const IC_LEN: usize = 128;

/// What is wrong with a request to initialize a connection.
pub open spec fn ic_fault(b: Seq<u8>) -> Option<PduError> {
    if b[0] != TYPE_IC_REQ {
        Some(PduError { fes: FES_PDU_SEQ_ERR, fei: 0 })
    } else if b[2] != IC_LEN {
        Some(PduError { fes: FES_INVALID_PDU_HDR, fei: 2 })
    } else if crate::wire::le32_at(b, 4) != IC_LEN {
        Some(PduError { fes: FES_INVALID_PDU_HDR, fei: 4 })
    } else if crate::wire::le16_at(b, 8) != 0 {
        Some(PduError { fes: FES_INVALID_PDU_HDR, fei: 8 })
    } else {
        None
    }
}

/// The answer that grants these digests.
pub open spec fn ic_resp(hdgst: bool, ddgst: bool, maxdata: u32) -> Seq<u8> {
    seq![TYPE_IC_RESP, 0, IC_LEN as u8, 0] + crate::wire::le_bytes(IC_LEN as int, 4)
        + crate::wire::zeros(3) + seq![(flag(hdgst, 1) + flag(ddgst, 2)) as u8]
        + crate::wire::le_bytes(maxdata as int, 4) + crate::wire::zeros(112)
}

/// Answer a request to initialize a connection: a digest is used if the host
/// asks for it and it is allowed. Returns the answer, and whether header and
/// data digests are used.
pub fn answer_ic(req: &[u8], allow_hdgst: bool, allow_ddgst: bool, maxdata: u32) -> (r: Result<
    (Vec<u8>, bool, bool),
    PduError,
>)
    requires
        req.len() == IC_LEN,
    ensures
        match ic_fault(req@) {
            Some(e) => r == Err::<(Vec<u8>, bool, bool), PduError>(e),
            None => {
                &&& r matches Ok((reply, hdgst, ddgst))
                &&& hdgst == (allow_hdgst && req@[11] % 2 == 1)
                &&& ddgst == (allow_ddgst && (req@[11] / 2) % 2 == 1)
                &&& reply@ == ic_resp(hdgst, ddgst, maxdata)
            },
        },
{
    if req[0] != TYPE_IC_REQ {
        return Err(PduError { fes: FES_PDU_SEQ_ERR, fei: 0 });
    }
    if req[2] as usize != IC_LEN {
        return Err(PduError { fes: FES_INVALID_PDU_HDR, fei: 2 });
    }
    if le32(req, 4) as usize != IC_LEN {
        return Err(PduError { fes: FES_INVALID_PDU_HDR, fei: 4 });
    }
    if le16(req, 8) != 0 {
        return Err(PduError { fes: FES_INVALID_PDU_HDR, fei: 8 });
    }
    let hdgst: bool = allow_hdgst && req[11] % 2 == 1;
    let ddgst: bool = allow_ddgst && (req[11] / 2) % 2 == 1;
    let mut reply: Vec<u8> = vec![TYPE_IC_RESP, 0, IC_LEN as u8, 0];
    assert(reply@ =~= seq![TYPE_IC_RESP, 0, IC_LEN as u8, 0]);
    crate::wire::push_le(&mut reply, IC_LEN as u64, 4);
    crate::wire::push_zeros(&mut reply, 3);
    let ghost before = reply@;
    reply.push(bit(hdgst, 1) + bit(ddgst, 2));
    assert(reply@ =~= before + seq![(flag(hdgst, 1) + flag(ddgst, 2)) as u8]);
    crate::wire::push_le(&mut reply, maxdata as u64, 4);
    crate::wire::push_zeros(&mut reply, 112);
    Ok((reply, hdgst, ddgst))
}

/// However a header is cut into windows, the bytes that belong to it and what
/// comes of it are the same: more of the stream does not change the judgement
/// of a header that is whole or at fault.
pub proof fn header_is_a_prefix(b: Seq<u8>, more: Seq<u8>, hdgst: bool)
    requires
        !is_partial(b, hdgst),
    ensures
        header_part(b + more, hdgst) == header_part(b, hdgst),
        (b + more).take(header_part(b, hdgst)) == b.take(header_part(b, hdgst)),
{
    let all = b + more;
    assert(all.take(b.len() as int) =~= b);
    lemma_prefix(b, all, hdgst);
    assert(all.take(header_part(b, hdgst)) =~= b.take(header_part(b, hdgst)));
}

/// `flag` when `on`.
pub open spec fn flag(on: bool, flag: u8) -> int {
    if on {
        flag as int
    } else {
        0
    }
}

/// Bytes a digest adds.
pub open spec fn digest_len(on: bool) -> int {
    if on {
        DIGEST_LEN as int
    } else {
        0
    }
}

/// The eight bytes every header starts with.
pub open spec fn common(kind: u8, flags: int, pdo: int, plen: int) -> Seq<u8> {
    seq![kind, flags as u8, HEADER_LEN as u8, pdo as u8] + crate::wire::le_bytes(plen, 4)
}

/// `header` with its digest, where one was negotiated.
pub open spec fn sealed(header: Seq<u8>, hdgst: bool) -> Seq<u8> {
    if hdgst {
        header + crate::wire::le_bytes(crate::digest::crc_of(header) as int, 4)
    } else {
        header
    }
}

/// A ready-to-transfer PDU.
pub open spec fn r2t(cid: u16, ttag: u16, offset: u32, length: u32, hdgst: bool) -> Seq<u8> {
    sealed(
        common(TYPE_R2T, flag(hdgst, FLAG_HDGST), 0, HEADER_LEN + digest_len(hdgst))
            + crate::wire::le_bytes(cid as int, 2) + crate::wire::le_bytes(ttag as int, 2)
            + crate::wire::le_bytes(offset as int, 4) + crate::wire::le_bytes(length as int, 4)
            + crate::wire::zeros(4),
        hdgst,
    )
}

/// The header of a controller-to-host data PDU.
pub open spec fn c2h_data(
    cid: u16,
    offset: u32,
    length: u32,
    last: bool,
    success: bool,
    hdgst: bool,
    ddgst: bool,
) -> Seq<u8> {
    let pdo = HEADER_LEN + digest_len(hdgst);
    sealed(
        common(
            TYPE_C2H_DATA,
            flag(hdgst, FLAG_HDGST) + flag(ddgst, FLAG_DDGST) + flag(last, FLAG_LAST) + flag(
                success,
                FLAG_SUCCESS,
            ),
            pdo,
            pdo + length + digest_len(ddgst),
        ) + crate::wire::le_bytes(cid as int, 2) + crate::wire::zeros(2) + crate::wire::le_bytes(
            offset as int,
            4,
        ) + crate::wire::le_bytes(length as int, 4) + crate::wire::zeros(4),
        hdgst,
    )
}

/// A response capsule.
pub open spec fn capsule_resp(cqe: Cqe, hdgst: bool) -> Seq<u8> {
    sealed(
        common(TYPE_CAPSULE_RESP, flag(hdgst, FLAG_HDGST), 0, HEADER_LEN + digest_len(hdgst))
            + cqe.wire(),
        hdgst,
    )
}

/// A controller-to-host termination request.
pub open spec fn c2h_term(e: PduError) -> Seq<u8> {
    common(TYPE_C2H_TERM, 0, 0, HEADER_LEN as int) + crate::wire::le_bytes(e.fes as int, 2)
        + crate::wire::le_bytes(e.fei as int, 4) + crate::wire::zeros(10)
}

fn bit(on: bool, flag: u8) -> (v: u8)
    ensures
        v == crate::pdu::flag(on, flag),
{
    if on {
        flag
    } else {
        0
    }
}

fn extra(on: bool) -> (v: u32)
    ensures
        v == digest_len(on),
{
    if on {
        DIGEST_LEN
    } else {
        0
    }
}

fn push_common(out: &mut Vec<u8>, kind: u8, flags: u8, pdo: u8, plen: u64)
    requires
        plen <= u32::MAX,
    ensures
        final(out)@ == old(out)@ + common(kind, flags as int, pdo as int, plen as int),
{
    let ghost start = out@;
    out.push(kind);
    out.push(flags);
    out.push(HEADER_LEN as u8);
    out.push(pdo);
    assert(out@ =~= start + seq![kind, flags, HEADER_LEN as u8, pdo]);
    crate::wire::push_le(out, plen, 4);
    assert(out@ =~= start + common(kind, flags as int, pdo as int, plen as int));
}

/// Append the digest of what follows the first `start` bytes, if negotiated.
fn seal(out: &mut Vec<u8>, start: usize, hdgst: bool)
    requires
        start <= old(out)@.len(),
    ensures
        final(out)@ == old(out)@.take(start as int) + sealed(old(out)@.skip(start as int), hdgst),
{
    let ghost was = out@;
    assert(was =~= was.take(start as int) + was.skip(start as int));
    if hdgst {
        let d: u32 = crate::digest::crc32c(
            vstd::slice::slice_subrange(out.as_slice(), start, out.len()),
        );
        assert(was.subrange(start as int, was.len() as int) =~= was.skip(start as int));
        crate::wire::push_le(out, d as u64, 4);
        assert(out@ =~= was.take(start as int) + sealed(was.skip(start as int), hdgst));
    }
}

/// Append a ready-to-transfer PDU.
pub fn encode_r2t(out: &mut Vec<u8>, cid: u16, ttag: u16, offset: u32, length: u32, hdgst: bool)
    ensures
        final(out)@ == old(out)@ + r2t(cid, ttag, offset, length, hdgst),
{
    let start: usize = out.len();
    let ghost was = out@;
    push_common(
        out,
        TYPE_R2T,
        bit(hdgst, FLAG_HDGST),
        0,
        HEADER_LEN as u64 + extra(hdgst) as u64,
    );
    crate::wire::push_le(out, cid as u64, 2);
    crate::wire::push_le(out, ttag as u64, 2);
    crate::wire::push_le(out, offset as u64, 4);
    crate::wire::push_le(out, length as u64, 4);
    crate::wire::push_zeros(out, 4);
    proof {
        let header = common(TYPE_R2T, flag(hdgst, FLAG_HDGST), 0, HEADER_LEN + digest_len(hdgst))
            + crate::wire::le_bytes(cid as int, 2) + crate::wire::le_bytes(ttag as int, 2)
            + crate::wire::le_bytes(offset as int, 4) + crate::wire::le_bytes(length as int, 4)
            + crate::wire::zeros(4);
        assert(out@ =~= was + header);
        assert(out@.skip(start as int) =~= header);
        assert(out@.take(start as int) =~= was);
    }
    seal(out, start, hdgst);
}

/// Append a controller-to-host data header.
pub fn encode_c2h_data(
    out: &mut Vec<u8>,
    cid: u16,
    offset: u32,
    length: u32,
    last: bool,
    success: bool,
    hdgst: bool,
    ddgst: bool,
)
    requires
        length + 32 <= u32::MAX,
    ensures
        final(out)@ == old(out)@ + c2h_data(cid, offset, length, last, success, hdgst, ddgst),
{
    let start: usize = out.len();
    let ghost was = out@;
    let pdo: u32 = HEADER_LEN + extra(hdgst);
    push_common(
        out,
        TYPE_C2H_DATA,
        bit(hdgst, FLAG_HDGST) + bit(ddgst, FLAG_DDGST) + bit(last, FLAG_LAST) + bit(
            success,
            FLAG_SUCCESS,
        ),
        pdo as u8,
        pdo as u64 + length as u64 + extra(ddgst) as u64,
    );
    crate::wire::push_le(out, cid as u64, 2);
    crate::wire::push_zeros(out, 2);
    crate::wire::push_le(out, offset as u64, 4);
    crate::wire::push_le(out, length as u64, 4);
    crate::wire::push_zeros(out, 4);
    proof {
        let header = common(
            TYPE_C2H_DATA,
            flag(hdgst, FLAG_HDGST) + flag(ddgst, FLAG_DDGST) + flag(last, FLAG_LAST) + flag(
                success,
                FLAG_SUCCESS,
            ),
            pdo as int,
            pdo + length + digest_len(ddgst),
        ) + crate::wire::le_bytes(cid as int, 2) + crate::wire::zeros(2) + crate::wire::le_bytes(
            offset as int,
            4,
        ) + crate::wire::le_bytes(length as int, 4) + crate::wire::zeros(4);
        assert(out@ =~= was + header);
        assert(out@.skip(start as int) =~= header);
        assert(out@.take(start as int) =~= was);
    }
    seal(out, start, hdgst);
}

/// Append a response capsule.
pub fn encode_capsule_resp(out: &mut Vec<u8>, cqe: &Cqe, hdgst: bool)
    ensures
        final(out)@ == old(out)@ + capsule_resp(*cqe, hdgst),
{
    let start: usize = out.len();
    let ghost was = out@;
    push_common(
        out,
        TYPE_CAPSULE_RESP,
        bit(hdgst, FLAG_HDGST),
        0,
        HEADER_LEN as u64 + extra(hdgst) as u64,
    );
    cqe.encode(out);
    proof {
        let header = common(
            TYPE_CAPSULE_RESP,
            flag(hdgst, FLAG_HDGST),
            0,
            HEADER_LEN + digest_len(hdgst),
        ) + cqe.wire();
        assert(out@ =~= was + header);
        assert(out@.skip(start as int) =~= header);
        assert(out@.take(start as int) =~= was);
    }
    seal(out, start, hdgst);
}

/// Append a termination request.
pub fn encode_c2h_term(out: &mut Vec<u8>, e: PduError)
    ensures
        final(out)@ == old(out)@ + c2h_term(e),
{
    let ghost was = out@;
    push_common(out, TYPE_C2H_TERM, 0, 0, HEADER_LEN as u64);
    crate::wire::push_le(out, e.fes as u64, 2);
    crate::wire::push_le(out, e.fei as u64, 4);
    crate::wire::push_zeros(out, 10);
    assert(out@ =~= was + c2h_term(e));
}

/// The header `b` is 24 bytes, followed by their digest exactly where one was
/// negotiated.
pub open spec fn host_checks(b: Seq<u8>, hdgst: bool) -> bool {
    if hdgst {
        b.len() == 28 && crate::wire::le32_at(b, 24) == crate::digest::crc_of(b.take(24))
    } else {
        b.len() == 24
    }
}

proof fn lemma_sealed(header: Seq<u8>, hdgst: bool)
    requires
        header.len() == 24,
    ensures
        host_checks(sealed(header, hdgst), hdgst),
        forall|i: int| 0 <= i < 24 ==> #[trigger] sealed(header, hdgst)[i] == header[i],
{
    let b = sealed(header, hdgst);
    crate::wire::lemma_le4(crate::digest::crc_of(header) as int);
    if hdgst {
        assert(b.take(24) =~= header);
    }
}

proof fn lemma_common(kind: u8, flags: int, pdo: int, plen: int)
    requires
        0 <= flags < 0x100,
        0 <= pdo < 0x100,
        0 <= plen < 0x1_0000_0000,
    ensures
        common(kind, flags, pdo, plen).len() == 8,
        common(kind, flags, pdo, plen)[0] == kind,
        common(kind, flags, pdo, plen)[1] == flags,
        common(kind, flags, pdo, plen)[2] == 24,
        common(kind, flags, pdo, plen)[3] == pdo,
        crate::wire::le32_at(common(kind, flags, pdo, plen), 4) == plen,
{
    crate::wire::lemma_le4(plen);
}

/// A host that reads a controller-to-host data header by the protocol's layout
/// gets what was sent: for which command, at which offset of its buffer, how
/// many bytes, whether they are the last and whether they complete the command.
/// The PDU's length is that of the header, the data and both digests, and the
/// data starts right behind the header.
pub proof fn host_reads_c2h_data(
    cid: u16,
    offset: u32,
    length: u32,
    last: bool,
    success: bool,
    hdgst: bool,
    ddgst: bool,
)
    requires
        length + 32 <= u32::MAX,
    ensures
        ({
            let b = c2h_data(cid, offset, length, last, success, hdgst, ddgst);
            let pdo: int = if hdgst {
                28
            } else {
                24
            };
            &&& host_checks(b, hdgst)
            &&& b[0] == 7
            &&& (b[1] % 2 == 1) == hdgst
            &&& (b[1] / 2 % 2 == 1) == ddgst
            &&& (b[1] / 4 % 2 == 1) == last
            &&& (b[1] / 8 % 2 == 1) == success
            &&& b[1] / 16 == 0
            &&& b[2] == 24
            &&& b[3] == pdo
            &&& crate::wire::le32_at(b, 4) == pdo + length + (if ddgst {
                4int
            } else {
                0
            })
            &&& crate::wire::le16_at(b, 8) == cid
            &&& crate::wire::le16_at(b, 10) == 0
            &&& crate::wire::le32_at(b, 12) == offset
            &&& crate::wire::le32_at(b, 16) == length
            &&& crate::wire::le32_at(b, 20) == 0
        }),
{
    let pdo = HEADER_LEN + digest_len(hdgst);
    let flags = flag(hdgst, FLAG_HDGST) + flag(ddgst, FLAG_DDGST) + flag(last, FLAG_LAST) + flag(
        success,
        FLAG_SUCCESS,
    );
    let plen = pdo + length + digest_len(ddgst);
    let head = common(TYPE_C2H_DATA, flags, pdo, plen) + crate::wire::le_bytes(cid as int, 2)
        + crate::wire::zeros(2) + crate::wire::le_bytes(offset as int, 4) + crate::wire::le_bytes(
        length as int,
        4,
    ) + crate::wire::zeros(4);
    lemma_common(TYPE_C2H_DATA, flags, pdo, plen);
    crate::wire::lemma_le2(cid as int);
    crate::wire::lemma_le4(offset as int);
    crate::wire::lemma_le4(length as int);
    lemma_sealed(head, hdgst);
}

/// A host that reads a ready-to-transfer PDU by the protocol's layout gets what
/// was asked for: of which command, under which transfer tag, from which offset
/// of its buffer, how many bytes. No data follows.
pub proof fn host_reads_r2t(cid: u16, ttag: u16, offset: u32, length: u32, hdgst: bool)
    ensures
        ({
            let b = r2t(cid, ttag, offset, length, hdgst);
            &&& host_checks(b, hdgst)
            &&& b[0] == 9
            &&& (b[1] == 1) == hdgst
            &&& b[1] <= 1
            &&& b[2] == 24
            &&& b[3] == 0
            &&& crate::wire::le32_at(b, 4) == b.len()
            &&& crate::wire::le16_at(b, 8) == cid
            &&& crate::wire::le16_at(b, 10) == ttag
            &&& crate::wire::le32_at(b, 12) == offset
            &&& crate::wire::le32_at(b, 16) == length
            &&& crate::wire::le32_at(b, 20) == 0
        }),
{
    let plen = HEADER_LEN + digest_len(hdgst);
    let head = common(TYPE_R2T, flag(hdgst, FLAG_HDGST), 0, plen) + crate::wire::le_bytes(
        cid as int,
        2,
    ) + crate::wire::le_bytes(ttag as int, 2) + crate::wire::le_bytes(offset as int, 4)
        + crate::wire::le_bytes(length as int, 4) + crate::wire::zeros(4);
    lemma_common(TYPE_R2T, flag(hdgst, FLAG_HDGST), 0, plen);
    crate::wire::lemma_le2(cid as int);
    crate::wire::lemma_le2(ttag as int);
    crate::wire::lemma_le4(offset as int);
    crate::wire::lemma_le4(length as int);
    lemma_sealed(head, hdgst);
}

/// A host that reads a response capsule by the protocol's layout gets the
/// completion: its result, queue head, queue, command and status, the last
/// above the phase bit. No data follows.
pub proof fn host_reads_capsule_resp(cqe: Cqe, hdgst: bool)
    requires
        cqe.status < 0x8000,
    ensures
        ({
            let b = capsule_resp(cqe, hdgst);
            &&& host_checks(b, hdgst)
            &&& b[0] == 5
            &&& (b[1] == 1) == hdgst
            &&& b[1] <= 1
            &&& b[2] == 24
            &&& b[3] == 0
            &&& crate::wire::le32_at(b, 4) == b.len()
            &&& crate::wire::le32_at(b, 8) == cqe.result
            &&& crate::wire::le32_at(b, 12) == 0
            &&& crate::wire::le16_at(b, 16) == cqe.sqhd
            &&& crate::wire::le16_at(b, 18) == cqe.sqid
            &&& crate::wire::le16_at(b, 20) == cqe.cid
            &&& crate::wire::le16_at(b, 22) / 2 == cqe.status
            &&& crate::wire::le16_at(b, 22) % 2 == 0
        }),
{
    let plen = HEADER_LEN + digest_len(hdgst);
    let head = common(TYPE_CAPSULE_RESP, flag(hdgst, FLAG_HDGST), 0, plen) + cqe.wire();
    lemma_common(TYPE_CAPSULE_RESP, flag(hdgst, FLAG_HDGST), 0, plen);
    crate::nvme::host_reads_cqe(cqe);
    lemma_sealed(head, hdgst);
}

/// A host that reads a termination request by the protocol's layout gets the
/// fatal error status and the field at fault. It carries no digest.
pub proof fn host_reads_c2h_term(e: PduError)
    ensures
        ({
            let b = c2h_term(e);
            &&& b.len() == 24
            &&& b[0] == 3
            &&& b[1] == 0
            &&& b[2] == 24
            &&& b[3] == 0
            &&& crate::wire::le32_at(b, 4) == 24
            &&& crate::wire::le16_at(b, 8) == e.fes
            &&& crate::wire::le32_at(b, 10) == e.fei
            &&& forall|i: int| 14 <= i < 24 ==> b[i] == 0
        }),
{
    lemma_common(TYPE_C2H_TERM, 0, 0, HEADER_LEN as int);
    crate::wire::lemma_le2(e.fes as int);
    crate::wire::lemma_le4(e.fei as int);
}

/// A host that reads the answer to its request to initialize a connection gets
/// the digests that are granted and the most data it may send in one PDU.
pub proof fn host_reads_ic_resp(hdgst: bool, ddgst: bool, maxdata: u32)
    ensures
        ({
            let b = ic_resp(hdgst, ddgst, maxdata);
            &&& b.len() == 128
            &&& b[0] == 1
            &&& b[1] == 0
            &&& b[2] == 128
            &&& b[3] == 0
            &&& crate::wire::le32_at(b, 4) == 128
            &&& crate::wire::le16_at(b, 8) == 0
            &&& b[10] == 0
            &&& (b[11] % 2 == 1) == hdgst
            &&& (b[11] / 2 % 2 == 1) == ddgst
            &&& b[11] / 4 == 0
            &&& crate::wire::le32_at(b, 12) == maxdata
            &&& forall|i: int| 16 <= i < 128 ==> b[i] == 0
        }),
{
    crate::wire::lemma_le4(IC_LEN as int);
    crate::wire::lemma_le4(maxdata as int);
}

/// Every header is 24 bytes, and 28 with its digest.
pub proof fn header_lengths(
    cid: u16,
    ttag: u16,
    offset: u32,
    length: u32,
    last: bool,
    success: bool,
    cqe: Cqe,
    e: PduError,
    hdgst: bool,
    ddgst: bool,
)
    ensures
        r2t(cid, ttag, offset, length, hdgst).len() == HEADER_LEN + digest_len(hdgst),
        c2h_data(cid, offset, length, last, success, hdgst, ddgst).len() == HEADER_LEN
            + digest_len(hdgst),
        capsule_resp(cqe, hdgst).len() == HEADER_LEN + digest_len(hdgst),
        c2h_term(e).len() == HEADER_LEN,
{
    crate::wire::lemma_le_len(cid as int, 2);
    crate::wire::lemma_le_len(ttag as int, 2);
    crate::wire::lemma_le_len(offset as int, 4);
    crate::wire::lemma_le_len(length as int, 4);
    crate::wire::lemma_le_len(e.fes as int, 2);
    crate::wire::lemma_le_len(e.fei as int, 4);
    crate::nvme::cqe_wire_len(cqe);
    let plain = HEADER_LEN + digest_len(hdgst);
    crate::wire::lemma_le_len(plain, 4);
    crate::wire::lemma_le_len(HEADER_LEN as int, 4);
    crate::wire::lemma_le_len(plain + length + digest_len(ddgst), 4);
    assert forall|s: Seq<u8>| #[trigger] sealed(s, hdgst).len() == s.len() + digest_len(hdgst) by {
        crate::wire::lemma_le_len(crate::digest::crc_of(s) as int, 4);
    }
}

/// A request to initialize a connection is answered exactly if it is one: of
/// type 0, 128 bytes long in its header and as a whole, in the format of version
/// 0. Another type is out of sequence; otherwise the fault is the first field
/// that is wrong, named by its offset.
pub proof fn proper_requests_are_answered(b: Seq<u8>)
    ensures
        ic_fault(b) is None <==> b[0] == 0 && b[2] == 128 && crate::wire::le32_at(b, 4) == 128
            && crate::wire::le16_at(b, 8) == 0,
        ic_fault(b) matches Some(e) ==> {
            &&& e.fes == 2 <==> b[0] != 0
            &&& b[0] != 0 ==> e.fei == 0
            &&& b[0] == 0 ==> {
                &&& e.fes == 1
                &&& e.fei == 2 || e.fei == 4 || e.fei == 8
                &&& e.fei == 2 <==> b[2] != 128
                &&& e.fei == 4 <==> b[2] == 128 && crate::wire::le32_at(b, 4) != 128
            }
        },
{
}

} // verus!
