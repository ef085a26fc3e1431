//! RDMA connection-management private data.
//!
//! The connecting host's request carries a [`CmReq`]; the target replies on
//! accept with a [`CmRep`], or on reject with a [`CmRej`]. Multi-byte fields
//! are little-endian. The target reads `qid` to route the connection to a
//! queue thread and `hsqsize` to size the queue.

use vstd::prelude::*;

use crate::wire::{le16, set_le16};

pub mod reject_status;

verus! {

/// Private-data record format; only 1.0 (`0`) is defined.
pub const CM_FMT_1_0: u16 = 0;

/// Wire length of a request's or an accept reply's private data.
pub const CM_WIRE_LEN: usize = 32;

/// Private data shorter than the record it should hold.
#[derive(Debug, Clone, Copy, PartialEq, Eq, Structural)]
pub struct ShortPrivateData {
    /// Bytes present.
    pub len: usize,
    /// Bytes needed.
    pub need: usize,
}

/// The host's connect request (`recfmt|qid|hrqsize|hsqsize|cntlid|rsvd[22]`).
#[derive(Debug, Clone, Copy, PartialEq, Eq, Structural)]
pub struct CmReq {
    /// Private-data record format (expected [`CM_FMT_1_0`]).
    pub recfmt: u16,
    /// Queue identifier (0 = admin).
    pub qid: u16,
    /// Host receive queue size to create.
    pub hrqsize: u16,
    /// Host send queue size to create (queue depth - 1).
    pub hsqsize: u16,
    /// Controller id (`0xffff` on the admin-queue connect).
    pub cntlid: u16,
}

impl CmReq {
    /// The record's 32 wire bytes.
    pub open spec fn wire(self) -> Seq<u8> {
        crate::wire::le_bytes(self.recfmt as int, 2) + crate::wire::le_bytes(self.qid as int, 2)
            + crate::wire::le_bytes(self.hrqsize as int, 2) + crate::wire::le_bytes(
            self.hsqsize as int,
            2,
        ) + crate::wire::le_bytes(self.cntlid as int, 2) + crate::wire::zeros(22)
    }

    /// The record that private data `b` begins with.
    pub open spec fn read(b: Seq<u8>) -> CmReq {
        CmReq {
            recfmt: crate::wire::le16_at(b, 0) as u16,
            qid: crate::wire::le16_at(b, 2) as u16,
            hrqsize: crate::wire::le16_at(b, 4) as u16,
            hsqsize: crate::wire::le16_at(b, 6) as u16,
            cntlid: crate::wire::le16_at(b, 8) as u16,
        }
    }

    /// Parse the host's request. Fails only on a short buffer; checking the
    /// fields is the handshake's job, so it can answer with the right reject
    /// status.
    pub fn parse(data: &[u8]) -> (r: Result<CmReq, ShortPrivateData>)
        ensures
            r == (if data@.len() < CM_WIRE_LEN {
                Err::<CmReq, _>(
                    ShortPrivateData { len: data@.len() as usize, need: CM_WIRE_LEN },
                )
            } else {
                Ok::<_, ShortPrivateData>(CmReq::read(data@))
            }),
    {
        if data.len() < CM_WIRE_LEN {
            return Err(ShortPrivateData { len: data.len(), need: CM_WIRE_LEN });
        }
        Ok(
            CmReq {
                recfmt: le16(data, 0),
                qid: le16(data, 2),
                hrqsize: le16(data, 4),
                hsqsize: le16(data, 6),
                cntlid: le16(data, 8),
            },
        )
    }

    /// Encode the request's private data.
    pub fn to_bytes(self) -> (b: [u8; 32])
        ensures
            b@ == self.wire(),
    {
        let mut b: [u8; 32] = [0u8; 32];
        set_le16(&mut b, 0, self.recfmt);
        set_le16(&mut b, 2, self.qid);
        set_le16(&mut b, 4, self.hrqsize);
        set_le16(&mut b, 6, self.hsqsize);
        set_le16(&mut b, 8, self.cntlid);
        proof {
            crate::wire::lemma_le2(self.recfmt as int);
            crate::wire::lemma_le2(self.qid as int);
            crate::wire::lemma_le2(self.hrqsize as int);
            crate::wire::lemma_le2(self.hsqsize as int);
            crate::wire::lemma_le2(self.cntlid as int);
            assert(b@ =~= self.wire());
        }
        b
    }
}

/// The target's accept reply (`recfmt|crqsize|rsvd[28]`).
#[derive(Debug, Clone, Copy, PartialEq, Eq, Structural)]
pub struct CmRep {
    /// Record format (echo [`CM_FMT_1_0`]).
    pub recfmt: u16,
    /// Controller receive queue size.
    pub crqsize: u16,
}

impl CmRep {
    /// The record's 32 wire bytes.
    pub open spec fn wire(self) -> Seq<u8> {
        crate::wire::le_bytes(self.recfmt as int, 2) + crate::wire::le_bytes(self.crqsize as int, 2)
            + crate::wire::zeros(28)
    }

    /// The record that private data `b` begins with.
    pub open spec fn read(b: Seq<u8>) -> CmRep {
        CmRep {
            recfmt: crate::wire::le16_at(b, 0) as u16,
            crqsize: crate::wire::le16_at(b, 2) as u16,
        }
    }

    /// Parse the target's accept reply.
    pub fn parse(data: &[u8]) -> (r: Result<CmRep, ShortPrivateData>)
        ensures
            r == (if data@.len() < CM_WIRE_LEN {
                Err::<CmRep, _>(
                    ShortPrivateData { len: data@.len() as usize, need: CM_WIRE_LEN },
                )
            } else {
                Ok::<_, ShortPrivateData>(CmRep::read(data@))
            }),
    {
        if data.len() < CM_WIRE_LEN {
            return Err(ShortPrivateData { len: data.len(), need: CM_WIRE_LEN });
        }
        Ok(CmRep { recfmt: le16(data, 0), crqsize: le16(data, 2) })
    }

    /// Encode the accept reply's private data.
    pub fn to_bytes(self) -> (b: [u8; 32])
        ensures
            b@ == self.wire(),
    {
        let mut b: [u8; 32] = [0u8; 32];
        set_le16(&mut b, 0, self.recfmt);
        set_le16(&mut b, 2, self.crqsize);
        proof {
            crate::wire::lemma_le2(self.recfmt as int);
            crate::wire::lemma_le2(self.crqsize as int);
            assert(b@ =~= self.wire());
        }
        b
    }
}

/// The target's reject reply (`recfmt|sts`).
#[derive(Debug, Clone, Copy, PartialEq, Eq, Structural)]
pub struct CmRej {
    /// Record format (echo [`CM_FMT_1_0`]).
    pub recfmt: u16,
    /// Reject reason, a [`reject_status`] code.
    pub sts: u16,
}

impl CmRej {
    /// The record's 4 wire bytes.
    pub open spec fn wire(self) -> Seq<u8> {
        crate::wire::le_bytes(self.recfmt as int, 2) + crate::wire::le_bytes(self.sts as int, 2)
    }

    /// A reject with [`CM_FMT_1_0`] and the given status.
    pub fn new(sts: u16) -> (r: CmRej)
        ensures
            r == (CmRej { recfmt: CM_FMT_1_0, sts }),
    {
        CmRej { recfmt: CM_FMT_1_0, sts }
    }

    /// Encode the reject's private data.
    pub fn to_bytes(self) -> (b: [u8; 4])
        ensures
            b@ == self.wire(),
    {
        let mut b: [u8; 4] = [0u8; 4];
        set_le16(&mut b, 0, self.recfmt);
        set_le16(&mut b, 2, self.sts);
        proof {
            crate::wire::lemma_le2(self.recfmt as int);
            crate::wire::lemma_le2(self.sts as int);
            assert(b@ =~= self.wire());
        }
        b
    }
}

/// A request read back from its own bytes, with anything after them, is the
/// request.
pub proof fn cm_req_round_trip(req: CmReq, trailing: Seq<u8>)
    ensures
        CmReq::read(req.wire() + trailing) == req,
        req.wire().len() == CM_WIRE_LEN,
{
    crate::wire::lemma_le2(req.recfmt as int);
    crate::wire::lemma_le2(req.qid as int);
    crate::wire::lemma_le2(req.hrqsize as int);
    crate::wire::lemma_le2(req.hsqsize as int);
    crate::wire::lemma_le2(req.cntlid as int);
}

/// An accept reply read back from its own bytes, with anything after them, is
/// the reply.
pub proof fn cm_rep_round_trip(rep: CmRep, trailing: Seq<u8>)
    ensures
        CmRep::read(rep.wire() + trailing) == rep,
        rep.wire().len() == CM_WIRE_LEN,
{
    crate::wire::lemma_le2(rep.recfmt as int);
    crate::wire::lemma_le2(rep.crqsize as int);
}

/// What to answer a connect request whose private data is `data`: the parsed
/// request, or the status of the reject.
pub fn check_request(data: &[u8]) -> (r: Result<CmReq, u16>)
    ensures
        r == (if data@.len() < CM_WIRE_LEN {
            Err::<CmReq, u16>(reject_status::INVALID_LEN)
        } else if CmReq::read(data@).recfmt != CM_FMT_1_0 {
            Err::<CmReq, u16>(reject_status::INVALID_RECFMT)
        } else {
            Ok::<CmReq, u16>(CmReq::read(data@))
        }),
{
    match CmReq::parse(data) {
        Ok(req) => if req.recfmt != CM_FMT_1_0 {
            Err(reject_status::INVALID_RECFMT)
        } else {
            Ok(req)
        },
        Err(_) => Err(reject_status::INVALID_LEN),
    }
}

/// The private data of a connect request as the host laid it out: format, queue,
/// the sizes of its receive and its send queue, and the controller, two bytes
/// each from the start.
pub proof fn request_is_understood(b: Seq<u8>)
    ensures
        CmReq::read(b).recfmt == crate::wire::le16_at(b, 0),
        CmReq::read(b).qid == crate::wire::le16_at(b, 2),
        CmReq::read(b).hrqsize == crate::wire::le16_at(b, 4),
        CmReq::read(b).hsqsize == crate::wire::le16_at(b, 6),
        CmReq::read(b).cntlid == crate::wire::le16_at(b, 8),
{
}

/// The private data of an answer as the host reads it: an acceptance is 32
/// bytes, the format and the size of the controller's receive queue, and zeros;
/// a rejection is 4 bytes, the format and the reason.
pub proof fn host_reads_answer(rep: CmRep, rej: CmRej)
    ensures
        rep.wire().len() == 32,
        crate::wire::le16_at(rep.wire(), 0) == rep.recfmt,
        crate::wire::le16_at(rep.wire(), 2) == rep.crqsize,
        forall|i: int| 4 <= i < 32 ==> #[trigger] rep.wire()[i] == 0,
        rej.wire().len() == 4,
        crate::wire::le16_at(rej.wire(), 0) == rej.recfmt,
        crate::wire::le16_at(rej.wire(), 2) == rej.sts,
{
    crate::wire::lemma_le2(rep.recfmt as int);
    crate::wire::lemma_le2(rep.crqsize as int);
    crate::wire::lemma_le2(rej.recfmt as int);
    crate::wire::lemma_le2(rej.sts as int);
}

/// The private data of a request that a host sends: as a target reads it, with
/// zeros behind the controller.
pub proof fn target_reads_request(req: CmReq)
    ensures
        req.wire().len() == 32,
        crate::wire::le16_at(req.wire(), 0) == req.recfmt,
        crate::wire::le16_at(req.wire(), 2) == req.qid,
        crate::wire::le16_at(req.wire(), 4) == req.hrqsize,
        crate::wire::le16_at(req.wire(), 6) == req.hsqsize,
        crate::wire::le16_at(req.wire(), 8) == req.cntlid,
        forall|i: int| 10 <= i < 32 ==> #[trigger] req.wire()[i] == 0,
{
    crate::wire::lemma_le2(req.recfmt as int);
    crate::wire::lemma_le2(req.qid as int);
    crate::wire::lemma_le2(req.hrqsize as int);
    crate::wire::lemma_le2(req.hsqsize as int);
    crate::wire::lemma_le2(req.cntlid as int);
}

} // verus!
