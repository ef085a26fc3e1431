//! The parts of the NVMe wire vocabulary the target works with: submission
//! and completion entries, status codes, opcodes.

use vstd::prelude::*;

use crate::wire::{le16, le32};

verus! {

/// Bytes of a submission queue entry.
pub const SQE_LEN: usize = 64;

/// Bytes of a completion queue entry.
pub const CQE_LEN: usize = 16;

/// Largest single-command transfer: 2^5 pages of 4 KiB, matching the MDTS
/// value of 5 the controller advertises.
pub const MDTS_BYTES: u32 = 131072;

/// Largest queue accepted; CAP.MQES advertises this minus one.
pub const MAX_QUEUE_ENTRIES: u16 = 256;

/// Status: success.
pub const SC_SUCCESS: u16 = 0x0;

/// Status: invalid command opcode.
pub const SC_INVALID_OPCODE: u16 = 0x1;

/// Status: invalid field in command.
pub const SC_INVALID_FIELD: u16 = 0x2;

/// Status: data transfer error.
pub const SC_DATA_XFER_ERROR: u16 = 0x4;

/// Status: invalid namespace or format.
pub const SC_INVALID_NS: u16 = 0xB;

/// Status: data SGL length invalid.
pub const SC_DATA_SGL_LEN_INVALID: u16 = 0xF;

/// Status: SGL descriptor type invalid.
pub const SC_SGL_INVALID_TYPE: u16 = 0x11;

/// Status: invalid log page.
pub const SC_INVALID_LOG_PAGE: u16 = 0x109;

/// Status: feature not changeable.
pub const SC_FEATURE_NOT_CHANGEABLE: u16 = 0x10E;

/// Status: connect invalid parameters.
pub const SC_CONNECT_INVALID_PARAM: u16 = 0x182;

/// Status: connect invalid host.
pub const SC_CONNECT_INVALID_HOST: u16 = 0x184;

/// Do-not-retry bit of a status.
pub const SC_DNR: u16 = 0x4000;

/// IO opcode: write.
pub const IO_WRITE: u8 = 0x01;

/// IO opcode: dataset management.
pub const IO_DSM: u8 = 0x09;

/// A submission queue entry, as its 64 wire bytes.
#[derive(Debug, Clone, Copy)]
pub struct Sqe {
    pub bytes: [u8; 64],
}

impl Sqe {
    /// The entry that `b` begins with.
    pub open spec fn is_prefix_of(self, b: Seq<u8>) -> bool {
        self.bytes@ == b.subrange(0, 64)
    }

    pub open spec fn spec_opcode(self) -> u8 {
        self.bytes@[0]
    }

    pub open spec fn spec_cid(self) -> u16 {
        crate::wire::le16_at(self.bytes@, 2) as u16
    }

    pub open spec fn spec_nsid(self) -> u32 {
        crate::wire::le32_at(self.bytes@, 4) as u32
    }

    /// Command dword `n` (10 and up).
    pub open spec fn spec_cdw(self, n: int) -> u32 {
        crate::wire::le32_at(self.bytes@, n * 4) as u32
    }

    /// An all-zero entry.
    pub fn zeroed() -> (s: Sqe)
        ensures
            s.bytes@ == Seq::new(64, |i: int| 0u8),
    {
        let s = Sqe { bytes: [0u8; 64] };
        assert(s.bytes@ =~= Seq::new(64, |i: int| 0u8));
        s
    }

    /// The entry at the front of `b`.
    pub fn from_bytes(b: &[u8]) -> (s: Sqe)
        requires
            b.len() >= SQE_LEN,
        ensures
            s.is_prefix_of(b@),
    {
        let mut bytes: [u8; 64] = [0u8; 64];
        let mut i: usize = 0;
        while i < 64
            invariant
                i <= 64,
                b.len() >= 64,
                forall|k: int| 0 <= k < i ==> #[trigger] bytes@[k] == b@[k],
            decreases 64 - i,
        {
            bytes[i] = b[i];
            i += 1;
        }
        assert(bytes@ =~= b@.subrange(0, 64));
        Sqe { bytes }
    }

    /// Command opcode.
    pub fn opcode(&self) -> (v: u8)
        ensures
            v == self.spec_opcode(),
    {
        self.bytes[0]
    }

    /// Command identifier.
    pub fn cid(&self) -> (v: u16)
        ensures
            v == self.spec_cid(),
    {
        le16(self.bytes.as_slice(), 2)
    }

    /// Namespace identifier.
    pub fn nsid(&self) -> (v: u32)
        ensures
            v == self.spec_nsid(),
    {
        le32(self.bytes.as_slice(), 4)
    }

    /// Command dword `n`.
    pub fn cdw(&self, n: usize) -> (v: u32)
        requires
            n <= 15,
        ensures
            v == self.spec_cdw(n as int),
    {
        le32(self.bytes.as_slice(), n * 4)
    }
}

/// A completion queue entry.
#[derive(Debug, Clone, Copy, PartialEq, Eq, Structural)]
pub struct Cqe {
    /// Command-specific result.
    pub result: u32,
    /// Submission-queue head.
    pub sqhd: u16,
    /// Submission-queue id.
    pub sqid: u16,
    /// Command identifier.
    pub cid: u16,
    /// Status code, type and do-not-retry bit.
    pub status: u16,
}

impl Cqe {
    pub fn new(result: u32, sqhd: u16, sqid: u16, cid: u16, status: u16) -> (c: Cqe)
        ensures
            c == (Cqe { result, sqhd, sqid, cid, status }),
    {
        Cqe { result, sqhd, sqid, cid, status }
    }

    /// The entry's 16 wire bytes; the status sits above the phase bit.
    pub open spec fn wire(self) -> Seq<u8> {
        crate::wire::le_bytes(self.result as int, 4) + crate::wire::zeros(4)
            + crate::wire::le_bytes(self.sqhd as int, 2) + crate::wire::le_bytes(
            self.sqid as int,
            2,
        ) + crate::wire::le_bytes(self.cid as int, 2) + crate::wire::le_bytes(
            (self.status * 2) as int,
            2,
        )
    }

    /// Append the entry's wire bytes.
    pub fn encode(&self, out: &mut Vec<u8>)
        ensures
            final(out)@ == old(out)@ + self.wire(),
    {
        let ghost start = out@;
        crate::wire::push_le(out, self.result as u64, 4);
        crate::wire::push_zeros(out, 4);
        crate::wire::push_le(out, self.sqhd as u64, 2);
        crate::wire::push_le(out, self.sqid as u64, 2);
        crate::wire::push_le(out, self.cid as u64, 2);
        crate::wire::push_le(out, self.status as u64 * 2, 2);
        assert(out@ =~= start + self.wire());
    }
}

/// The entry is 16 bytes long.
pub proof fn cqe_wire_len(c: Cqe)
    ensures
        c.wire().len() == CQE_LEN,
{
    crate::wire::lemma_le_len(c.result as int, 4);
    crate::wire::lemma_le_len(c.sqhd as int, 2);
    crate::wire::lemma_le_len(c.sqid as int, 2);
    crate::wire::lemma_le_len(c.cid as int, 2);
    crate::wire::lemma_le_len((c.status * 2) as int, 2);
}

/// A host that reads the entry by the protocol's layout gets back its result,
/// queue head, queue id, command and status, the last above a clear phase bit.
pub proof fn host_reads_cqe(c: Cqe)
    requires
        c.status < 0x8000,
    ensures
        c.wire().len() == 16,
        crate::wire::le32_at(c.wire(), 0) == c.result,
        crate::wire::le32_at(c.wire(), 4) == 0,
        crate::wire::le16_at(c.wire(), 8) == c.sqhd,
        crate::wire::le16_at(c.wire(), 10) == c.sqid,
        crate::wire::le16_at(c.wire(), 12) == c.cid,
        crate::wire::le16_at(c.wire(), 14) / 2 == c.status,
        crate::wire::le16_at(c.wire(), 14) % 2 == 0,
{
    crate::wire::lemma_le4(c.result as int);
    crate::wire::lemma_le2(c.sqhd as int);
    crate::wire::lemma_le2(c.sqid as int);
    crate::wire::lemma_le2(c.cid as int);
    crate::wire::lemma_le2((c.status * 2) as int);
}

/// What a dispatched command produced: its completion, and how many bytes of
/// read data wait in the slot buffer.
#[derive(Debug, Clone, Copy, PartialEq, Eq, Structural)]
pub struct Outcome {
    pub cqe: Cqe,
    pub data_len: u32,
}

impl Outcome {
    /// A completion without data.
    pub fn status(cqe: Cqe) -> (o: Outcome)
        ensures
            o == (Outcome { cqe, data_len: 0 }),
    {
        Outcome { cqe, data_len: 0 }
    }

    /// A completion with `data_len` bytes of read data.
    pub fn with_data(cqe: Cqe, data_len: u32) -> (o: Outcome)
        ensures
            o == (Outcome { cqe, data_len }),
    {
        Outcome { cqe, data_len }
    }
}

/// What a queue is for.
#[derive(Debug, Clone, Copy, PartialEq, Eq, Structural)]
pub enum Role {
    Admin,
    Io,
}

/// A submission entry as the host laid it out: opcode in byte 0, command id at
/// byte 2, namespace at byte 4, and command dword `n` at byte 4 times `n`.
pub proof fn entry_is_understood(s: Sqe, n: int)
    requires
        0 <= n <= 15,
    ensures
        s.spec_opcode() == s.bytes@[0],
        s.spec_cid() == crate::wire::le16_at(s.bytes@, 2),
        s.spec_nsid() == crate::wire::le32_at(s.bytes@, 4),
        s.spec_cdw(n) == crate::wire::le32_at(s.bytes@, 4 * n),
{
}

} // verus!
