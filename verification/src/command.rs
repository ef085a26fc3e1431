//! IO commands and the fabrics Connect as they are read off the wire, and how
//! commands count in a queue's statistics.

use vstd::prelude::*;

use crate::file::LbaRange;
use crate::nvme::{Sqe, IO_DSM, IO_WRITE, MDTS_BYTES};
use crate::queue::{stat_add, QueueStats, TransportStats};
use crate::rdma::CONNECT_DATA_LEN;
use crate::wire::{le16, le32, le64};

verus! {

/// Flush.
pub const IO_FLUSH: u8 = 0x00;

/// Read.
pub const IO_READ: u8 = 0x02;

/// Write Zeroes.
pub const IO_WRITE_ZEROES: u8 = 0x08;

/// Opcode of every fabrics command.
pub const FABRICS: u8 = 0x7F;

/// Fabrics command type of Connect.
pub const FCTYPE_CONNECT: u8 = 0x01;

/// Bytes of an NQN field.
pub const NQN_FIELD: usize = 256;

/// Bytes of one entry of a deallocation list.
pub const DSM_RANGE: usize = 16;

/// An IO command.
#[derive(Debug, Clone, Copy, PartialEq, Eq, Structural)]
pub enum IoCommand {
    Flush,
    Read { slba: u64, nlb: u32 },
    Write { slba: u64, nlb: u32 },
    WriteZeroes { slba: u64, nlb: u32 },
    /// Dataset management: `ranges` entries follow as data; they are
    /// deallocated only if the command asks for that.
    Dataset { ranges: u32, deallocate: bool },
    Unknown,
}

/// First block of a command's range: dwords 10 and 11.
pub open spec fn start_of(sqe: Sqe) -> u64 {
    (sqe.spec_cdw(10) + sqe.spec_cdw(11) * 0x1_0000_0000) as u64
}

/// Blocks of a command's range: the low half of dword 12, which counts from 0.
pub open spec fn count_of(sqe: Sqe) -> u32 {
    (sqe.spec_cdw(12) % 0x1_0000 + 1) as u32
}

/// The IO command in an entry.
pub open spec fn io_of(sqe: Sqe) -> IoCommand {
    let op = sqe.spec_opcode();
    if op == IO_FLUSH {
        IoCommand::Flush
    } else if op == IO_READ {
        IoCommand::Read { slba: start_of(sqe), nlb: count_of(sqe) }
    } else if op == IO_WRITE {
        IoCommand::Write { slba: start_of(sqe), nlb: count_of(sqe) }
    } else if op == IO_WRITE_ZEROES {
        IoCommand::WriteZeroes { slba: start_of(sqe), nlb: count_of(sqe) }
    } else if op == IO_DSM {
        IoCommand::Dataset {
            ranges: (sqe.spec_cdw(10) % 0x100 + 1) as u32,
            deallocate: (sqe.spec_cdw(11) / 4) % 2 == 1,
        }
    } else {
        IoCommand::Unknown
    }
}

impl IoCommand {
    /// Read an IO command off its entry.
    pub fn parse(sqe: &Sqe) -> (c: IoCommand)
        ensures
            c == io_of(*sqe),
    {
        let op: u8 = sqe.opcode();
        let lo: u32 = sqe.cdw(10);
        let hi: u32 = sqe.cdw(11);
        let slba: u64 = lo as u64 + hi as u64 * 0x1_0000_0000;
        let nlb: u32 = sqe.cdw(12) % 0x1_0000 + 1;
        if op == IO_FLUSH {
            IoCommand::Flush
        } else if op == IO_READ {
            IoCommand::Read { slba, nlb }
        } else if op == IO_WRITE {
            IoCommand::Write { slba, nlb }
        } else if op == IO_WRITE_ZEROES {
            IoCommand::WriteZeroes { slba, nlb }
        } else if op == IO_DSM {
            IoCommand::Dataset { ranges: lo % 0x100 + 1, deallocate: (hi / 4) % 2 == 1 }
        } else {
            IoCommand::Unknown
        }
    }
}

/// The bytes of `nlb` blocks, where one transfer may carry them.
pub fn transfer_bytes(nlb: u32, block_shift: u8) -> (r: Option<u32>)
    requires
        block_shift <= 31,
    ensures
        r == (if nlb * vstd::arithmetic::power2::pow2(block_shift as nat) <= MDTS_BYTES {
            Some((nlb * vstd::arithmetic::power2::pow2(block_shift as nat)) as u32)
        } else {
            None
        }),
{
    proof {
        vstd::arithmetic::power2::lemma2_to64();
        vstd::arithmetic::power2::lemma_pow2_pos(block_shift as nat);
        if block_shift < 31 {
            vstd::arithmetic::power2::lemma_pow2_strictly_increases(block_shift as nat, 31);
        }
        vstd::bits::lemma_u64_shl_is_mul(1u64, block_shift as u64);
    }
    let block: u64 = 1u64 << block_shift as u64;
    assert(nlb * block <= 0xFFFF_FFFF * 0x8000_0000) by (nonlinear_arith)
        requires
            nlb <= 0xFFFF_FFFF,
            block <= 0x8000_0000,
    ;
    let bytes: u64 = nlb as u64 * block;
    if bytes <= MDTS_BYTES as u64 {
        Some(bytes as u32)
    } else {
        None
    }
}

/// Entry `i` of a deallocation list.
pub open spec fn range_at(data: Seq<u8>, i: int) -> LbaRange {
    LbaRange {
        slba: crate::wire::le64_at(data, i * DSM_RANGE + 8) as u64,
        nlb: crate::wire::le32_at(data, i * DSM_RANGE + 4) as u32,
    }
}

/// The entries of a deallocation list, where the data holds them all.
pub fn dsm_ranges(data: &[u8], ranges: u32) -> (r: Option<Vec<LbaRange>>)
    ensures
        match r {
            None => data@.len() < ranges * DSM_RANGE,
            Some(v) => {
                &&& ranges * DSM_RANGE <= data@.len()
                &&& v@ == Seq::new(ranges as nat, |i: int| range_at(data@, i))
            },
        },
{
    if (data.len() / DSM_RANGE) < ranges as usize {
        return None;
    }
    let mut out: Vec<LbaRange> = Vec::new();
    let mut i: u32 = 0;
    while i < ranges
        invariant
            i <= ranges,
            ranges * DSM_RANGE <= data.len(),
            out@ == Seq::new(i as nat, |k: int| range_at(data@, k)),
        decreases ranges - i,
    {
        let at: usize = i as usize * DSM_RANGE;
        out.push(LbaRange { slba: le64(data, at + 8), nlb: le32(data, at + 4) });
        i += 1;
        assert(out@ =~= Seq::new(i as nat, |k: int| range_at(data@, k)));
    }
    Some(out)
}

/// What a Connect asks for.
#[derive(Debug, PartialEq, Eq)]
pub struct Connect {
    pub qid: u16,
    /// Queue size, counted from 0.
    pub sqsize: u16,
    /// The host wants no submission-queue flow control.
    pub sqhd_disabled: bool,
    pub kato_ms: u32,
    /// The controller an IO queue joins.
    pub cntlid: u16,
    /// The subsystem, as the bytes of its name.
    pub subsysnqn: Vec<u8>,
    /// The host, as the bytes of its name.
    pub hostnqn: Vec<u8>,
}

/// `s` up to its first zero byte.
pub open spec fn until_zero(s: Seq<u8>) -> Seq<u8>
    decreases s.len(),
{
    if s.len() == 0 || s[0] == 0 {
        seq![]
    } else {
        seq![s[0]] + until_zero(s.skip(1))
    }
}

impl Connect {
    /// `self` is what the command and its data say.
    pub open spec fn says(&self, sqe: Sqe, data: Seq<u8>) -> bool {
        &&& self.qid == crate::wire::le16_at(sqe.bytes@, 42)
        &&& self.sqsize == crate::wire::le16_at(sqe.bytes@, 44)
        &&& self.sqhd_disabled == ((sqe.bytes@[46] / 4) % 2 == 1)
        &&& self.kato_ms == crate::wire::le32_at(sqe.bytes@, 48)
        &&& self.cntlid == crate::wire::le16_at(data, 16)
        &&& self.subsysnqn@ == until_zero(data.subrange(256, 512))
        &&& self.hostnqn@ == until_zero(data.subrange(512, 768))
    }

    /// Read a Connect off its entry and data; `None` for another command, and
    /// where data is missing.
    pub fn parse(sqe: &Sqe, data: &[u8]) -> (r: Option<Connect>)
        ensures
            match r {
                None => sqe.spec_opcode() != FABRICS || sqe.bytes@[4] != FCTYPE_CONNECT
                    || data@.len() < CONNECT_DATA_LEN,
                Some(c) => sqe.spec_opcode() == FABRICS && sqe.bytes@[4] == FCTYPE_CONNECT
                    && data@.len() >= CONNECT_DATA_LEN && c.says(*sqe, data@),
            },
    {
        if sqe.opcode() != FABRICS || sqe.bytes[4] != FCTYPE_CONNECT || data.len()
            < CONNECT_DATA_LEN {
            return None;
        }
        let b = sqe.bytes.as_slice();
        Some(
            Connect {
                qid: le16(b, 42),
                sqsize: le16(b, 44),
                sqhd_disabled: (b[46] / 4) % 2 == 1,
                kato_ms: le32(b, 48),
                cntlid: le16(data, 16),
                subsysnqn: name_field(data, 256),
                hostnqn: name_field(data, 512),
            },
        )
    }
}

/// The name in the field at `off`.
fn name_field(data: &[u8], off: usize) -> (v: Vec<u8>)
    requires
        off + NQN_FIELD <= data.len(),
    ensures
        v@ == until_zero(data@.subrange(off as int, off + NQN_FIELD)),
{
    let ghost field = data@.subrange(off as int, off + NQN_FIELD);
    let mut v: Vec<u8> = Vec::new();
    let mut i: usize = 0;
    assert(field.skip(0) =~= field);
    assert(v@ + until_zero(field) =~= until_zero(field));
    while i < NQN_FIELD && data[off + i] != 0
        invariant
            i <= NQN_FIELD,
            off + NQN_FIELD <= data.len(),
            field == data@.subrange(off as int, off + NQN_FIELD),
            v@ + until_zero(field.skip(i as int)) == until_zero(field),
        decreases NQN_FIELD - i,
    {
        proof {
            let rest = field.skip(i as int);
            assert(rest[0] == data@[off + i]);
            assert(rest.skip(1) =~= field.skip(i + 1));
            assert(v@ + (seq![rest[0]] + until_zero(rest.skip(1))) =~= v@.push(rest[0])
                + until_zero(rest.skip(1)));
        }
        v.push(data[off + i]);
        i += 1;
    }
    assert(until_zero(field.skip(i as int)) =~= seq![]);
    assert(v@ =~= until_zero(field));
    v
}

/// The counters after a command was dispatched: IO queues tell reads, writes
/// and flushes apart; everything else, and all of an admin queue, is other.
pub open spec fn counted<T: TransportStats>(
    s: QueueStats<T>,
    io: Option<IoCommand>,
) -> QueueStats<T> {
    match io {
        Some(IoCommand::Read { .. }) => QueueStats {
            read_cmds: crate::queue::wadd(s.read_cmds, 1),
            ..s
        },
        Some(IoCommand::Write { .. }) => QueueStats {
            write_cmds: crate::queue::wadd(s.write_cmds, 1),
            ..s
        },
        Some(IoCommand::Flush) => QueueStats {
            flush_cmds: crate::queue::wadd(s.flush_cmds, 1),
            ..s
        },
        _ => QueueStats { other_cmds: crate::queue::wadd(s.other_cmds, 1), ..s },
    }
}

/// The counters after an IO command ended: with the bytes it moved, or in error.
pub open spec fn ended<T: TransportStats>(
    s: QueueStats<T>,
    io: IoCommand,
    moved: Option<u32>,
) -> QueueStats<T> {
    match moved {
        None => QueueStats { errors: crate::queue::wadd(s.errors, 1), ..s },
        Some(n) => match io {
            IoCommand::Read { .. } => QueueStats {
                read_bytes: crate::queue::wadd(s.read_bytes, n as u64),
                ..s
            },
            IoCommand::Write { .. } => QueueStats {
                write_bytes: crate::queue::wadd(s.write_bytes, n as u64),
                ..s
            },
            _ => s,
        },
    }
}

/// Count a dispatched command; `io` is `None` for admin and fabrics commands.
pub fn count_command<T: TransportStats>(stats: &mut QueueStats<T>, io: Option<IoCommand>)
    ensures
        *final(stats) == counted(*old(stats), io),
{
    match io {
        Some(IoCommand::Read { .. }) => stat_add(&mut stats.read_cmds, 1),
        Some(IoCommand::Write { .. }) => stat_add(&mut stats.write_cmds, 1),
        Some(IoCommand::Flush) => stat_add(&mut stats.flush_cmds, 1),
        _ => stat_add(&mut stats.other_cmds, 1),
    }
}

/// Count the end of an IO command: the bytes it moved, or `None` for an error.
pub fn count_end<T: TransportStats>(
    stats: &mut QueueStats<T>,
    io: IoCommand,
    moved: Option<u32>,
)
    ensures
        *final(stats) == ended(*old(stats), io, moved),
{
    match moved {
        None => stat_add(&mut stats.errors, 1),
        Some(n) => match io {
            IoCommand::Read { .. } => stat_add(&mut stats.read_bytes, n as u64),
            IoCommand::Write { .. } => stat_add(&mut stats.write_bytes, n as u64),
            _ => {},
        },
    }
}

/// Every dispatched command is counted once, whatever it is and however it
/// ends.
pub proof fn counted_once<T: TransportStats>(
    s: QueueStats<T>,
    io: IoCommand,
    moved: Option<u32>,
)
    requires
        s.read_cmds < u64::MAX,
        s.write_cmds < u64::MAX,
        s.flush_cmds < u64::MAX,
        s.other_cmds < u64::MAX,
    ensures
        ({
            let t = ended(counted(s, Some(io)), io, moved);
            t.read_cmds + t.write_cmds + t.flush_cmds + t.other_cmds == s.read_cmds + s.write_cmds
                + s.flush_cmds + s.other_cmds + 1
        }),
{
}

/// An IO command as the host laid it out: the opcode is its first byte, the
/// first block the 64-bit field at byte 40, and the field at byte 48 the number
/// of blocks less one. Flush is 0, write 1, read 2, write zeroes 8; dataset
/// management is 9, with one range more than byte 40 says, to be deallocated
/// where bit 2 of byte 44 asks for it.
pub proof fn io_command_is_understood(sqe: Sqe)
    ensures
        ({
            let b = sqe.bytes@;
            let slba = crate::wire::le64_at(b, 40) as u64;
            let nlb = (crate::wire::le16_at(b, 48) + 1) as u32;
            io_of(sqe) == (if b[0] == 0 {
                IoCommand::Flush
            } else if b[0] == 1 {
                IoCommand::Write { slba, nlb }
            } else if b[0] == 2 {
                IoCommand::Read { slba, nlb }
            } else if b[0] == 8 {
                IoCommand::WriteZeroes { slba, nlb }
            } else if b[0] == 9 {
                IoCommand::Dataset { ranges: (b[40] + 1) as u32, deallocate: b[44] / 4 % 2 == 1 }
            } else {
                IoCommand::Unknown
            })
        }),
{
    let b = sqe.bytes@;
    assert(crate::wire::le32_at(b, 48) % 0x1_0000 == crate::wire::le16_at(b, 48));
    assert(crate::wire::le32_at(b, 40) % 0x100 == b[40]);
    assert((crate::wire::le32_at(b, 44) / 4) % 2 == b[44] / 4 % 2);
}

/// A deallocation list as the host laid it out: entry `i` stands at 16 times
/// `i`, its number of blocks at 4 and its first block at 8 in it.
pub proof fn ranges_are_understood(data: Seq<u8>, i: int)
    requires
        0 <= i,
        16 * i + 16 <= data.len(),
    ensures
        range_at(data, i).nlb == crate::wire::le32_at(data, 16 * i + 4),
        range_at(data, i).slba == crate::wire::le64_at(data, 16 * i + 8),
{
}

/// `name` is what a field holds up to its first zero, or all of it.
pub open spec fn is_named(name: Seq<u8>, field: Seq<u8>) -> bool {
    &&& name.len() <= field.len()
    &&& forall|i: int| 0 <= i < name.len() ==> #[trigger] name[i] == field[i] && field[i] != 0
    &&& name.len() < field.len() ==> field[name.len() as int] == 0
}

proof fn lemma_until_zero(s: Seq<u8>)
    ensures
        is_named(until_zero(s), s),
    decreases s.len(),
{
    if s.len() > 0 && s[0] != 0 {
        let rest = s.skip(1);
        lemma_until_zero(rest);
        let name = until_zero(s);
        assert forall|i: int| 0 <= i < name.len() implies #[trigger] name[i] == s[i] && s[i] != 0 by {
            if i > 0 {
                assert(name[i] == until_zero(rest)[i - 1]);
                assert(rest[i - 1] == s[i]);
            }
        }
    }
}

/// A Connect as the host laid it out: queue id, queue size, attributes and
/// keep-alive time at bytes 42, 44, 46 and 48 of the command, the controller at
/// byte 16 of the data, and the names of subsystem and host in the 256 bytes at
/// 256 and at 512, each up to its first zero.
pub proof fn connect_is_understood(c: Connect, sqe: Sqe, data: Seq<u8>)
    requires
        data.len() >= 1024,
        c.says(sqe, data),
    ensures
        c.qid == crate::wire::le16_at(sqe.bytes@, 42),
        c.sqsize == crate::wire::le16_at(sqe.bytes@, 44),
        c.sqhd_disabled == (sqe.bytes@[46] / 4 % 2 == 1),
        c.kato_ms == crate::wire::le32_at(sqe.bytes@, 48),
        c.cntlid == crate::wire::le16_at(data, 16),
        is_named(c.subsysnqn@, data.subrange(256, 512)),
        is_named(c.hostnqn@, data.subrange(512, 768)),
{
    lemma_until_zero(data.subrange(256, 512));
    lemma_until_zero(data.subrange(512, 768));
}

/// A command that is dispatched counts as what it is: reads, writes and flushes
/// each in their own counter, everything else as other. Bytes and errors count
/// when it ends: the bytes of reads and writes where it succeeded, one error
/// where it did not.
pub proof fn counters_tell_commands_apart<T: TransportStats>(
    s: QueueStats<T>,
    io: Option<IoCommand>,
    end: IoCommand,
    moved: Option<u32>,
)
    requires
        s.read_cmds < u64::MAX,
        s.write_cmds < u64::MAX,
        s.flush_cmds < u64::MAX,
        s.other_cmds < u64::MAX,
        s.errors < u64::MAX,
        s.read_bytes <= u64::MAX - u32::MAX,
        s.write_bytes <= u64::MAX - u32::MAX,
    ensures
        ({
            let t = counted(s, io);
            let read = io matches Some(IoCommand::Read { .. });
            let write = io matches Some(IoCommand::Write { .. });
            let flush = io matches Some(IoCommand::Flush);
            &&& t.read_cmds - s.read_cmds == (if read { 1int } else { 0 })
            &&& t.write_cmds - s.write_cmds == (if write { 1int } else { 0 })
            &&& t.flush_cmds - s.flush_cmds == (if flush { 1int } else { 0 })
            &&& t.other_cmds - s.other_cmds == (if read || write || flush { 0int } else { 1 })
            &&& t.read_bytes == s.read_bytes && t.write_bytes == s.write_bytes && t.errors
                == s.errors
            &&& t.qid == s.qid && t.cntlid == s.cntlid && t.transport == s.transport
        }),
        ({
            let t = ended(s, end, moved);
            &&& t.errors - s.errors == (if moved is None { 1int } else { 0 })
            &&& t.read_bytes - s.read_bytes == (if end is Read && moved is Some {
                moved->0 as int
            } else {
                0
            })
            &&& t.write_bytes - s.write_bytes == (if end is Write && moved is Some {
                moved->0 as int
            } else {
                0
            })
            &&& t.read_cmds == s.read_cmds && t.write_cmds == s.write_cmds && t.flush_cmds
                == s.flush_cmds && t.other_cmds == s.other_cmds
            &&& t.qid == s.qid && t.cntlid == s.cntlid && t.transport == s.transport
        }),
{
}

} // verus!
