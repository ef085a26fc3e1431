//! SGL descriptors of a command's data pointer: the in-capsule and the keyed
//! (host-resident) data-block shapes, plus the data-direction and
//! staged-length rules derived from them.

use vstd::prelude::*;

use crate::nvme::{Role, Sqe, IO_DSM, IO_WRITE, MDTS_BYTES};
use crate::wire::{le32, le64};

verus! {

/// Offset of the SGL descriptor's type byte in the entry.
pub const SGL_TYPE_OFFSET: usize = 39;

/// High nibble of the type byte of a keyed data-block descriptor: the data is
/// host-resident.
pub const KEYED_SGL_TYPE_HI: u8 = 0x4;

/// Type byte of an in-capsule data-block descriptor with offset addressing.
pub const INLINE_SGL_TYPE: u8 = 0x01;

/// Low nibble of the type byte by which the host asks for its key to be
/// invalidated in the response.
pub const SGL_FMT_INVALIDATE: u8 = 0x0f;

/// Type byte of a transport data block: the host keeps the data until it is
/// solicited.
pub const SGL_TYPE_TRANSPORT_DATA_BLOCK: u8 = 0x5A;

/// A host memory region named by a keyed descriptor.
#[derive(Debug, Clone, Copy, PartialEq, Eq, Structural)]
pub struct KeyedSgl {
    pub addr: u64,
    pub len: u32,
    pub rkey: u32,
}

/// The descriptor's type byte.
pub open spec fn sgl_type(s: Sqe) -> u8 {
    s.bytes@[39]
}

/// The descriptor names host-resident data.
pub open spec fn is_keyed(s: Sqe) -> bool {
    sgl_type(s) / 16 == KEYED_SGL_TYPE_HI
}

/// The in-capsule descriptor: offset into the in-capsule region, and length.
pub open spec fn inline_sgl(s: Sqe) -> (u64, usize) {
    (crate::wire::le64_at(s.bytes@, 24) as u64, crate::wire::le32_at(s.bytes@, 32) as usize)
}

/// The keyed descriptor: address, 24-bit length, key.
pub open spec fn keyed_sgl(s: Sqe) -> KeyedSgl {
    KeyedSgl {
        addr: crate::wire::le64_at(s.bytes@, 24) as u64,
        len: (s.bytes@[32] + s.bytes@[33] * 0x100 + s.bytes@[34] * 0x1_0000) as u32,
        rkey: crate::wire::le32_at(s.bytes@, 35) as u32,
    }
}

/// The entry's SGL type byte.
pub fn type_byte(sqe: &Sqe) -> (t: u8)
    ensures
        t == sgl_type(*sqe),
{
    sqe.bytes[SGL_TYPE_OFFSET]
}

/// Whether the descriptor names host-resident data.
pub fn keyed(sqe: &Sqe) -> (b: bool)
    ensures
        b == is_keyed(*sqe),
{
    type_byte(sqe) / 16 == KEYED_SGL_TYPE_HI
}

/// Read the in-capsule descriptor.
pub fn parse_inline_sgl(sqe: &Sqe) -> (r: (u64, usize))
    ensures
        r == inline_sgl(*sqe),
{
    (le64(sqe.bytes.as_slice(), 24), le32(sqe.bytes.as_slice(), 32) as usize)
}

/// Read the keyed descriptor.
pub fn parse_keyed_sgl(sqe: &Sqe) -> (r: KeyedSgl)
    ensures
        r == keyed_sgl(*sqe),
{
    let b = sqe.bytes.as_slice();
    KeyedSgl {
        addr: le64(b, 24),
        len: b[32] as u32 + b[33] as u32 * 0x100 + b[34] as u32 * 0x1_0000,
        rkey: le32(b, 35),
    }
}

/// The host key to invalidate in the response, if the command's keyed
/// descriptor asks for it.
pub open spec fn invalidate_rkey(s: Sqe) -> Option<u32> {
    if is_keyed(s) && sgl_type(s) % 16 == SGL_FMT_INVALIDATE {
        Some(keyed_sgl(s).rkey)
    } else {
        None
    }
}

/// The host key to invalidate in the response, if any.
pub fn invalidate_rkey_for(cmd: &Sqe) -> (r: Option<u32>)
    ensures
        r == invalidate_rkey(*cmd),
{
    if keyed(cmd) && type_byte(cmd) % 16 == SGL_FMT_INVALIDATE {
        Some(parse_keyed_sgl(cmd).rkey)
    } else {
        None
    }
}

/// The command carries data from the host that must be in place before it is
/// dispatched.
pub open spec fn data_in(role: Role, opcode: u8) -> bool {
    role is Io && (opcode == IO_WRITE || opcode == IO_DSM)
}

/// Whether `opcode` on this queue carries host data in.
pub fn host_data_in(role: Role, opcode: u8) -> (b: bool)
    ensures
        b == data_in(role, opcode),
{
    match role {
        Role::Io => opcode == IO_WRITE || opcode == IO_DSM,
        Role::Admin => false,
    }
}

/// The keyed length, clamped to the largest transfer.
pub open spec fn staged(s: Sqe) -> usize {
    if keyed_sgl(s).len < MDTS_BYTES {
        keyed_sgl(s).len as usize
    } else {
        MDTS_BYTES as usize
    }
}

/// The staged transfer length of a command whose data is host-resident.
pub fn staged_len(sqe: &Sqe) -> (n: usize)
    ensures
        n == staged(*sqe),
{
    let len: u32 = parse_keyed_sgl(sqe).len;
    if len < MDTS_BYTES {
        len as usize
    } else {
        MDTS_BYTES as usize
    }
}

/// A descriptor as the host laid it out: the address, or the offset into the
/// capsule, at byte 24; the length at byte 32, in three bytes where the data is
/// in the host's memory and in four where it is in the capsule; the key at byte
/// 35; the type in byte 39, whose upper half is 4 for the host's memory and
/// whose lower half is then 15 where the key is to be invalidated.
pub proof fn descriptor_is_understood(s: Sqe)
    ensures
        ({
            let b = s.bytes@;
            &&& is_keyed(s) == (b[39] / 16 == 4)
            &&& keyed_sgl(s).addr == crate::wire::le64_at(b, 24)
            &&& keyed_sgl(s).len == b[32] + 0x100 * b[33] + 0x1_0000 * b[34]
            &&& keyed_sgl(s).rkey == crate::wire::le32_at(b, 35)
            &&& inline_sgl(s).0 == crate::wire::le64_at(b, 24)
            &&& inline_sgl(s).1 == crate::wire::le32_at(b, 32)
            &&& invalidate_rkey(s) == (if b[39] == 0x4F {
                Some(crate::wire::le32_at(b, 35) as u32)
            } else {
                None
            })
            &&& staged(s) <= 0x2_0000
            &&& staged(s) <= keyed_sgl(s).len
            &&& staged(s) == 0x2_0000 || staged(s) == keyed_sgl(s).len
        }),
{
}

/// Only writes (opcode 1) and dataset management (9) bring data in, and only on
/// an IO queue.
pub proof fn data_comes_with_writes(role: Role, opcode: u8)
    ensures
        data_in(role, opcode) == (role is Io && (opcode == 1 || opcode == 9)),
{
}

} // verus!
