//! Admin commands: Identify, Features, Log pages, Keep Alive and Async Event
//! Requests. What a command is answered with is decided here; the answer's
//! data goes through the slot's buffer.

use vstd::prelude::*;
use std::collections::VecDeque;

use crate::nvme::{
    Cqe, Outcome, Sqe, SC_DNR, SC_FEATURE_NOT_CHANGEABLE, SC_INVALID_FIELD, SC_INVALID_LOG_PAGE,
    SC_INVALID_NS, SC_INVALID_OPCODE, SC_SUCCESS,
};
use crate::port::PortConfig;
use crate::queue::{QueueCore, TransportStats};
use crate::subsystem::{Namespace, Subsystem, TransportType};
use crate::wire::{push_le, push_zeros, store};

pub mod layout;

verus! {

/// Opcode: Get Log Page.
pub const GET_LOG_PAGE: u8 = 0x02;

/// Opcode: Identify.
pub const IDENTIFY: u8 = 0x06;

/// Opcode: Set Features.
pub const SET_FEATURES: u8 = 0x09;

/// Opcode: Get Features.
pub const GET_FEATURES: u8 = 0x0A;

/// Opcode: Async Event Request.
pub const ASYNC_EVENT: u8 = 0x0C;

/// Opcode: Keep Alive.
pub const KEEP_ALIVE: u8 = 0x18;

/// Feature: volatile write cache.
pub const FEAT_VOLATILE_WC: u8 = 0x06;

/// Feature: number of queues.
pub const FEAT_NUM_QUEUES: u8 = 0x07;

/// Feature: async event configuration.
pub const FEAT_ASYNC_EVENT: u8 = 0x0B;

/// Feature: keep-alive timer.
pub const FEAT_KATO: u8 = 0x0F;

/// Feature: host identifier.
pub const FEAT_HOST_ID: u8 = 0x81;

/// Log page: changed namespaces.
pub const LOG_CHANGED_NS: u8 = 0x04;

/// Log page: discovery.
pub const LOG_DISCOVERY: u8 = 0x70;

/// Namespace-attribute notices, in the async event configuration.
pub const AEN_CFG_NS_ATTR: u32 = 0x100;

/// In-capsule data an RDMA queue advertises: one page.
pub const RDMA_INLINE_DATA_SIZE: u32 = 4096;

/// Bytes of an identify data structure, and the longest plain log page.
pub const PAGE_BYTES: usize = 4096;

/// Bytes of the discovery log header and of each of its entries.
pub const LOG_ENTRY: usize = 1024;

/// State of a controller's admin queue.
pub struct AdminState {
    pub cntlid: u16,
    /// Bound to the discovery subsystem.
    pub discovery: bool,
    pub kato_ms: u32,
    /// Async event configuration.
    pub aec: u32,
    /// Namespaces changed since the log page was last read.
    pub ns_changed: bool,
    /// The connection is going down.
    pub closing: bool,
    /// Events not reported yet, oldest first.
    pub events: VecDeque<u32>,
}

/// What an admin command is answered with.
pub enum AdminReply {
    /// A completion without data.
    Status { result: u32, status: u16 },
    /// Success, with this data.
    Data { data: Vec<u8> },
    /// Nothing yet: the command waits for an event.
    Parked,
}

/// `b` padded to `n` bytes with `fill`, cut where it is longer.
pub open spec fn padded(b: Seq<u8>, n: nat, fill: u8) -> Seq<u8> {
    Seq::new(
        n,
        |i: int|
            if i < b.len() {
                b[i]
            } else {
                fill
            },
    )
}

/// `b` in 256 bytes with a zero at the end at least.
pub open spec fn nul_ended(b: Seq<u8>) -> Seq<u8> {
    Seq::new(
        256,
        |i: int|
            if i < b.len() && i < 255 {
                b[i]
            } else {
                0u8
            },
    )
}

/// A text's bytes.
pub open spec fn bytes(s: Seq<char>) -> Seq<u8> {
    vstd::utf8::encode_utf8(s)
}

/// `src` padded with spaces to `n` bytes.
pub fn ascii_pad(src: &str, n: usize) -> (v: Vec<u8>)
    ensures
        v@ == padded(bytes(src@), n as nat, 0x20),
{
    let b = src.as_bytes();
    let mut v: Vec<u8> = Vec::with_capacity(n);
    let mut i: usize = 0;
    while i < n
        invariant
            i <= n,
            b@ == bytes(src@),
            v@ == padded(bytes(src@), n as nat, 0x20).subrange(0, i as int),
        decreases n - i,
    {
        if i < b.len() {
            v.push(b[i]);
        } else {
            v.push(0x20);
        }
        i += 1;
        assert(v@ =~= padded(bytes(src@), n as nat, 0x20).subrange(0, i as int));
    }
    assert(v@ =~= padded(bytes(src@), n as nat, 0x20));
    v
}

/// `src` in 256 bytes, ended by zeros.
pub fn nul_terminate(src: &str) -> (v: Vec<u8>)
    ensures
        v@ == nul_ended(bytes(src@)),
{
    let b = src.as_bytes();
    let mut v: Vec<u8> = Vec::with_capacity(256);
    let mut i: usize = 0;
    while i < 256
        invariant
            i <= 256,
            b@ == bytes(src@),
            v@ == nul_ended(bytes(src@)).subrange(0, i as int),
        decreases 256 - i,
    {
        if i < b.len() && i < 255 {
            v.push(b[i]);
        } else {
            v.push(0);
        }
        i += 1;
        assert(v@ =~= nul_ended(bytes(src@)).subrange(0, i as int));
    }
    assert(v@ =~= nul_ended(bytes(src@)));
    v
}

/// `b` with the `n` little-endian bytes of `v` at `off`.
#[verifier::opaque]
pub open spec fn with_le(b: Seq<u8>, off: int, v: int, n: nat) -> Seq<u8> {
    crate::wire::put(b, off, crate::wire::le_bytes(v, n))
}

fn put_le(b: &mut Vec<u8>, off: usize, v: u64, n: usize)
    requires
        n <= 8,
        off + n <= old(b).len(),
    ensures
        final(b)@ == with_le(old(b)@, off as int, v as int, n as nat),
        final(b).len() == old(b).len(),
{
    let mut src: Vec<u8> = Vec::new();
    push_le(&mut src, v, n);
    proof {
        crate::wire::lemma_le_len(v as int, n as nat);
    }
    assert(src@ =~= crate::wire::le_bytes(v as int, n as nat));
    store(b, off, src.as_slice());
    proof {
        reveal(with_le);
    }
}

/// The serial number and NQN a controller identifies with: its subsystem's, or
/// the discovery subsystem's.
pub open spec fn identity(sub: Option<Subsystem>) -> (Seq<char>, Seq<char>) {
    match sub {
        Some(s) => (s.serial@, s.nqn@),
        None => ("ioutgt-disc"@, "nqn.2014-08.org.nvmexpress.discovery"@),
    }
}

/// Attributes of the controller: traffic-based keep-alive.
pub const CTRATT_TBKAS: u64 = 0x40;

/// SGL support: byte-aligned, and for RDMA keyed descriptors and address as
/// offset too.
pub open spec fn sgl_support(t: TransportType) -> int {
    match t {
        TransportType::Tcp => 0x1,
        TransportType::Rdma => 0x10_0005,
    }
}

/// In-capsule data the transport advertises.
pub open spec fn inline_size(p: PortConfig) -> u32 {
    match p.trtype {
        TransportType::Tcp => p.inline_data_size,
        TransportType::Rdma => RDMA_INLINE_DATA_SIZE,
    }
}

/// The part of Identify Controller that every controller has.
pub open spec fn id_ctrl_common(
    port: PortConfig,
    admin: AdminState,
    sub: Option<Subsystem>,
) -> Seq<u8> {
    let b0 = crate::wire::zeros(PAGE_BYTES as nat);
    let b1 = crate::wire::put(b0, 4, padded(bytes(identity(sub).0), 20, 0x20));
    let b2 = crate::wire::put(b1, 24, padded(bytes("ioutgt"@), 40, 0x20));
    let b3 = crate::wire::put(b2, 64, padded(bytes("1.0"@), 8, 0x20));
    let b4 = with_le(b3, 77, 5, 1);
    let b5 = with_le(b4, 78, admin.cntlid as int, 2);
    let b6 = with_le(b5, 80, 0x0001_0300, 4);
    let b7 = with_le(b6, 92, AEN_CFG_NS_ATTR as int, 4);
    let b8 = with_le(b7, 258, 3, 1);
    let b9 = with_le(b8, 259, 3, 1);
    let b10 = with_le(b9, 320, 100, 2);
    let b11 = with_le(b10, 512, 0x66, 1);
    let b12 = with_le(b11, 513, 0x44, 1);
    let b13 = with_le(b12, 514, port.io_queue_size as int, 2);
    let b14 = with_le(b13, 536, sgl_support(port.trtype), 4);
    crate::wire::put(b14, 768, nul_ended(bytes(identity(sub).1)))
}

/// Identify Controller: a discovery controller has no namespaces and no IO; an
/// IO controller shares its subsystem with others, has a volatile write cache,
/// and on TCP counts traffic as keep-alive.
pub open spec fn id_ctrl(port: PortConfig, admin: AdminState, sub: Option<Subsystem>) -> Seq<u8> {
    let b = id_ctrl_common(port, admin, sub);
    if admin.discovery {
        with_le(b, 111, 2, 1)
    } else {
        let c0 = with_le(b, 111, 1, 1);
        let c1 = with_le(c0, 76, 2, 1);
        let c2 = with_le(
            c1,
            96,
            if port.trtype is Tcp {
                CTRATT_TBKAS as int
            } else {
                0
            },
            4,
        );
        let c3 = with_le(
            c2,
            516,
            (match sub {
                Some(s) => crate::subsystem::top_nsid(s.namespaces@) as int,
                None => 0,
            }),
            4,
        );
        let c4 = with_le(c3, 520, 0xC, 2);
        let c5 = with_le(c4, 525, 1, 1);
        let c6 = with_le(c5, 1792, (64 + inline_size(port)) / 16, 4);
        with_le(c6, 1796, 1, 4)
    }
}

/// Build Identify Controller.
pub fn build_id_ctrl(port: &PortConfig, admin: &AdminState, sub: Option<&Subsystem>) -> (v: Vec<u8>)
    ensures
        v@ == id_ctrl(*port, *admin, deref(sub)),
        v@.len() == PAGE_BYTES,
{
    let mut b: Vec<u8> = Vec::new();
    push_zeros(&mut b, PAGE_BYTES);
    assert(b@ =~= crate::wire::zeros(PAGE_BYTES as nat));
    let (serial, nqn) = match sub {
        Some(s) => (s.serial.as_str(), s.nqn.as_str()),
        None => ("ioutgt-disc", "nqn.2014-08.org.nvmexpress.discovery"),
    };
    store(&mut b, 4, ascii_pad(serial, 20).as_slice());
    store(&mut b, 24, ascii_pad("ioutgt", 40).as_slice());
    store(&mut b, 64, ascii_pad("1.0", 8).as_slice());
    put_le(&mut b, 77, 5, 1);
    put_le(&mut b, 78, admin.cntlid as u64, 2);
    put_le(&mut b, 80, 0x0001_0300, 4);
    put_le(&mut b, 92, AEN_CFG_NS_ATTR as u64, 4);
    put_le(&mut b, 258, 3, 1);
    put_le(&mut b, 259, 3, 1);
    put_le(&mut b, 320, 100, 2);
    put_le(&mut b, 512, 0x66, 1);
    put_le(&mut b, 513, 0x44, 1);
    put_le(&mut b, 514, port.io_queue_size as u64, 2);
    let (sgls, inline): (u64, u32) = match port.trtype {
        TransportType::Tcp => (0x1, port.inline_data_size),
        TransportType::Rdma => (0x10_0005, RDMA_INLINE_DATA_SIZE),
    };
    put_le(&mut b, 536, sgls, 4);
    store(&mut b, 768, nul_terminate(nqn).as_slice());
    assert(b@ == id_ctrl_common(*port, *admin, deref(sub)));
    if admin.discovery {
        put_le(&mut b, 111, 2, 1);
    } else {
        put_le(&mut b, 111, 1, 1);
        put_le(&mut b, 76, 2, 1);
        let ctratt: u64 = match port.trtype {
            TransportType::Tcp => CTRATT_TBKAS,
            TransportType::Rdma => 0,
        };
        put_le(&mut b, 96, ctratt, 4);
        let nn: u32 = match sub {
            Some(s) => s.max_nsid(),
            None => 0,
        };
        put_le(&mut b, 516, nn as u64, 4);
        put_le(&mut b, 520, 0xC, 2);
        put_le(&mut b, 525, 1, 1);
        put_le(&mut b, 1792, (64 + inline as u64) / 16, 4);
        put_le(&mut b, 1796, 1, 4);
    }
    b
}

/// What an optional reference refers to.
pub open spec fn deref(o: Option<&Subsystem>) -> Option<Subsystem> {
    match o {
        Some(s) => Some(*s),
        None => None,
    }
}

/// Identify Namespace: a shared namespace whose deallocated blocks read zeroes.
pub open spec fn id_ns(ns: Namespace) -> Seq<u8> {
    let b0 = crate::wire::zeros(PAGE_BYTES as nat);
    let b1 = with_le(b0, 0, ns.blocks as int, 8);
    let b2 = with_le(b1, 8, ns.blocks as int, 8);
    let b3 = with_le(b2, 16, ns.blocks as int, 8);
    let b4 = with_le(b3, 30, 1, 1);
    let b5 = with_le(b4, 33, 1, 1);
    with_le(b5, 130, ns.block_shift as int, 1)
}

/// Build Identify Namespace.
pub fn build_id_ns(ns: &Namespace) -> (v: Vec<u8>)
    ensures
        v@ == id_ns(*ns),
        v@.len() == PAGE_BYTES,
{
    let mut b: Vec<u8> = Vec::new();
    push_zeros(&mut b, PAGE_BYTES);
    assert(b@ =~= crate::wire::zeros(PAGE_BYTES as nat));
    put_le(&mut b, 0, ns.blocks, 8);
    put_le(&mut b, 8, ns.blocks, 8);
    put_le(&mut b, 16, ns.blocks, 8);
    put_le(&mut b, 30, 1, 1);
    put_le(&mut b, 33, 1, 1);
    put_le(&mut b, 130, ns.block_shift as u64, 1);
    b
}

/// The namespace ids above `start` among the first `n` namespaces.
pub open spec fn nsids_above(nss: Seq<Namespace>, start: u32, n: int) -> Seq<u32>
    decreases n,
{
    if n <= 0 {
        seq![]
    } else if nss[n - 1].nsid > start {
        nsids_above(nss, start, n - 1).push(nss[n - 1].nsid)
    } else {
        nsids_above(nss, start, n - 1)
    }
}

/// The namespace list: the ids, four bytes each, as many as a page holds.
pub open spec fn ns_list_page(ids: Seq<u32>) -> Seq<u8> {
    Seq::new(
        PAGE_BYTES as nat,
        |i: int|
            if i / 4 < ids.len() {
                crate::wire::le_bytes(ids[i / 4] as int, 4)[i % 4]
            } else {
                0u8
            },
    )
}

fn build_ns_list(sub: Option<&Subsystem>, start: u32) -> (v: Vec<u8>)
    ensures
        v@ == ns_list_page(
            (match sub {
                Some(s) => nsids_above(s.namespaces@, start, s.namespaces@.len() as int),
                None => seq![],
            }),
        ),
        v@.len() == PAGE_BYTES,
{
    let mut ids: Vec<u32> = Vec::new();
    match sub {
        Some(s) => {
            let mut i: usize = 0;
            while i < s.namespaces.len()
                invariant
                    i <= s.namespaces@.len(),
                    ids@ == nsids_above(s.namespaces@, start, i as int),
                decreases s.namespaces@.len() - i,
            {
                if s.namespaces[i].nsid > start {
                    ids.push(s.namespaces[i].nsid);
                }
                i += 1;
            }
        },
        None => {
            assert(ids@ =~= seq![]);
        },
    }
    let mut v: Vec<u8> = Vec::with_capacity(PAGE_BYTES);
    let mut k: usize = 0;
    while k < 1024
        invariant
            k <= 1024,
            v@.len() == k * 4,
            forall|i: int| 0 <= i < k * 4 ==> v@[i] == ns_list_page(ids@)[i],
        decreases 1024 - k,
    {
        let ghost pre = v@;
        if k < ids.len() {
            push_le(&mut v, ids[k] as u64, 4);
            proof {
                crate::wire::lemma_le_len(ids@[k as int] as int, 4);
            }
        } else {
            push_zeros(&mut v, 4);
        }
        assert forall|i: int| 0 <= i < (k + 1) * 4 implies v@[i] == ns_list_page(ids@)[i] by {
            if i >= k * 4 {
                assert(i / 4 == k && i % 4 == i - k * 4);
            } else {
                assert(v@[i] == pre[i]);
            }
        }
        k += 1;
    }
    assert(v@ =~= ns_list_page(ids@));
    v
}

/// The namespace identification descriptors: the UUID.
pub open spec fn ns_desc_page(uuid: Seq<u8>) -> Seq<u8> {
    let b0 = crate::wire::zeros(PAGE_BYTES as nat);
    let b1 = with_le(b0, 0, 3, 1);
    let b2 = with_le(b1, 1, 16, 1);
    crate::wire::put(b2, 4, uuid)
}

fn build_ns_desc(uuid: &[u8; 16]) -> (v: Vec<u8>)
    ensures
        v@ == ns_desc_page(uuid@),
        v@.len() == PAGE_BYTES,
{
    let mut b: Vec<u8> = Vec::new();
    push_zeros(&mut b, PAGE_BYTES);
    assert(b@ =~= crate::wire::zeros(PAGE_BYTES as nat));
    put_le(&mut b, 0, 3, 1);
    put_le(&mut b, 1, 16, 1);
    store(&mut b, 4, uuid.as_slice());
    b
}

/// The reply is this status.
pub open spec fn is_status(r: AdminReply, result: u32, status: u16) -> bool {
    r == (AdminReply::Status { result, status })
}

/// The reply is this data.
pub open spec fn is_data(r: AdminReply, data: Seq<u8>) -> bool {
    r matches AdminReply::Data { data: d } && d@ == data
}

/// The reply to Identify.
pub open spec fn identified(
    port: PortConfig,
    admin: AdminState,
    sub: Option<Subsystem>,
    sqe: Sqe,
    r: AdminReply,
) -> bool {
    let cns = sqe.spec_cdw(10) % 0x100;
    let nsid = sqe.spec_nsid();
    let no_ns = is_status(r, 0, (SC_INVALID_NS + SC_DNR) as u16);
    if cns == 1 {
        is_data(r, id_ctrl(port, admin, sub))
    } else if cns == 0 {
        match sub {
            None => no_ns,
            Some(s) => if crate::subsystem::has_nsid(s.namespaces@, nsid) {
                exists|ns: Namespace| #[trigger]
                    s.namespaces@.contains(ns) && ns.nsid == nsid && is_data(r, id_ns(ns))
            } else if nsid <= crate::subsystem::top_nsid(s.namespaces@) {
                is_data(r, crate::wire::zeros(PAGE_BYTES as nat))
            } else {
                no_ns
            },
        }
    } else if cns == 2 {
        is_data(
            r,
            ns_list_page(
                (match sub {
                    Some(s) => nsids_above(s.namespaces@, nsid, s.namespaces@.len() as int),
                    None => seq![],
                }),
            ),
        )
    } else if cns == 3 {
        match sub {
            None => no_ns,
            Some(s) => if crate::subsystem::has_nsid(s.namespaces@, nsid) {
                exists|ns: Namespace| #[trigger]
                    s.namespaces@.contains(ns) && ns.nsid == nsid && is_data(
                        r,
                        ns_desc_page(ns.uuid@),
                    )
            } else {
                no_ns
            },
        }
    } else {
        is_status(r, 0, (SC_INVALID_FIELD + SC_DNR) as u16)
    }
}

/// Identify.
pub fn identify(port: &PortConfig, admin: &AdminState, sub: Option<&Subsystem>, sqe: &Sqe) -> (r:
    AdminReply)
    requires
        sub matches Some(s) ==> s.wf(),
    ensures
        identified(*port, *admin, deref(sub), *sqe, r),
{
    let cns: u32 = sqe.cdw(10) % 0x100;
    let nsid: u32 = sqe.nsid();
    if cns == 1 {
        AdminReply::Data { data: build_id_ctrl(port, admin, sub) }
    } else if cns == 0 {
        match sub {
            None => AdminReply::Status { result: 0, status: SC_INVALID_NS + SC_DNR },
            Some(s) => match s.namespace(nsid) {
                Some(ns) => {
                    proof {
                        let i = choose|i: int| 0 <= i < s.namespaces@.len() && s.namespaces@[i] == ns;
                        assert(s.namespaces@[i].nsid == nsid);
                    }
                    AdminReply::Data { data: build_id_ns(&ns) }
                },
                None => if nsid <= s.max_nsid() {
                    let mut data: Vec<u8> = Vec::new();
                    push_zeros(&mut data, PAGE_BYTES);
                    assert(data@ =~= crate::wire::zeros(PAGE_BYTES as nat));
                    AdminReply::Data { data }
                } else {
                    AdminReply::Status { result: 0, status: SC_INVALID_NS + SC_DNR }
                },
            },
        }
    } else if cns == 2 {
        AdminReply::Data { data: build_ns_list(sub, nsid) }
    } else if cns == 3 {
        match sub {
            None => AdminReply::Status { result: 0, status: SC_INVALID_NS + SC_DNR },
            Some(s) => match s.namespace(nsid) {
                Some(ns) => {
                    proof {
                        let i = choose|i: int| 0 <= i < s.namespaces@.len() && s.namespaces@[i] == ns;
                        assert(s.namespaces@[i].nsid == nsid);
                    }
                    AdminReply::Data { data: build_ns_desc(&ns.uuid) }
                },
                None => AdminReply::Status { result: 0, status: SC_INVALID_NS + SC_DNR },
            },
        }
    } else {
        AdminReply::Status { result: 0, status: SC_INVALID_FIELD + SC_DNR }
    }
}

/// IO queues the controller may use, less one.
pub open spec fn queues_offered(sub: Option<Subsystem>) -> int {
    match sub {
        Some(s) => if s.max_qid == 0 {
            0
        } else {
            s.max_qid - 1
        },
        None => 0,
    }
}

fn offered(sub: Option<&Subsystem>) -> (n: u32)
    ensures
        n == queues_offered(deref(sub)),
        n < 0x1_0000,
{
    match sub {
        Some(s) => if s.max_qid == 0 {
            0
        } else {
            (s.max_qid - 1) as u32
        },
        None => 0,
    }
}

/// The reply to Get Features.
pub open spec fn features_got(admin: AdminState, sub: Option<Subsystem>, sqe: Sqe, r: AdminReply) -> bool {
    let fid = sqe.spec_cdw(10) % 0x100;
    if fid == FEAT_NUM_QUEUES {
        is_status(r, (queues_offered(sub) * 0x1_0001) as u32, SC_SUCCESS)
    } else if fid == FEAT_KATO {
        is_status(r, admin.kato_ms, SC_SUCCESS)
    } else if fid == FEAT_ASYNC_EVENT {
        is_status(r, admin.aec, SC_SUCCESS)
    } else if fid == FEAT_VOLATILE_WC && !admin.discovery {
        is_status(r, 1, SC_SUCCESS)
    } else {
        is_status(r, 0, (SC_INVALID_FIELD + SC_DNR) as u16)
    }
}

/// Get Features.
pub fn get_features(admin: &AdminState, sub: Option<&Subsystem>, sqe: &Sqe) -> (r: AdminReply)
    ensures
        features_got(*admin, deref(sub), *sqe, r),
{
    let fid: u32 = sqe.cdw(10) % 0x100;
    if fid == FEAT_NUM_QUEUES as u32 {
        AdminReply::Status { result: offered(sub) * 0x1_0001, status: SC_SUCCESS }
    } else if fid == FEAT_KATO as u32 {
        AdminReply::Status { result: admin.kato_ms, status: SC_SUCCESS }
    } else if fid == FEAT_ASYNC_EVENT as u32 {
        AdminReply::Status { result: admin.aec, status: SC_SUCCESS }
    } else if fid == FEAT_VOLATILE_WC as u32 && !admin.discovery {
        AdminReply::Status { result: 1, status: SC_SUCCESS }
    } else {
        AdminReply::Status { result: 0, status: SC_INVALID_FIELD + SC_DNR }
    }
}

/// The reply to Set Features, and what it changes.
pub open spec fn features_set(
    pre: AdminState,
    post: AdminState,
    sub: Option<Subsystem>,
    sqe: Sqe,
    r: AdminReply,
) -> bool {
    let fid = sqe.spec_cdw(10) % 0x100;
    let value = sqe.spec_cdw(11);
    if fid == FEAT_NUM_QUEUES {
        let asked = (value % 0x1_0000) as int;
        let granted = if asked < queues_offered(sub) {
            asked
        } else {
            queues_offered(sub)
        };
        post == pre && is_status(r, (granted * 0x1_0001) as u32, SC_SUCCESS)
    } else if fid == FEAT_KATO {
        post == (AdminState { kato_ms: value, ..pre }) && is_status(r, 0, SC_SUCCESS)
    } else if fid == FEAT_ASYNC_EVENT {
        post == (AdminState { aec: value, ..pre }) && is_status(r, 0, SC_SUCCESS)
    } else if fid == FEAT_HOST_ID {
        post == pre && is_status(r, 0, SC_SUCCESS)
    } else {
        post == pre && is_status(r, 0, (SC_FEATURE_NOT_CHANGEABLE + SC_DNR) as u16)
    }
}

/// Set Features.
pub fn set_features(admin: &mut AdminState, sub: Option<&Subsystem>, sqe: &Sqe) -> (r: AdminReply)
    ensures
        features_set(*old(admin), *final(admin), deref(sub), *sqe, r),
{
    let fid: u32 = sqe.cdw(10) % 0x100;
    let value: u32 = sqe.cdw(11);
    if fid == FEAT_NUM_QUEUES as u32 {
        let asked: u32 = value % 0x1_0000;
        let most: u32 = offered(sub);
        let granted: u32 = if asked < most {
            asked
        } else {
            most
        };
        AdminReply::Status { result: granted * 0x1_0001, status: SC_SUCCESS }
    } else if fid == FEAT_KATO as u32 {
        admin.kato_ms = value;
        AdminReply::Status { result: 0, status: SC_SUCCESS }
    } else if fid == FEAT_ASYNC_EVENT as u32 {
        admin.aec = value;
        AdminReply::Status { result: 0, status: SC_SUCCESS }
    } else if fid == FEAT_HOST_ID as u32 {
        AdminReply::Status { result: 0, status: SC_SUCCESS }
    } else {
        AdminReply::Status { result: 0, status: SC_FEATURE_NOT_CHANGEABLE + SC_DNR }
    }
}

/// What Set Features sets, Get Features gets.
pub proof fn set_then_get(
    pre: AdminState,
    post: AdminState,
    sub: Option<Subsystem>,
    set: Sqe,
    get: Sqe,
    r: AdminReply,
    got: AdminReply,
)
    requires
        features_set(pre, post, sub, set, r),
        features_got(post, sub, get, got),
        set.spec_cdw(10) % 0x100 == get.spec_cdw(10) % 0x100,
        set.spec_cdw(10) % 0x100 == FEAT_KATO || set.spec_cdw(10) % 0x100 == FEAT_ASYNC_EVENT,
    ensures
        is_status(got, set.spec_cdw(11), SC_SUCCESS),
{
}

/// An entry of the discovery log.
pub open spec fn log_entry(port: PortConfig, i: int, nqn: Seq<char>) -> Seq<u8> {
    let b0 = crate::wire::zeros(LOG_ENTRY as nat);
    let b1 = with_le(b0, 0, port.trtype.spec_code() as int, 1);
    let b2 = with_le(b1, 1, 1, 1);
    let b3 = with_le(b2, 2, 2, 1);
    let b4 = with_le(
        b3,
        4,
        if i <= u16::MAX {
            i
        } else {
            0
        },
        2,
    );
    let b5 = with_le(b4, 6, 0xFFFF, 2);
    let b6 = with_le(b5, 8, 32, 2);
    let b7 = crate::wire::put(b6, 32, padded(bytes(port.trsvcid@), 32, 0x20));
    let b8 = crate::wire::put(b7, 256, nul_ended(bytes(nqn)));
    crate::wire::put(b8, 512, padded(bytes(port.traddr@), 256, 0x20))
}

fn build_log_entry(port: &PortConfig, i: usize, nqn: &str) -> (v: Vec<u8>)
    ensures
        v@ == log_entry(*port, i as int, nqn@),
        v@.len() == LOG_ENTRY,
{
    let mut b: Vec<u8> = Vec::new();
    push_zeros(&mut b, LOG_ENTRY);
    assert(b@ =~= crate::wire::zeros(LOG_ENTRY as nat));
    put_le(&mut b, 0, port.trtype.trtype() as u64, 1);
    put_le(&mut b, 1, 1, 1);
    put_le(&mut b, 2, 2, 1);
    let id: u64 = if i <= u16::MAX as usize {
        i as u64
    } else {
        0
    };
    put_le(&mut b, 4, id, 2);
    put_le(&mut b, 6, 0xFFFF, 2);
    put_le(&mut b, 8, 32, 2);
    store(&mut b, 32, ascii_pad(port.trsvcid.as_str(), 32).as_slice());
    store(&mut b, 256, nul_terminate(nqn).as_slice());
    store(&mut b, 512, ascii_pad(port.traddr.as_str(), 256).as_slice());
    b
}

/// The header of the discovery log.
pub open spec fn log_header(n: int) -> Seq<u8> {
    let b0 = crate::wire::zeros(LOG_ENTRY as nat);
    let b1 = with_le(b0, 0, 1, 8);
    with_le(b1, 8, n, 8)
}

/// The discovery log with the entries of the first `n` subsystems.
pub open spec fn log_upto(port: PortConfig, n: int) -> Seq<u8>
    decreases n,
{
    if n <= 0 {
        log_header(port.subsystems@.len() as int)
    } else {
        log_upto(port, n - 1) + log_entry(port, n - 1, port.subsystems@[n - 1].nqn@)
    }
}

/// The discovery log: a header and an entry for each subsystem on the port.
pub open spec fn discovery_log(port: PortConfig) -> Seq<u8> {
    log_upto(port, port.subsystems@.len() as int)
}

/// Build the discovery log.
pub fn build_discovery_log(port: &PortConfig) -> (log: Vec<u8>)
    ensures
        log@ == discovery_log(*port),
{
    let mut log: Vec<u8> = Vec::new();
    push_zeros(&mut log, LOG_ENTRY);
    assert(log@ =~= crate::wire::zeros(LOG_ENTRY as nat));
    let n: usize = port.subsystems.len();
    put_le(&mut log, 0, 1, 8);
    put_le(&mut log, 8, n as u64, 8);
    let mut i: usize = 0;
    while i < n
        invariant
            i <= n,
            n == port.subsystems@.len(),
            log@ == log_upto(*port, i as int),
        decreases n - i,
    {
        let mut entry = build_log_entry(port, i, port.subsystems[i].nqn.as_str());
        log.append(&mut entry);
        i += 1;
    }
    log
}

/// The bytes of a log page a command asks for.
pub open spec fn log_len(sqe: Sqe) -> int {
    ((sqe.spec_cdw(11) % 0x1_0000) * 0x1_0000 + sqe.spec_cdw(10) / 0x1_0000 + 1) * 4
}

/// Where in a log page a command starts.
pub open spec fn log_offset(sqe: Sqe) -> int {
    sqe.spec_cdw(13) * 0x1_0000_0000 + sqe.spec_cdw(12)
}

/// The part of a log a command asks for.
pub open spec fn window(log: Seq<u8>, off: int, len: int) -> Seq<u8> {
    let end = if off + len < log.len() {
        off + len
    } else {
        log.len() as int
    };
    let start = if off < end {
        off
    } else {
        end
    };
    log.subrange(start, end)
}

/// The changed-namespaces page: all ones in the first entry say that more
/// changed than fits.
pub open spec fn changed_page(changed: bool) -> Seq<u8> {
    let b = crate::wire::zeros(PAGE_BYTES as nat);
    if changed {
        with_le(b, 0, 0xFFFF_FFFF, 4)
    } else {
        b
    }
}

/// A page cut to what a command asks for.
pub open spec fn page_part(page: Seq<u8>, len: int) -> Seq<u8> {
    page.subrange(
        0,
        if len < PAGE_BYTES {
            len
        } else {
            PAGE_BYTES as int
        },
    )
}

/// The reply to Get Log Page. Reading the changed-namespaces page clears it.
pub open spec fn log_got(
    pre: AdminState,
    post: AdminState,
    port: PortConfig,
    sqe: Sqe,
    r: AdminReply,
) -> bool {
    let lid = sqe.spec_cdw(10) % 0x100;
    if lid == LOG_DISCOVERY && pre.discovery {
        post == pre && is_data(r, window(discovery_log(port), log_offset(sqe), log_len(sqe)))
    } else if lid == LOG_CHANGED_NS {
        post == (AdminState { ns_changed: false, ..pre }) && is_data(
            r,
            page_part(changed_page(pre.ns_changed), log_len(sqe)),
        )
    } else if 1 <= lid <= 3 {
        post == pre && is_data(
            r,
            page_part(crate::wire::zeros(PAGE_BYTES as nat), log_len(sqe)),
        )
    } else {
        post == pre && is_status(r, 0, (SC_INVALID_LOG_PAGE + SC_DNR) as u16)
    }
}

/// Get Log Page.
pub fn get_log_page(admin: &mut AdminState, port: &PortConfig, sqe: &Sqe) -> (r: AdminReply)
    ensures
        log_got(*old(admin), *final(admin), *port, *sqe, r),
{
    let lid: u32 = sqe.cdw(10) % 0x100;
    let numdl: u64 = (sqe.cdw(10) / 0x1_0000) as u64;
    let numdu: u64 = (sqe.cdw(11) % 0x1_0000) as u64;
    let len: u64 = (numdu * 0x1_0000 + numdl + 1) * 4;
    let offset: u64 = sqe.cdw(13) as u64 * 0x1_0000_0000 + sqe.cdw(12) as u64;
    if lid == LOG_DISCOVERY as u32 && admin.discovery {
        let log = build_discovery_log(port);
        let n: usize = log.len();
        let end: usize = if offset < n as u64 && len < n as u64 - offset {
            (offset + len) as usize
        } else {
            n
        };
        let start: usize = if offset < end as u64 {
            offset as usize
        } else {
            end
        };
        let data = vstd::slice::slice_to_vec(
            vstd::slice::slice_subrange(log.as_slice(), start, end),
        );
        AdminReply::Data { data }
    } else if lid == LOG_CHANGED_NS as u32 {
        let mut page: Vec<u8> = Vec::new();
        push_zeros(&mut page, PAGE_BYTES);
        assert(page@ =~= crate::wire::zeros(PAGE_BYTES as nat));
        if admin.ns_changed {
            put_le(&mut page, 0, 0xFFFF_FFFF, 4);
        }
        admin.ns_changed = false;
        let take: usize = if len < PAGE_BYTES as u64 {
            len as usize
        } else {
            PAGE_BYTES
        };
        let data = vstd::slice::slice_to_vec(
            vstd::slice::slice_subrange(page.as_slice(), 0, take),
        );
        AdminReply::Data { data }
    } else if 1 <= lid && lid <= 3 {
        let take: usize = if len < PAGE_BYTES as u64 {
            len as usize
        } else {
            PAGE_BYTES
        };
        let mut data: Vec<u8> = Vec::new();
        push_zeros(&mut data, take);
        assert(data@ =~= page_part(crate::wire::zeros(PAGE_BYTES as nat), len as int));
        AdminReply::Data { data }
    } else {
        AdminReply::Status { result: 0, status: SC_INVALID_LOG_PAGE + SC_DNR }
    }
}

/// The reply to an async event request: the oldest event, nothing while there
/// is none, and an empty event once the connection is going down.
pub open spec fn event_polled(pre: AdminState, post: AdminState, r: AdminReply) -> bool {
    if pre.closing {
        post == pre && is_status(r, 0, SC_SUCCESS)
    } else if pre.events@.len() > 0 {
        &&& is_status(r, pre.events@[0], SC_SUCCESS)
        &&& post.events@ == pre.events@.subrange(1, pre.events@.len() as int)
        &&& post == (AdminState { events: post.events, ..pre })
    } else {
        post == pre && r is Parked
    }
}

/// Look for an event to report.
pub fn poll_event(admin: &mut AdminState) -> (r: AdminReply)
    ensures
        event_polled(*old(admin), *final(admin), r),
{
    if admin.closing {
        return AdminReply::Status { result: 0, status: SC_SUCCESS };
    }
    if admin.events.len() == 0 {
        return AdminReply::Parked;
    }
    match admin.events.pop_front() {
        Some(event) => AdminReply::Status { result: event, status: SC_SUCCESS },
        None => AdminReply::Parked,
    }
}

/// The event that tells a host that the namespaces changed.
pub const EVENT_NS_ATTR: u32 = 0x0004_0002;

/// Note that the namespaces changed: an event for the host, and an entry in the
/// log page it reads next.
pub open spec fn ns_noted(pre: AdminState, post: AdminState) -> bool {
    &&& post.events@ == pre.events@.push(EVENT_NS_ATTR)
    &&& post == (AdminState { events: post.events, ns_changed: true, ..pre })
}

/// Note that the namespaces changed.
pub fn note_ns_changed(admin: &mut AdminState)
    ensures
        ns_noted(*old(admin), *final(admin)),
{
    admin.ns_changed = true;
    admin.events.push_back(EVENT_NS_ATTR);
}

/// A namespace change reaches the host: the event request of a host that is
/// owed no other event is answered with it, the log page it then reads names
/// the change, and reads as unchanged after that.
pub proof fn change_is_reported(
    before: AdminState,
    noted: AdminState,
    polled: AdminState,
    read: AdminState,
    again: AdminState,
    port: PortConfig,
    sqe: Sqe,
    event: AdminReply,
    page: AdminReply,
    next: AdminReply,
)
    requires
        !before.closing,
        before.events@.len() == 0,
        sqe.spec_cdw(10) % 0x100 == LOG_CHANGED_NS,
        ns_noted(before, noted),
        event_polled(noted, polled, event),
        log_got(polled, read, port, sqe, page),
        log_got(read, again, port, sqe, next),
    ensures
        is_status(event, EVENT_NS_ATTR, SC_SUCCESS),
        is_data(page, page_part(changed_page(true), log_len(sqe))),
        is_data(next, page_part(changed_page(false), log_len(sqe))),
{
}

/// The reply to an admin command.
pub open spec fn executed(
    pre: AdminState,
    post: AdminState,
    port: PortConfig,
    sub: Option<Subsystem>,
    sqe: Sqe,
    r: AdminReply,
) -> bool {
    let op = sqe.spec_opcode();
    if op == IDENTIFY {
        post == pre && identified(port, pre, sub, sqe, r)
    } else if op == GET_FEATURES {
        post == pre && features_got(pre, sub, sqe, r)
    } else if op == SET_FEATURES {
        features_set(pre, post, sub, sqe, r)
    } else if op == GET_LOG_PAGE {
        log_got(pre, post, port, sqe, r)
    } else if op == KEEP_ALIVE {
        post == pre && is_status(r, 0, SC_SUCCESS)
    } else if op == ASYNC_EVENT {
        event_polled(pre, post, r)
    } else {
        post == pre && is_status(r, 0, (SC_INVALID_OPCODE + SC_DNR) as u16)
    }
}

/// Execute an admin command.
pub fn execute(
    admin: &mut AdminState,
    port: &PortConfig,
    sub: Option<&Subsystem>,
    sqe: &Sqe,
) -> (r: AdminReply)
    requires
        sub matches Some(s) ==> s.wf(),
    ensures
        executed(*old(admin), *final(admin), *port, deref(sub), *sqe, r),
{
    let op: u8 = sqe.opcode();
    if op == IDENTIFY {
        identify(port, admin, sub, sqe)
    } else if op == GET_FEATURES {
        get_features(admin, sub, sqe)
    } else if op == SET_FEATURES {
        set_features(admin, sub, sqe)
    } else if op == GET_LOG_PAGE {
        get_log_page(admin, port, sqe)
    } else if op == KEEP_ALIVE {
        AdminReply::Status { result: 0, status: SC_SUCCESS }
    } else if op == ASYNC_EVENT {
        poll_event(admin)
    } else {
        AdminReply::Status { result: 0, status: SC_INVALID_OPCODE + SC_DNR }
    }
}

/// `data`, cut to `max` bytes.
pub open spec fn capped(data: Seq<u8>, max: int) -> Seq<u8> {
    if data.len() <= max {
        data
    } else {
        data.subrange(0, max)
    }
}

/// `data` was put at the front of a fresh buffer of slot `tag`.
pub open spec fn slot_filled<T: TransportStats>(
    pre: QueueCore<Sqe, T>,
    post: QueueCore<Sqe, T>,
    tag: u16,
    data: Seq<u8>,
) -> bool {
    &&& post == (QueueCore { slots: post.slots, ..pre })
    &&& exists|mid: crate::slotq::SlotArray<Sqe>|
        #![trigger crate::slotq::slot_written(mid, post.slots, tag, 0, data)]
        crate::slotq::lease_made(
            pre.slots,
            mid,
            tag,
            if data.len() == 0 {
                1
            } else {
                data.len() as int
            },
        ) && crate::slotq::slot_written(mid, post.slots, tag, 0, data)
}

/// Put `data`, cut to `max` bytes, into a fresh buffer of the slot.
pub fn fill_slot<T: TransportStats>(
    q: &mut QueueCore<Sqe, T>,
    tag: u16,
    data: &Vec<u8>,
    max: usize,
) -> (n: u32)
    requires
        old(q).wf(),
        tag < old(q).sqsize,
        max <= u32::MAX - crate::pool::PAGE,
    ensures
        final(q).wf(),
        n == capped(data@, max as int).len(),
        slot_filled(*old(q), *final(q), tag, capped(data@, max as int)),
{
    let n: usize = if data.len() <= max {
        data.len()
    } else {
        max
    };
    let want: usize = if n == 0 {
        1
    } else {
        n
    };
    q.slots.lease_or_owned(tag, want);
    let ghost mid = q.slots;
    let src = vstd::slice::slice_subrange(data.as_slice(), 0, n);
    assert(src@ =~= capped(data@, max as int));
    q.slots.write_slot(tag, 0, src);
    assert(crate::slotq::slot_written(mid, q.slots, tag, 0, capped(data@, max as int)));
    n as u32
}

/// The completion of command `cid` on a queue.
pub open spec fn completion<T: TransportStats>(
    q: QueueCore<Sqe, T>,
    result: u32,
    cid: u16,
    status: u16,
) -> Cqe {
    Cqe { result, sqhd: q.head_after(), sqid: q.qid, cid, status }
}

/// The queue after it reported a completion.
pub open spec fn head_moved<T: TransportStats>(q: QueueCore<Sqe, T>) -> QueueCore<Sqe, T> {
    QueueCore {
        sqhd: if q.sqhd_disabled {
            q.sqhd
        } else {
            q.head_after()
        },
        ..q
    }
}

/// A command on `tag` was completed with its reply.
pub open spec fn finished<T: TransportStats>(
    pre: QueueCore<Sqe, T>,
    post: QueueCore<Sqe, T>,
    tag: u16,
    sqe: Sqe,
    reply: AdminReply,
    max: usize,
    r: Option<Outcome>,
) -> bool {
    match reply {
        AdminReply::Parked => r is None && post == pre,
        AdminReply::Status { result, status } => {
            &&& r == Some(
                Outcome { cqe: completion(pre, result, sqe.spec_cid(), status), data_len: 0 },
            )
            &&& post == head_moved(pre)
        },
        AdminReply::Data { data } => {
            &&& r == Some(
                Outcome {
                    cqe: completion(pre, 0, sqe.spec_cid(), SC_SUCCESS),
                    data_len: capped(data@, max as int).len() as u32,
                },
            )
            &&& slot_filled(head_moved(pre), post, tag, capped(data@, max as int))
        },
    }
}

/// Complete a command on `tag` with its reply: its data goes into the slot's
/// buffer. Nothing while the command waits.
pub fn finish<T: TransportStats>(
    q: &mut QueueCore<Sqe, T>,
    tag: u16,
    sqe: &Sqe,
    reply: &AdminReply,
    max: usize,
) -> (r: Option<Outcome>)
    requires
        old(q).wf(),
        tag < old(q).sqsize,
        max <= u32::MAX - crate::pool::PAGE,
    ensures
        final(q).wf(),
        finished(*old(q), *final(q), tag, *sqe, *reply, max, r),
{
    match reply {
        AdminReply::Parked => None,
        AdminReply::Status { result, status } => {
            let head: u16 = q.advance_sqhd();
            Some(Outcome::status(Cqe::new(*result, head, q.qid, sqe.cid(), *status)))
        },
        AdminReply::Data { data } => {
            let head: u16 = q.advance_sqhd();
            let n: u32 = fill_slot(q, tag, data, max);
            Some(Outcome::with_data(Cqe::new(0, head, q.qid, sqe.cid(), SC_SUCCESS), n))
        },
    }
}

} // verus!
