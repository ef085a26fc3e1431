//! What a host reads out of the replies to its admin commands, byte by byte.
//! Commands and replies are taken by the protocol's layout alone.

use vstd::prelude::*;

use crate::admin::{self, AdminReply, AdminState};
use crate::nvme::{Outcome, Sqe};
use crate::port::PortConfig;
use crate::queue::{QueueCore, TransportStats};
use crate::slotq::{self, SlotArray};
use crate::subsystem::{self, Namespace, Subsystem};
use crate::wire;

verus! {

/// The `n` bytes at `off` are `text`, cut to them, with spaces behind.
pub open spec fn spaced(b: Seq<u8>, off: int, n: int, text: Seq<u8>) -> bool {
    forall|i: int|
        off <= i < off + n ==> #[trigger] b[i] == (if i - off < text.len() {
            text[i - off]
        } else {
            0x20
        })
}

/// The 256 bytes at `off` are `text`, cut to 255 of them, with zeros behind.
pub open spec fn ended(b: Seq<u8>, off: int, text: Seq<u8>) -> bool {
    forall|i: int|
        off <= i < off + 256 ==> #[trigger] b[i] == (if i - off < text.len() && i - off < 255 {
            text[i - off]
        } else {
            0
        })
}

/// `post` is `pre` but for the bytes from `off` up to `end`.
pub open spec fn same_but(pre: Seq<u8>, post: Seq<u8>, off: int, end: int) -> bool {
    &&& post.len() == pre.len()
    &&& forall|i: int| 0 <= i < pre.len() && !(off <= i < end) ==> #[trigger] post[i] == pre[i]
}

proof fn lemma_put(b: Seq<u8>, off: int, src: Seq<u8>)
    requires
        0 <= off,
        off + src.len() <= b.len(),
    ensures
        same_but(b, wire::put(b, off, src), off, off + src.len()),
        forall|i: int|
            off <= i < off + src.len() ==> #[trigger] wire::put(b, off, src)[i] == src[i
                - off],
{
}

proof fn lemma_byte(b: Seq<u8>, off: int, v: int)
    requires
        0 <= off < b.len(),
        0 <= v < 0x100,
    ensures
        same_but(b, admin::with_le(b, off, v, 1), off, off + 1),
        admin::with_le(b, off, v, 1)[off] == v,
{
    reveal(admin::with_le);
    reveal_with_fuel(wire::le_bytes, 2);
    lemma_put(b, off, wire::le_bytes(v, 1));
}

proof fn lemma_word(b: Seq<u8>, off: int, v: int)
    requires
        0 <= off,
        off + 2 <= b.len(),
        0 <= v < 0x1_0000,
    ensures
        same_but(b, admin::with_le(b, off, v, 2), off, off + 2),
        wire::le16_at(admin::with_le(b, off, v, 2), off) == v,
{
    reveal(admin::with_le);
    wire::lemma_le2(v);
    lemma_put(b, off, wire::le_bytes(v, 2));
}

proof fn lemma_dword(b: Seq<u8>, off: int, v: int)
    requires
        0 <= off,
        off + 4 <= b.len(),
        0 <= v < 0x1_0000_0000,
    ensures
        same_but(b, admin::with_le(b, off, v, 4), off, off + 4),
        wire::le32_at(admin::with_le(b, off, v, 4), off) == v,
{
    reveal(admin::with_le);
    wire::lemma_le4(v);
    lemma_put(b, off, wire::le_bytes(v, 4));
}

proof fn lemma_qword(b: Seq<u8>, off: int, v: int)
    requires
        0 <= off,
        off + 8 <= b.len(),
        0 <= v < 0x1_0000_0000_0000_0000,
    ensures
        same_but(b, admin::with_le(b, off, v, 8), off, off + 8),
        wire::le64_at(admin::with_le(b, off, v, 8), off) == v,
{
    reveal(admin::with_le);
    wire::lemma_le8(v);
    lemma_put(b, off, wire::le_bytes(v, 8));
}

/// Identify Namespace as the host reads it: size, capacity and use are the
/// blocks there are, of the namespace's block size; the namespace is shared, its
/// deallocated blocks read as zeros, and nothing else is said.
pub open spec fn tells_namespace(b: Seq<u8>, ns: Namespace) -> bool {
    &&& b.len() == 4096
    &&& wire::le64_at(b, 0) == ns.blocks
    &&& wire::le64_at(b, 8) == ns.blocks
    &&& wire::le64_at(b, 16) == ns.blocks
    &&& b[30] == 1
    &&& b[33] == 1
    &&& b[130] == ns.block_shift
    &&& forall|i: int|
        24 <= i < 4096 && i != 30 && i != 33 && i != 130 ==> #[trigger] b[i] == 0
}

proof fn lemma_id_ns(ns: Namespace)
    ensures
        tells_namespace(admin::id_ns(ns), ns),
{
    let b0 = wire::zeros(4096);
    let n = ns.blocks as int;
    let b1 = admin::with_le(b0, 0, n, 8);
    lemma_qword(b0, 0, n);
    let b2 = admin::with_le(b1, 8, n, 8);
    lemma_qword(b1, 8, n);
    let b3 = admin::with_le(b2, 16, n, 8);
    lemma_qword(b2, 16, n);
    let b4 = admin::with_le(b3, 30, 1, 1);
    lemma_byte(b3, 30, 1);
    let b5 = admin::with_le(b4, 33, 1, 1);
    lemma_byte(b4, 33, 1);
    lemma_byte(b5, 130, ns.block_shift as int);
}

/// The command has this opcode, and this byte at the front of its tenth dword,
/// which selects what is asked.
pub open spec fn asks(sqe: Sqe, opcode: int, selector: int) -> bool {
    sqe.bytes@[0] == opcode && sqe.bytes@[40] == selector
}

proof fn lemma_dword_byte(b: Seq<u8>, off: int)
    ensures
        (wire::le32_at(b, off) as u32) % 0x100 == b[off],
        (wire::le32_at(b, off) as u32) / 0x1_0000 == wire::le16_at(b, off + 2),
        (wire::le32_at(b, off) as u32) % 0x1_0000 == wire::le16_at(b, off),
        wire::le32_at(b, off) as u32 == wire::le32_at(b, off),
{
}

/// Identify (opcode 6) with selector 0 of a namespace that is there: the reply
/// tells its size in blocks and its block size.
pub proof fn host_reads_namespace(
    pre: AdminState,
    post: AdminState,
    port: PortConfig,
    s: Subsystem,
    ns: Namespace,
    sqe: Sqe,
    r: AdminReply,
)
    requires
        s.wf(),
        s.namespaces@.contains(ns),
        asks(sqe, 6, 0),
        wire::le32_at(sqe.bytes@, 4) == ns.nsid,
        admin::executed(pre, post, port, Some(s), sqe, r),
    ensures
        post == pre,
        r matches AdminReply::Data { data } && tells_namespace(data@, ns),
{
    lemma_dword_byte(sqe.bytes@, 40);
    lemma_dword_byte(sqe.bytes@, 4);
    let nss = s.namespaces@;
    let i = choose|i: int| 0 <= i < nss.len() && nss[i] == ns;
    assert(nss[i].nsid == ns.nsid);
    assert(subsystem::has_nsid(nss, ns.nsid));
    let other = choose|o: Namespace| #[trigger]
        nss.contains(o) && o.nsid == ns.nsid && admin::is_data(r, admin::id_ns(o));
    let j = choose|j: int| 0 <= j < nss.len() && nss[j] == other;
    assert(i == j) by {
        if i < j {
            assert(nss[i].nsid < nss[j].nsid);
        } else if j < i {
            assert(nss[j].nsid < nss[i].nsid);
        }
    }
    lemma_id_ns(ns);
}

/// Identify with selector 0 of an id without a namespace: all zeros up to the
/// highest id there is, and above it, as without a subsystem, the status that
/// says the namespace is invalid and the command not to be repeated.
pub proof fn host_reads_no_namespace(
    pre: AdminState,
    post: AdminState,
    port: PortConfig,
    sub: Option<Subsystem>,
    sqe: Sqe,
    r: AdminReply,
)
    requires
        sub matches Some(s) ==> s.wf(),
        asks(sqe, 6, 0),
        sub matches Some(s) ==> forall|ns: Namespace| #[trigger]
            s.namespaces@.contains(ns) ==> ns.nsid != wire::le32_at(sqe.bytes@, 4),
        admin::executed(pre, post, port, sub, sqe, r),
    ensures
        post == pre,
        if sub matches Some(s) && (wire::le32_at(sqe.bytes@, 4) == 0 || exists|ns: Namespace| #[trigger]
            s.namespaces@.contains(ns) && ns.nsid > wire::le32_at(sqe.bytes@, 4)) {
            r matches AdminReply::Data { data } && data@.len() == 4096 && forall|i: int|
                0 <= i < 4096 ==> #[trigger] data@[i] == 0
        } else {
            r == (AdminReply::Status { result: 0, status: 0x400B })
        },
{
    let nsid = wire::le32_at(sqe.bytes@, 4);
    lemma_dword_byte(sqe.bytes@, 40);
    lemma_dword_byte(sqe.bytes@, 4);
    if sub is Some {
        let nss = sub->0.namespaces@;
        if subsystem::has_nsid(nss, nsid as u32) {
            let i = choose|i: int| 0 <= i < nss.len() && (#[trigger] nss[i]).nsid == nsid;
            assert(nss.contains(nss[i]));
        }
        lemma_top(sub->0);
        if nss.len() > 0 {
            assert(nss.contains(nss.last()));
        }
    }
}

/// The highest namespace id: one that is in use, above which none is, and 0
/// without a namespace.
proof fn lemma_top(s: Subsystem)
    requires
        s.wf(),
    ensures
        forall|ns: Namespace| #[trigger]
            s.namespaces@.contains(ns) ==> ns.nsid <= subsystem::top_nsid(s.namespaces@),
        s.namespaces@.len() == 0 ==> subsystem::top_nsid(s.namespaces@) == 0,
        s.namespaces@.len() > 0 ==> subsystem::top_nsid(s.namespaces@)
            == s.namespaces@.last().nsid,
{
    let nss = s.namespaces@;
    assert forall|ns: Namespace| #[trigger] nss.contains(ns) implies ns.nsid
        <= subsystem::top_nsid(nss) by {
        let i = choose|i: int| 0 <= i < nss.len() && nss[i] == ns;
        if i < nss.len() - 1 {
            assert(nss[i].nsid < nss[nss.len() - 1].nsid);
        }
    }
}

/// Identify Controller as the host reads it.
pub open spec fn tells_controller(
    b: Seq<u8>,
    port: PortConfig,
    admin: AdminState,
    sub: Option<Subsystem>,
) -> bool {
    let io = !admin.discovery;
    &&& b.len() == 4096
    &&& spaced(
        b,
        4,
        20,
        admin::bytes(
            match sub {
                Some(s) => s.serial@,
                None => "ioutgt-disc"@,
            },
        ),
    )
    &&& spaced(b, 24, 40, admin::bytes("ioutgt"@))
    &&& spaced(b, 64, 8, admin::bytes("1.0"@))
    // Several controllers may serve the subsystem.
    &&& b[76] == (if io {
        2int
    } else {
        0
    })
    // The largest transfer, as a power of two of 4096-byte pages.
    &&& b[77] == 5
    &&& wire::le16_at(b, 78) == admin.cntlid
    // Version 1.3, and notices of namespace changes.
    &&& wire::le32_at(b, 80) == 0x1_0300
    &&& wire::le32_at(b, 92) == 0x100
    // Traffic counts as keep-alive on TCP.
    &&& wire::le32_at(b, 96) == (if io && port.trtype is Tcp {
        0x40int
    } else {
        0
    })
    // An IO controller, or a discovery controller.
    &&& b[111] == (if io {
        1int
    } else {
        2
    })
    &&& b[258] == 3
    &&& b[259] == 3
    &&& wire::le16_at(b, 320) == 100
    // Entries of 2^6 and 2^4 bytes.
    &&& b[512] == 0x66
    &&& b[513] == 0x44
    &&& wire::le16_at(b, 514) == port.io_queue_size
    // Dataset management and write zeroes, and a write cache.
    &&& wire::le16_at(b, 520) == (if io {
        12int
    } else {
        0
    })
    &&& b[525] == (if io {
        1int
    } else {
        0
    })
    // Byte-aligned descriptors, and on RDMA keyed ones and offsets.
    &&& wire::le32_at(b, 536) == (if port.trtype is Tcp {
        1int
    } else {
        0x10_0005
    })
    &&& ended(
        b,
        768,
        admin::bytes(
            match sub {
                Some(s) => s.nqn@,
                None => "nqn.2014-08.org.nvmexpress.discovery"@,
            },
        ),
    )
    // Command and response capsules, in units of 16 bytes: an entry with the
    // in-capsule data, and a completion.
    &&& wire::le32_at(b, 1792) == (if !io {
        0
    } else if port.trtype is Tcp {
        (64 + port.inline_data_size) / 16
    } else {
        260int
    })
    &&& wire::le32_at(b, 1796) == (if io {
        1int
    } else {
        0
    })
    // The highest namespace id.
    &&& match sub {
        Some(s) => if io && s.namespaces@.len() > 0 {
            &&& forall|ns: Namespace| #[trigger]
                s.namespaces@.contains(ns) ==> ns.nsid <= wire::le32_at(b, 516)
            &&& exists|ns: Namespace| #[trigger]
                s.namespaces@.contains(ns) && ns.nsid == wire::le32_at(b, 516)
        } else {
            wire::le32_at(b, 516) == 0
        },
        None => wire::le32_at(b, 516) == 0,
    }
    &&& forall|i: int|
        0 <= i < 4096 && !controller_field(i) ==> #[trigger] b[i] == 0
}

/// Byte `i` of Identify Controller belongs to a field that is filled in.
pub open spec fn controller_field(i: int) -> bool {
    ||| 4 <= i < 72
    ||| 76 <= i < 84
    ||| 92 <= i < 100
    ||| i == 111
    ||| 258 <= i < 260
    ||| 320 <= i < 322
    ||| 512 <= i < 522
    ||| i == 525
    ||| 536 <= i < 540
    ||| 768 <= i < 1024
    ||| 1792 <= i < 1800
}

#[verifier::rlimit(60)]
proof fn lemma_id_ctrl_common(port: PortConfig, admin: AdminState, sub: Option<Subsystem>)
    ensures
        tells_common(admin::id_ctrl_common(port, admin, sub), port, admin, sub),
{
    let sgls = admin::sgl_support(port.trtype);
    let sn = admin::padded(admin::bytes(admin::identity(sub).0), 20, 0x20);
    let mn = admin::padded(admin::bytes("ioutgt"@), 40, 0x20);
    let fr = admin::padded(admin::bytes("1.0"@), 8, 0x20);
    let nqn = admin::nul_ended(admin::bytes(admin::identity(sub).1));
    let b0 = wire::zeros(4096);
    let b1 = wire::put(b0, 4, sn);
    lemma_put(b0, 4, sn);
    let b2 = wire::put(b1, 24, mn);
    lemma_put(b1, 24, mn);
    let b3 = wire::put(b2, 64, fr);
    lemma_put(b2, 64, fr);
    let b4 = admin::with_le(b3, 77, 5, 1);
    lemma_byte(b3, 77, 5);
    let b5 = admin::with_le(b4, 78, admin.cntlid as int, 2);
    lemma_word(b4, 78, admin.cntlid as int);
    let b6 = admin::with_le(b5, 80, 0x0001_0300, 4);
    lemma_dword(b5, 80, 0x0001_0300);
    let b7 = admin::with_le(b6, 92, 0x100, 4);
    lemma_dword(b6, 92, 0x100);
    let b8 = admin::with_le(b7, 258, 3, 1);
    lemma_byte(b7, 258, 3);
    let b9 = admin::with_le(b8, 259, 3, 1);
    lemma_byte(b8, 259, 3);
    let b10 = admin::with_le(b9, 320, 100, 2);
    lemma_word(b9, 320, 100);
    let b11 = admin::with_le(b10, 512, 0x66, 1);
    lemma_byte(b10, 512, 0x66);
    let b12 = admin::with_le(b11, 513, 0x44, 1);
    lemma_byte(b11, 513, 0x44);
    let b13 = admin::with_le(b12, 514, port.io_queue_size as int, 2);
    lemma_word(b12, 514, port.io_queue_size as int);
    let b14 = admin::with_le(b13, 536, sgls, 4);
    lemma_dword(b13, 536, sgls);
    lemma_put(b14, 768, nqn);
}

/// Byte `i` of Identify Controller differs between IO and discovery controllers.
spec fn io_field(i: int) -> bool {
    i == 76 || 96 <= i < 100 || i == 111 || 516 <= i < 522 || i == 525 || 1792 <= i < 1800
}

/// The fields of an IO controller, laid over those that all have.
spec fn io_laid(b: Seq<u8>, ctratt: int, top: int, capsule: int) -> Seq<u8> {
    let c0 = admin::with_le(b, 111, 1, 1);
    let c1 = admin::with_le(c0, 76, 2, 1);
    let c2 = admin::with_le(c1, 96, ctratt, 4);
    let c3 = admin::with_le(c2, 516, top, 4);
    let c4 = admin::with_le(c3, 520, 0xC, 2);
    let c5 = admin::with_le(c4, 525, 1, 1);
    let c6 = admin::with_le(c5, 1792, capsule, 4);
    admin::with_le(c6, 1796, 1, 4)
}

proof fn lemma_io_laid(b: Seq<u8>, ctratt: int, top: int, capsule: int)
    requires
        b.len() == 4096,
        0 <= ctratt < 0x1_0000_0000,
        0 <= top < 0x1_0000_0000,
        0 <= capsule < 0x1_0000_0000,
    ensures
        ({
            let c = io_laid(b, ctratt, top, capsule);
            &&& c.len() == 4096
            &&& forall|i: int| 0 <= i < 4096 && !io_field(i) ==> #[trigger] c[i] == b[i]
            &&& c[76] == 2
            &&& wire::le32_at(c, 96) == ctratt
            &&& c[111] == 1
            &&& wire::le32_at(c, 516) == top
            &&& wire::le16_at(c, 520) == 12
            &&& c[525] == 1
            &&& wire::le32_at(c, 1792) == capsule
            &&& wire::le32_at(c, 1796) == 1
        }),
{
    let c0 = admin::with_le(b, 111, 1, 1);
    lemma_byte(b, 111, 1);
    let c1 = admin::with_le(c0, 76, 2, 1);
    lemma_byte(c0, 76, 2);
    let c2 = admin::with_le(c1, 96, ctratt, 4);
    lemma_dword(c1, 96, ctratt);
    let c3 = admin::with_le(c2, 516, top, 4);
    lemma_dword(c2, 516, top);
    let c4 = admin::with_le(c3, 520, 0xC, 2);
    lemma_word(c3, 520, 0xC);
    let c5 = admin::with_le(c4, 525, 1, 1);
    lemma_byte(c4, 525, 1);
    let c6 = admin::with_le(c5, 1792, capsule, 4);
    lemma_dword(c5, 1792, capsule);
    lemma_dword(c6, 1796, 1);
}

/// Where only those fields differ, the others read the same.
proof fn lemma_kept(b: Seq<u8>, c: Seq<u8>)
    requires
        b.len() == 4096,
        c.len() == 4096,
        forall|i: int| 0 <= i < 4096 && !io_field(i) ==> #[trigger] c[i] == b[i],
    ensures
        c[77] == b[77],
        wire::le16_at(c, 78) == wire::le16_at(b, 78),
        wire::le32_at(c, 80) == wire::le32_at(b, 80),
        wire::le32_at(c, 92) == wire::le32_at(b, 92),
        c[258] == b[258],
        c[259] == b[259],
        wire::le16_at(c, 320) == wire::le16_at(b, 320),
        c[512] == b[512],
        c[513] == b[513],
        wire::le16_at(c, 514) == wire::le16_at(b, 514),
        wire::le32_at(c, 536) == wire::le32_at(b, 536),
        forall|off: int, n: int, text: Seq<u8>|
            0 <= off && off + n <= 72 && spaced(b, off, n, text) ==> #[trigger] spaced(
                c,
                off,
                n,
                text,
            ),
        forall|text: Seq<u8>| ended(b, 768, text) ==> #[trigger] ended(c, 768, text),
{
}

/// The fields that every controller has read as they should.
spec fn tells_common(
    b: Seq<u8>,
    port: PortConfig,
    admin: AdminState,
    sub: Option<Subsystem>,
) -> bool {
    &&& b.len() == 4096
    &&& spaced(b, 4, 20, admin::bytes(admin::identity(sub).0))
    &&& spaced(b, 24, 40, admin::bytes("ioutgt"@))
    &&& spaced(b, 64, 8, admin::bytes("1.0"@))
    &&& b[77] == 5
    &&& wire::le16_at(b, 78) == admin.cntlid
    &&& wire::le32_at(b, 80) == 0x1_0300
    &&& wire::le32_at(b, 92) == 0x100
    &&& b[258] == 3
    &&& b[259] == 3
    &&& wire::le16_at(b, 320) == 100
    &&& b[512] == 0x66
    &&& b[513] == 0x44
    &&& wire::le16_at(b, 514) == port.io_queue_size
    &&& wire::le32_at(b, 536) == (if port.trtype is Tcp {
        1int
    } else {
        0x10_0005
    })
    &&& ended(b, 768, admin::bytes(admin::identity(sub).1))
    &&& forall|i: int|
        0 <= i < 4096 && (!controller_field(i) || io_field(i)) ==> #[trigger] b[i] == 0
}

proof fn lemma_tells_io(
    b: Seq<u8>,
    c: Seq<u8>,
    port: PortConfig,
    admin: AdminState,
    sub: Option<Subsystem>,
    ctratt: int,
    top: int,
    capsule: int,
)
    requires
        !admin.discovery,
        sub matches Some(s) ==> s.wf(),
        tells_common(b, port, admin, sub),
        ctratt == (if port.trtype is Tcp {
            0x40int
        } else {
            0
        }),
        top == (match sub {
            Some(s) => subsystem::top_nsid(s.namespaces@) as int,
            None => 0,
        }),
        capsule == (if port.trtype is Tcp {
            (64 + port.inline_data_size) / 16
        } else {
            260int
        }),
        c == io_laid(b, ctratt, top, capsule),
    ensures
        tells_controller(c, port, admin, sub),
{
    lemma_io_laid(b, ctratt, top, capsule);
    lemma_kept(b, c);
    if sub is Some {
        lemma_top(sub->0);
        if sub->0.namespaces@.len() > 0 {
            assert(sub->0.namespaces@.contains(sub->0.namespaces@.last()));
        }
    }
}

proof fn lemma_tells_discovery(
    b: Seq<u8>,
    c: Seq<u8>,
    port: PortConfig,
    admin: AdminState,
    sub: Option<Subsystem>,
)
    requires
        admin.discovery,
        tells_common(b, port, admin, sub),
        c == admin::with_le(b, 111, 2, 1),
    ensures
        tells_controller(c, port, admin, sub),
{
    lemma_byte(b, 111, 2);
    lemma_kept(b, c);
}

#[verifier::spinoff_prover]
proof fn lemma_id_ctrl(
    port: PortConfig,
    admin: AdminState,
    sub: Option<Subsystem>,
    b: Seq<u8>,
    c: Seq<u8>,
)
    requires
        sub matches Some(s) ==> s.wf(),
        b == admin::id_ctrl_common(port, admin, sub),
        c == admin::id_ctrl(port, admin, sub),
    ensures
        tells_controller(c, port, admin, sub),
{
    let top: int = match sub {
        Some(s) => subsystem::top_nsid(s.namespaces@) as int,
        None => 0,
    };
    let ctratt: int = if port.trtype is Tcp {
        0x40
    } else {
        0
    };
    let capsule: int = if port.trtype is Tcp {
        (64 + port.inline_data_size) / 16
    } else {
        260
    };
    assert(tells_common(b, port, admin, sub)) by {
        lemma_id_ctrl_common(port, admin, sub);
    }
    if admin.discovery {
        lemma_tells_discovery(b, c, port, admin, sub);
    } else {
        lemma_tells_io(b, c, port, admin, sub, ctratt, top, capsule);
    }
}

/// Identify (opcode 6) with selector 1: the reply tells which controller this
/// is, what it can do and how large its commands may be.
pub proof fn host_reads_controller(
    pre: AdminState,
    post: AdminState,
    port: PortConfig,
    sub: Option<Subsystem>,
    sqe: Sqe,
    r: AdminReply,
)
    requires
        sub matches Some(s) ==> s.wf(),
        asks(sqe, 6, 1),
        admin::executed(pre, post, port, sub, sqe, r),
    ensures
        post == pre,
        r matches AdminReply::Data { data } && tells_controller(data@, port, pre, sub),
{
    lemma_dword_byte(sqe.bytes@, 40);
    lemma_id_ctrl(
        port,
        pre,
        sub,
        admin::id_ctrl_common(port, pre, sub),
        admin::id_ctrl(port, pre, sub),
    );
}

/// Identify (opcode 6) with selector 3 of a namespace that is there: the reply
/// is one descriptor, of a UUID of 16 bytes, and it is the namespace's.
pub proof fn host_reads_uuid(
    pre: AdminState,
    post: AdminState,
    port: PortConfig,
    s: Subsystem,
    ns: Namespace,
    sqe: Sqe,
    r: AdminReply,
)
    requires
        s.wf(),
        s.namespaces@.contains(ns),
        asks(sqe, 6, 3),
        wire::le32_at(sqe.bytes@, 4) == ns.nsid,
        admin::executed(pre, post, port, Some(s), sqe, r),
    ensures
        post == pre,
        r matches AdminReply::Data { data } && {
            &&& data@.len() == 4096
            &&& data@[0] == 3
            &&& data@[1] == 16
            &&& forall|i: int| 4 <= i < 20 ==> #[trigger] data@[i] == ns.uuid@[i - 4]
            &&& forall|i: int|
                2 <= i < 4096 && !(4 <= i < 20) ==> #[trigger] data@[i] == 0
        },
{
    lemma_dword_byte(sqe.bytes@, 40);
    lemma_dword_byte(sqe.bytes@, 4);
    let nss = s.namespaces@;
    let i = choose|i: int| 0 <= i < nss.len() && nss[i] == ns;
    assert(nss[i].nsid == ns.nsid);
    assert(subsystem::has_nsid(nss, ns.nsid));
    let other = choose|o: Namespace| #[trigger]
        nss.contains(o) && o.nsid == ns.nsid && admin::is_data(r, admin::ns_desc_page(o.uuid@));
    let j = choose|j: int| 0 <= j < nss.len() && nss[j] == other;
    assert(i == j) by {
        if i < j {
            assert(nss[i].nsid < nss[j].nsid);
        } else if j < i {
            assert(nss[j].nsid < nss[i].nsid);
        }
    }
    let b0 = wire::zeros(4096);
    let b1 = admin::with_le(b0, 0, 3, 1);
    lemma_byte(b0, 0, 3);
    let b2 = admin::with_le(b1, 1, 16, 1);
    lemma_byte(b1, 1, 16);
    assert(ns.uuid@.len() == 16);
    lemma_put(b2, 4, ns.uuid@);
}

/// The ids above `start`: ascending, each of a namespace, and all of them.
proof fn lemma_nsids(nss: Seq<Namespace>, start: u32, n: int)
    requires
        0 <= n <= nss.len(),
        forall|i: int, j: int|
            0 <= i < j < nss.len() ==> (#[trigger] nss[i]).nsid < (#[trigger] nss[j]).nsid,
    ensures
        ({
            let ids = admin::nsids_above(nss, start, n);
            &&& forall|k: int|
                0 <= k < ids.len() ==> exists|i: int|
                    0 <= i < n && (#[trigger] nss[i]).nsid == #[trigger] ids[k]
            &&& forall|k: int| 0 <= k < ids.len() ==> #[trigger] ids[k] > start
            &&& forall|j: int, k: int| 0 <= j < k < ids.len() ==> #[trigger] ids[j] < #[trigger] ids[k]
            &&& forall|i: int|
                0 <= i < n && (#[trigger] nss[i]).nsid > start ==> ids.contains(nss[i].nsid)
        }),
    decreases n,
{
    if n > 0 {
        lemma_nsids(nss, start, n - 1);
        let less = admin::nsids_above(nss, start, n - 1);
        let ids = admin::nsids_above(nss, start, n);
        let last = nss[n - 1].nsid;
        assert forall|k: int| 0 <= k < less.len() implies #[trigger] less[k] < last by {
            let i = choose|i: int| 0 <= i < n - 1 && (#[trigger] nss[i]).nsid == less[k];
            assert(nss[i].nsid < nss[n - 1].nsid);
        }
        assert forall|i: int| 0 <= i < n && (#[trigger] nss[i]).nsid > start implies ids.contains(
            nss[i].nsid,
        ) by {
            if i < n - 1 {
                let k = choose|k: int| 0 <= k < less.len() && less[k] == nss[i].nsid;
                assert(ids[k] == nss[i].nsid);
            } else {
                assert(ids[ids.len() - 1] == last);
            }
        }
        assert forall|k: int| 0 <= k < ids.len() implies exists|i: int|
            0 <= i < n && (#[trigger] nss[i]).nsid == #[trigger] ids[k] by {
            if k < less.len() {
                let i = choose|i: int| 0 <= i < n - 1 && (#[trigger] nss[i]).nsid == less[k];
                assert(nss[i].nsid == ids[k]);
            } else {
                assert(nss[n - 1].nsid == ids[k]);
            }
        }
    }
}

proof fn lemma_list_entry(ids: Seq<u32>, k: int)
    requires
        0 <= k < 1024,
    ensures
        wire::le32_at(admin::ns_list_page(ids), 4 * k) == (if k < ids.len() {
            ids[k] as int
        } else {
            0
        }),
{
    let b = admin::ns_list_page(ids);
    assert((4 * k) / 4 == k && (4 * k + 1) / 4 == k && (4 * k + 2) / 4 == k && (4 * k + 3) / 4
        == k);
    assert((4 * k) % 4 == 0 && (4 * k + 1) % 4 == 1 && (4 * k + 2) % 4 == 2 && (4 * k + 3) % 4
        == 3);
    if k < ids.len() {
        wire::lemma_le4(ids[k] as int);
        let e = wire::le_bytes(ids[k] as int, 4);
        assert(b[4 * k] == e[0] && b[4 * k + 1] == e[1] && b[4 * k + 2] == e[2] && b[4 * k + 3]
            == e[3]);
    }
}

/// Entry `k` of a list of namespace ids, four bytes each.
pub open spec fn list_entry(b: Seq<u8>, k: int) -> int {
    wire::le32_at(b, 4 * k)
}

/// A list of namespaces as the host reads it: up to 1024 ids, ended by zero,
/// ascending, each that of a namespace and above `start`; and every namespace
/// above `start` is in it, unless it is full of smaller ones.
pub open spec fn lists_namespaces(b: Seq<u8>, s: Subsystem, start: int) -> bool {
    &&& b.len() == 4096
    &&& forall|k: int|
        0 <= k < 1024 && list_entry(b, k) != 0 ==> {
            &&& #[trigger] list_entry(b, k) > start
            &&& exists|ns: Namespace| #[trigger]
                s.namespaces@.contains(ns) && ns.nsid == list_entry(b, k)
        }
    &&& forall|j: int, k: int|
        0 <= j < k < 1024 && list_entry(b, k) != 0 ==> 0 < #[trigger] list_entry(b, j)
            < #[trigger] list_entry(b, k)
    &&& forall|ns: Namespace| #[trigger]
        s.namespaces@.contains(ns) && ns.nsid > start ==> {
            ||| exists|k: int| 0 <= k < 1024 && #[trigger] list_entry(b, k) == ns.nsid
            ||| 0 < list_entry(b, 1023) < ns.nsid
        }
}

/// Identify (opcode 6) with selector 2: the reply lists the namespaces above
/// the id in the command.
pub proof fn host_reads_namespace_list(
    pre: AdminState,
    post: AdminState,
    port: PortConfig,
    s: Subsystem,
    sqe: Sqe,
    r: AdminReply,
)
    requires
        s.wf(),
        asks(sqe, 6, 2),
        admin::executed(pre, post, port, Some(s), sqe, r),
    ensures
        post == pre,
        r matches AdminReply::Data { data } && lists_namespaces(
            data@,
            s,
            wire::le32_at(sqe.bytes@, 4),
        ),
{
    lemma_dword_byte(sqe.bytes@, 40);
    lemma_dword_byte(sqe.bytes@, 4);
    let start = wire::le32_at(sqe.bytes@, 4) as u32;
    let nss = s.namespaces@;
    let ids = admin::nsids_above(nss, start, nss.len() as int);
    let b = admin::ns_list_page(ids);
    lemma_nsids(nss, start, nss.len() as int);
    assert forall|k: int| 0 <= k < 1024 implies #[trigger] list_entry(b, k) == (if k
        < ids.len() {
        ids[k] as int
    } else {
        0
    }) by {
        lemma_list_entry(ids, k);
    }
    assert forall|k: int| 0 <= k < 1024 && list_entry(b, k) != 0 implies {
        &&& #[trigger] list_entry(b, k) > start
        &&& exists|ns: Namespace| #[trigger]
            nss.contains(ns) && ns.nsid == list_entry(b, k)
    } by {
        let i = choose|i: int| 0 <= i < nss.len() && (#[trigger] nss[i]).nsid == ids[k];
        assert(nss.contains(nss[i]));
    }
    assert forall|ns: Namespace| #[trigger] nss.contains(ns) && ns.nsid > start implies {
        ||| exists|k: int| 0 <= k < 1024 && #[trigger] list_entry(b, k) == ns.nsid
        ||| 0 < list_entry(b, 1023) < ns.nsid
    } by {
        let i = choose|i: int| 0 <= i < nss.len() && nss[i] == ns;
        assert(ids.contains(nss[i].nsid));
        let k = choose|k: int| 0 <= k < ids.len() && ids[k] == ns.nsid;
        if k < 1024 {
            assert(list_entry(b, k) == ns.nsid);
        } else {
            assert(ids[1023] < ids[k]);
            assert(list_entry(b, 1023) == ids[1023]);
        }
    }
}

/// An entry of the discovery log as the host reads it, at `e` of the log: the
/// transport (3 for TCP, 1 for RDMA), an IPv4 address, an NVM subsystem, dynamic
/// controllers, admin queues of 32 entries, and where which subsystem is found.
pub open spec fn tells_subsystem(
    b: Seq<u8>,
    e: int,
    port: PortConfig,
    index: int,
    nqn: Seq<char>,
) -> bool {
    &&& e + 1024 <= b.len()
    &&& b[e] == (if port.trtype is Tcp {
        3int
    } else {
        1
    })
    &&& b[e + 1] == 1
    &&& b[e + 2] == 2
    &&& b[e + 3] == 0
    &&& wire::le16_at(b, e + 4) == (if index < 0x1_0000 {
        index
    } else {
        0
    })
    &&& wire::le16_at(b, e + 6) == 0xFFFF
    &&& wire::le16_at(b, e + 8) == 32
    &&& spaced(b, e + 32, 32, admin::bytes(port.trsvcid@))
    &&& ended(b, e + 256, admin::bytes(nqn))
    &&& spaced(b, e + 512, 256, admin::bytes(port.traddr@))
    &&& forall|i: int|
        e + 10 <= i < e + 32 || e + 64 <= i < e + 256 || e + 768 <= i < e + 1024 ==> #[trigger] b[i]
            == 0
}

proof fn lemma_log_entry(port: PortConfig, index: int, nqn: Seq<char>)
    requires
        0 <= index,
    ensures
        admin::log_entry(port, index, nqn).len() == 1024,
        tells_subsystem(admin::log_entry(port, index, nqn), 0, port, index, nqn),
{
    let id = if index <= u16::MAX {
        index
    } else {
        0
    };
    let svc = admin::padded(admin::bytes(port.trsvcid@), 32, 0x20);
    let sub = admin::nul_ended(admin::bytes(nqn));
    let addr = admin::padded(admin::bytes(port.traddr@), 256, 0x20);
    let b0 = wire::zeros(1024);
    let b1 = admin::with_le(b0, 0, port.trtype.spec_code() as int, 1);
    lemma_byte(b0, 0, port.trtype.spec_code() as int);
    let b2 = admin::with_le(b1, 1, 1, 1);
    lemma_byte(b1, 1, 1);
    let b3 = admin::with_le(b2, 2, 2, 1);
    lemma_byte(b2, 2, 2);
    let b4 = admin::with_le(b3, 4, id, 2);
    lemma_word(b3, 4, id);
    let b5 = admin::with_le(b4, 6, 0xFFFF, 2);
    lemma_word(b4, 6, 0xFFFF);
    let b6 = admin::with_le(b5, 8, 32, 2);
    lemma_word(b5, 8, 32);
    let b7 = wire::put(b6, 32, svc);
    lemma_put(b6, 32, svc);
    let b8 = wire::put(b7, 256, sub);
    lemma_put(b7, 256, sub);
    lemma_put(b8, 512, addr);
}

/// An entry reads the same wherever it stands.
proof fn lemma_entry_moved(
    a: Seq<u8>,
    b: Seq<u8>,
    from: int,
    to: int,
    port: PortConfig,
    index: int,
    nqn: Seq<char>,
)
    requires
        0 <= from,
        0 <= to,
        to + 1024 <= b.len(),
        tells_subsystem(a, from, port, index, nqn),
        forall|i: int| to <= i < to + 1024 ==> #[trigger] b[i] == a[i - to + from],
    ensures
        tells_subsystem(b, to, port, index, nqn),
{
}

proof fn lemma_log(port: PortConfig, n: int)
    requires
        0 <= n,
    ensures
        ({
            let b = admin::log_upto(port, n);
            &&& b.len() == 1024 * (n + 1)
            &&& wire::le64_at(b, 0) == 1
            &&& wire::le64_at(b, 8) == port.subsystems@.len()
            &&& forall|i: int| 16 <= i < 1024 ==> #[trigger] b[i] == 0
            &&& forall|k: int|
                0 <= k < n ==> tells_subsystem(
                    b,
                    1024 * (k + 1),
                    port,
                    k,
                    (#[trigger] port.subsystems@[k]).nqn@,
                )
        }),
    decreases n,
{
    let total = port.subsystems@.len() as int;
    if n == 0 {
        assert(total == port.subsystems.len());
        let b0 = wire::zeros(1024);
        let b1 = admin::with_le(b0, 0, 1, 8);
        lemma_qword(b0, 0, 1);
        lemma_qword(b1, 8, total);
    } else {
        lemma_log(port, n - 1);
        let less = admin::log_upto(port, n - 1);
        let b = admin::log_upto(port, n);
        let nqn = port.subsystems@[n - 1].nqn@;
        let entry = admin::log_entry(port, n - 1, nqn);
        lemma_log_entry(port, n - 1, nqn);
        assert forall|k: int| 0 <= k < n implies tells_subsystem(
            b,
            1024 * (k + 1),
            port,
            k,
            (#[trigger] port.subsystems@[k]).nqn@,
        ) by {
            if k < n - 1 {
                lemma_entry_moved(
                    less,
                    b,
                    1024 * (k + 1),
                    1024 * (k + 1),
                    port,
                    k,
                    port.subsystems@[k].nqn@,
                );
            } else {
                lemma_entry_moved(entry, b, 0, 1024 * n, port, k, nqn);
            }
        }
    }
}

/// The discovery log as the host reads it: a header that counts the subsystems,
/// and an entry for each, in order, that tells its name and the port's address.
pub open spec fn tells_port(b: Seq<u8>, port: PortConfig) -> bool {
    &&& b.len() == 1024 * (port.subsystems@.len() + 1)
    &&& wire::le64_at(b, 0) == 1
    &&& wire::le64_at(b, 8) == port.subsystems@.len()
    &&& forall|i: int| 16 <= i < 1024 ==> #[trigger] b[i] == 0
    &&& forall|k: int|
        0 <= k < port.subsystems@.len() ==> tells_subsystem(
            b,
            1024 * (k + 1),
            port,
            k,
            (#[trigger] port.subsystems@[k]).nqn@,
        )
}

/// The discovery log tells of every subsystem where it is found.
pub proof fn host_reads_discovery(port: PortConfig)
    ensures
        tells_port(admin::discovery_log(port), port),
{
    lemma_log(port, port.subsystems@.len() as int);
}

/// Bytes of a log page that a command asks for: a count of dwords less one, its
/// low half at byte 42 and its high half at byte 44.
pub open spec fn asked_len(sqe: Sqe) -> int {
    4 * (wire::le16_at(sqe.bytes@, 42) + 0x1_0000 * wire::le16_at(sqe.bytes@, 44) + 1)
}

/// `data` is what lies in `log` from `off`, up to `len` bytes of it and to its
/// end.
pub open spec fn part_of(data: Seq<u8>, log: Seq<u8>, off: int, len: int) -> bool {
    &&& off >= log.len() ==> data.len() == 0
    &&& off < log.len() ==> data.len() == (if off + len < log.len() {
        len
    } else {
        log.len() - off
    })
    &&& forall|i: int| 0 <= i < data.len() ==> #[trigger] data[i] == log[off + i]
}

/// Get Log Page (opcode 2) of the discovery log (0x70) on a discovery
/// controller: the reply is the part of the log that the command asks for, from
/// the offset at byte 48, and the whole log tells of the port.
pub proof fn host_reads_discovery_page(
    pre: AdminState,
    post: AdminState,
    port: PortConfig,
    sub: Option<Subsystem>,
    sqe: Sqe,
    r: AdminReply,
)
    requires
        pre.discovery,
        asks(sqe, 2, 0x70),
        admin::executed(pre, post, port, sub, sqe, r),
    ensures
        post == pre,
        exists|log: Seq<u8>| #[trigger]
            tells_port(log, port) && (r matches AdminReply::Data { data } && part_of(
                data@,
                log,
                wire::le64_at(sqe.bytes@, 48),
                asked_len(sqe),
            )),
{
    lemma_dword_byte(sqe.bytes@, 40);
    lemma_dword_byte(sqe.bytes@, 44);
    lemma_dword_byte(sqe.bytes@, 48);
    lemma_dword_byte(sqe.bytes@, 52);
    host_reads_discovery(port);
    assert(admin::log_len(sqe) == asked_len(sqe));
    assert(admin::log_offset(sqe) == wire::le64_at(sqe.bytes@, 48));
}

/// Get Log Page (opcode 2) of any other log. That of changed namespaces (4) has
/// all ones in its first entry where some changed, and is clear after it was
/// read; those of errors, health and firmware (1 to 3) are empty; another is
/// refused as an invalid log page.
pub proof fn host_reads_log_page(
    pre: AdminState,
    post: AdminState,
    port: PortConfig,
    sub: Option<Subsystem>,
    sqe: Sqe,
    r: AdminReply,
)
    requires
        sqe.bytes@[0] == 2,
        sqe.bytes@[40] != 0x70 || !pre.discovery,
        admin::executed(pre, post, port, sub, sqe, r),
    ensures
        post == (AdminState {
            ns_changed: if sqe.bytes@[40] == 4 {
                false
            } else {
                pre.ns_changed
            },
            ..pre
        }),
        if 1 <= sqe.bytes@[40] <= 4 {
            r matches AdminReply::Data { data } && {
                &&& data@.len() == (if asked_len(sqe) < 4096 {
                    asked_len(sqe)
                } else {
                    4096
                })
                &&& forall|i: int|
                    0 <= i < data@.len() ==> #[trigger] data@[i] == (if i < 4 && sqe.bytes@[40] == 4
                        && pre.ns_changed {
                        0xFFint
                    } else {
                        0
                    })
            }
        } else {
            r == (AdminReply::Status { result: 0, status: 0x4109 })
        },
{
    lemma_dword_byte(sqe.bytes@, 40);
    lemma_dword_byte(sqe.bytes@, 44);
    assert(admin::log_len(sqe) == asked_len(sqe));
    let b = wire::zeros(4096);
    reveal_with_fuel(wire::le_bytes, 5);
    lemma_dword(b, 0, 0xFFFF_FFFF);
    let c = admin::with_le(b, 0, 0xFFFF_FFFF, 4);
    assert(c[0] == 0xFF && c[1] == 0xFF && c[2] == 0xFF && c[3] == 0xFF);
}

/// Queues that the controller offers, less one: those of its subsystem, and one
/// at least.
pub open spec fn offers(sub: Option<Subsystem>) -> int {
    match sub {
        Some(s) => if s.max_qid <= 1 {
            0
        } else {
            s.max_qid - 1
        },
        None => 0,
    }
}

/// Get Features (opcode 10): the queues offered, submission and completion alike
/// (7), the keep-alive time (15), the event configuration (11), and on an IO
/// controller that the write cache is on (6). Another field is invalid.
pub proof fn host_gets_features(
    pre: AdminState,
    post: AdminState,
    port: PortConfig,
    sub: Option<Subsystem>,
    sqe: Sqe,
    r: AdminReply,
)
    requires
        sqe.bytes@[0] == 10,
        admin::executed(pre, post, port, sub, sqe, r),
    ensures
        post == pre,
        r matches AdminReply::Status { result, status } && if sqe.bytes@[40] == 7 {
            status == 0 && result % 0x1_0000 == offers(sub) && result / 0x1_0000 == offers(sub)
        } else if sqe.bytes@[40] == 15 {
            status == 0 && result == pre.kato_ms
        } else if sqe.bytes@[40] == 11 {
            status == 0 && result == pre.aec
        } else if sqe.bytes@[40] == 6 && !pre.discovery {
            status == 0 && result == 1
        } else {
            status == 0x4002 && result == 0
        },
{
    lemma_dword_byte(sqe.bytes@, 40);
}

/// Set Features (opcode 9), of the value at byte 44: as many queues as asked
/// for, and no more than offered (7); the keep-alive time (15); the event
/// configuration (11); a host identifier is taken (0x81). Another feature is not
/// changeable. Nothing but the feature changes.
pub proof fn host_sets_features(
    pre: AdminState,
    post: AdminState,
    port: PortConfig,
    sub: Option<Subsystem>,
    sqe: Sqe,
    r: AdminReply,
)
    requires
        sqe.bytes@[0] == 9,
        admin::executed(pre, post, port, sub, sqe, r),
    ensures
        post == (AdminState {
            kato_ms: if sqe.bytes@[40] == 15 {
                wire::le32_at(sqe.bytes@, 44) as u32
            } else {
                pre.kato_ms
            },
            aec: if sqe.bytes@[40] == 11 {
                wire::le32_at(sqe.bytes@, 44) as u32
            } else {
                pre.aec
            },
            ..pre
        }),
        r matches AdminReply::Status { result, status } && if sqe.bytes@[40] == 7 {
            &&& status == 0
            &&& result % 0x1_0000 == result / 0x1_0000
            &&& result % 0x1_0000 <= wire::le16_at(sqe.bytes@, 44)
            &&& result % 0x1_0000 <= offers(sub)
            &&& result % 0x1_0000 == wire::le16_at(sqe.bytes@, 44) || result % 0x1_0000 == offers(
                sub,
            )
        } else if sqe.bytes@[40] == 15 || sqe.bytes@[40] == 11 || sqe.bytes@[40] == 0x81 {
            status == 0 && result == 0
        } else {
            status == 0x410E && result == 0
        },
{
    lemma_dword_byte(sqe.bytes@, 40);
    lemma_dword_byte(sqe.bytes@, 44);
}

/// Keep Alive (opcode 24) succeeds. An Async Event Request (12) is answered with
/// the oldest event, waits while there is none, and ends empty when the
/// connection does. Any other opcode is invalid.
pub proof fn host_waits_for_events(
    pre: AdminState,
    post: AdminState,
    port: PortConfig,
    sub: Option<Subsystem>,
    sqe: Sqe,
    r: AdminReply,
)
    requires
        sqe.bytes@[0] != 6,
        sqe.bytes@[0] != 10,
        sqe.bytes@[0] != 9,
        sqe.bytes@[0] != 2,
        admin::executed(pre, post, port, sub, sqe, r),
    ensures
        if sqe.bytes@[0] == 12 && !pre.closing {
            if pre.events@.len() == 0 {
                post == pre && r is Parked
            } else {
                &&& r == (AdminReply::Status { result: pre.events@[0], status: 0 })
                &&& pre.events@ == seq![pre.events@[0]] + post.events@
                &&& post == (AdminState { events: post.events, ..pre })
            }
        } else if sqe.bytes@[0] == 12 || sqe.bytes@[0] == 24 {
            post == pre && r == (AdminReply::Status { result: 0, status: 0 })
        } else {
            post == pre && r == (AdminReply::Status { result: 0, status: 0x4001 })
        },
{
}

/// The event that a namespace change leaves: a notice (type 2) that the
/// attributes changed (0), to be looked up in the log of changed namespaces (4).
pub proof fn change_names_its_log(pre: AdminState, post: AdminState)
    requires
        admin::ns_noted(pre, post),
    ensures
        post.ns_changed,
        post.events@.drop_last() == pre.events@,
        post.events@.last() % 8 == 2,
        post.events@.last() / 0x100 % 0x100 == 0,
        post.events@.last() / 0x1_0000 == 4,
{
    assert(post.events@.drop_last() =~= pre.events@);
}

/// What a reply holds is in its slot when the command is done: the data, cut to
/// what the queue takes, from the start of the slot's buffer.
pub proof fn reply_is_in_its_slot<T: TransportStats>(
    pre: QueueCore<Sqe, T>,
    post: QueueCore<Sqe, T>,
    tag: u16,
    data: Seq<u8>,
)
    requires
        pre.wf(),
        post.wf(),
        tag < pre.sqsize,
        admin::slot_filled(pre, post, tag, data),
    ensures
        ({
            let held = post.slots.slots@[tag as int].data.bytes(post.slots.pool);
            &&& data.len() <= held.len()
            &&& forall|i: int| 0 <= i < data.len() ==> #[trigger] held[i] == data[i]
        }),
{
    let want: int = if data.len() == 0 {
        1
    } else {
        data.len() as int
    };
    let mid = choose|mid: SlotArray<Sqe>|
        #![trigger slotq::slot_written(mid, post.slots, tag, 0, data)]
        slotq::lease_made(pre.slots, mid, tag, want) && slotq::slot_written(
            mid,
            post.slots,
            tag,
            0,
            data,
        );
    let now = post.slots.slots@[tag as int].data;
    assert(now.wf(post.slots.pool));
    now.wf_laid_out(post.slots.pool);
    assert(crate::pool::pages_for(want) * 4096 >= want);
}

/// A reply completes its command: for the command and the queue it came on, with
/// the head one further around the queue, or 0 where the host has switched flow
/// control off. A status goes out as it is and without data. Data is a success,
/// and as much of it as the queue takes is in the slot. A command that waits is
/// not completed, and nothing happens.
pub proof fn reply_completes_its_command<T: TransportStats>(
    pre: QueueCore<Sqe, T>,
    post: QueueCore<Sqe, T>,
    tag: u16,
    sqe: Sqe,
    reply: AdminReply,
    max: usize,
    r: Option<Outcome>,
)
    requires
        pre.wf(),
        post.wf(),
        tag < pre.sqsize,
        max <= u32::MAX,
        admin::finished(pre, post, tag, sqe, reply, max, r),
    ensures
        r is None == (reply is Parked),
        reply is Parked ==> post == pre,
        r matches Some(o) ==> {
            &&& o.cqe.cid == wire::le16_at(sqe.bytes@, 2)
            &&& o.cqe.sqid == pre.qid
            &&& o.cqe.sqhd == (if pre.sqhd_disabled {
                0
            } else {
                (pre.sqhd + 1) % (pre.sqsize as int)
            })
            &&& post.sqhd == (if pre.sqhd_disabled {
                pre.sqhd
            } else {
                o.cqe.sqhd
            })
        },
        reply matches AdminReply::Status { result, status } ==> r->0.cqe.result == result
            && r->0.cqe.status == status && r->0.data_len == 0 && post.slots == pre.slots,
        reply matches AdminReply::Data { data } ==> {
            let n = r->0.data_len as int;
            let held = post.slots.slots@[tag as int].data.bytes(post.slots.pool);
            &&& r->0.cqe.result == 0
            &&& r->0.cqe.status == 0
            &&& n == (if data@.len() <= max {
                data@.len() as int
            } else {
                max as int
            })
            &&& n <= held.len()
            &&& forall|i: int| 0 <= i < n ==> #[trigger] held[i] == data@[i]
        },
{
    if reply is Data {
        let part = admin::capped(reply->data@, max as int);
        assert(admin::head_moved(pre).slots == pre.slots);
        lemma_head(pre);
        reply_is_in_its_slot(admin::head_moved(pre), post, tag, part);
    }
    lemma_head(pre);
}

proof fn lemma_head<T: TransportStats>(q: QueueCore<Sqe, T>)
    requires
        q.wf(),
        q.sqsize > 0,
    ensures
        admin::head_moved(q).wf(),
        !q.sqhd_disabled ==> q.head_after() == (q.sqhd + 1) % (q.sqsize as int),
{
    vstd::arithmetic::div_mod::lemma_mod_bound(q.sqhd + 1, q.sqsize as int);
}

} // verus!
