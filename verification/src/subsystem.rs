//! The served model: a port, its subsystems, their namespaces and host
//! access.

use vstd::prelude::*;

use crate::nvme::{SC_CONNECT_INVALID_HOST, SC_DNR};
use crate::text::{chars_of, hex_digit, same_text};

verus! {

/// The fabric a port serves.
#[derive(Debug, Clone, Copy, PartialEq, Eq, Structural)]
pub enum TransportType {
    Tcp,
    Rdma,
}

impl TransportType {
    /// Transport type code of a discovery log entry.
    pub open spec fn spec_code(self) -> u8 {
        match self {
            TransportType::Rdma => 1,
            TransportType::Tcp => 3,
        }
    }

    /// Transport type code of a discovery log entry.
    pub fn trtype(self) -> (c: u8)
        ensures
            c == self.spec_code(),
    {
        match self {
            TransportType::Rdma => 1,
            TransportType::Tcp => 3,
        }
    }
}

/// One namespace as it is served.
#[derive(Clone, Copy)]
pub struct Namespace {
    pub nsid: u32,
    /// Capacity in blocks.
    pub blocks: u64,
    /// Log2 of the block size.
    pub block_shift: u8,
    pub uuid: [u8; 16],
}

/// Why a namespace was not added or removed.
#[derive(Debug, Clone, Copy, PartialEq, Eq, Structural)]
pub enum NsError {
    /// The namespace id is taken.
    Exists,
    /// There is no such namespace.
    Missing,
}

/// Namespaces in ascending id order, none twice.
pub open spec fn by_nsid(nss: Seq<Namespace>) -> bool {
    forall|i: int, j: int|
        0 <= i < j < nss.len() ==> (#[trigger] nss[i]).nsid < (#[trigger] nss[j]).nsid
}

/// Some namespace has the id.
pub open spec fn has_nsid(nss: Seq<Namespace>, nsid: u32) -> bool {
    exists|i: int| 0 <= i < nss.len() && (#[trigger] nss[i]).nsid == nsid
}

/// The highest namespace id; 0 where there is none.
pub open spec fn top_nsid(nss: Seq<Namespace>) -> u32 {
    if nss.len() == 0 {
        0
    } else {
        nss.last().nsid
    }
}

/// One NVM subsystem as it is served.
pub struct Subsystem {
    pub nqn: String,
    pub serial: String,
    pub model: String,
    /// Highest IO queue id of a controller.
    pub max_qid: u16,
    pub allow_any_host: bool,
    /// Host NQNs admitted when `allow_any_host` is off.
    pub allowed_hosts: Vec<String>,
    /// In ascending id order.
    pub namespaces: Vec<Namespace>,
}

/// Some entry of the list is `name`.
pub open spec fn lists(hosts: Seq<String>, name: Seq<char>) -> bool {
    exists|i: int| 0 <= i < hosts.len() && (#[trigger] hosts[i])@ == name
}

impl Subsystem {
    pub open spec fn wf(&self) -> bool {
        by_nsid(self.namespaces@)
    }

    /// The host may connect: any host may, or it is listed.
    pub open spec fn admits(&self, hostnqn: Seq<char>) -> bool {
        self.allow_any_host || lists(self.allowed_hosts@, hostnqn)
    }

    /// The status a Connect from this host is refused with, if it is.
    pub fn host_status(&self, hostnqn: &str) -> (s: Option<u16>)
        ensures
            s == (if self.admits(hostnqn@) {
                None::<u16>
            } else {
                Some((SC_CONNECT_INVALID_HOST + SC_DNR) as u16)
            }),
    {
        if self.allow_any_host {
            return None;
        }
        let mut i: usize = 0;
        while i < self.allowed_hosts.len()
            invariant
                i <= self.allowed_hosts@.len(),
                !self.allow_any_host,
                forall|k: int| 0 <= k < i ==> (#[trigger] self.allowed_hosts@[k])@ != hostnqn@,
            decreases self.allowed_hosts@.len() - i,
        {
            if same_text(self.allowed_hosts[i].as_str(), hostnqn) {
                assert(lists(self.allowed_hosts@, hostnqn@));
                return None;
            }
            i += 1;
        }
        assert(!lists(self.allowed_hosts@, hostnqn@));
        Some(SC_CONNECT_INVALID_HOST + SC_DNR)
    }

    /// Where the namespace is, or where it would go.
    fn position(&self, nsid: u32) -> (p: usize)
        requires
            self.wf(),
        ensures
            p <= self.namespaces@.len(),
            forall|i: int| 0 <= i < p ==> (#[trigger] self.namespaces@[i]).nsid < nsid,
            forall|i: int|
                p <= i < self.namespaces@.len() ==> (#[trigger] self.namespaces@[i]).nsid >= nsid,
            has_nsid(self.namespaces@, nsid) == (p < self.namespaces@.len()
                && self.namespaces@[p as int].nsid == nsid),
    {
        let mut p: usize = 0;
        while p < self.namespaces.len() && self.namespaces[p].nsid < nsid
            invariant
                p <= self.namespaces@.len(),
                forall|i: int| 0 <= i < p ==> (#[trigger] self.namespaces@[i]).nsid < nsid,
            decreases self.namespaces@.len() - p,
        {
            p += 1;
        }
        proof {
            if has_nsid(self.namespaces@, nsid) {
                let k = choose|k: int|
                    0 <= k < self.namespaces@.len() && (#[trigger] self.namespaces@[k]).nsid
                        == nsid;
                assert(k >= p);
                if k > p {
                    assert(self.namespaces@[p as int].nsid < self.namespaces@[k].nsid);
                }
            }
        }
        p
    }

    /// The namespace with this id.
    pub fn namespace(&self, nsid: u32) -> (r: Option<Namespace>)
        requires
            self.wf(),
        ensures
            match r {
                Some(ns) => ns.nsid == nsid && self.namespaces@.contains(ns),
                None => !has_nsid(self.namespaces@, nsid),
            },
    {
        let p: usize = self.position(nsid);
        if p < self.namespaces.len() && self.namespaces[p].nsid == nsid {
            let ns = self.namespaces[p];
            assert(self.namespaces@[p as int] == ns);
            Some(ns)
        } else {
            None
        }
    }

    /// The highest namespace id.
    pub fn max_nsid(&self) -> (n: u32)
        ensures
            n == top_nsid(self.namespaces@),
    {
        if self.namespaces.len() == 0 {
            0
        } else {
            self.namespaces[self.namespaces.len() - 1].nsid
        }
    }

    /// Add a namespace.
    pub fn add_namespace(&mut self, ns: Namespace) -> (r: Result<(), NsError>)
        requires
            old(self).wf(),
        ensures
            final(self).wf(),
            match r {
                Err(e) => e is Exists && has_nsid(old(self).namespaces@, ns.nsid) && *final(self)
                    == *old(self),
                Ok(_) => {
                    &&& !has_nsid(old(self).namespaces@, ns.nsid)
                    &&& exists|p: int|
                        0 <= p <= old(self).namespaces@.len() && final(self).namespaces@
                            == #[trigger] old(self).namespaces@.insert(p, ns)
                    &&& *final(self) == (Subsystem {
                        namespaces: final(self).namespaces,
                        ..*old(self)
                    })
                },
            },
    {
        let p: usize = self.position(ns.nsid);
        if p < self.namespaces.len() && self.namespaces[p].nsid == ns.nsid {
            return Err(NsError::Exists);
        }
        let ghost pre = self.namespaces@;
        self.namespaces.insert(p, ns);
        assert(self.namespaces@ == pre.insert(p as int, ns));
        Ok(())
    }

    /// Remove a namespace.
    pub fn remove_namespace(&mut self, nsid: u32) -> (r: Result<(), NsError>)
        requires
            old(self).wf(),
        ensures
            final(self).wf(),
            match r {
                Err(e) => e is Missing && !has_nsid(old(self).namespaces@, nsid) && *final(self)
                    == *old(self),
                Ok(_) => {
                    &&& exists|p: int|
                        0 <= p < old(self).namespaces@.len() && old(self).namespaces@[p].nsid
                            == nsid && final(self).namespaces@ == #[trigger] old(
                            self,
                        ).namespaces@.remove(p)
                    &&& !has_nsid(final(self).namespaces@, nsid)
                    &&& *final(self) == (Subsystem {
                        namespaces: final(self).namespaces,
                        ..*old(self)
                    })
                },
            },
    {
        let p: usize = self.position(nsid);
        if p < self.namespaces.len() && self.namespaces[p].nsid == nsid {
            let ghost pre = self.namespaces@;
            let _ = self.namespaces.remove(p);
            assert(self.namespaces@ == pre.remove(p as int));
            assert forall|i: int| 0 <= i < self.namespaces@.len() implies (
            #[trigger] self.namespaces@[i]).nsid != nsid by {
                if i < p {
                    assert(self.namespaces@[i] == pre[i]);
                } else {
                    assert(self.namespaces@[i] == pre[i + 1]);
                    assert(pre[p as int].nsid < pre[i + 1].nsid);
                }
            }
            assert forall|i: int, j: int| 0 <= i < j < self.namespaces@.len() implies (
            #[trigger] self.namespaces@[i]).nsid < (#[trigger] self.namespaces@[j]).nsid by {
                let a = if i < p {
                    i
                } else {
                    i + 1
                };
                let b = if j < p {
                    j
                } else {
                    j + 1
                };
                assert(pre[a].nsid < pre[b].nsid);
            }
            Ok(())
        } else {
            Err(NsError::Missing)
        }
    }
}

/// Removing the namespace that was added gives back the list there was.
pub proof fn remove_undoes_add(nss: Seq<Namespace>, ns: Namespace, p: int, q: int)
    requires
        by_nsid(nss),
        !has_nsid(nss, ns.nsid),
        0 <= p <= nss.len(),
        0 <= q < nss.len() + 1,
        nss.insert(p, ns)[q].nsid == ns.nsid,
    ensures
        nss.insert(p, ns).remove(q) == nss,
{
    if q < p {
        assert(nss.insert(p, ns)[q] == nss[q]);
    } else if q > p {
        assert(nss.insert(p, ns)[q] == nss[q - 1]);
    }
    assert(nss.insert(p, ns).remove(p) =~= nss);
}

/// Where the hyphens of a UUID stand.
pub open spec fn hyphen_at(i: int) -> bool {
    i == 8 || i == 13 || i == 18 || i == 23
}

/// Where the first digit of UUID byte `k` stands.
pub open spec fn uuid_pos(k: int) -> int {
    if k < 4 {
        k * 2
    } else if k < 6 {
        k * 2 + 1
    } else if k < 8 {
        k * 2 + 2
    } else if k < 10 {
        k * 2 + 3
    } else {
        k * 2 + 4
    }
}

/// The text has the form of a hyphenated UUID.
pub open spec fn is_uuid(s: Seq<char>) -> bool {
    &&& s.len() == 36
    &&& forall|i: int|
        0 <= i < 36 ==> if hyphen_at(i) {
            (#[trigger] s[i]) == '-'
        } else {
            crate::text::hex_val(s[i]) is Some
        }
}

/// Byte `k` of a UUID.
pub open spec fn uuid_byte(s: Seq<char>, k: int) -> int {
    crate::text::hex_val(s[uuid_pos(k)])->0 * 16 + crate::text::hex_val(s[uuid_pos(k) + 1])->0
}

/// Read a hyphenated UUID.
pub fn parse_uuid(text: &str) -> (r: Option<[u8; 16]>)
    ensures
        match r {
            Some(u) => is_uuid(text@) && forall|k: int|
                0 <= k < 16 ==> (#[trigger] u@[k]) == uuid_byte(text@, k),
            None => !is_uuid(text@),
        },
{
    let v = chars_of(text);
    if v.len() != 36 {
        return None;
    }
    let mut i: usize = 0;
    while i < 36
        invariant
            i <= 36,
            v@ == text@,
            v@.len() == 36,
            forall|k: int|
                0 <= k < i ==> if hyphen_at(k) {
                    (#[trigger] v@[k]) == '-'
                } else {
                    crate::text::hex_val(v@[k]) is Some
                },
        decreases 36 - i,
    {
        let hyphen: bool = i == 8 || i == 13 || i == 18 || i == 23;
        if hyphen {
            if v[i] != '-' {
                assert(text@[i as int] != '-');
                return None;
            }
        } else if hex_digit(v[i]).is_none() {
            assert(crate::text::hex_val(text@[i as int]) is None);
            return None;
        }
        i += 1;
    }
    assert(is_uuid(text@)) by {
        assert forall|k: int| 0 <= k < 36 implies if hyphen_at(k) {
            (#[trigger] text@[k]) == '-'
        } else {
            crate::text::hex_val(text@[k]) is Some
        } by {
            assert(v@[k] == text@[k]);
        }
    }
    let mut out: [u8; 16] = [0u8; 16];
    let mut k: usize = 0;
    while k < 16
        invariant
            k <= 16,
            v@ == text@,
            is_uuid(text@),
            forall|m: int| 0 <= m < k ==> (#[trigger] out@[m]) == uuid_byte(text@, m),
        decreases 16 - k,
    {
        let p: usize = if k < 4 {
            k * 2
        } else if k < 6 {
            k * 2 + 1
        } else if k < 8 {
            k * 2 + 2
        } else if k < 10 {
            k * 2 + 3
        } else {
            k * 2 + 4
        };
        assert(!hyphen_at(p as int) && !hyphen_at(p + 1));
        assert(crate::text::hex_val(text@[p as int]) is Some);
        assert(crate::text::hex_val(text@[p + 1]) is Some);
        let hi: u8 = match hex_digit(v[p]) {
            Some(d) => d,
            None => 0,
        };
        let lo: u8 = match hex_digit(v[p + 1]) {
            Some(d) => d,
            None => 0,
        };
        out[k] = hi * 16 + lo;
        k += 1;
    }
    Some(out)
}

/// A 64-bit mark of a name's bytes.
pub open spec fn name_mark(b: Seq<u8>) -> nat
    decreases b.len(),
{
    if b.len() == 0 {
        0
    } else {
        (name_mark(b.drop_last()) * 0x100_0000_01B3 + b.last() + 1) as nat
            % 0x1_0000_0000_0000_0000
    }
}

fn mark_of(name: &str) -> (h: u64)
    ensures
        h == name_mark(vstd::utf8::encode_utf8(name@)),
{
    let b = name.as_bytes();
    let mut h: u64 = 0;
    let mut i: usize = 0;
    while i < b.len()
        invariant
            i <= b@.len(),
            h == name_mark(b@.take(i as int)),
        decreases b@.len() - i,
    {
        proof {
            let cut = b@.take(i + 1);
            assert(cut.drop_last() =~= b@.take(i as int));
            assert(cut.last() == b@[i as int]);
        }
        h = h.wrapping_mul(0x100_0000_01B3).wrapping_add(b[i] as u64 + 1);
        i += 1;
    }
    assert(b@.take(i as int) =~= b@);
    h
}

/// Byte `k` of the UUID of namespace `nsid` whose configuration names none, in
/// a subsystem whose name has the mark `mark`.
pub open spec fn default_uuid_byte(mark: nat, nsid: u32, k: int) -> int {
    if k == 0 {
        nsid as int / 0x100_0000
    } else if k == 1 {
        (nsid as int / 0x1_0000) % 0x100
    } else if k == 2 {
        (nsid as int / 0x100) % 0x100
    } else if k == 3 {
        nsid as int % 0x100
    } else if k == 6 {
        0x80
    } else if k == 8 {
        0x80 + (mark as int / 0x100_0000_0000_0000) % 0x40
    } else if k == 9 {
        (mark as int / 0x1_0000_0000_0000) % 0x100
    } else if k == 10 {
        (mark as int / 0x100_0000_0000) % 0x100
    } else if k == 11 {
        (mark as int / 0x1_0000_0000) % 0x100
    } else if k == 12 {
        (mark as int / 0x100_0000) % 0x100
    } else if k == 13 {
        (mark as int / 0x1_0000) % 0x100
    } else if k == 14 {
        (mark as int / 0x100) % 0x100
    } else if k == 15 {
        mark as int % 0x100
    } else {
        0
    }
}

/// The UUID of namespace `nsid` of subsystem `nqn` whose configuration names
/// none.
pub open spec fn default_uuid_of(nqn: Seq<char>, nsid: u32) -> Seq<u8> {
    Seq::new(
        16,
        |k: int| default_uuid_byte(name_mark(vstd::utf8::encode_utf8(nqn)), nsid, k) as u8,
    )
}

/// The UUID of a namespace whose configuration names none, derived from the
/// subsystem's name and the namespace id: the id, big-endian, the version and
/// variant of a vendor-defined UUID, and a mark of the name.
pub fn default_uuid(nqn: &str, nsid: u32) -> (u: [u8; 16])
    ensures
        u@ == default_uuid_of(nqn@, nsid),
{
    let mark: u64 = mark_of(nqn);
    let mut u: [u8; 16] = [0u8; 16];
    u[0] = (nsid / 0x100_0000) as u8;
    u[1] = ((nsid / 0x1_0000) % 0x100) as u8;
    u[2] = ((nsid / 0x100) % 0x100) as u8;
    u[3] = (nsid % 0x100) as u8;
    u[6] = 0x80;
    u[8] = (0x80 + (mark / 0x100_0000_0000_0000) % 0x40) as u8;
    u[9] = ((mark / 0x1_0000_0000_0000) % 0x100) as u8;
    u[10] = ((mark / 0x100_0000_0000) % 0x100) as u8;
    u[11] = ((mark / 0x1_0000_0000) % 0x100) as u8;
    u[12] = ((mark / 0x100_0000) % 0x100) as u8;
    u[13] = ((mark / 0x1_0000) % 0x100) as u8;
    u[14] = ((mark / 0x100) % 0x100) as u8;
    u[15] = (mark % 0x100) as u8;
    assert(u@ =~= default_uuid_of(nqn@, nsid));
    u
}

/// Two namespaces of one subsystem never get the same derived UUID.
pub proof fn default_uuids_differ(nqn: Seq<char>, a: u32, b: u32)
    requires
        a != b,
    ensures
        default_uuid_of(nqn, a) != default_uuid_of(nqn, b),
{
    let x = default_uuid_of(nqn, a);
    let y = default_uuid_of(nqn, b);
    if x == y {
        assert(x[0] == y[0] && x[1] == y[1] && x[2] == y[2] && x[3] == y[3]);
    }
}

/// A number modulo `2^62`, from its lowest seven bytes and the six bits above.
proof fn lemma_low_bits(m: int)
    requires
        0 <= m,
    ensures
        m % 0x4000_0000_0000_0000 == ((m / 0x100_0000_0000_0000) % 0x40) * 0x100_0000_0000_0000 + (
        (m / 0x1_0000_0000_0000) % 0x100) * 0x1_0000_0000_0000 + ((m / 0x100_0000_0000) % 0x100)
            * 0x100_0000_0000 + ((m / 0x1_0000_0000) % 0x100) * 0x1_0000_0000 + ((m / 0x100_0000)
            % 0x100) * 0x100_0000 + ((m / 0x1_0000) % 0x100) * 0x1_0000 + ((m / 0x100) % 0x100)
            * 0x100 + m % 0x100,
{
    let q1 = m / 0x100;
    let q2 = m / 0x1_0000;
    let q3 = m / 0x100_0000;
    let q4 = m / 0x1_0000_0000;
    let q5 = m / 0x100_0000_0000;
    let q6 = m / 0x1_0000_0000_0000;
    let q7 = m / 0x100_0000_0000_0000;
    assert(q1 / 0x100 == q2);
    assert(q2 / 0x100 == q3);
    assert(q3 / 0x100 == q4);
    assert(q4 / 0x100 == q5);
    assert(q5 / 0x100 == q6);
    assert(q6 / 0x100 == q7);
    let low = (q6 % 0x100) * 0x1_0000_0000_0000 + (q5 % 0x100) * 0x100_0000_0000 + (q4 % 0x100)
        * 0x1_0000_0000 + (q3 % 0x100) * 0x100_0000 + (q2 % 0x100) * 0x1_0000 + (q1 % 0x100) * 0x100
        + m % 0x100;
    assert(m == q7 * 0x100_0000_0000_0000 + low);
    assert(0 <= low < 0x100_0000_0000_0000);
    assert(m % 0x4000_0000_0000_0000 == (q7 % 0x40) * 0x100_0000_0000_0000 + low);
}

/// The same namespace id in two subsystems gets two UUIDs wherever the marks
/// of the names differ in their low 62 bits.
pub proof fn default_uuids_follow_name(a: Seq<char>, b: Seq<char>, nsid: u32)
    requires
        name_mark(vstd::utf8::encode_utf8(a)) % 0x4000_0000_0000_0000 != name_mark(
            vstd::utf8::encode_utf8(b),
        ) % 0x4000_0000_0000_0000,
    ensures
        default_uuid_of(a, nsid) != default_uuid_of(b, nsid),
{
    let x = default_uuid_of(a, nsid);
    let y = default_uuid_of(b, nsid);
    if x == y {
        assert(x[8] == y[8] && x[9] == y[9] && x[10] == y[10] && x[11] == y[11]);
        assert(x[12] == y[12] && x[13] == y[13] && x[14] == y[14] && x[15] == y[15]);
        lemma_low_bits(name_mark(vstd::utf8::encode_utf8(a)) as int);
        lemma_low_bits(name_mark(vstd::utf8::encode_utf8(b)) as int);
    }
}

/// The bytes of a UUID are its digits, two each, in the order of the text: each
/// pair stands together, and only hyphens stand between one and the next.
pub proof fn uuid_digits_are_in_order(s: Seq<char>, k: int)
    requires
        is_uuid(s),
        0 <= k < 16,
    ensures
        uuid_pos(0) == 0,
        uuid_pos(15) == 34,
        s[uuid_pos(k)] != '-',
        s[uuid_pos(k) + 1] != '-',
        k < 15 ==> uuid_pos(k) + 2 <= uuid_pos(k + 1) && forall|i: int|
            uuid_pos(k) + 2 <= i < uuid_pos(k + 1) ==> #[trigger] s[i] == '-',
        0 <= uuid_byte(s, k) < 256,
        crate::text::hex_val(s[uuid_pos(k)]) == Some(uuid_byte(s, k) / 16),
        crate::text::hex_val(s[uuid_pos(k) + 1]) == Some(uuid_byte(s, k) % 16),
{
    let p = uuid_pos(k);
    assert(!hyphen_at(p) && !hyphen_at(p + 1));
    assert(crate::text::hex_val(s[p]) is Some);
    assert(crate::text::hex_val(s[p + 1]) is Some);
    if k < 15 {
        assert forall|i: int| p + 2 <= i < uuid_pos(k + 1) implies #[trigger] s[i] == '-' by {
            assert(hyphen_at(i));
        }
    }
}

} // verus!
