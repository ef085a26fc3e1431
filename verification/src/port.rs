//! The port model, built from the configured subsystems once their backends
//! are open.

use vstd::prelude::*;

use crate::config::{NamespaceConfig, SubsystemConfig};
use crate::nvme::{SC_CONNECT_INVALID_PARAM, SC_DNR};
use crate::subsystem::{default_uuid, Namespace, Subsystem, TransportType};
use crate::text::{dec_text, same_text, text_precedes};

verus! {

/// What a port serves, and how.
pub struct PortConfig {
    /// Listening address, without the port.
    pub traddr: String,
    /// Listening port.
    pub trsvcid: String,
    pub trtype: TransportType,
    /// Deepest IO queue advertised.
    pub io_queue_size: u16,
    /// Data-buffer pool bytes of an IO queue.
    pub queue_buf_bytes: usize,
    /// Receive-ring bytes of a connection; 0 for none.
    pub recv_buf_bytes: usize,
    /// Busy-poll IO queues.
    pub poll: bool,
    /// In-capsule data bytes a TCP queue advertises.
    pub inline_data_size: u32,
    /// Most data an admin command returns.
    pub admin_data_max: usize,
    /// In NQN order.
    pub subsystems: Vec<Subsystem>,
}

/// Subsystems in NQN order, none twice, each well formed.
pub open spec fn by_nqn(s: Seq<Subsystem>) -> bool {
    &&& forall|i: int| 0 <= i < s.len() ==> (#[trigger] s[i]).wf()
    &&& forall|i: int, j: int|
        0 <= i < j < s.len() ==> crate::text::precedes(
            (#[trigger] s[i]).nqn@,
            (#[trigger] s[j]).nqn@,
        )
}

/// Some subsystem has the NQN.
pub open spec fn serves(s: Seq<Subsystem>, nqn: Seq<char>) -> bool {
    exists|i: int| 0 <= i < s.len() && (#[trigger] s[i]).nqn@ == nqn
}

impl PortConfig {
    pub open spec fn wf(&self) -> bool {
        by_nqn(self.subsystems@)
    }

    /// Where the subsystem with this NQN is.
    pub fn subsystem(&self, nqn: &str) -> (r: Option<usize>)
        ensures
            match r {
                Some(i) => i < self.subsystems@.len() && self.subsystems@[i as int].nqn@ == nqn@,
                None => !serves(self.subsystems@, nqn@),
            },
    {
        let mut i: usize = 0;
        while i < self.subsystems.len()
            invariant
                i <= self.subsystems@.len(),
                forall|k: int| 0 <= k < i ==> (#[trigger] self.subsystems@[k]).nqn@ != nqn@,
            decreases self.subsystems@.len() - i,
        {
            if same_text(self.subsystems[i].nqn.as_str(), nqn) {
                return Some(i);
            }
            i += 1;
        }
        None
    }
}

/// What a Connect asks for.
#[derive(Debug, Clone, Copy, PartialEq, Eq, Structural)]
pub enum Target {
    /// The discovery subsystem.
    Discovery,
    /// The subsystem at this place.
    Nvm(usize),
}

impl PortConfig {
    /// What a Connect of host `hostnqn` to subsystem `nqn` comes to.
    pub open spec fn reached(
        &self,
        nqn: Seq<char>,
        hostnqn: Seq<char>,
        r: Result<Target, u16>,
    ) -> bool {
        match r {
            Ok(Target::Discovery) => nqn == "nqn.2014-08.org.nvmexpress.discovery"@,
            Ok(Target::Nvm(i)) => {
                &&& nqn != "nqn.2014-08.org.nvmexpress.discovery"@
                &&& i < self.subsystems@.len()
                &&& self.subsystems@[i as int].nqn@ == nqn
                &&& self.subsystems@[i as int].admits(hostnqn)
            },
            Err(s) => {
                &&& nqn != "nqn.2014-08.org.nvmexpress.discovery"@
                &&& if !serves(self.subsystems@, nqn) {
                    s == SC_CONNECT_INVALID_PARAM + SC_DNR
                } else {
                    s == crate::nvme::SC_CONNECT_INVALID_HOST + SC_DNR && exists|i: int|
                        0 <= i < self.subsystems@.len() && (#[trigger] self.subsystems@[i]).nqn@
                            == nqn && !self.subsystems@[i].admits(hostnqn)
                }
            },
        }
    }

    /// What a Connect of host `hostnqn` to subsystem `nqn` reaches, or the
    /// status it is refused with: any host reaches the discovery subsystem, and
    /// a subsystem of another port is unknown here.
    pub fn connect_target(&self, nqn: &str, hostnqn: &str) -> (r: Result<Target, u16>)
        ensures
            self.reached(nqn@, hostnqn@, r),
    {
        if same_text(nqn, "nqn.2014-08.org.nvmexpress.discovery") {
            return Ok(Target::Discovery);
        }
        match self.subsystem(nqn) {
            None => Err(SC_CONNECT_INVALID_PARAM + SC_DNR),
            Some(i) => match self.subsystems[i].host_status(hostnqn) {
                Some(status) => Err(status),
                None => Ok(Target::Nvm(i)),
            },
        }
    }
}

/// `ns` is namespace `nsid` of subsystem `nqn`, its backend of `z.0` blocks of
/// `2^z.1` bytes; its UUID is the one asked for, or derived from the names.
pub open spec fn ns_is(
    ns: Namespace,
    nqn: Seq<char>,
    nsid: u32,
    asked: Option<[u8; 16]>,
    z: (u64, u8),
) -> bool {
    &&& ns.nsid == nsid
    &&& ns.blocks == z.0
    &&& ns.block_shift == z.1
    &&& match asked {
        Some(u) => ns.uuid == u,
        None => ns.uuid@ == crate::subsystem::default_uuid_of(nqn, nsid),
    }
}

/// `ns` is the namespace of configuration `c` in subsystem `nqn`.
pub open spec fn ns_made(ns: Namespace, nqn: Seq<char>, c: NamespaceConfig, z: (u64, u8)) -> bool {
    ns_is(ns, nqn, c.nsid, c.uuid, z)
}

/// Of the first `n` configurations, `k` is the last with its namespace id.
pub open spec fn last_nsid(nss: Seq<NamespaceConfig>, n: int, k: int) -> bool {
    0 <= k < n && forall|j: int| k < j < n ==> (#[trigger] nss[j]).nsid != nss[k].nsid
}

/// `out` holds the namespaces of the first `n` configurations of subsystem
/// `nqn`, in id order; of those with one id the last.
pub open spec fn ns_table(
    out: Seq<Namespace>,
    nqn: Seq<char>,
    nss: Seq<NamespaceConfig>,
    z: Seq<(u64, u8)>,
    n: int,
) -> bool {
    &&& crate::subsystem::by_nsid(out)
    &&& forall|i: int|
        0 <= i < out.len() ==> exists|k: int|
            #![trigger nss[k]]
            last_nsid(nss, n, k) && ns_made(#[trigger] out[i], nqn, nss[k], z[k])
    &&& forall|k: int|
        0 <= k < n ==> crate::subsystem::has_nsid(out, (#[trigger] nss[k]).nsid)
}

/// A namespace of subsystem `nqn`, with the UUID asked for or a derived one.
pub fn make_ns(nqn: &str, nsid: u32, asked: Option<[u8; 16]>, z: (u64, u8)) -> (ns: Namespace)
    ensures
        ns_is(ns, nqn@, nsid, asked, z),
{
    let uuid: [u8; 16] = match asked {
        Some(u) => u,
        None => default_uuid(nqn, nsid),
    };
    Namespace { nsid, blocks: z.0, block_shift: z.1, uuid }
}

fn build_namespaces(nqn: &str, nss: &Vec<NamespaceConfig>, z: &Vec<(u64, u8)>) -> (out: Vec<
    Namespace,
>)
    requires
        nss@.len() == z@.len(),
    ensures
        ns_table(out@, nqn@, nss@, z@, nss@.len() as int),
{
    let mut out: Vec<Namespace> = Vec::new();
    let mut n: usize = 0;
    while n < nss.len()
        invariant
            n <= nss@.len(),
            nss@.len() == z@.len(),
            ns_table(out@, nqn@, nss@, z@, n as int),
        decreases nss@.len() - n,
    {
        let ns = make_ns(nqn, nss[n].nsid, nss[n].uuid, z[n]);
        let ghost pre = out@;
        let mut p: usize = 0;
        while p < out.len() && out[p].nsid < ns.nsid
            invariant
                p <= out@.len(),
                out@ == pre,
                forall|i: int| 0 <= i < p ==> (#[trigger] out@[i]).nsid < ns.nsid,
            decreases out@.len() - p,
        {
            p += 1;
        }
        if p < out.len() && out[p].nsid == ns.nsid {
            out.set(p, ns);
        } else {
            out.insert(p, ns);
        }
        proof {
            lemma_ns_table(pre, out@, nqn@, nss@, z@, n as int, p as int, ns);
        }
        n += 1;
    }
    out
}

proof fn lemma_ns_table(
    pre: Seq<Namespace>,
    out: Seq<Namespace>,
    nqn: Seq<char>,
    nss: Seq<NamespaceConfig>,
    z: Seq<(u64, u8)>,
    n: int,
    p: int,
    ns: Namespace,
)
    requires
        0 <= n < nss.len(),
        nss.len() == z.len(),
        ns_table(pre, nqn, nss, z, n),
        ns_made(ns, nqn, nss[n], z[n]),
        0 <= p <= pre.len(),
        forall|i: int| 0 <= i < p ==> (#[trigger] pre[i]).nsid < ns.nsid,
        p < pre.len() ==> pre[p].nsid >= ns.nsid,
        out == (if p < pre.len() && pre[p].nsid == ns.nsid {
            pre.update(p, ns)
        } else {
            pre.insert(p, ns)
        }),
    ensures
        ns_table(out, nqn, nss, z, n + 1),
{
    let same = p < pre.len() && pre[p].nsid == ns.nsid;
    assert(forall|i: int| p < i < pre.len() ==> pre[p].nsid < (#[trigger] pre[i]).nsid);
    assert(out[p] == ns);
    assert forall|i: int, j: int| 0 <= i < j < out.len() implies (#[trigger] out[i]).nsid < (
    #[trigger] out[j]).nsid by {
        if !same {
            let a = if i <= p {
                i
            } else {
                i - 1
            };
            let b = if j <= p {
                j
            } else {
                j - 1
            };
            if i != p && j != p {
                assert(out[i] == pre[a] && out[j] == pre[b]);
                assert(pre[a].nsid < pre[b].nsid);
            } else if i == p {
                assert(out[j] == pre[b]);
            } else {
                assert(out[i] == pre[a]);
            }
        }
    }
    assert forall|i: int| 0 <= i < out.len() implies exists|k: int|
        #![trigger nss[k]]
        last_nsid(nss, n + 1, k) && ns_made(#[trigger] out[i], nqn, nss[k], z[k]) by {
        if i == p {
            assert(last_nsid(nss, n + 1, n) && ns_made(out[i], nqn, nss[n], z[n]));
        } else {
            let o = if same || i < p {
                i
            } else {
                i - 1
            };
            assert(out[i] == pre[o]);
            let k = choose|k: int|
                #![trigger nss[k]]
                last_nsid(nss, n, k) && ns_made(pre[o], nqn, nss[k], z[k]);
            assert(pre[o].nsid != ns.nsid);
            assert(last_nsid(nss, n + 1, k) && ns_made(out[i], nqn, nss[k], z[k]));
        }
    }
    assert forall|k: int| 0 <= k < n + 1 implies crate::subsystem::has_nsid(
        out,
        (#[trigger] nss[k]).nsid,
    ) by {
        if k == n {
            assert(out[p].nsid == nss[n].nsid);
        } else {
            let o = choose|o: int| 0 <= o < pre.len() && (#[trigger] pre[o]).nsid == nss[k].nsid;
            if same || o < p {
                assert(out[o].nsid == nss[k].nsid);
            } else {
                assert(out[o + 1] == pre[o]);
            }
        }
    }
}

/// The views of a list of names.
pub open spec fn names(v: Seq<String>) -> Seq<Seq<char>> {
    Seq::new(v.len(), |i: int| v[i]@)
}

/// IO queues a controller may have: one for each IO thread.
pub open spec fn qids_for(io_threads: int) -> u16 {
    if io_threads < 1 || io_threads > u16::MAX {
        1
    } else {
        io_threads as u16
    }
}

/// `s` serves the configuration `c`.
pub open spec fn sub_made(
    s: Subsystem,
    c: SubsystemConfig,
    z: Seq<(u64, u8)>,
    io_threads: int,
) -> bool {
    &&& s.nqn@ == c.nqn@
    &&& s.serial@ == c.serial@
    &&& s.model@ == c.model@
    &&& s.max_qid == qids_for(io_threads)
    &&& s.allow_any_host == c.allow_any_host
    &&& names(s.allowed_hosts@) == names(c.allowed_hosts@)
    &&& ns_table(s.namespaces@, c.nqn@, c.namespaces@, z, c.namespaces@.len() as int)
}

/// Of the first `n` configurations, `k` is the last with its NQN.
pub open spec fn last_nqn(cs: Seq<SubsystemConfig>, n: int, k: int) -> bool {
    0 <= k < n && forall|j: int| k < j < n ==> (#[trigger] cs[j]).nqn@ != cs[k].nqn@
}

/// `out` serves the first `n` configurations, in NQN order; of those with one
/// NQN the last.
pub open spec fn sub_table(
    out: Seq<Subsystem>,
    cs: Seq<SubsystemConfig>,
    z: Seq<Vec<(u64, u8)>>,
    io_threads: int,
    n: int,
) -> bool {
    &&& by_nqn(out)
    &&& forall|i: int|
        0 <= i < out.len() ==> exists|k: int|
            #![trigger cs[k]]
            last_nqn(cs, n, k) && sub_made(#[trigger] out[i], cs[k], z[k]@, io_threads)
    &&& forall|k: int| 0 <= k < n ==> serves(out, (#[trigger] cs[k]).nqn@)
}

pub fn clone_names(v: &Vec<String>) -> (out: Vec<String>)
    ensures
        names(out@) == names(v@),
{
    let mut out: Vec<String> = Vec::new();
    let mut i: usize = 0;
    while i < v.len()
        invariant
            i <= v@.len(),
            out@.len() == i,
            forall|k: int| 0 <= k < i ==> (#[trigger] out@[k])@ == v@[k]@,
        decreases v@.len() - i,
    {
        out.push(v[i].clone());
        i += 1;
    }
    assert(names(out@) =~= names(v@));
    out
}

fn make_sub(c: &SubsystemConfig, z: &Vec<(u64, u8)>, io_threads: usize) -> (s: Subsystem)
    requires
        c.namespaces@.len() == z@.len(),
    ensures
        sub_made(s, *c, z@, io_threads as int),
        s.wf(),
{
    let max_qid: u16 = if io_threads < 1 || io_threads > u16::MAX as usize {
        1
    } else {
        io_threads as u16
    };
    Subsystem {
        nqn: c.nqn.clone(),
        serial: c.serial.clone(),
        model: c.model.clone(),
        max_qid,
        allow_any_host: c.allow_any_host,
        allowed_hosts: clone_names(&c.allowed_hosts),
        namespaces: build_namespaces(c.nqn.as_str(), &c.namespaces, z),
    }
}

proof fn lemma_sub_table(
    pre: Seq<Subsystem>,
    out: Seq<Subsystem>,
    cs: Seq<SubsystemConfig>,
    z: Seq<Vec<(u64, u8)>>,
    io_threads: int,
    n: int,
    p: int,
    s: Subsystem,
)
    requires
        0 <= n < cs.len(),
        cs.len() == z.len(),
        sub_table(pre, cs, z, io_threads, n),
        sub_made(s, cs[n], z[n]@, io_threads),
        s.wf(),
        0 <= p <= pre.len(),
        forall|i: int|
            0 <= i < p ==> crate::text::precedes((#[trigger] pre[i]).nqn@, s.nqn@),
        p < pre.len() ==> !crate::text::precedes(pre[p].nqn@, s.nqn@),
        out == (if p < pre.len() && pre[p].nqn@ == s.nqn@ {
            pre.update(p, s)
        } else {
            pre.insert(p, s)
        }),
    ensures
        sub_table(out, cs, z, io_threads, n + 1),
{
    let same = p < pre.len() && pre[p].nqn@ == s.nqn@;
    assert(out[p] == s);
    assert forall|i: int| (if same {
        p < i
    } else {
        p <= i
    }) && i < pre.len() implies crate::text::precedes(s.nqn@, (#[trigger] pre[i]).nqn@) by {
        if !same {
            crate::text::precedes_total(pre[p].nqn@, s.nqn@);
        }
        if i > p {
            assert(crate::text::precedes(pre[p].nqn@, pre[i].nqn@));
            if !same {
                crate::text::precedes_transitive(s.nqn@, pre[p].nqn@, pre[i].nqn@);
            }
        }
    }
    assert forall|i: int| 0 <= i < out.len() implies (#[trigger] out[i]).wf() by {
        if i != p {
            let o = if same || i < p {
                i
            } else {
                i - 1
            };
            assert(out[i] == pre[o]);
        }
    }
    assert forall|i: int, j: int| 0 <= i < j < out.len() implies crate::text::precedes(
        (#[trigger] out[i]).nqn@,
        (#[trigger] out[j]).nqn@,
    ) by {
        let a = if same || i < p {
            i
        } else {
            i - 1
        };
        let b = if same || j < p {
            j
        } else {
            j - 1
        };
        if i == p {
            assert(out[j] == pre[b]);
            assert(crate::text::precedes(s.nqn@, pre[b].nqn@));
        } else if j == p {
            assert(out[i] == pre[a]);
        } else {
            assert(out[i] == pre[a] && out[j] == pre[b]);
            assert(crate::text::precedes(pre[a].nqn@, pre[b].nqn@));
        }
    }
    assert forall|i: int| 0 <= i < out.len() implies exists|k: int|
        #![trigger cs[k]]
        last_nqn(cs, n + 1, k) && sub_made(#[trigger] out[i], cs[k], z[k]@, io_threads) by {
        if i == p {
            assert(last_nqn(cs, n + 1, n) && sub_made(out[i], cs[n], z[n]@, io_threads));
        } else {
            let o = if same || i < p {
                i
            } else {
                i - 1
            };
            assert(out[i] == pre[o]);
            let k = choose|k: int|
                #![trigger cs[k]]
                last_nqn(cs, n, k) && sub_made(pre[o], cs[k], z[k]@, io_threads);
            crate::text::precedes_irreflexive(s.nqn@);
            assert(pre[o].nqn@ != s.nqn@);
            assert(last_nqn(cs, n + 1, k) && sub_made(out[i], cs[k], z[k]@, io_threads));
        }
    }
    assert forall|k: int| 0 <= k < n + 1 implies serves(out, (#[trigger] cs[k]).nqn@) by {
        if k == n {
            assert(out[p].nqn@ == cs[n].nqn@);
        } else {
            let o = choose|o: int| 0 <= o < pre.len() && (#[trigger] pre[o]).nqn@ == cs[k].nqn@;
            if same || o < p {
                assert(out[o].nqn@ == cs[k].nqn@);
            } else {
                assert(out[o + 1] == pre[o]);
            }
        }
    }
}

/// How a port is tuned.
#[derive(Debug, Clone, Copy, PartialEq, Eq, Structural)]
pub struct PortTuning {
    pub io_threads: usize,
    pub io_queue_size: u16,
    pub queue_buf_bytes: usize,
    pub recv_buf_bytes: usize,
    pub poll: bool,
    pub inline_data_size: u32,
    pub admin_data_max: usize,
}

/// `port` serves the configurations, at this address.
pub open spec fn port_built(
    port: PortConfig,
    configs: Seq<SubsystemConfig>,
    sizes: Seq<Vec<(u64, u8)>>,
    tuning: PortTuning,
    traddr: Seq<char>,
    trsvcid: u16,
    trtype: TransportType,
) -> bool {
    &&& sub_table(
        port.subsystems@,
        configs,
        sizes,
        tuning.io_threads as int,
        configs.len() as int,
    )
    &&& port.traddr@ == traddr
    &&& port.trsvcid@ == crate::text::dec(trsvcid as nat)
    &&& port.trtype == trtype
    &&& port.io_queue_size == tuning.io_queue_size
    &&& port.queue_buf_bytes == tuning.queue_buf_bytes
    &&& port.recv_buf_bytes == tuning.recv_buf_bytes
    &&& port.poll == tuning.poll
    &&& port.inline_data_size == tuning.inline_data_size
    &&& port.admin_data_max == tuning.admin_data_max
}

/// Build the port model. `sizes` are the blocks and block shifts of the opened
/// backends; `traddr` and `trsvcid` the address actually bound.
pub fn build_port(
    configs: &Vec<SubsystemConfig>,
    sizes: &Vec<Vec<(u64, u8)>>,
    tuning: PortTuning,
    traddr: String,
    trsvcid: u16,
    trtype: TransportType,
) -> (port: PortConfig)
    requires
        configs@.len() == sizes@.len(),
        forall|i: int|
            0 <= i < configs@.len() ==> (#[trigger] configs@[i]).namespaces@.len()
                == sizes@[i]@.len(),
    ensures
        port.wf(),
        port_built(port, configs@, sizes@, tuning, traddr@, trsvcid, trtype),
{
    let mut out: Vec<Subsystem> = Vec::new();
    let mut n: usize = 0;
    while n < configs.len()
        invariant
            n <= configs@.len(),
            configs@.len() == sizes@.len(),
            forall|i: int|
                0 <= i < configs@.len() ==> (#[trigger] configs@[i]).namespaces@.len()
                    == sizes@[i]@.len(),
            sub_table(out@, configs@, sizes@, tuning.io_threads as int, n as int),
        decreases configs@.len() - n,
    {
        assert(configs@[n as int].namespaces@.len() == sizes@[n as int]@.len());
        let s = make_sub(&configs[n], &sizes[n], tuning.io_threads);
        let ghost pre = out@;
        let mut p: usize = 0;
        while p < out.len() && text_precedes(out[p].nqn.as_str(), s.nqn.as_str())
            invariant
                p <= out@.len(),
                out@ == pre,
                forall|i: int|
                    0 <= i < p ==> crate::text::precedes((#[trigger] out@[i]).nqn@, s.nqn@),
            decreases out@.len() - p,
        {
            p += 1;
        }
        let ghost made = s;
        if p < out.len() && same_text(out[p].nqn.as_str(), s.nqn.as_str()) {
            out.set(p, s);
        } else {
            out.insert(p, s);
        }
        proof {
            lemma_sub_table(
                pre,
                out@,
                configs@,
                sizes@,
                tuning.io_threads as int,
                n as int,
                p as int,
                made,
            );
        }
        n += 1;
    }
    PortConfig {
        traddr,
        trsvcid: dec_text(trsvcid as u64),
        trtype,
        io_queue_size: tuning.io_queue_size,
        queue_buf_bytes: tuning.queue_buf_bytes,
        recv_buf_bytes: tuning.recv_buf_bytes,
        poll: tuning.poll,
        inline_data_size: tuning.inline_data_size,
        admin_data_max: tuning.admin_data_max,
        subsystems: out,
    }
}

/// A host reaches what it may reach, and nothing else. The discovery subsystem
/// is open to every host. A subsystem is reached by its name, by a host that it
/// lists or where it lets any host in; another host is refused as an invalid
/// host, and a name that is not served here as an invalid parameter, neither to
/// be tried again.
pub proof fn hosts_reach_what_admits_them(
    p: PortConfig,
    nqn: Seq<char>,
    host: Seq<char>,
    r: Result<Target, u16>,
    i: int,
)
    requires
        p.wf(),
        p.reached(nqn, host, r),
        0 <= i < p.subsystems@.len(),
        p.subsystems@[i].nqn@ == nqn,
        nqn != "nqn.2014-08.org.nvmexpress.discovery"@,
    ensures
        ({
            let s = p.subsystems@[i];
            let open = s.allow_any_host || exists|k: int|
                0 <= k < s.allowed_hosts@.len() && (#[trigger] s.allowed_hosts@[k])@ == host;
            r == (if open {
                Ok::<Target, u16>(Target::Nvm(i as usize))
            } else {
                Err::<Target, u16>(0x4184)
            })
        }),
{
    crate::text::precedes_irreflexive(nqn);
    assert forall|j: int|
        0 <= j < p.subsystems@.len() && (#[trigger] p.subsystems@[j]).nqn@ == nqn implies j == i by {
        if i < j {
            assert(crate::text::precedes(p.subsystems@[i].nqn@, p.subsystems@[j].nqn@));
        } else if j < i {
            assert(crate::text::precedes(p.subsystems@[j].nqn@, p.subsystems@[i].nqn@));
        }
    }
    assert(serves(p.subsystems@, nqn));
    let s = p.subsystems@[i];
    assert(crate::subsystem::lists(s.allowed_hosts@, host) == exists|k: int|
        0 <= k < s.allowed_hosts@.len() && (#[trigger] s.allowed_hosts@[k])@ == host);
}

/// A name that is not served is refused, but for that of discovery.
pub proof fn unknown_subsystems_are_refused(
    p: PortConfig,
    nqn: Seq<char>,
    host: Seq<char>,
    r: Result<Target, u16>,
)
    requires
        p.reached(nqn, host, r),
        forall|i: int|
            0 <= i < p.subsystems@.len() ==> (#[trigger] p.subsystems@[i]).nqn@ != nqn,
    ensures
        r == (if nqn == "nqn.2014-08.org.nvmexpress.discovery"@ {
            Ok::<Target, u16>(Target::Discovery)
        } else {
            Err::<Target, u16>(0x4182)
        }),
{
}

/// A port serves its configuration: each configured subsystem, of those with one
/// name the last, with its serial number and hosts, one IO queue for each IO
/// thread, and each of its namespaces, of those with one id the last, as large
/// as its backend; at the address and the service it is bound to, sized as it
/// was tuned.
pub proof fn built_port_serves_its_configuration(
    port: PortConfig,
    configs: Seq<SubsystemConfig>,
    sizes: Seq<Vec<(u64, u8)>>,
    tuning: PortTuning,
    traddr: Seq<char>,
    trsvcid: u16,
    trtype: TransportType,
    k: int,
    n: int,
)
    requires
        port.wf(),
        port_built(port, configs, sizes, tuning, traddr, trsvcid, trtype),
        configs.len() == sizes.len(),
        0 <= k < configs.len(),
        forall|j: int| k < j < configs.len() ==> (#[trigger] configs[j]).nqn@ != configs[k].nqn@,
        configs[k].namespaces@.len() == sizes[k]@.len(),
        0 <= n < configs[k].namespaces@.len(),
        forall|j: int|
            n < j < configs[k].namespaces@.len() ==> (#[trigger] configs[k].namespaces@[j]).nsid
                != configs[k].namespaces@[n].nsid,
    ensures
        port.traddr@ == traddr,
        port.trsvcid@ == crate::text::dec(trsvcid as nat),
        port.trtype == trtype,
        port.io_queue_size == tuning.io_queue_size,
        port.queue_buf_bytes == tuning.queue_buf_bytes,
        port.recv_buf_bytes == tuning.recv_buf_bytes,
        port.poll == tuning.poll,
        port.inline_data_size == tuning.inline_data_size,
        port.admin_data_max == tuning.admin_data_max,
        exists|i: int, m: int|
            #![trigger port.subsystems@[i].namespaces@[m]]
            {
                let s = port.subsystems@[i];
                let ns = s.namespaces@[m];
                &&& 0 <= i < port.subsystems@.len()
                &&& s.nqn@ == configs[k].nqn@
                &&& s.serial@ == configs[k].serial@
                &&& s.allow_any_host == configs[k].allow_any_host
                &&& names(s.allowed_hosts@) == names(configs[k].allowed_hosts@)
                &&& 1 <= tuning.io_threads <= 0xFFFF ==> s.max_qid == tuning.io_threads
                &&& 0 <= m < s.namespaces@.len()
                &&& ns.nsid == configs[k].namespaces@[n].nsid
                &&& ns.blocks == sizes[k]@[n].0
                &&& ns.block_shift == sizes[k]@[n].1
                &&& configs[k].namespaces@[n].uuid matches Some(u) ==> ns.uuid == u
            },
{
    let out = port.subsystems@;
    assert(serves(out, configs[k].nqn@));
    let i = choose|i: int| 0 <= i < out.len() && (#[trigger] out[i]).nqn@ == configs[k].nqn@;
    let c = choose|c: int|
        #![trigger configs[c]]
        last_nqn(configs, configs.len() as int, c) && sub_made(
            out[i],
            configs[c],
            sizes[c]@,
            tuning.io_threads as int,
        );
    assert(c == k) by {
        if c < k {
            assert(configs[k].nqn@ != configs[c].nqn@);
        } else if k < c {
            assert(configs[c].nqn@ != configs[k].nqn@);
        }
    }
    let nss = configs[k].namespaces@;
    let served = out[i].namespaces@;
    assert(crate::subsystem::has_nsid(served, nss[n].nsid));
    let m = choose|m: int| 0 <= m < served.len() && (#[trigger] served[m]).nsid == nss[n].nsid;
    let d = choose|d: int|
        #![trigger nss[d]]
        last_nsid(nss, nss.len() as int, d) && ns_made(
            served[m],
            configs[k].nqn@,
            nss[d],
            sizes[k]@[d],
        );
    assert(d == n) by {
        if d < n {
            assert(nss[n].nsid != nss[d].nsid);
        } else if n < d {
            assert(nss[d].nsid != nss[n].nsid);
        }
    }
    assert(out[i].namespaces@[m] == served[m]);
}

} // verus!
