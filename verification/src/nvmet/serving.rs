//! What of a configuration file is served.

use vstd::prelude::*;

use crate::config::{BackendConfig, NamespaceConfig, SubsystemConfig};
use crate::json::{self, JsonV};
use crate::nvmet::{self, NvmetConfig, NvmetNamespace, NvmetPort, NvmetSubsystem, NvmetTarget};

verus! {

/// The first attribute under `key` is `v`.
pub open spec fn has_attr(a: Seq<(String, String)>, key: Seq<char>, v: Seq<char>) -> bool {
    exists|i: int|
        {
            &&& 0 <= i < a.len()
            &&& (#[trigger] a[i]).0@ == key
            &&& a[i].1@ == v
            &&& forall|j: int| 0 <= j < i ==> (#[trigger] a[j]).0@ != key
        }
}

proof fn lemma_attr(a: Seq<(String, String)>, key: Seq<char>, i: int)
    requires
        0 <= i <= a.len(),
        forall|j: int| 0 <= j < i ==> (#[trigger] a[j]).0@ != key,
    ensures
        nvmet::attr_from(a, key, i) matches Some(v) ==> has_attr(a, key, v),
        nvmet::attr_from(a, key, i) is None ==> forall|j: int|
            0 <= j < a.len() ==> (#[trigger] a[j]).0@ != key,
    decreases a.len() - i,
{
    if i < a.len() && a[i].0@ != key {
        lemma_attr(a, key, i + 1);
    }
}

/// Nothing stands under `key`.
pub open spec fn lacks_attr(a: Seq<(String, String)>, key: Seq<char>) -> bool {
    forall|j: int| 0 <= j < a.len() ==> (#[trigger] a[j]).0@ != key
}

/// `c` serves namespace `n` of the file: under its id, from the file at its
/// device path, with the UUID of its device where it has one.
#[verifier::opaque]
pub open spec fn serves_ns(c: NamespaceConfig, n: NvmetNamespace) -> bool {
    &&& c.nsid == n.nsid
    &&& c.backend matches BackendConfig::File { path } && has_attr(n.device@, "path"@, path@)
    &&& c.uuid is None ==> lacks_attr(n.device@, "uuid"@)
    &&& c.uuid matches Some(u) ==> exists|t: Seq<char>| #[trigger]
        has_attr(n.device@, "uuid"@, t) && forall|k: int|
            0 <= k < 16 ==> (#[trigger] u@[k]) == crate::subsystem::uuid_byte(t, k)
}

proof fn lemma_enabled(nss: Seq<NvmetNamespace>, n: int)
    requires
        0 <= n <= nss.len(),
    ensures
        ({
            let on = nvmet::enabled(nss, n);
            &&& forall|k: int| 0 <= k < on.len() ==> 0 <= #[trigger] on[k] < n && nss[on[k]].enable != 0
            &&& forall|j: int, k: int| 0 <= j < k < on.len() ==> #[trigger] on[j] < #[trigger] on[k]
            &&& forall|i: int| 0 <= i < n && (#[trigger] nss[i]).enable != 0 ==> on.contains(i)
        }),
    decreases n,
{
    if n > 0 {
        lemma_enabled(nss, n - 1);
        let less = nvmet::enabled(nss, n - 1);
        let on = nvmet::enabled(nss, n);
        assert forall|i: int| 0 <= i < n && (#[trigger] nss[i]).enable != 0 implies on.contains(i) by {
            if i == n - 1 {
                assert(on[on.len() - 1] == i);
            } else {
                let k = choose|k: int| 0 <= k < less.len() && less[k] == i;
                assert(on[k] == i);
            }
        }
    }
}

/// A subsystem of the file is served under its name, to the hosts it lists, and
/// to any host exactly where its attribute for that is "1"; its serial number
/// and model are those of its attributes where it has them.
pub proof fn subsystems_are_served_as_named(s: NvmetSubsystem, c: SubsystemConfig)
    requires
        nvmet::sub_config(s, c),
    ensures
        c.nqn@ == s.nqn@,
        c.allow_any_host == has_attr(s.attr@, "allow_any_host"@, "1"@),
        c.allowed_hosts@.len() == s.allowed_hosts@.len(),
        forall|i: int|
            0 <= i < s.allowed_hosts@.len() ==> (#[trigger] c.allowed_hosts@[i])@
                == s.allowed_hosts@[i]@,
        lacks_attr(s.attr@, "serial"@) || has_attr(s.attr@, "serial"@, c.serial@),
        lacks_attr(s.attr@, "model"@) || has_attr(s.attr@, "model"@, c.model@),
{
    lemma_attr(s.attr@, "allow_any_host"@, 0);
    lemma_attr(s.attr@, "serial"@, 0);
    lemma_attr(s.attr@, "model"@, 0);
    if has_attr(s.attr@, "allow_any_host"@, "1"@) {
        let t = nvmet::attr_from(s.attr@, "allow_any_host"@, 0)->0;
        lemma_one_attr(s.attr@, "allow_any_host"@, "1"@, t);
    }
    let a = crate::port::names(c.allowed_hosts@);
    let b = crate::port::names(s.allowed_hosts@);
    assert(a == b);
    assert(a.len() == c.allowed_hosts@.len() && b.len() == s.allowed_hosts@.len());
    assert forall|i: int| 0 <= i < s.allowed_hosts@.len() implies (#[trigger] c.allowed_hosts@[i])@
        == s.allowed_hosts@[i]@ by {
        assert(a[i] == c.allowed_hosts@[i]@);
        assert(b[i] == s.allowed_hosts@[i]@);
    }
}

proof fn lemma_serves(n: NvmetNamespace, c: NamespaceConfig)
    requires
        nvmet::ns_config(n, c),
    ensures
        serves_ns(c, n),
{
    reveal(serves_ns);
    lemma_attr(n.device@, "path"@, 0);
    lemma_attr(n.device@, "uuid"@, 0);
}

/// Of the namespaces of a subsystem of the file those are served that are
/// enabled, all of them, and no other.
pub proof fn enabled_namespaces_are_served(s: NvmetSubsystem, c: SubsystemConfig)
    requires
        nvmet::sub_config(s, c),
    ensures
        forall|k: int|
            0 <= k < c.namespaces@.len() ==> exists|i: int|
                0 <= i < s.namespaces@.len() && (#[trigger] s.namespaces@[i]).enable != 0
                    && serves_ns(#[trigger] c.namespaces@[k], s.namespaces@[i]),
        forall|i: int|
            0 <= i < s.namespaces@.len() && (#[trigger] s.namespaces@[i]).enable != 0 ==> exists|
                k: int,
            |
                0 <= k < c.namespaces@.len() && serves_ns(
                    #[trigger] c.namespaces@[k],
                    s.namespaces@[i],
                ),
{
    let nss = s.namespaces@;
    let on = nvmet::enabled(nss, nss.len() as int);
    lemma_enabled(nss, nss.len() as int);
    assert forall|k: int| 0 <= k < c.namespaces@.len() implies exists|i: int|
        0 <= i < nss.len() && (#[trigger] nss[i]).enable != 0 && serves_ns(
            #[trigger] c.namespaces@[k],
            nss[i],
        ) by {
        assert(0 <= on[k] < nss.len() && nss[on[k]].enable != 0);
        lemma_serves(nss[on[k]], c.namespaces@[k]);
    }
    assert forall|i: int| 0 <= i < nss.len() && (#[trigger] nss[i]).enable != 0 implies exists|k: int|
        0 <= k < c.namespaces@.len() && serves_ns(#[trigger] c.namespaces@[k], nss[i]) by {
        let k = choose|k: int| 0 <= k < on.len() && on[k] == i;
        lemma_serves(nss[on[k]], c.namespaces@[k]);
    }
}

proof fn lemma_one_attr(a: Seq<(String, String)>, key: Seq<char>, v: Seq<char>, w: Seq<char>)
    requires
        has_attr(a, key, v),
        has_attr(a, key, w),
    ensures
        v == w,
{
}

/// A port that yields a target yields one at its own address and service, with
/// the subsystems that it exports, in its order, each as the file's first of
/// that name says.
pub proof fn exported_subsystems_are_served(
    c: NvmetConfig,
    p: NvmetPort,
    ip: bool,
    t: NvmetTarget,
    i: int,
)
    requires
        nvmet::port_result(c, p, ip, Ok(t)),
        0 <= i < p.subsystems@.len(),
    ensures
        ip,
        t.portid == p.portid,
        t.traddr@ == p.traddr@,
        crate::text::parsed(p.trsvcid@, 0xFFFF) == Some(t.trsvcid as nat),
        t.subsystems@.len() == p.subsystems@.len(),
        exists|k: int|
            {
                &&& 0 <= k < c.subsystems@.len()
                &&& (#[trigger] c.subsystems@[k]).nqn@ == p.subsystems@[i]@
                &&& forall|j: int| 0 <= j < k ==> (#[trigger] c.subsystems@[j]).nqn@ != p.subsystems@[i]@
                &&& nvmet::sub_config(c.subsystems@[k], t.subsystems@[i])
            },
{
    lemma_exports(c.subsystems@, p.subsystems@, 0, i);
    lemma_sub_index(c.subsystems@, p.subsystems@[i]@, 0);
    let k = nvmet::sub_index(c.subsystems@, p.subsystems@[i]@, 0);
    assert(nvmet::sub_config(c.subsystems@[k], t.subsystems@[i]));
}

proof fn lemma_exports(subs: Seq<NvmetSubsystem>, exports: Seq<String>, from: int, i: int)
    requires
        0 <= from <= i < exports.len(),
        nvmet::export_fault(subs, exports, from) is None,
    ensures
        nvmet::sub_index(subs, exports[i]@, 0) < subs.len(),
    decreases i - from,
{
    if from < i {
        lemma_exports(subs, exports, from + 1, i);
    }
}

proof fn lemma_sub_index(s: Seq<NvmetSubsystem>, nqn: Seq<char>, i: int)
    requires
        0 <= i <= s.len(),
        forall|j: int| 0 <= j < i ==> (#[trigger] s[j]).nqn@ != nqn,
    ensures
        ({
            let k = nvmet::sub_index(s, nqn, i);
            &&& i <= k <= s.len()
            &&& k < s.len() ==> s[k].nqn@ == nqn
            &&& forall|j: int| 0 <= j < k ==> (#[trigger] s[j]).nqn@ != nqn
        }),
    decreases s.len() - i,
{
    if i < s.len() && s[i].nqn@ != nqn {
        lemma_sub_index(s, nqn, i + 1);
    }
}

/// What the file says of a port and of a namespace stands under its names: the
/// address, service and transport of a port under `addr`, its id and its
/// subsystems beside that; the id, device and state of a namespace, which is
/// enabled where nothing is said.
pub proof fn file_is_read(v: JsonV, p: NvmetPort, w: JsonV, n: NvmetNamespace)
    requires
        nvmet::port_ok(v),
        nvmet::port_is(v, p),
        nvmet::ns_ok(w),
        nvmet::ns_is(w, n),
    ensures
        ({
            let addr = json::at(v, "addr"@);
            &&& json::field(addr, "traddr"@) matches Some(x) ==> x == JsonV::Str(p.traddr@)
            &&& json::field(addr, "trsvcid"@) matches Some(x) ==> x == JsonV::Str(p.trsvcid@)
            &&& json::field(addr, "trtype"@) matches Some(x) ==> x == JsonV::Str(p.trtype@)
            &&& json::field(v, "portid"@) matches Some(x) ==> x == JsonV::Uint(p.portid as u64)
            &&& json::field(v, "portid"@) is None ==> p.portid == 0
            &&& json::field(w, "nsid"@) == Some(JsonV::Uint(n.nsid as u64))
            &&& json::field(w, "enable"@) matches Some(x) ==> x == JsonV::Uint(n.enable as u64)
            &&& json::field(w, "enable"@) is None ==> n.enable == 1
        }),
{
}

} // verus!
