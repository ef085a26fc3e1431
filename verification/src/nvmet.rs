//! The configuration file: the format `nvmetcli save` writes. Its ports and
//! subsystems become the targets to serve; attributes with no counterpart here
//! are accepted and ignored.

use vstd::prelude::*;

use crate::config::{
    default_model, default_serial, validate_subsystems, BackendConfig, NamespaceConfig,
    SubsystemConfig,
};
use crate::json::{count, item, parse_json, Json};
use crate::subsystem::{parse_uuid, TransportType};
use crate::text::{chars_of, parse_number, push_dec, same_text};

pub mod serving;

verus! {

/// A configuration file.
pub struct NvmetConfig {
    pub ports: Vec<NvmetPort>,
    pub subsystems: Vec<NvmetSubsystem>,
}

/// A port of the file.
pub struct NvmetPort {
    pub traddr: String,
    pub trsvcid: String,
    pub trtype: String,
    pub portid: u16,
    /// NQNs of the subsystems exported on the port.
    pub subsystems: Vec<String>,
}

/// A subsystem of the file.
pub struct NvmetSubsystem {
    pub nqn: String,
    pub attr: Vec<(String, String)>,
    pub allowed_hosts: Vec<String>,
    pub namespaces: Vec<NvmetNamespace>,
}

/// A namespace of the file.
pub struct NvmetNamespace {
    pub nsid: u32,
    pub device: Vec<(String, String)>,
    /// 0 hides the namespace from hosts.
    pub enable: u8,
}

/// The target one port yields.
pub struct NvmetTarget {
    pub portid: u16,
    pub traddr: String,
    pub trsvcid: u16,
    /// The subsystems the port exports.
    pub subsystems: Vec<SubsystemConfig>,
}

/// A string, where there is one.
pub open spec fn str_ok(v: Option<crate::json::JsonV>) -> bool {
    v is None || v->0 is Str
}

/// The string `v` is; empty where there is none.
pub open spec fn str_of(v: Option<crate::json::JsonV>) -> Seq<char> {
    match v {
        Some(crate::json::JsonV::Str(s)) => s,
        _ => seq![],
    }
}

/// A list of strings, where there is one.
pub open spec fn strs_ok(v: Option<crate::json::JsonV>) -> bool {
    match v {
        None => true,
        Some(crate::json::JsonV::Arr(s)) => forall|i: int|
            0 <= i < s.len() ==> (#[trigger] s[i]) is Str,
        _ => false,
    }
}

/// The strings of a list.
pub open spec fn strs_of(v: Option<crate::json::JsonV>) -> Seq<Seq<char>> {
    match v {
        Some(crate::json::JsonV::Arr(s)) => Seq::new(s.len(), |i: int| s[i]->Str_0),
        _ => seq![],
    }
}

/// An object whose values are strings, where there is one.
pub open spec fn attrs_ok(v: Option<crate::json::JsonV>) -> bool {
    match v {
        None => true,
        Some(crate::json::JsonV::Obj(s)) => forall|i: int|
            0 <= i < s.len() ==> (#[trigger] s[i]).1 is Str,
        _ => false,
    }
}

/// The keys and strings of an object.
pub open spec fn attrs_of(v: Option<crate::json::JsonV>) -> Seq<(Seq<char>, Seq<char>)> {
    match v {
        Some(crate::json::JsonV::Obj(s)) => Seq::new(s.len(), |i: int| (s[i].0, s[i].1->Str_0)),
        _ => seq![],
    }
}

/// The views of a list of attributes.
pub open spec fn pairs(a: Seq<(String, String)>) -> Seq<(Seq<char>, Seq<char>)> {
    Seq::new(a.len(), |i: int| (a[i].0@, a[i].1@))
}

/// A number no larger than `max`, where there is one.
pub open spec fn num_ok(v: Option<crate::json::JsonV>, max: int) -> bool {
    match v {
        None => true,
        Some(crate::json::JsonV::Uint(n)) => n <= max,
        _ => false,
    }
}

/// The number `v` is, or `other`.
pub open spec fn num_or(v: Option<crate::json::JsonV>, other: int) -> int {
    match v {
        Some(crate::json::JsonV::Uint(n)) => n as int,
        _ => other,
    }
}

/// A namespace of the file.
pub open spec fn ns_ok(v: crate::json::JsonV) -> bool {
    &&& v is Obj
    &&& crate::json::field(v, "nsid"@) is Some
    &&& num_ok(crate::json::field(v, "nsid"@), u32::MAX as int)
    &&& attrs_ok(crate::json::field(v, "device"@))
    &&& num_ok(crate::json::field(v, "enable"@), u8::MAX as int)
}

/// What a namespace of the file says.
pub open spec fn ns_is(v: crate::json::JsonV, n: NvmetNamespace) -> bool {
    &&& n.nsid == num_or(crate::json::field(v, "nsid"@), 0)
    &&& pairs(n.device@) == attrs_of(crate::json::field(v, "device"@))
    &&& n.enable == num_or(crate::json::field(v, "enable"@), 1)
}

/// A list whose items all are `ok`, where there is one.
pub open spec fn list_ok(
    v: Option<crate::json::JsonV>,
    ok: spec_fn(crate::json::JsonV) -> bool,
) -> bool {
    match v {
        None => true,
        Some(crate::json::JsonV::Arr(s)) => forall|i: int|
            0 <= i < s.len() ==> ok(#[trigger] s[i]),
        _ => false,
    }
}

/// The items of a list.
pub open spec fn list_of(v: Option<crate::json::JsonV>) -> Seq<crate::json::JsonV> {
    match v {
        Some(x) => crate::json::items(x),
        None => seq![],
    }
}

/// A subsystem of the file.
pub open spec fn sub_ok(v: crate::json::JsonV) -> bool {
    &&& v is Obj
    &&& crate::json::field(v, "nqn"@) is Some
    &&& str_ok(crate::json::field(v, "nqn"@))
    &&& attrs_ok(crate::json::field(v, "attr"@))
    &&& strs_ok(crate::json::field(v, "allowed_hosts"@))
    &&& list_ok(crate::json::field(v, "namespaces"@), |x: crate::json::JsonV| ns_ok(x))
}

/// What a subsystem of the file says.
pub open spec fn sub_is(v: crate::json::JsonV, s: NvmetSubsystem) -> bool {
    let nss = list_of(crate::json::field(v, "namespaces"@));
    &&& s.nqn@ == str_of(crate::json::field(v, "nqn"@))
    &&& pairs(s.attr@) == attrs_of(crate::json::field(v, "attr"@))
    &&& crate::port::names(s.allowed_hosts@) == strs_of(crate::json::field(v, "allowed_hosts"@))
    &&& s.namespaces@.len() == nss.len()
    &&& forall|i: int| 0 <= i < nss.len() ==> ns_is(nss[i], #[trigger] s.namespaces@[i])
}

/// A port of the file.
pub open spec fn port_ok(v: crate::json::JsonV) -> bool {
    let addr = crate::json::at(v, "addr"@);
    &&& v is Obj
    &&& addr is Obj
    &&& str_ok(crate::json::field(addr, "traddr"@))
    &&& str_ok(crate::json::field(addr, "trsvcid"@))
    &&& str_ok(crate::json::field(addr, "trtype"@))
    &&& num_ok(crate::json::field(v, "portid"@), u16::MAX as int)
    &&& strs_ok(crate::json::field(v, "subsystems"@))
}

/// What a port of the file says.
pub open spec fn port_is(v: crate::json::JsonV, p: NvmetPort) -> bool {
    let addr = crate::json::at(v, "addr"@);
    &&& p.traddr@ == str_of(crate::json::field(addr, "traddr"@))
    &&& p.trsvcid@ == str_of(crate::json::field(addr, "trsvcid"@))
    &&& p.trtype@ == str_of(crate::json::field(addr, "trtype"@))
    &&& p.portid == num_or(crate::json::field(v, "portid"@), 0)
    &&& crate::port::names(p.subsystems@) == strs_of(crate::json::field(v, "subsystems"@))
}

/// The document has the shape of a configuration file.
pub open spec fn config_ok(v: crate::json::JsonV) -> bool {
    &&& v is Obj
    &&& list_ok(crate::json::field(v, "ports"@), |x: crate::json::JsonV| port_ok(x))
    &&& list_ok(crate::json::field(v, "subsystems"@), |x: crate::json::JsonV| sub_ok(x))
}

/// What a configuration file says.
pub open spec fn config_is(v: crate::json::JsonV, c: NvmetConfig) -> bool {
    let ports = list_of(crate::json::field(v, "ports"@));
    let subs = list_of(crate::json::field(v, "subsystems"@));
    &&& c.ports@.len() == ports.len()
    &&& forall|i: int| 0 <= i < ports.len() ==> port_is(ports[i], #[trigger] c.ports@[i])
    &&& c.subsystems@.len() == subs.len()
    &&& forall|i: int| 0 <= i < subs.len() ==> sub_is(subs[i], #[trigger] c.subsystems@[i])
}

/// The field, as it is in contracts.
pub open spec fn found(o: Option<&Json>) -> Option<crate::json::JsonV> {
    match o {
        Some(j) => Some(j@),
        None => None,
    }
}

fn read_str(o: Option<&Json>) -> (r: Option<String>)
    ensures
        match r {
            Some(s) => str_ok(found(o)) && s@ == str_of(found(o)),
            None => !str_ok(found(o)),
        },
{
    match o {
        None => {
            let s = String::new();
            assert(s@ =~= seq![]);
            Some(s)
        },
        Some(Json::Str(s)) => Some(s.clone()),
        Some(_) => None,
    }
}

fn read_num(o: Option<&Json>, max: u64, other: u64) -> (r: Option<u64>)
    requires
        other <= max,
    ensures
        match r {
            Some(n) => num_ok(found(o), max as int) && n == num_or(found(o), other as int) && n
                <= max,
            None => !num_ok(found(o), max as int),
        },
{
    match o {
        None => Some(other),
        Some(Json::Uint(n)) => if *n <= max {
            Some(*n)
        } else {
            None
        },
        Some(_) => None,
    }
}

fn read_strs(o: Option<&Json>) -> (r: Option<Vec<String>>)
    ensures
        match r {
            Some(v) => strs_ok(found(o)) && crate::port::names(v@) == strs_of(found(o)),
            None => !strs_ok(found(o)),
        },
{
    let mut out: Vec<String> = Vec::new();
    match o {
        None => {
            assert(crate::port::names(out@) =~= seq![]);
            Some(out)
        },
        Some(Json::Arr(v)) => {
            let ghost s = found(o)->0->Arr_0;
            let mut i: usize = 0;
            while i < v.len()
                invariant
                    i <= v@.len(),
                    found(o) == Some(crate::json::JsonV::Arr(s)),
                    s.len() == v@.len(),
                    forall|k: int| 0 <= k < s.len() ==> #[trigger] s[k] == v@[k]@,
                    out@.len() == i,
                    forall|k: int| 0 <= k < i ==> (#[trigger] s[k]) is Str,
                    forall|k: int| 0 <= k < i ==> (#[trigger] out@[k])@ == s[k]->Str_0,
                decreases v@.len() - i,
            {
                assert(s[i as int] == v@[i as int]@);
                match &v[i] {
                    Json::Str(t) => out.push(t.clone()),
                    _ => {
                        return None;
                    },
                }
                i += 1;
            }
            assert(crate::port::names(out@) =~= strs_of(found(o)));
            Some(out)
        },
        Some(_) => None,
    }
}

fn read_attrs(o: Option<&Json>) -> (r: Option<Vec<(String, String)>>)
    ensures
        match r {
            Some(v) => attrs_ok(found(o)) && pairs(v@) == attrs_of(found(o)),
            None => !attrs_ok(found(o)),
        },
{
    let mut out: Vec<(String, String)> = Vec::new();
    match o {
        None => {
            assert(pairs(out@) =~= seq![]);
            Some(out)
        },
        Some(Json::Obj(v)) => {
            let ghost s = found(o)->0->Obj_0;
            let mut i: usize = 0;
            while i < v.len()
                invariant
                    i <= v@.len(),
                    found(o) == Some(crate::json::JsonV::Obj(s)),
                    s.len() == v@.len(),
                    forall|k: int| 0 <= k < s.len() ==> #[trigger] s[k] == (v@[k].0@, v@[k].1@),
                    out@.len() == i,
                    forall|k: int| 0 <= k < i ==> (#[trigger] s[k]).1 is Str,
                    forall|k: int|
                        0 <= k < i ==> (#[trigger] out@[k]).0@ == s[k].0 && out@[k].1@
                            == s[k].1->Str_0,
                decreases v@.len() - i,
            {
                assert(s[i as int] == (v@[i as int].0@, v@[i as int].1@));
                match &v[i].1 {
                    Json::Str(t) => out.push((v[i].0.clone(), t.clone())),
                    _ => {
                        return None;
                    },
                }
                i += 1;
            }
            assert(pairs(out@) =~= attrs_of(found(o)));
            Some(out)
        },
        Some(_) => None,
    }
}

fn read_ns(j: &Json) -> (r: Option<NvmetNamespace>)
    ensures
        match r {
            Some(n) => ns_ok(j@) && ns_is(j@, n),
            None => !ns_ok(j@),
        },
{
    if !j.is_object() || j.get("nsid").is_none() {
        return None;
    }
    match (
        read_num(j.get("nsid"), u32::MAX as u64, 0),
        read_attrs(j.get("device")),
        read_num(j.get("enable"), u8::MAX as u64, 1),
    ) {
        (Some(nsid), Some(device), Some(enable)) => Some(
            NvmetNamespace { nsid: nsid as u32, device, enable: enable as u8 },
        ),
        _ => None,
    }
}

fn read_sub(j: &Json) -> (r: Option<NvmetSubsystem>)
    ensures
        match r {
            Some(s) => sub_ok(j@) && sub_is(j@, s),
            None => !sub_ok(j@),
        },
{
    if !j.is_object() || j.get("nqn").is_none() {
        return None;
    }
    match (read_str(j.get("nqn")), read_attrs(j.get("attr")), read_strs(j.get("allowed_hosts"))) {
        (Some(nqn), Some(attr), Some(allowed_hosts)) => {
            let list = j.get("namespaces");
            let ghost lv = crate::json::field(j@, "namespaces"@);
            match list {
                None => {},
                Some(Json::Arr(_)) => {},
                Some(_) => {
                    return None;
                },
            }
            let mut namespaces: Vec<NvmetNamespace> = Vec::new();
            let n: usize = count(list);
            let mut i: usize = 0;
            while i < n
                invariant
                    i <= n,
                    lv == found(list),
                    lv == crate::json::field(j@, "namespaces"@),
                    lv is None || lv->0 is Arr,
                    n == list_of(lv).len(),
                    list_of(lv) == crate::json::items(crate::json::opt(list)),
                    namespaces@.len() == i,
                    forall|k: int| 0 <= k < i ==> ns_ok(#[trigger] list_of(lv)[k]),
                    forall|k: int|
                        0 <= k < i ==> ns_is(list_of(lv)[k], #[trigger] namespaces@[k]),
                decreases n - i,
            {
                match item(list, i) {
                    Some(x) => {
                        assert(x@ == list_of(lv)[i as int]);
                        match read_ns(x) {
                            Some(ns) => namespaces.push(ns),
                            None => {
                                assert(!ns_ok(list_of(lv)[i as int]));
                                return None;
                            },
                        }
                    },
                    None => {},
                }
                i += 1;
            }
            Some(NvmetSubsystem { nqn, attr, allowed_hosts, namespaces })
        },
        _ => None,
    }
}

fn read_port(j: &Json) -> (r: Option<NvmetPort>)
    ensures
        match r {
            Some(p) => port_ok(j@) && port_is(j@, p),
            None => !port_ok(j@),
        },
{
    match j.get("addr") {
        Some(addr) => {
            if !j.is_object() || !addr.is_object() {
                return None;
            }
            match (
                read_str(addr.get("traddr")),
                read_str(addr.get("trsvcid")),
                read_str(addr.get("trtype")),
            ) {
                (Some(traddr), Some(trsvcid), Some(trtype)) => match (
                    read_num(j.get("portid"), u16::MAX as u64, 0),
                    read_strs(j.get("subsystems")),
                ) {
                    (Some(portid), Some(subsystems)) => Some(
                        NvmetPort { traddr, trsvcid, trtype, portid: portid as u16, subsystems },
                    ),
                    _ => None,
                },
                _ => None,
            }
        },
        None => None,
    }
}

/// Take a configuration file from its document. `None` where the document does
/// not have its shape.
pub fn read_config(j: &Json) -> (r: Option<NvmetConfig>)
    ensures
        match r {
            Some(c) => config_ok(j@) && config_is(j@, c),
            None => !config_ok(j@),
        },
{
    if !j.is_object() {
        return None;
    }
    let plist = j.get("ports");
    let slist = j.get("subsystems");
    let ghost pv = crate::json::field(j@, "ports"@);
    let ghost sv = crate::json::field(j@, "subsystems"@);
    match plist {
        None => {},
        Some(Json::Arr(_)) => {},
        Some(_) => {
            return None;
        },
    }
    match slist {
        None => {},
        Some(Json::Arr(_)) => {},
        Some(_) => {
            return None;
        },
    }
    let mut ports: Vec<NvmetPort> = Vec::new();
    let n: usize = count(plist);
    let mut i: usize = 0;
    while i < n
        invariant
            i <= n,
            pv == found(plist),
            pv == crate::json::field(j@, "ports"@),
            pv is None || pv->0 is Arr,
            n == list_of(pv).len(),
            list_of(pv) == crate::json::items(crate::json::opt(plist)),
            ports@.len() == i,
            forall|k: int| 0 <= k < i ==> port_ok(#[trigger] list_of(pv)[k]),
            forall|k: int| 0 <= k < i ==> port_is(list_of(pv)[k], #[trigger] ports@[k]),
        decreases n - i,
    {
        match item(plist, i) {
            Some(x) => {
                assert(x@ == list_of(pv)[i as int]);
                match read_port(x) {
                    Some(p) => ports.push(p),
                    None => {
                        assert(!port_ok(list_of(pv)[i as int]));
                        return None;
                    },
                }
            },
            None => {},
        }
        i += 1;
    }
    let mut subsystems: Vec<NvmetSubsystem> = Vec::new();
    let m: usize = count(slist);
    let mut k: usize = 0;
    while k < m
        invariant
            k <= m,
            sv == found(slist),
            sv == crate::json::field(j@, "subsystems"@),
            sv is None || sv->0 is Arr,
            m == list_of(sv).len(),
            list_of(sv) == crate::json::items(crate::json::opt(slist)),
            subsystems@.len() == k,
            forall|q: int| 0 <= q < k ==> sub_ok(#[trigger] list_of(sv)[q]),
            forall|q: int| 0 <= q < k ==> sub_is(list_of(sv)[q], #[trigger] subsystems@[q]),
        decreases m - k,
    {
        match item(slist, k) {
            Some(x) => {
                assert(x@ == list_of(sv)[k as int]);
                match read_sub(x) {
                    Some(s) => subsystems.push(s),
                    None => {
                        assert(!sub_ok(list_of(sv)[k as int]));
                        return None;
                    },
                }
            },
            None => {},
        }
        k += 1;
    }
    Some(NvmetConfig { ports, subsystems })
}

/// Read a configuration file.
///
/// The whole text is read as one JSON document first, and the file's shape is
/// taken from that. So of a key that an object holds twice the last one counts,
/// a record is an object and never an array of its fields, and what makes the
/// text no document at all (a number beyond the range of a double, or nesting
/// deeper than the reader follows) is an error also in an entry that is
/// otherwise ignored. A document of another shape is answered by one message.
pub fn parse_config(text: &str) -> (r: Result<NvmetConfig, String>)
    ensures
        match crate::json::json_of(text@) {
            None => r matches Err(e) && e@ == crate::json::json_error(text@),
            Some(v) => if config_ok(v) {
                r matches Ok(c) && config_is(v, c)
            } else {
                r matches Err(e) && e@ == "not an nvmet config"@
            },
        },
{
    match parse_json(text) {
        Err(e) => Err(e),
        Ok(j) => match read_config(&j) {
            Some(c) => Ok(c),
            None => Err("not an nvmet config".to_owned()),
        },
    }
}

/// The attribute under `key`, from entry `i` on.
pub open spec fn attr_from(a: Seq<(String, String)>, key: Seq<char>, i: int) -> Option<Seq<char>>
    decreases a.len() - i,
{
    if i < 0 || i >= a.len() {
        None
    } else if a[i].0@ == key {
        Some(a[i].1@)
    } else {
        attr_from(a, key, i + 1)
    }
}

fn attr<'a>(a: &'a Vec<(String, String)>, key: &str) -> (r: Option<&'a str>)
    ensures
        match r {
            Some(s) => attr_from(a@, key@, 0) == Some(s@),
            None => attr_from(a@, key@, 0) is None,
        },
{
    let mut i: usize = 0;
    while i < a.len()
        invariant
            i <= a@.len(),
            attr_from(a@, key@, 0) == attr_from(a@, key@, i as int),
        decreases a@.len() - i,
    {
        if same_text(a[i].0.as_str(), key) {
            return Some(a[i].1.as_str());
        }
        i += 1;
    }
    None
}

/// What keeps the namespaces, from `i` on, from being served. A disabled
/// namespace is passed over.
pub open spec fn ns_fault(nqn: Seq<char>, nss: Seq<NvmetNamespace>, i: int) -> Option<Seq<char>>
    decreases nss.len() - i,
{
    if i < 0 || i >= nss.len() {
        None
    } else if nss[i].enable == 0 {
        ns_fault(nqn, nss, i + 1)
    } else if attr_from(nss[i].device@, "path"@, 0) is None {
        Some(nqn + ": nsid "@ + crate::text::dec(nss[i].nsid as nat) + ": no device path"@)
    } else {
        match attr_from(nss[i].device@, "uuid"@, 0) {
            Some(t) => if crate::subsystem::is_uuid(t) {
                ns_fault(nqn, nss, i + 1)
            } else {
                Some(
                    nqn + ": nsid "@ + crate::text::dec(nss[i].nsid as nat) + ": device uuid '"@
                        + t + "' is not a hyphenated UUID"@,
                )
            },
            None => ns_fault(nqn, nss, i + 1),
        }
    }
}

/// Which of the first `n` namespaces are enabled.
pub open spec fn enabled(nss: Seq<NvmetNamespace>, n: int) -> Seq<int>
    decreases n,
{
    if n <= 0 {
        seq![]
    } else if nss[n - 1].enable == 0 {
        enabled(nss, n - 1)
    } else {
        enabled(nss, n - 1).push(n - 1)
    }
}

/// `c` is the configuration of namespace `s`: its device, and its UUID where
/// it has one.
pub open spec fn ns_config(s: NvmetNamespace, c: NamespaceConfig) -> bool {
    &&& c.nsid == s.nsid
    &&& c.backend matches BackendConfig::File { path } && attr_from(s.device@, "path"@, 0) == Some(
        path@,
    )
    &&& match attr_from(s.device@, "uuid"@, 0) {
        Some(t) => c.uuid matches Some(u) && forall|k: int|
            0 <= k < 16 ==> (#[trigger] u@[k]) == crate::subsystem::uuid_byte(t, k),
        None => c.uuid is None,
    }
}

/// The attribute, or the default.
pub open spec fn attr_or(a: Seq<(String, String)>, key: Seq<char>, other: Seq<char>) -> Seq<char> {
    match attr_from(a, key, 0) {
        Some(s) => s,
        None => other,
    }
}

/// `c` is the configuration of subsystem `s`. Hosts are denied unless listed,
/// or the attribute that admits any is "1".
pub open spec fn sub_config(s: NvmetSubsystem, c: SubsystemConfig) -> bool {
    let on = enabled(s.namespaces@, s.namespaces@.len() as int);
    &&& c.nqn@ == s.nqn@
    &&& c.serial@ == attr_or(s.attr@, "serial"@, "IOUTGT0001"@)
    &&& c.model@ == attr_or(s.attr@, "model"@, "ioutgt"@)
    &&& c.allow_any_host == (attr_from(s.attr@, "allow_any_host"@, 0) == Some("1"@))
    &&& crate::port::names(c.allowed_hosts@) == crate::port::names(s.allowed_hosts@)
    &&& c.namespaces@.len() == on.len()
    &&& forall|i: int|
        0 <= i < on.len() ==> ns_config(s.namespaces@[on[i]], #[trigger] c.namespaces@[i])
}

impl NvmetSubsystem {
    /// The configuration of this subsystem.
    pub fn to_config(&self) -> (r: Result<SubsystemConfig, String>)
        ensures
            match r {
                Ok(c) => ns_fault(self.nqn@, self.namespaces@, 0) is None && sub_config(*self, c),
                Err(e) => ns_fault(self.nqn@, self.namespaces@, 0) == Some(e@),
            },
    {
        let ghost nss = self.namespaces@;
        let mut namespaces: Vec<NamespaceConfig> = Vec::new();
        let mut i: usize = 0;
        while i < self.namespaces.len()
            invariant
                i <= nss.len(),
                nss == self.namespaces@,
                ns_fault(self.nqn@, nss, 0) == ns_fault(self.nqn@, nss, i as int),
                namespaces@.len() == enabled(nss, i as int).len(),
                forall|k: int|
                    0 <= k < namespaces@.len() ==> ns_config(
                        nss[enabled(nss, i as int)[k]],
                        #[trigger] namespaces@[k],
                    ),
            decreases nss.len() - i,
        {
            let ns = &self.namespaces[i];
            let ghost before = enabled(nss, i as int);
            if ns.enable != 0 {
                let path = match attr(&ns.device, "path") {
                    Some(p) => p.to_owned(),
                    None => {
                        let mut e = self.nqn.clone();
                        e.append(": nsid ");
                        push_dec(&mut e, ns.nsid as u64);
                        e.append(": no device path");
                        return Err(e);
                    },
                };
                let uuid: Option<[u8; 16]> = match attr(&ns.device, "uuid") {
                    Some(t) => match parse_uuid(t) {
                        Some(u) => Some(u),
                        None => {
                            let mut e = self.nqn.clone();
                            e.append(": nsid ");
                            push_dec(&mut e, ns.nsid as u64);
                            e.append(": device uuid '");
                            e.append(t);
                            e.append("' is not a hyphenated UUID");
                            return Err(e);
                        },
                    },
                    None => None,
                };
                namespaces.push(
                    NamespaceConfig { nsid: ns.nsid, backend: BackendConfig::File { path }, uuid },
                );
            }
            i += 1;
            proof {
                let now = enabled(nss, i as int);
                assert forall|k: int| 0 <= k < namespaces@.len() implies ns_config(
                    nss[now[k]],
                    #[trigger] namespaces@[k],
                ) by {
                    if k < before.len() {
                        assert(now[k] == before[k]);
                    }
                }
            }
        }
        let serial = match attr(&self.attr, "serial") {
            Some(s) => s.to_owned(),
            None => default_serial(),
        };
        let model = match attr(&self.attr, "model") {
            Some(s) => s.to_owned(),
            None => default_model(),
        };
        let allow_any_host: bool = match attr(&self.attr, "allow_any_host") {
            Some(s) => same_text(s, "1"),
            None => false,
        };
        let allowed_hosts = crate::port::clone_names(&self.allowed_hosts);
        Ok(
            SubsystemConfig {
                nqn: self.nqn.clone(),
                serial,
                model,
                allow_any_host,
                allowed_hosts,
                namespaces,
            },
        )
    }
}

/// The first subsystem of the file with this NQN, from `i` on; the count where
/// there is none.
pub open spec fn sub_index(s: Seq<NvmetSubsystem>, nqn: Seq<char>, i: int) -> int
    decreases s.len() - i,
{
    if i < 0 || i >= s.len() {
        s.len() as int
    } else if s[i].nqn@ == nqn {
        i
    } else {
        sub_index(s, nqn, i + 1)
    }
}

fn find_sub(s: &Vec<NvmetSubsystem>, nqn: &str) -> (k: usize)
    ensures
        k == sub_index(s@, nqn@, 0),
        k <= s@.len(),
{
    let mut i: usize = 0;
    while i < s.len()
        invariant
            i <= s@.len(),
            sub_index(s@, nqn@, 0) == sub_index(s@, nqn@, i as int),
        decreases s@.len() - i,
    {
        if same_text(s[i].nqn.as_str(), nqn) {
            return i;
        }
        i += 1;
    }
    i
}

/// What keeps the subsystems a port exports, from `i` on, from being served.
pub open spec fn export_fault(subs: Seq<NvmetSubsystem>, exports: Seq<String>, i: int) -> Option<
    Seq<char>,
>
    decreases exports.len() - i,
{
    if i < 0 || i >= exports.len() {
        None
    } else {
        let k = sub_index(subs, exports[i]@, 0);
        if k >= subs.len() {
            Some("port exports undefined subsystem '"@ + exports[i]@ + "'"@)
        } else {
            match ns_fault(subs[k].nqn@, subs[k].namespaces@, 0) {
                Some(e) => Some(e),
                None => export_fault(subs, exports, i + 1),
            }
        }
    }
}

/// `cfgs` are the configurations of the subsystems a port exports, in order.
pub open spec fn exported(
    subs: Seq<NvmetSubsystem>,
    exports: Seq<String>,
    cfgs: Seq<SubsystemConfig>,
) -> bool {
    &&& cfgs.len() == exports.len()
    &&& forall|i: int|
        0 <= i < exports.len() ==> sub_config(
            subs[sub_index(subs, exports[i]@, 0)],
            #[trigger] cfgs[i],
        )
}

/// What a port comes to: an error, or the target it yields. `ip` says whether
/// its address is an IP address.
pub open spec fn port_result(
    c: NvmetConfig,
    p: NvmetPort,
    ip: bool,
    r: Result<NvmetTarget, String>,
) -> bool {
    if !ip {
        r matches Err(e) && e@ == "port traddr '"@ + p.traddr@ + "' is not an IP address"@
    } else if crate::text::parsed(p.trsvcid@, u16::MAX as nat) is None {
        r matches Err(e) && e@ == "port trsvcid '"@ + p.trsvcid@ + "' is not a port number"@
    } else {
        match export_fault(c.subsystems@, p.subsystems@, 0) {
            Some(f) => r matches Err(e) && e@ == f,
            None => match r {
                Ok(t) => {
                    &&& t.portid == p.portid
                    &&& t.traddr@ == p.traddr@
                    &&& crate::text::parsed(p.trsvcid@, u16::MAX as nat) == Some(t.trsvcid as nat)
                    &&& exported(c.subsystems@, p.subsystems@, t.subsystems@)
                    &&& crate::config::subsystems_ok(t.subsystems@)
                },
                Err(e) => exists|cfgs: Seq<SubsystemConfig>| #[trigger]
                    exported(c.subsystems@, p.subsystems@, cfgs) && crate::config::config_fault(
                        cfgs,
                    ) == Some(e@),
            },
        }
    }
}

/// The port yields a target.
pub open spec fn port_served(c: NvmetConfig, p: NvmetPort, ip: bool) -> bool {
    exists|t: NvmetTarget| #[trigger] port_result(c, p, ip, Ok(t))
}

fn port_target(c: &NvmetConfig, p: &NvmetPort, ip: bool) -> (r: Result<NvmetTarget, String>)
    ensures
        port_result(*c, *p, ip, r),
{
    if !ip {
        let mut e = "port traddr '".to_owned();
        e.append(p.traddr.as_str());
        e.append("' is not an IP address");
        return Err(e);
    }
    let trsvcid: u16 = match parse_number(&chars_of(p.trsvcid.as_str()), u16::MAX as u64) {
        Some(n) => n as u16,
        None => {
            let mut e = "port trsvcid '".to_owned();
            e.append(p.trsvcid.as_str());
            e.append("' is not a port number");
            return Err(e);
        },
    };
    let ghost subs = c.subsystems@;
    let ghost exports = p.subsystems@;
    let mut cfgs: Vec<SubsystemConfig> = Vec::new();
    let mut i: usize = 0;
    while i < p.subsystems.len()
        invariant
            i <= exports.len(),
            ip,
            subs == c.subsystems@,
            exports == p.subsystems@,
            crate::text::parsed(p.trsvcid@, u16::MAX as nat) == Some(trsvcid as nat),
            export_fault(subs, exports, 0) == export_fault(subs, exports, i as int),
            cfgs@.len() == i,
            forall|k: int|
                0 <= k < i ==> sub_config(
                    subs[sub_index(subs, exports[k]@, 0)],
                    #[trigger] cfgs@[k],
                ),
        decreases exports.len() - i,
    {
        let k: usize = find_sub(&c.subsystems, p.subsystems[i].as_str());
        if k == c.subsystems.len() {
            let mut e = "port exports undefined subsystem '".to_owned();
            e.append(p.subsystems[i].as_str());
            e.append("'");
            return Err(e);
        }
        match c.subsystems[k].to_config() {
            Ok(cfg) => cfgs.push(cfg),
            Err(e) => {
                return Err(e);
            },
        }
        i += 1;
    }
    assert(exported(subs, exports, cfgs@));
    match validate_subsystems(cfgs.as_slice()) {
        Ok(_) => Ok(
            NvmetTarget { portid: p.portid, traddr: p.traddr.clone(), trsvcid, subsystems: cfgs },
        ),
        Err(e) => Err(e),
    }
}

/// The name of a transport in the file.
pub open spec fn transport_name(t: TransportType) -> Seq<char> {
    match t {
        TransportType::Tcp => "tcp"@,
        TransportType::Rdma => "rdma"@,
    }
}

/// Some port of the file serves the transport.
pub open spec fn any_port(ports: Seq<NvmetPort>, want: Seq<char>) -> bool {
    exists|i: int| 0 <= i < ports.len() && (#[trigger] ports[i]).trtype@ == want
}

/// Two ports of the file that serve the transport have the same id.
pub open spec fn same_id(ports: Seq<NvmetPort>, want: Seq<char>, n: int) -> bool {
    exists|i: int, j: int|
        0 <= i < j < n && (#[trigger] ports[i]).trtype@ == want && (#[trigger] ports[j]).trtype@
            == want && ports[i].portid == ports[j].portid
}

/// `order` are the ports among the first `n` that serve the transport, by id.
pub open spec fn port_order(
    ports: Seq<NvmetPort>,
    want: Seq<char>,
    n: int,
    order: Seq<usize>,
) -> bool {
    &&& forall|i: int|
        0 <= i < order.len() ==> (#[trigger] order[i]) < n && ports[order[i] as int].trtype@
            == want
    &&& forall|i: int, j: int|
        0 <= i < j < order.len() ==> ports[(#[trigger] order[i]) as int].portid < ports[(
        #[trigger] order[j]) as int].portid
    &&& forall|k: int|
        0 <= k < n && (#[trigger] ports[k]).trtype@ == want ==> order.contains(k as usize)
}

/// What the ports come to: their targets by port id, or the error of the first
/// of them that has one.
pub open spec fn ports_result(
    c: NvmetConfig,
    ip: Seq<bool>,
    order: Seq<usize>,
    r: Result<Vec<NvmetTarget>, String>,
) -> bool {
    match r {
        Ok(ts) => ts@.len() == order.len() && forall|i: int|
            0 <= i < order.len() ==> port_result(
                c,
                c.ports@[order[i] as int],
                ip[order[i] as int],
                Ok(#[trigger] ts@[i]),
            ),
        Err(e) => exists|i: int|
            {
                &&& 0 <= i < order.len()
                &&& port_result(
                    c,
                    c.ports@[(#[trigger] order[i]) as int],
                    ip[order[i] as int],
                    Err(e),
                )
                &&& forall|k: int|
                    0 <= k < i ==> port_served(
                        c,
                        c.ports@[(#[trigger] order[k]) as int],
                        ip[order[k] as int],
                    )
            },
    }
}

#[verifier::spinoff_prover]
#[verifier::rlimit(40)]
fn sort_ports(ports: &Vec<NvmetPort>, want: &str) -> (r: (Vec<usize>, bool))
    ensures
        r.1 == same_id(ports@, want@, ports@.len() as int),
        !r.1 ==> port_order(ports@, want@, ports@.len() as int, r.0@),
        any_port(ports@, want@) == (r.0@.len() > 0),
{
    let mut order: Vec<usize> = Vec::new();
    let mut dup: bool = false;
    let mut n: usize = 0;
    while n < ports.len()
        invariant
            n <= ports@.len(),
            dup == same_id(ports@, want@, n as int),
            !dup ==> port_order(ports@, want@, n as int, order@),
            forall|i: int| 0 <= i < order@.len() ==> (#[trigger] order@[i]) < n,
            (exists|i: int| 0 <= i < n && (#[trigger] ports@[i]).trtype@ == want@) == (order@.len()
                > 0),
        decreases ports@.len() - n,
    {
        if same_text(ports[n].trtype.as_str(), want) {
            let id: u16 = ports[n].portid;
            let ghost pre = order@;
            let mut p: usize = 0;
            while p < order.len() && ports[order[p]].portid < id
                invariant
                    p <= order@.len(),
                    order@ == pre,
                    n < ports@.len(),
                    forall|i: int| 0 <= i < order@.len() ==> (#[trigger] order@[i]) < n,
                    forall|i: int|
                        0 <= i < p ==> ports@[(#[trigger] order@[i]) as int].portid < id,
                decreases order@.len() - p,
            {
                p += 1;
            }
            let clash: bool = p < order.len() && ports[order[p]].portid == id;
            order.insert(p, n);
            proof {
                if !dup {
                    lemma_port_order(ports@, want@, n as int, pre, order@, p as int, clash);
                } else {
                    let (i, j) = choose|i: int, j: int|
                        0 <= i < j < n && (#[trigger] ports@[i]).trtype@ == want@ && (
                        #[trigger] ports@[j]).trtype@ == want@ && ports@[i].portid
                            == ports@[j].portid;
                    assert(same_id(ports@, want@, n + 1)) by {
                        assert(ports@[i].portid == ports@[j].portid);
                    }
                }
                assert forall|i: int| 0 <= i < order@.len() implies (#[trigger] order@[i]) < n
                    + 1 by {
                    if i < p {
                        assert(order@[i] == pre[i]);
                    } else if i > p {
                        assert(order@[i] == pre[i - 1]);
                    }
                }
                assert(ports@[n as int].trtype@ == want@);
            }
            dup = dup || clash;
        } else {
            proof {
                lemma_port_skip(ports@, want@, n as int, order@);
            }
        }
        n += 1;
    }
    (order, dup)
}

/// A port of another transport changes nothing.
proof fn lemma_port_skip(ports: Seq<NvmetPort>, want: Seq<char>, n: int, order: Seq<usize>)
    requires
        0 <= n < ports.len(),
        ports[n].trtype@ != want,
    ensures
        same_id(ports, want, n + 1) == same_id(ports, want, n),
        port_order(ports, want, n, order) ==> port_order(ports, want, n + 1, order),
        (exists|i: int| 0 <= i < n && (#[trigger] ports[i]).trtype@ == want) == (exists|i: int|
            0 <= i < n + 1 && (#[trigger] ports[i]).trtype@ == want),
{
    if same_id(ports, want, n + 1) {
        let (i, j) = choose|i: int, j: int|
            0 <= i < j < n + 1 && (#[trigger] ports[i]).trtype@ == want && (
            #[trigger] ports[j]).trtype@ == want && ports[i].portid == ports[j].portid;
        assert(j != n);
    }
    if same_id(ports, want, n) {
        let (i, j) = choose|i: int, j: int|
            0 <= i < j < n && (#[trigger] ports[i]).trtype@ == want && (
            #[trigger] ports[j]).trtype@ == want && ports[i].portid == ports[j].portid;
        assert(ports[i].portid == ports[j].portid);
    }
}

proof fn lemma_port_order(
    ports: Seq<NvmetPort>,
    want: Seq<char>,
    n: int,
    pre: Seq<usize>,
    post: Seq<usize>,
    p: int,
    clash: bool,
)
    requires
        0 <= n < ports.len(),
        n <= usize::MAX,
        ports[n].trtype@ == want,
        port_order(ports, want, n, pre),
        !same_id(ports, want, n),
        0 <= p <= pre.len(),
        forall|i: int| 0 <= i < p ==> ports[(#[trigger] pre[i]) as int].portid < ports[n].portid,
        p < pre.len() ==> ports[pre[p] as int].portid >= ports[n].portid,
        clash == (p < pre.len() && ports[pre[p] as int].portid == ports[n].portid),
        post == pre.insert(p, n as usize),
    ensures
        clash == same_id(ports, want, n + 1),
        !clash ==> port_order(ports, want, n + 1, post),
{
    if clash {
        assert(ports[pre[p] as int].trtype@ == want);
        assert(same_id(ports, want, n + 1));
    } else {
        if same_id(ports, want, n + 1) {
            let (i, j) = choose|i: int, j: int|
                0 <= i < j < n + 1 && (#[trigger] ports[i]).trtype@ == want && (
                #[trigger] ports[j]).trtype@ == want && ports[i].portid == ports[j].portid;
            assert(j == n);
            assert(pre.contains(i as usize));
            let k = choose|k: int| 0 <= k < pre.len() && pre[k] == i as usize;
            if k > p {
                assert(ports[pre[p] as int].portid < ports[pre[k] as int].portid);
            }
            assert(false);
        }
        assert forall|i: int| 0 <= i < post.len() implies (#[trigger] post[i]) < n + 1
            && ports[post[i] as int].trtype@ == want by {
            if i < p {
                assert(post[i] == pre[i]);
            } else if i > p {
                assert(post[i] == pre[i - 1]);
            }
        }
        assert forall|i: int, j: int| 0 <= i < j < post.len() implies ports[(
        #[trigger] post[i]) as int].portid < ports[(#[trigger] post[j]) as int].portid by {
            let a = if i < p {
                i
            } else {
                i - 1
            };
            let b = if j < p {
                j
            } else {
                j - 1
            };
            if i == p {
                assert(post[j] == pre[b]);
                if b > p {
                    assert(ports[pre[p] as int].portid < ports[pre[b] as int].portid);
                }
            } else if j == p {
                assert(post[i] == pre[a]);
            } else {
                assert(post[i] == pre[a] && post[j] == pre[b]);
                assert(ports[pre[a] as int].portid < ports[pre[b] as int].portid);
            }
        }
        assert forall|k: int| 0 <= k < n + 1 && (#[trigger] ports[k]).trtype@ == want implies
            post.contains(k as usize) by {
            if k == n {
                assert(post[p] == n as usize);
            } else {
                assert(pre.contains(k as usize));
                let q = choose|q: int| 0 <= q < pre.len() && pre[q] == k as usize;
                if q < p {
                    assert(post[q] == pre[q]);
                } else {
                    assert(post[q + 1] == pre[q]);
                }
            }
        }
    }
}

/// The targets of the ports that serve `trtype`, by port id. `ip` says of each
/// port of the file whether its address is an IP address.
pub fn targets(config: &NvmetConfig, ip: &Vec<bool>, trtype: TransportType) -> (r: Result<
    Vec<NvmetTarget>,
    String,
>)
    requires
        ip@.len() == config.ports@.len(),
    ensures
        ({
            let want = transport_name(trtype);
            let n = config.ports@.len() as int;
            if !any_port(config.ports@, want) {
                r matches Err(e) && e@ == "nvmet config has no "@ + want + " port"@
            } else if same_id(config.ports@, want, n) {
                r matches Err(e) && e@ == "duplicate "@ + want + " portid in nvmet config"@
            } else {
                exists|order: Seq<usize>| #[trigger]
                    port_order(config.ports@, want, n, order) && ports_result(
                        *config,
                        ip@,
                        order,
                        r,
                    )
            }
        }),
{
    let want = match trtype {
        TransportType::Tcp => "tcp",
        TransportType::Rdma => "rdma",
    };
    let (order, dup) = sort_ports(&config.ports, want);
    if order.len() == 0 {
        let mut e = "nvmet config has no ".to_owned();
        e.append(want);
        e.append(" port");
        return Err(e);
    }
    if dup {
        let mut e = "duplicate ".to_owned();
        e.append(want);
        e.append(" portid in nvmet config");
        return Err(e);
    }
    let mut out: Vec<NvmetTarget> = Vec::new();
    let mut i: usize = 0;
    while i < order.len()
        invariant
            i <= order@.len(),
            ip@.len() == config.ports@.len(),
            port_order(config.ports@, want@, config.ports@.len() as int, order@),
            want@ == transport_name(trtype),
            any_port(config.ports@, want@),
            !same_id(config.ports@, want@, config.ports@.len() as int),
            out@.len() == i,
            forall|k: int|
                0 <= k < i ==> port_result(
                    *config,
                    config.ports@[order@[k] as int],
                    ip@[order@[k] as int],
                    Ok(#[trigger] out@[k]),
                ),
        decreases order@.len() - i,
    {
        let k: usize = order[i];
        assert(order@[i as int] < config.ports@.len());
        match port_target(config, &config.ports[k], ip[k]) {
            Ok(t) => out.push(t),
            Err(e) => {
                proof {
                    assert(port_result(
                        *config,
                        config.ports@[order@[i as int] as int],
                        ip@[order@[i as int] as int],
                        Err(e),
                    ));
                    assert forall|m: int| 0 <= m < i implies port_served(
                        *config,
                        config.ports@[(#[trigger] order@[m]) as int],
                        ip@[order@[m] as int],
                    ) by {
                        assert(port_result(
                            *config,
                            config.ports@[order@[m] as int],
                            ip@[order@[m] as int],
                            Ok::<NvmetTarget, String>(out@[m]),
                        ));
                    }
                    assert(ports_result(*config, ip@, order@, Err(e)));
                }
                return Err(e);
            },
        }
        i += 1;
    }
    assert(ports_result(*config, ip@, order@, Ok(out)));
    Ok(out)
}

} // verus!
