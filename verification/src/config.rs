//! Target-model configuration: subsystems and their namespaces, and the
//! structural rules they keep.

use vstd::prelude::*;

use crate::text::{byte_len, push_dec};

verus! {

/// One NVM subsystem.
pub struct SubsystemConfig {
    pub nqn: String,
    pub serial: String,
    pub model: String,
    pub allow_any_host: bool,
    /// Host NQNs admitted when `allow_any_host` is off.
    pub allowed_hosts: Vec<String>,
    pub namespaces: Vec<NamespaceConfig>,
}

/// One namespace.
pub struct NamespaceConfig {
    pub nsid: u32,
    pub backend: BackendConfig,
    /// Namespace UUID; `None` derives one from the subsystem NQN and the nsid.
    pub uuid: Option<[u8; 16]>,
}

/// What backs a namespace.
pub enum BackendConfig {
    /// Memory.
    Memory { size_mb: u64 },
    /// Discards writes, reads zeroes.
    Null { size_mb: u64 },
    /// A file or block device.
    File { path: String },
}

/// Longest subsystem NQN, in bytes.
pub const NQN_MAX: usize = 223;

/// The serial number of a subsystem that names none.
pub fn default_serial() -> (s: String)
    ensures
        s@ == "IOUTGT0001"@,
{
    "IOUTGT0001".to_owned()
}

/// The model of a subsystem that names none.
pub fn default_model() -> (s: String)
    ensures
        s@ == "ioutgt"@,
{
    "ioutgt".to_owned()
}

/// The namespace id is not one of the reserved values.
pub open spec fn nsid_usable(nsid: u32) -> bool {
    nsid != 0 && nsid != u32::MAX
}

/// The backend has a size, where it needs one.
pub open spec fn backend_sized(b: BackendConfig) -> bool {
    match b {
        BackendConfig::Memory { size_mb } => size_mb != 0,
        BackendConfig::Null { size_mb } => size_mb != 0,
        BackendConfig::File { .. } => true,
    }
}

/// A namespace before `i` has the id of namespace `i`.
pub open spec fn seen_before(nss: Seq<NamespaceConfig>, i: int) -> bool {
    exists|j: int| 0 <= j < i && (#[trigger] nss[j]).nsid == nss[i].nsid
}

/// The namespaces keep the rules: usable ids, none twice, no empty memory.
pub open spec fn namespaces_ok(nss: Seq<NamespaceConfig>) -> bool {
    &&& forall|i: int|
        0 <= i < nss.len() ==> nsid_usable((#[trigger] nss[i]).nsid) && backend_sized(
            nss[i].backend,
        )
    &&& forall|i: int, j: int|
        0 <= i < j < nss.len() ==> (#[trigger] nss[i]).nsid != (#[trigger] nss[j]).nsid
}

/// The NQN has a length an NQN can have.
pub open spec fn nqn_ok(nqn: Seq<char>) -> bool {
    0 < vstd::utf8::encode_utf8(nqn).len() <= NQN_MAX
}

/// The subsystem list keeps the rules.
pub open spec fn subsystems_ok(s: Seq<SubsystemConfig>) -> bool {
    s.len() > 0 && forall|i: int|
        0 <= i < s.len() ==> nqn_ok((#[trigger] s[i]).nqn@) && namespaces_ok(s[i].namespaces@)
}

/// What is wrong with the first namespace, from `i` on, that breaks a rule.
pub open spec fn namespace_fault(nqn: Seq<char>, nss: Seq<NamespaceConfig>, i: int) -> Option<
    Seq<char>,
>
    decreases nss.len() - i,
{
    if i < 0 || i >= nss.len() {
        None
    } else if !nsid_usable(nss[i].nsid) {
        Some(nqn + ": nsid "@ + crate::text::dec(nss[i].nsid as nat) + " is reserved"@)
    } else if seen_before(nss, i) {
        Some(nqn + ": duplicate nsid "@ + crate::text::dec(nss[i].nsid as nat))
    } else if !backend_sized(nss[i].backend) {
        Some(
            nqn + ": nsid "@ + crate::text::dec(nss[i].nsid as nat) + ": size_mb must be > 0"@,
        )
    } else {
        namespace_fault(nqn, nss, i + 1)
    }
}

/// What is wrong with the first subsystem, from `i` on, that breaks a rule.
pub open spec fn subsystem_fault(s: Seq<SubsystemConfig>, i: int) -> Option<Seq<char>>
    decreases s.len() - i,
{
    if i < 0 || i >= s.len() {
        None
    } else if !nqn_ok(s[i].nqn@) {
        Some("subsystem nqn '"@ + s[i].nqn@ + "' invalid (1..=223 chars)"@)
    } else {
        match namespace_fault(s[i].nqn@, s[i].namespaces@, 0) {
            Some(e) => Some(e),
            None => subsystem_fault(s, i + 1),
        }
    }
}

/// What is wrong with a subsystem list.
pub open spec fn config_fault(s: Seq<SubsystemConfig>) -> Option<Seq<char>> {
    if s.len() == 0 {
        Some("at least one subsystem is required"@)
    } else {
        subsystem_fault(s, 0)
    }
}

proof fn namespace_fault_iff(nqn: Seq<char>, nss: Seq<NamespaceConfig>, i: int)
    requires
        0 <= i <= nss.len(),
        forall|k: int|
            0 <= k < i ==> nsid_usable((#[trigger] nss[k]).nsid) && backend_sized(nss[k].backend)
                && !seen_before(nss, k),
    ensures
        namespace_fault(nqn, nss, i) is None <==> namespaces_ok(nss),
    decreases nss.len() - i,
{
    if i < nss.len() {
        if nsid_usable(nss[i].nsid) && backend_sized(nss[i].backend) && !seen_before(nss, i) {
            namespace_fault_iff(nqn, nss, i + 1);
        } else if namespaces_ok(nss) {
            assert(nsid_usable(nss[i].nsid));
            assert(seen_before(nss, i));
            let j = choose|j: int| 0 <= j < i && (#[trigger] nss[j]).nsid == nss[i].nsid;
            assert(nss[j].nsid != nss[i].nsid);
        }
    } else {
        assert forall|a: int, b: int| 0 <= a < b < nss.len() implies (#[trigger] nss[a]).nsid != (
        #[trigger] nss[b]).nsid by {
            assert(!seen_before(nss, b));
        }
    }
}

proof fn subsystem_fault_iff(s: Seq<SubsystemConfig>, i: int)
    requires
        0 <= i <= s.len(),
    ensures
        subsystem_fault(s, i) is None <==> (forall|k: int|
            i <= k < s.len() ==> nqn_ok((#[trigger] s[k]).nqn@) && namespaces_ok(
                s[k].namespaces@,
            )),
    decreases s.len() - i,
{
    if i < s.len() {
        namespace_fault_iff(s[i].nqn@, s[i].namespaces@, 0);
        subsystem_fault_iff(s, i + 1);
        if nqn_ok(s[i].nqn@) && namespaces_ok(s[i].namespaces@) {
        } else {
            assert(s[i] == s[i]);
        }
    }
}

/// A list with no fault is one that keeps the rules, and the other way round.
pub proof fn no_fault_iff_ok(s: Seq<SubsystemConfig>)
    ensures
        config_fault(s) is None <==> subsystems_ok(s),
{
    subsystem_fault_iff(s, 0);
}

fn check_namespaces(nqn: &str, nss: &Vec<NamespaceConfig>) -> (r: Result<(), String>)
    ensures
        match r {
            Ok(_) => namespace_fault(nqn@, nss@, 0) is None,
            Err(e) => namespace_fault(nqn@, nss@, 0) == Some(e@),
        },
{
    let mut i: usize = 0;
    while i < nss.len()
        invariant
            i <= nss@.len(),
            namespace_fault(nqn@, nss@, 0) == namespace_fault(nqn@, nss@, i as int),
        decreases nss@.len() - i,
    {
        let nsid: u32 = nss[i].nsid;
        if nsid == 0 || nsid == u32::MAX {
            let mut e = nqn.to_owned();
            e.append(": nsid ");
            push_dec(&mut e, nsid as u64);
            e.append(" is reserved");
            return Err(e);
        }
        let mut j: usize = 0;
        while j < i
            invariant
                j <= i < nss@.len(),
                nsid == nss@[i as int].nsid,
                nsid_usable(nsid),
                namespace_fault(nqn@, nss@, 0) == namespace_fault(nqn@, nss@, i as int),
                forall|k: int| 0 <= k < j ==> (#[trigger] nss@[k]).nsid != nsid,
            decreases i - j,
        {
            if nss[j].nsid == nsid {
                assert(seen_before(nss@, i as int));
                let mut e = nqn.to_owned();
                e.append(": duplicate nsid ");
                push_dec(&mut e, nsid as u64);
                return Err(e);
            }
            j += 1;
        }
        assert(!seen_before(nss@, i as int));
        let sized: bool = match &nss[i].backend {
            BackendConfig::Memory { size_mb } => *size_mb != 0,
            BackendConfig::Null { size_mb } => *size_mb != 0,
            BackendConfig::File { .. } => true,
        };
        if !sized {
            let mut e = nqn.to_owned();
            e.append(": nsid ");
            push_dec(&mut e, nsid as u64);
            e.append(": size_mb must be > 0");
            return Err(e);
        }
        i += 1;
    }
    Ok(())
}

/// Check the structural rules of a subsystem list, whatever source built it.
pub fn validate_subsystems(subsystems: &[SubsystemConfig]) -> (r: Result<(), String>)
    ensures
        match r {
            Ok(_) => config_fault(subsystems@) is None,
            Err(e) => config_fault(subsystems@) == Some(e@),
        },
        r is Ok <==> subsystems_ok(subsystems@),
{
    proof {
        no_fault_iff_ok(subsystems@);
    }
    if subsystems.len() == 0 {
        return Err("at least one subsystem is required".to_owned());
    }
    let mut i: usize = 0;
    while i < subsystems.len()
        invariant
            i <= subsystems@.len(),
            subsystems@.len() > 0,
            config_fault(subsystems@) is None <==> subsystems_ok(subsystems@),
            config_fault(subsystems@) == subsystem_fault(subsystems@, i as int),
        decreases subsystems@.len() - i,
    {
        let nqn = subsystems[i].nqn.as_str();
        let n: usize = byte_len(nqn);
        if n == 0 || n > NQN_MAX {
            let mut e = "subsystem nqn '".to_owned();
            e.append(nqn);
            e.append("' invalid (1..=223 chars)");
            return Err(e);
        }
        match check_namespaces(nqn, &subsystems[i].namespaces) {
            Ok(_) => {},
            Err(e) => {
                return Err(e);
            },
        }
        i += 1;
    }
    Ok(())
}

} // verus!
