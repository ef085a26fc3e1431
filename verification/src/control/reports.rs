//! What a reader of the replies finds in them: each value under its name.

use vstd::prelude::*;

use crate::control::{self, Request, ResponseV, Step};
use crate::harness::{self, QueueEntry, RingStats};
use crate::json::{self, Json, JsonV};
use crate::port::PortConfig;
use crate::queue::{QueueStats, QueueStatsSnapshot, TransportStats};
use crate::registry::{ControllerEntry, EntryView, QueueInfoView};
use crate::subsystem::{self, Namespace, Subsystem};

verus! {

/// A namespace is reported with its id, its blocks and their size as a power of two.
pub proof fn namespace_is_reported(ns: Namespace)
    ensures
        json::field(control::ns_value(ns), "nsid"@) == Some(JsonV::Uint(ns.nsid as u64)),
        json::field(control::ns_value(ns), "blocks"@) == Some(JsonV::Uint(ns.blocks)),
        json::field(control::ns_value(ns), "block_shift"@) == Some(JsonV::Uint(ns.block_shift as u64)),
{
    reveal_strlit("nsid");
    reveal_strlit("blocks");
    reveal_strlit("block_shift");
    assert("block_shift"@.len() != "blocks"@.len());
    assert("block_shift"@.len() != "nsid"@.len());
    assert("blocks"@.len() != "nsid"@.len());
    reveal_with_fuel(json::entry_from, 5);
}

/// A controller is reported with its id, its kind, its host and its subsystem.
pub proof fn identity_is_reported(e: EntryView)
    ensures
        json::field(control::info_value(e), "cntlid"@) == Some(JsonV::Uint(e.cntlid as u64)),
        json::field(control::info_value(e), "discovery"@) == Some(JsonV::Bool(e.discovery)),
        json::field(control::info_value(e), "hostnqn"@) == Some(JsonV::Str(e.hostnqn)),
        json::field(control::info_value(e), "subsysnqn"@) == Some(JsonV::Str(e.subsys_nqn)),
{
    reveal_strlit("cntlid");
    reveal_strlit("discovery");
    reveal_strlit("hostnqn");
    reveal_strlit("subsysnqn");
    assert("cntlid"@.len() != "discovery"@.len());
    assert("cntlid"@.len() != "hostnqn"@.len());
    assert("discovery"@.len() != "hostnqn"@.len());
    assert("cntlid"@.len() != "subsysnqn"@.len());
    assert("discovery"@[0] != "subsysnqn"@[0]);
    assert("hostnqn"@.len() != "subsysnqn"@.len());
    reveal_with_fuel(json::entry_from, 6);
}

/// A subsystem is reported with its name and the number of its namespaces.
pub proof fn subsystem_is_counted(s: Subsystem)
    ensures
        json::field(control::sub_count_value(s), "namespaces"@) == Some(JsonV::Uint(s.namespaces@.len() as u64)),
        json::field(control::sub_count_value(s), "nqn"@) == Some(JsonV::Str(s.nqn@)),
{
    reveal_strlit("namespaces");
    reveal_strlit("nqn");
    assert("namespaces"@.len() != "nqn"@.len());
    reveal_with_fuel(json::entry_from, 4);
}

/// A queue is reported with its id, its depth, its peer, the thread that serves it,
/// where that may run now, and the CPUs it was given.
pub proof fn queue_is_listed(q: QueueInfoView, cpus: Seq<char>, groups: Seq<String>)
    ensures
        json::field(control::queue_value(q, cpus, groups), "cpus"@) == Some(JsonV::Str(cpus)),
        json::field(control::queue_value(q, cpus, groups), "depth"@) == Some(JsonV::Uint(q.sqsize as u64)),
        json::field(control::queue_value(q, cpus, groups), "group_cpus"@) == Some(JsonV::Str(control::group_of(groups, q.qid))),
        json::field(control::queue_value(q, cpus, groups), "peer"@) == Some(JsonV::Str(q.peer)),
        json::field(control::queue_value(q, cpus, groups), "qid"@) == Some(JsonV::Uint(q.qid as u64)),
{
    reveal_strlit("cpus");
    reveal_strlit("depth");
    reveal_strlit("group_cpus");
    reveal_strlit("peer");
    reveal_strlit("qid");
    assert("cpus"@.len() != "depth"@.len());
    assert("cpus"@.len() != "group_cpus"@.len());
    assert("depth"@.len() != "group_cpus"@.len());
    assert("cpus"@[0] != "peer"@[0]);
    assert("depth"@.len() != "peer"@.len());
    assert("group_cpus"@.len() != "peer"@.len());
    assert("cpus"@.len() != "qid"@.len());
    assert("depth"@.len() != "qid"@.len());
    assert("group_cpus"@.len() != "qid"@.len());
    assert("peer"@.len() != "qid"@.len());
    reveal_with_fuel(json::entry_from, 7);
}

/// A controller is listed with its id, kind, host, keep-alive time, subsystem,
/// namespaces and queues.
pub proof fn controller_is_listed(e: EntryView, nss: JsonV, cpus: Seq<String>, groups: Seq<String>)
    ensures
        json::field(control::ctrl_value(e, nss, cpus, groups), "cntlid"@) == Some(JsonV::Uint(e.cntlid as u64)),
        json::field(control::ctrl_value(e, nss, cpus, groups), "discovery"@) == Some(JsonV::Bool(e.discovery)),
        json::field(control::ctrl_value(e, nss, cpus, groups), "hostnqn"@) == Some(JsonV::Str(e.hostnqn)),
        json::field(control::ctrl_value(e, nss, cpus, groups), "kato_ms"@) == Some(JsonV::Uint(e.kato_ms as u64)),
        json::field(control::ctrl_value(e, nss, cpus, groups), "namespaces"@) == Some(nss),
        json::field(control::ctrl_value(e, nss, cpus, groups), "queues"@) == Some(JsonV::Arr(Seq::new(e.queues.len(), |i: int| control::queue_value(e.queues[i], cpus[i]@, groups)))),
        json::field(control::ctrl_value(e, nss, cpus, groups), "subsysnqn"@) == Some(JsonV::Str(e.subsys_nqn)),
{
    reveal_strlit("cntlid");
    reveal_strlit("discovery");
    reveal_strlit("hostnqn");
    reveal_strlit("kato_ms");
    reveal_strlit("namespaces");
    reveal_strlit("queues");
    reveal_strlit("subsysnqn");
    assert("cntlid"@.len() != "discovery"@.len());
    assert("cntlid"@.len() != "hostnqn"@.len());
    assert("discovery"@.len() != "hostnqn"@.len());
    assert("cntlid"@.len() != "kato_ms"@.len());
    assert("discovery"@.len() != "kato_ms"@.len());
    assert("hostnqn"@[0] != "kato_ms"@[0]);
    assert("cntlid"@.len() != "namespaces"@.len());
    assert("discovery"@.len() != "namespaces"@.len());
    assert("hostnqn"@.len() != "namespaces"@.len());
    assert("kato_ms"@.len() != "namespaces"@.len());
    assert("cntlid"@[0] != "queues"@[0]);
    assert("discovery"@.len() != "queues"@.len());
    assert("hostnqn"@.len() != "queues"@.len());
    assert("kato_ms"@.len() != "queues"@.len());
    assert("namespaces"@.len() != "queues"@.len());
    assert("cntlid"@.len() != "subsysnqn"@.len());
    assert("discovery"@[0] != "subsysnqn"@[0]);
    assert("hostnqn"@.len() != "subsysnqn"@.len());
    assert("kato_ms"@.len() != "subsysnqn"@.len());
    assert("namespaces"@.len() != "subsysnqn"@.len());
    assert("queues"@.len() != "subsysnqn"@.len());
    reveal_with_fuel(json::entry_from, 9);
}

/// A port is listed with its address and service, and every subsystem on it.
pub proof fn port_is_listed(p: PortConfig)
    ensures
        json::field(control::port_value(p), "subsystems"@) == Some(JsonV::Arr(Seq::new(p.subsystems@.len(), |i: int| control::sub_value(p.subsystems@[i])))),
        json::field(control::port_value(p), "traddr"@) == Some(JsonV::Str(p.traddr@)),
        json::field(control::port_value(p), "trsvcid"@) == Some(JsonV::Str(p.trsvcid@)),
{
    reveal_strlit("subsystems");
    reveal_strlit("traddr");
    reveal_strlit("trsvcid");
    assert("subsystems"@.len() != "traddr"@.len());
    assert("subsystems"@.len() != "trsvcid"@.len());
    assert("traddr"@.len() != "trsvcid"@.len());
    reveal_with_fuel(json::entry_from, 5);
}

/// The counters of retired queues are reported under their names.
pub proof fn retired_counters_are_reported(s: QueueStatsSnapshot)
    ensures
        json::field(harness::retired_value(s), "errors"@) == Some(JsonV::Uint(s.errors)),
        json::field(harness::retired_value(s), "flush_cmds"@) == Some(JsonV::Uint(s.flush_cmds)),
        json::field(harness::retired_value(s), "other_cmds"@) == Some(JsonV::Uint(s.other_cmds)),
        json::field(harness::retired_value(s), "read_bytes"@) == Some(JsonV::Uint(s.read_bytes)),
        json::field(harness::retired_value(s), "read_cmds"@) == Some(JsonV::Uint(s.read_cmds)),
        json::field(harness::retired_value(s), "write_bytes"@) == Some(JsonV::Uint(s.write_bytes)),
        json::field(harness::retired_value(s), "write_cmds"@) == Some(JsonV::Uint(s.write_cmds)),
{
    reveal_strlit("errors");
    reveal_strlit("flush_cmds");
    reveal_strlit("other_cmds");
    reveal_strlit("read_bytes");
    reveal_strlit("read_cmds");
    reveal_strlit("write_bytes");
    reveal_strlit("write_cmds");
    assert("errors"@.len() != "flush_cmds"@.len());
    assert("errors"@.len() != "other_cmds"@.len());
    assert("flush_cmds"@[0] != "other_cmds"@[0]);
    assert("errors"@.len() != "read_bytes"@.len());
    assert("flush_cmds"@[0] != "read_bytes"@[0]);
    assert("other_cmds"@[0] != "read_bytes"@[0]);
    assert("errors"@.len() != "read_cmds"@.len());
    assert("flush_cmds"@.len() != "read_cmds"@.len());
    assert("other_cmds"@.len() != "read_cmds"@.len());
    assert("read_bytes"@.len() != "read_cmds"@.len());
    assert("errors"@.len() != "write_bytes"@.len());
    assert("flush_cmds"@.len() != "write_bytes"@.len());
    assert("other_cmds"@.len() != "write_bytes"@.len());
    assert("read_bytes"@.len() != "write_bytes"@.len());
    assert("read_cmds"@.len() != "write_bytes"@.len());
    assert("errors"@.len() != "write_cmds"@.len());
    assert("flush_cmds"@[0] != "write_cmds"@[0]);
    assert("other_cmds"@[0] != "write_cmds"@[0]);
    assert("read_bytes"@[0] != "write_cmds"@[0]);
    assert("read_cmds"@.len() != "write_cmds"@.len());
    assert("write_bytes"@.len() != "write_cmds"@.len());
    reveal_with_fuel(json::entry_from, 9);
}

/// The counters of a queue are reported under their names, with its own id and its
/// controller's.
pub proof fn queue_counters_are_reported<T: TransportStats>(q: QueueStats<T>)
    ensures
        json::field(harness::queue_value(q), "cntlid"@) == Some(JsonV::Uint(q.cntlid as u64)),
        json::field(harness::queue_value(q), "qid"@) == Some(JsonV::Uint(q.qid as u64)),
        json::field(harness::queue_value(q), "errors"@) == Some(JsonV::Uint(q.errors)),
        json::field(harness::queue_value(q), "flush_cmds"@) == Some(JsonV::Uint(q.flush_cmds)),
        json::field(harness::queue_value(q), "other_cmds"@) == Some(JsonV::Uint(q.other_cmds)),
        json::field(harness::queue_value(q), "read_bytes"@) == Some(JsonV::Uint(q.read_bytes)),
        json::field(harness::queue_value(q), "read_cmds"@) == Some(JsonV::Uint(q.read_cmds)),
        json::field(harness::queue_value(q), "write_bytes"@) == Some(JsonV::Uint(q.write_bytes)),
        json::field(harness::queue_value(q), "write_cmds"@) == Some(JsonV::Uint(q.write_cmds)),
{
    reveal_strlit("cntlid");
    reveal_strlit("qid");
    reveal_strlit("errors");
    reveal_strlit("flush_cmds");
    reveal_strlit("other_cmds");
    reveal_strlit("read_bytes");
    reveal_strlit("read_cmds");
    reveal_strlit("write_bytes");
    reveal_strlit("write_cmds");
    assert("cntlid"@[0] != "errors"@[0]);
    assert("cntlid"@.len() != "flush_cmds"@.len());
    assert("errors"@.len() != "flush_cmds"@.len());
    assert("cntlid"@.len() != "other_cmds"@.len());
    assert("errors"@.len() != "other_cmds"@.len());
    assert("flush_cmds"@[0] != "other_cmds"@[0]);
    assert("cntlid"@.len() != "qid"@.len());
    assert("errors"@.len() != "qid"@.len());
    assert("flush_cmds"@.len() != "qid"@.len());
    assert("other_cmds"@.len() != "qid"@.len());
    assert("cntlid"@.len() != "read_bytes"@.len());
    assert("errors"@.len() != "read_bytes"@.len());
    assert("flush_cmds"@[0] != "read_bytes"@[0]);
    assert("other_cmds"@[0] != "read_bytes"@[0]);
    assert("qid"@.len() != "read_bytes"@.len());
    assert("cntlid"@.len() != "read_cmds"@.len());
    assert("errors"@.len() != "read_cmds"@.len());
    assert("flush_cmds"@.len() != "read_cmds"@.len());
    assert("other_cmds"@.len() != "read_cmds"@.len());
    assert("qid"@.len() != "read_cmds"@.len());
    assert("read_bytes"@.len() != "read_cmds"@.len());
    assert("cntlid"@.len() != "write_bytes"@.len());
    assert("errors"@.len() != "write_bytes"@.len());
    assert("flush_cmds"@.len() != "write_bytes"@.len());
    assert("other_cmds"@.len() != "write_bytes"@.len());
    assert("qid"@.len() != "write_bytes"@.len());
    assert("read_bytes"@.len() != "write_bytes"@.len());
    assert("read_cmds"@.len() != "write_bytes"@.len());
    assert("cntlid"@.len() != "write_cmds"@.len());
    assert("errors"@.len() != "write_cmds"@.len());
    assert("flush_cmds"@[0] != "write_cmds"@[0]);
    assert("other_cmds"@[0] != "write_cmds"@[0]);
    assert("qid"@.len() != "write_cmds"@.len());
    assert("read_bytes"@[0] != "write_cmds"@[0]);
    assert("read_cmds"@.len() != "write_cmds"@.len());
    assert("write_bytes"@.len() != "write_cmds"@.len());
    reveal_with_fuel(json::entry_from, 11);
    reveal_strlit("wr");
    assert("wr"@.len() == 2);
    reveal_with_fuel(json::entry_from, 12);
}

/// The counters of a ring are reported under their names.
pub proof fn ring_counters_are_reported(r: RingStats)
    ensures
        json::field(harness::ring_value(r), "cqes"@) == Some(JsonV::Uint(r.cqes)),
        json::field(harness::ring_value(r), "parks"@) == Some(JsonV::Uint(r.parks)),
        json::field(harness::ring_value(r), "read_sqes"@) == Some(JsonV::Uint(r.read_sqes)),
        json::field(harness::ring_value(r), "recv_sqes"@) == Some(JsonV::Uint(r.recv_sqes)),
        json::field(harness::ring_value(r), "send_sqes"@) == Some(JsonV::Uint(r.send_sqes)),
        json::field(harness::ring_value(r), "sqes"@) == Some(JsonV::Uint(r.sqes)),
        json::field(harness::ring_value(r), "write_sqes"@) == Some(JsonV::Uint(r.write_sqes)),
{
    reveal_strlit("cqes");
    reveal_strlit("parks");
    reveal_strlit("read_sqes");
    reveal_strlit("recv_sqes");
    reveal_strlit("send_sqes");
    reveal_strlit("sqes");
    reveal_strlit("write_sqes");
    assert("cqes"@.len() != "parks"@.len());
    assert("cqes"@.len() != "read_sqes"@.len());
    assert("parks"@.len() != "read_sqes"@.len());
    assert("cqes"@.len() != "recv_sqes"@.len());
    assert("parks"@.len() != "recv_sqes"@.len());
    assert("read_sqes"@[2] != "recv_sqes"@[2]);
    assert("cqes"@.len() != "send_sqes"@.len());
    assert("parks"@.len() != "send_sqes"@.len());
    assert("read_sqes"@[0] != "send_sqes"@[0]);
    assert("recv_sqes"@[0] != "send_sqes"@[0]);
    assert("cqes"@[0] != "sqes"@[0]);
    assert("parks"@.len() != "sqes"@.len());
    assert("read_sqes"@.len() != "sqes"@.len());
    assert("recv_sqes"@.len() != "sqes"@.len());
    assert("send_sqes"@.len() != "sqes"@.len());
    assert("cqes"@.len() != "write_sqes"@.len());
    assert("parks"@.len() != "write_sqes"@.len());
    assert("read_sqes"@.len() != "write_sqes"@.len());
    assert("recv_sqes"@.len() != "write_sqes"@.len());
    assert("send_sqes"@.len() != "write_sqes"@.len());
    assert("sqes"@.len() != "write_sqes"@.len());
    reveal_with_fuel(json::entry_from, 9);
}

/// A subsystem is listed with its name and every namespace of it.
pub proof fn subsystem_is_listed(s: Subsystem)
    ensures
        json::field(control::sub_value(s), "namespaces"@) == Some(control::ns_values(s.namespaces@)),
        json::field(control::sub_value(s), "nqn"@) == Some(JsonV::Str(s.nqn@)),
{
    reveal_strlit("namespaces");
    reveal_strlit("nqn");
    assert("namespaces"@.len() != "nqn"@.len());
    reveal_with_fuel(json::entry_from, 4);
}

/// A statistics reply names every controller, counts them, and holds every
/// subsystem and every thread.
pub proof fn statistics_are_whole(subs: Seq<Subsystem>, ctrls: Seq<ControllerEntry>, threads: Seq<Option<Json>>)
    ensures
        json::field(control::stats_value(subs, ctrls, threads), "controller_info"@) == Some(JsonV::Arr(Seq::new(ctrls.len(), |i: int| control::info_value(ctrls[i]@)))),
        json::field(control::stats_value(subs, ctrls, threads), "controllers"@) == Some(JsonV::Uint(ctrls.len() as u64)),
        json::field(control::stats_value(subs, ctrls, threads), "subsystems"@) == Some(JsonV::Arr(Seq::new(subs.len(), |i: int| control::sub_count_value(subs[i])))),
        json::field(control::stats_value(subs, ctrls, threads), "threads"@) == Some(JsonV::Arr(Seq::new(threads.len(), |i: int| control::thread_value(threads[i])))),
{
    reveal_strlit("controller_info");
    reveal_strlit("controllers");
    reveal_strlit("subsystems");
    reveal_strlit("threads");
    assert("controller_info"@.len() != "controllers"@.len());
    assert("controller_info"@.len() != "subsystems"@.len());
    assert("controllers"@.len() != "subsystems"@.len());
    assert("controller_info"@.len() != "threads"@.len());
    assert("controllers"@.len() != "threads"@.len());
    assert("subsystems"@.len() != "threads"@.len());
    reveal_with_fuel(json::entry_from, 6);
}

/// An inventory reply names the process, and holds the port and every controller.
pub proof fn inventory_is_whole(p: PortConfig, ctrls: Seq<ControllerEntry>, nss: Seq<JsonV>, cpus: Seq<Vec<String>>, groups: Seq<String>, pid: u32)
    ensures
        json::field(control::list_value(p, ctrls, nss, cpus, groups, pid), "controllers"@) == Some(JsonV::Arr(Seq::new(ctrls.len(), |i: int| control::ctrl_value(ctrls[i]@, nss[i], cpus[i]@, groups)))),
        json::field(control::list_value(p, ctrls, nss, cpus, groups, pid), "pid"@) == Some(JsonV::Uint(pid as u64)),
        json::field(control::list_value(p, ctrls, nss, cpus, groups, pid), "ports"@) == Some(JsonV::Arr(seq![control::port_value(p)])),
{
    reveal_strlit("controllers");
    reveal_strlit("pid");
    reveal_strlit("ports");
    assert("controllers"@.len() != "pid"@.len());
    assert("controllers"@.len() != "ports"@.len());
    assert("pid"@.len() != "ports"@.len());
    reveal_with_fuel(json::entry_from, 5);
}

/// A thread is reported with its name, every queue of it, what its retired queues
/// did and what its ring did.
pub proof fn thread_is_reported<T: TransportStats>(name: Seq<char>, tid: i32, queues: Seq<QueueEntry<T>>, retired: QueueStatsSnapshot, ring: RingStats)
    ensures
        json::field(harness::thread_value(name, tid, queues, retired, ring), "name"@) == Some(JsonV::Str(name)),
        json::field(harness::thread_value(name, tid, queues, retired, ring), "queues"@) == Some(JsonV::Arr(Seq::new(queues.len(), |i: int| harness::queue_value(queues[i].stats)))),
        json::field(harness::thread_value(name, tid, queues, retired, ring), "retired"@) == Some(harness::retired_value(retired)),
        json::field(harness::thread_value(name, tid, queues, retired, ring), "ring"@) == Some(harness::ring_value(ring)),
        json::field(harness::thread_value(name, tid, queues, retired, ring), "tid"@) == Some(if tid >= 0 { JsonV::Uint(tid as u64) } else { JsonV::Int(tid as i64) }),
{
    reveal_strlit("name");
    reveal_strlit("queues");
    reveal_strlit("retired");
    reveal_strlit("ring");
    reveal_strlit("tid");
    assert("name"@.len() != "queues"@.len());
    assert("name"@.len() != "retired"@.len());
    assert("queues"@.len() != "retired"@.len());
    assert("name"@[0] != "ring"@[0]);
    assert("queues"@.len() != "ring"@.len());
    assert("retired"@.len() != "ring"@.len());
    assert("name"@.len() != "tid"@.len());
    assert("queues"@.len() != "tid"@.len());
    assert("retired"@.len() != "tid"@.len());
    assert("ring"@.len() != "tid"@.len());
    reveal_with_fuel(json::entry_from, 7);
}

/// An entry that is put is found under its name, and the others as before.
pub proof fn put_entry_is_found(
    s: Seq<(Seq<char>, JsonV)>,
    k: Seq<char>,
    v: JsonV,
    key: Seq<char>,
)
    ensures
        json::entry_from(harness::put(s, k, v), key, 0) == (if key == k {
            Some(v)
        } else {
            json::entry_from(s, key, 0)
        }),
    decreases s.len(),
{
    let p = harness::put(s, k, v);
    if s.len() > 0 && crate::text::precedes(s[0].0, k) {
        let rest = s.drop_first();
        put_entry_is_found(rest, k, v, key);
        crate::text::precedes_irreflexive(k);
        assert(p =~= seq![s[0]] + harness::put(rest, k, v));
        lemma_behind(s[0], harness::put(rest, k, v), key);
        assert(s =~= seq![s[0]] + rest);
        lemma_behind(s[0], rest, key);
    } else if s.len() > 0 && s[0].0 == k {
        let rest = s.drop_first();
        lemma_behind((k, v), rest, key);
        assert(s =~= seq![s[0]] + rest);
        lemma_behind(s[0], rest, key);
    } else if s.len() > 0 {
        lemma_behind((k, v), s, key);
    } else {
        lemma_behind((k, v), s, key);
        assert(p =~= seq![(k, v)] + s);
    }
}

proof fn lemma_behind(e: (Seq<char>, JsonV), rest: Seq<(Seq<char>, JsonV)>, key: Seq<char>)
    ensures
        json::entry_from(seq![e] + rest, key, 0) == (if e.0 == key {
            Some(e.1)
        } else {
            json::entry_from(rest, key, 0)
        }),
{
    lemma_shifted(e, rest, key, 0);
}

proof fn lemma_shifted(
    e: (Seq<char>, JsonV),
    rest: Seq<(Seq<char>, JsonV)>,
    key: Seq<char>,
    i: int,
)
    requires
        0 <= i <= rest.len(),
    ensures
        json::entry_from(seq![e] + rest, key, i + 1) == json::entry_from(rest, key, i),
    decreases rest.len() - i,
{
    if i < rest.len() {
        lemma_shifted(e, rest, key, i + 1);
    }
}

/// A transport's counters are found under their names: of a name that comes more
/// than once, the last.
pub proof fn transport_counters_are_reported(pairs: Seq<(Seq<char>, u64)>, k: int)
    requires
        0 <= k < pairs.len(),
        forall|i: int| k < i < pairs.len() ==> (#[trigger] pairs[i]).0 != pairs[k].0,
    ensures
        json::field(JsonV::Obj(harness::counters_object(pairs)), pairs[k].0) == Some(
            JsonV::Uint(pairs[k].1),
        ),
    decreases pairs.len(),
{
    let less = pairs.drop_last();
    let last = pairs[pairs.len() - 1];
    put_entry_is_found(
        harness::counters_object(less),
        last.0,
        JsonV::Uint(last.1),
        pairs[k].0,
    );
    if k < pairs.len() - 1 {
        transport_counters_are_reported(less, k);
    }
}

/// A request to remove a namespace that is there removes it from the subsystem
/// it names, and nothing else: its other namespaces and all other subsystems
/// are what they were, and the hosts are to be told.
pub proof fn removed_namespace_is_gone(
    pre: PortConfig,
    post: PortConfig,
    nqn: String,
    nsid: u32,
    step: Step,
    i: int,
)
    requires
        pre.wf(),
        0 <= i < pre.subsystems@.len(),
        pre.subsystems@[i].nqn@ == nqn@,
        subsystem::has_nsid(pre.subsystems@[i].namespaces@, nsid),
        control::begun(
            pre,
            post,
            Request::RemoveNamespace { subsysnqn: Some(nqn), nsid },
            step,
        ),
    ensures
        step matches Step::Reply { response, changed } && response.ok && changed,
        post.subsystems@.len() == pre.subsystems@.len(),
        !subsystem::has_nsid(post.subsystems@[i].namespaces@, nsid),
        forall|ns: Namespace|
            ns.nsid != nsid ==> (#[trigger] post.subsystems@[i].namespaces@.contains(ns)
                == pre.subsystems@[i].namespaces@.contains(ns)),
        forall|k: int|
            0 <= k < pre.subsystems@.len() && k != i ==> #[trigger] post.subsystems@[k]
                == pre.subsystems@[k],
{
    let r = choose|r: Result<int, Seq<char>>|
        {
            &&& #[trigger] control::resolved(pre.subsystems@, Some(nqn@), r)
            &&& match r {
                Err(e) => post == pre && (step matches Step::Reply { response, changed }
                    && !changed && response.says(ResponseV::Failed { error: e })),
                Ok(i) => if subsystem::has_nsid(pre.subsystems@[i].namespaces@, nsid) {
                    &&& step matches Step::Reply { response, changed } && changed
                        && response.says(ResponseV::Done)
                    &&& control::ns_removed(pre, post, i, nsid)
                } else {
                    post == pre && (step matches Step::Reply { response, changed } && !changed
                        && response.says(
                        ResponseV::Failed {
                            error: control::ns_error_text(subsystem::NsError::Missing, nsid),
                        },
                    ))
                },
            }
        };
    assert(crate::port::serves(pre.subsystems@, nqn@));
    let j = r->Ok_0;
    assert(j == i) by {
        crate::text::precedes_irreflexive(nqn@);
        if i < j {
            assert(crate::text::precedes(pre.subsystems@[i].nqn@, pre.subsystems@[j].nqn@));
        } else if j < i {
            assert(crate::text::precedes(pre.subsystems@[j].nqn@, pre.subsystems@[i].nqn@));
        }
    }
    let was = pre.subsystems@[i];
    let (now, p) = choose|now: Subsystem, p: int|
        {
            &&& 0 <= p < was.namespaces@.len()
            &&& was.namespaces@[p].nsid == nsid
            &&& now.namespaces@ == #[trigger] was.namespaces@.remove(p)
            &&& now == (Subsystem { namespaces: now.namespaces, ..was })
            &&& #[trigger] control::sub_changed(pre, post, i, now)
        };
    let a = was.namespaces@;
    let b = now.namespaces@;
    assert(was.wf());
    assert(post.subsystems@[i] == now);
    if subsystem::has_nsid(b, nsid) {
        let k = choose|k: int| 0 <= k < b.len() && (#[trigger] b[k]).nsid == nsid;
        let k0 = if k < p {
            k
        } else {
            k + 1
        };
        assert(a[k0] == b[k]);
        assert(k0 != p);
        if k0 < p {
            assert(a[k0].nsid < a[p].nsid);
        } else {
            assert(a[p].nsid < a[k0].nsid);
        }
    }
    assert forall|ns: Namespace| ns.nsid != nsid implies (#[trigger] b.contains(ns) == a.contains(
        ns,
    )) by {
        if a.contains(ns) {
            let k = choose|k: int| 0 <= k < a.len() && a[k] == ns;
            assert(b[if k < p {
                k
            } else {
                k - 1
            }] == ns);
        }
        if b.contains(ns) {
            let k = choose|k: int| 0 <= k < b.len() && b[k] == ns;
            assert(a[if k < p {
                k
            } else {
                k + 1
            }] == ns);
        }
    }
}

/// A namespace that is added is there, with its id and as large as its backend,
/// and everything else is what it was.
pub proof fn added_namespace_is_there(
    pre: PortConfig,
    post: PortConfig,
    i: int,
    nsid: u32,
    z: (u64, u8),
)
    requires
        0 <= i < pre.subsystems@.len(),
        control::ns_joined(pre, post, i, nsid, z),
    ensures
        exists|ns: Namespace| #[trigger]
            post.subsystems@[i].namespaces@.contains(ns) && ns.nsid == nsid && ns.blocks == z.0
                && ns.block_shift == z.1,
        forall|ns: Namespace|
            ns.nsid != nsid ==> (#[trigger] post.subsystems@[i].namespaces@.contains(ns)
                == pre.subsystems@[i].namespaces@.contains(ns)),
        post.subsystems@.len() == pre.subsystems@.len(),
        forall|k: int|
            0 <= k < pre.subsystems@.len() && k != i ==> #[trigger] post.subsystems@[k]
                == pre.subsystems@[k],
{
    let was = pre.subsystems@[i];
    let ns = choose|ns: Namespace|
        crate::port::ns_is(ns, was.nqn@, nsid, None, z) && #[trigger] control::ns_added(
            pre,
            post,
            i,
            ns,
        );
    let (now, p) = choose|now: Subsystem, p: int|
        {
            &&& 0 <= p <= was.namespaces@.len()
            &&& now.namespaces@ == #[trigger] was.namespaces@.insert(p, ns)
            &&& now == (Subsystem { namespaces: now.namespaces, ..was })
            &&& #[trigger] control::sub_changed(pre, post, i, now)
        };
    let a = was.namespaces@;
    let b = now.namespaces@;
    assert(post.subsystems@[i] == now);
    assert(b[p] == ns);
    assert(b.contains(ns));
    assert forall|o: Namespace| o.nsid != nsid implies (#[trigger] b.contains(o) == a.contains(o)) by {
        if a.contains(o) {
            let k = choose|k: int| 0 <= k < a.len() && a[k] == o;
            assert(b[if k < p {
                k
            } else {
                k + 1
            }] == o);
        }
        if b.contains(o) {
            let k = choose|k: int| 0 <= k < b.len() && b[k] == o;
            assert(a[if k < p {
                k
            } else {
                k - 1
            }] == o);
        }
    }
}

/// The size that is shown for a namespace is that of its blocks, all of them.
pub proof fn shown_size_is_the_namespaces(ns: Namespace)
    requires
        ns.block_shift < 63,
        ns.blocks * vstd::arithmetic::power2::pow2(ns.block_shift as nat) <= u64::MAX,
    ensures
        crate::client::ns_shift(control::ns_value(ns)) == ns.block_shift,
        crate::client::ns_bytes(control::ns_value(ns)) == ns.blocks
            * vstd::arithmetic::power2::pow2(ns.block_shift as nat),
{
    namespace_is_reported(ns);
    vstd::bits::lemma_u64_shl_is_mul(ns.blocks, ns.block_shift as u64);
}

} // verus!
