//! The target around its queues: control requests, admin commands, routing,
//! statistics, CPU placement.

use std::collections::VecDeque;

use ioutgt::admin::{
    execute, note_ns_changed, poll_event, AdminReply, AdminState, EVENT_NS_ATTR, FEAT_VOLATILE_WC,
    GET_FEATURES, GET_LOG_PAGE, IDENTIFY, LOG_CHANGED_NS,
};
use ioutgt::config::{BackendConfig, NamespaceConfig, SubsystemConfig};
use ioutgt::control::{add_built, bad_request, begin, list_reply, stats_reply, Request, Response, Step};
use ioutgt::cpus::{cpulist, cpus_of, io_thread_cpus};
use ioutgt::harness::{
    accept_one, backend_named, buf_bytes, clear_thread_stats, grace, io_thread_name,
    prune_dead_queues, route, thread_stats_json, zeroed_stats, FileConfig, IdleTeardown,
    QueueEntry, RingStats, Route, TargetConfig, MAX_CONNECTIONS,
};
use ioutgt::json::{child, count, item, json_text, number, parse_json, same, string_or, Json};
use ioutgt::nvme::{Sqe, SC_CONNECT_INVALID_HOST, SC_CONNECT_INVALID_PARAM, SC_DNR, SC_SUCCESS};
use ioutgt::port::{build_port, PortConfig, PortTuning, Target};
use ioutgt::queue::{stat_add, NoTransport, QueueStats, QueueStatsSnapshot};
use ioutgt::registry::{QueueInfo, Registry, CNTLID_MAX};
use ioutgt::subsystem::{default_uuid, Namespace, NsError, Subsystem, TransportType};
use ioutgt::tcp::conn::{first_command, KeepAlive};
use ioutgt::tcp::NvmeTcpQueue;
use ioutgt::wrstats::RdmaWrStats;

const NQN: &str = "nqn.2026-06.io.ioutgt:test";
const HOSTNQN: &str = "nqn.2014-08.org.nvmexpress:uuid:feedface-0000-4000-8000-000000000001";

fn tuning() -> PortTuning {
    PortTuning {
        io_threads: 1,
        io_queue_size: 128,
        queue_buf_bytes: 8 << 20,
        recv_buf_bytes: 0,
        poll: false,
        inline_data_size: 8192,
        admin_data_max: 8192,
    }
}

/// A port whose single subsystem has these namespaces (nsid, size in MiB).
fn port_with(namespaces: &[(u32, u64)]) -> PortConfig {
    let mut config = TargetConfig::single_memory(NQN, 8);
    config.subsystems[0].namespaces = namespaces
        .iter()
        .map(|(nsid, size_mb)| NamespaceConfig {
            nsid: *nsid,
            backend: BackendConfig::Memory { size_mb: *size_mb },
            uuid: None,
        })
        .collect();
    let sizes = vec![namespaces.iter().map(|(_, mb)| (mb << 11, 9u8)).collect()];
    build_port(
        &config.subsystems,
        &sizes,
        tuning(),
        "127.0.0.1".to_owned(),
        4420,
        TransportType::Tcp,
    )
}

fn subsystem(allow_any_host: bool, allowed_hosts: Vec<String>) -> Subsystem {
    let config = SubsystemConfig {
        nqn: NQN.to_owned(),
        serial: "SN".to_owned(),
        model: "m".to_owned(),
        allow_any_host,
        allowed_hosts,
        namespaces: Vec::new(),
    };
    let mut port = build_port(
        &vec![config],
        &vec![Vec::new()],
        tuning(),
        "127.0.0.1".to_owned(),
        4420,
        TransportType::Tcp,
    );
    port.subsystems.remove(0)
}

fn admin_state() -> AdminState {
    AdminState {
        cntlid: 1,
        discovery: false,
        kato_ms: 60_000,
        aec: 0,
        ns_changed: false,
        closing: false,
        events: VecDeque::new(),
    }
}

fn sqe(opcode: u8, nsid: u32, cdw10: u32) -> Sqe {
    let mut b = [0u8; 64];
    b[0] = opcode;
    b[4..8].copy_from_slice(&nsid.to_le_bytes());
    b[40..44].copy_from_slice(&cdw10.to_le_bytes());
    Sqe::from_bytes(&b)
}

fn identify(port: &PortConfig, cns: u32, nsid: u32) -> Vec<u8> {
    match execute(&mut admin_state(), port, Some(&port.subsystems[0]), &sqe(IDENTIFY, nsid, cns)) {
        AdminReply::Data { data } => data,
        _ => panic!("no data"),
    }
}

/// The ids named by an active-namespace list (zero-terminated).
fn active_nsids(payload: &[u8]) -> Vec<u32> {
    payload
        .chunks_exact(4)
        .map(|c| u32::from_le_bytes([c[0], c[1], c[2], c[3]]))
        .take_while(|&n| n != 0)
        .collect()
}

fn le32(b: &[u8], off: usize) -> u32 {
    u32::from_le_bytes([b[off], b[off + 1], b[off + 2], b[off + 3]])
}

fn le64(b: &[u8], off: usize) -> u64 {
    u64::from(le32(b, off)) | (u64::from(le32(b, off + 4)) << 32)
}

fn reply(step: Step) -> (Response, bool) {
    match step {
        Step::Reply { response, changed } => (response, changed),
        _ => panic!("no reply yet"),
    }
}

#[test]
fn listed_host_admitted() {
    let s = subsystem(false, vec![HOSTNQN.to_owned()]);
    assert_eq!(s.host_status(HOSTNQN), None);
}

#[test]
fn unlisted_host_rejected() {
    let s = subsystem(
        false,
        vec!["nqn.2014-08.org.nvmexpress:uuid:someone-else".to_owned()],
    );
    assert_eq!(s.host_status(HOSTNQN), Some(SC_CONNECT_INVALID_HOST | SC_DNR));
}

#[test]
fn empty_list_rejects_all_hosts() {
    let s = subsystem(false, vec![]);
    assert_eq!(s.host_status(HOSTNQN), Some(SC_CONNECT_INVALID_HOST | SC_DNR));
}

#[test]
fn allow_any_host_ignores_list() {
    let s = subsystem(
        true,
        vec!["nqn.2014-08.org.nvmexpress:uuid:someone-else".to_owned()],
    );
    assert_eq!(s.host_status(HOSTNQN), None);
}

#[test]
fn identify_controller_advertises_volatile_write_cache() {
    let port = port_with(&[(1, 16)]);
    let ctrl = identify(&port, 1, 0);
    assert_eq!(ctrl.len(), 4096);
    assert_eq!(ctrl[525] & 1, 1, "VWC must be advertised or the host never sends Flush/FUA");
}

#[test]
fn get_features_reports_volatile_write_cache_enabled() {
    let port = port_with(&[(1, 16)]);
    let r = execute(
        &mut admin_state(),
        &port,
        Some(&port.subsystems[0]),
        &sqe(GET_FEATURES, 0, u32::from(FEAT_VOLATILE_WC)),
    );
    match r {
        AdminReply::Status { result, status } => {
            assert_eq!(status, SC_SUCCESS);
            assert_eq!(result & 1, 1, "VOLATILE_WC must report the cache enabled");
        }
        _ => panic!("no status"),
    }
}

#[test]
fn static_multi_namespace_isolation_and_identify() {
    let port = port_with(&[(1, 8), (2, 16), (3, 8)]);
    // Inventory lists all three ids, in order.
    assert_eq!(active_nsids(&identify(&port, 2, 0)), vec![1, 2, 3]);
    // Identify Controller reports the highest id.
    assert_eq!(le32(&identify(&port, 1, 0), 516), 3);
    // Each namespace's own size in 512-byte blocks.
    let nsze = |nsid: u32| le64(&identify(&port, 0, nsid), 0);
    assert_eq!(nsze(1), 16384, "nsid 1 = 8 MiB / 512");
    assert_eq!(nsze(2), 32768, "nsid 2 = 16 MiB / 512");
    assert_eq!(nsze(3), nsze(1));
    // An id above the highest configured one names nothing.
    assert!(port.subsystems[0].namespace(4).is_none());
}

#[test]
fn noncontiguous_nsids_report_max_nn_and_reject_gap() {
    let port = port_with(&[(1, 8), (3, 8)]);
    assert_eq!(active_nsids(&identify(&port, 2, 0)), vec![1, 3], "gap id omitted");
    assert_eq!(le32(&identify(&port, 1, 0), 516), 3, "the highest id, not the count");
    assert!(port.subsystems[0].namespace(2).is_none(), "gap id names nothing");
    assert!(port.subsystems[0].namespace(3).is_some());
}

#[test]
fn runtime_namespace_add_remove_with_aer() {
    let mut port = port_with(&[(1, 16)]);
    let mut admin = admin_state();
    // A parked event request.
    assert!(matches!(poll_event(&mut admin), AdminReply::Parked));
    assert_eq!(active_nsids(&identify(&port, 2, 0)), vec![1]);

    // Hot-add nsid 2.
    let request = Request::AddNamespace {
        subsysnqn: None,
        nsid: 2,
        backend: BackendConfig::Memory { size_mb: 8 },
    };
    let (subsys, nsid) = match begin(&mut port, request) {
        Step::Build { subsys, nsid, ring, .. } => {
            assert!(!ring);
            (subsys, nsid)
        }
        _ => panic!("expected a build"),
    };
    let (response, changed) = add_built(&mut port, subsys, nsid, Ok((16384, 9)));
    assert!(response.ok && changed);
    note_ns_changed(&mut admin);

    // The parked request completes with the notice.
    match poll_event(&mut admin) {
        AdminReply::Status { result, .. } => assert_eq!(result, 0x0004_0002),
        _ => panic!("no event"),
    }
    assert_eq!(EVENT_NS_ATTR, 0x0004_0002);

    // The changed-namespaces log reports everything changed, and clears.
    let page = sqe(GET_LOG_PAGE, 0, u32::from(LOG_CHANGED_NS) | (1023 << 16));
    for want in [u32::MAX, 0] {
        match execute(&mut admin, &port, Some(&port.subsystems[0]), &page) {
            AdminReply::Data { data } => {
                assert_eq!(data.len(), 4096);
                assert_eq!(le32(&data, 0), want);
            }
            _ => panic!("no data"),
        }
    }

    // Inventory now lists both.
    assert_eq!(active_nsids(&identify(&port, 2, 0)), vec![1, 2]);
    assert!(port.subsystems[0].namespace(2).is_some());

    // Remove it.
    let (response, changed) =
        reply(begin(&mut port, Request::RemoveNamespace { subsysnqn: None, nsid: 2 }));
    assert!(response.ok && changed);
    assert_eq!(active_nsids(&identify(&port, 2, 0)), vec![1]);
    assert!(port.subsystems[0].namespace(2).is_none(), "removed namespace names nothing");

    // Control queries.
    let (response, changed) = reply(begin(&mut port, Request::ListNamespace { subsysnqn: None }));
    assert!(response.ok && !changed);
    assert_eq!(count(child(response.data.as_ref(), "namespaces")), 1);
    assert!(matches!(
        begin(&mut port, Request::GetStats { clear: true }),
        Step::Stats { clear: true }
    ));
    assert!(matches!(begin(&mut port, Request::ListController), Step::List));

    // Bad requests are rejected.
    let (response, changed) =
        reply(begin(&mut port, Request::RemoveNamespace { subsysnqn: None, nsid: 42 }));
    assert!(!response.ok && !changed);
    let other = Some("nqn.none".to_owned());
    let (response, _) = reply(begin(&mut port, Request::ListNamespace { subsysnqn: other }));
    assert!(!response.ok);
    let (response, changed) = add_built(&mut port, 0, 1, Ok((1, 9)));
    assert!(!response.ok && !changed, "the id is taken");
    let (response, changed) = add_built(&mut port, 0, 5, Err("no such file".into()));
    assert!(!changed);
    assert_eq!(response.to_line(), "{\"ok\":false,\"error\":\"no such file\"}\n");
}

#[test]
fn string_literals_escape_what_they_must() {
    let text = |s: &str| json_text(&Json::Str(s.to_owned()));
    assert_eq!(text("plain / é"), "\"plain / é\"");
    assert_eq!(text("a\"b\\c"), r#""a\"b\\c""#);
    assert_eq!(text("\u{8}\t\n\u{c}\r"), r#""\b\t\n\f\r""#);
    assert_eq!(text("\u{0}\u{b}\u{1f}\u{7f}"), "\"\\u0000\\u000b\\u001f\u{7f}\"");
    assert_eq!(text(""), "\"\"");
}

#[test]
fn both_float_zeros_are_one_number() {
    let eq = |a: &str, b: &str| same(&parse_json(a).unwrap(), &parse_json(b).unwrap());
    assert!(eq("0.0", "-0.0"));
    assert!(eq("-0", "0.0"));
    assert!(eq("[{\"a\":-0.0}]", "[{\"a\":0e5}]"));
    assert!(!eq("0", "0.0"), "an integer and a float differ");
    assert!(!eq("0.0", "1.0"));
    assert!(!eq("[0.0]", "[0.0,0.0]"));
    assert!(eq("1.5", "15e-1"));
}

#[test]
fn derived_uuid_depends_on_subsystem_and_nsid() {
    let a = "nqn.2026-06.io.ioutgt:port-a";
    let b = "nqn.2026-06.io.ioutgt:port-b";
    assert_ne!(default_uuid(a, 1), default_uuid(b, 1));
    assert_ne!(default_uuid(a, 1), default_uuid(a, 2));
    assert_eq!(default_uuid(a, 1), default_uuid(a, 1));
    // The id, version 8, the variant, and the mark of the name.
    assert_eq!(
        default_uuid("ab", 0x0102_0304),
        [1, 2, 3, 4, 0, 0, 0x80, 0, 0x80, 0, 0x62, 0, 0, 0, 0xA6, 0xE9]
    );
    assert_eq!(default_uuid("", 0), [0, 0, 0, 0, 0, 0, 0x80, 0, 0x80, 0, 0, 0, 0, 0, 0, 0]);
}

#[test]
fn added_namespace_has_the_uuid_it_would_be_configured_with() {
    let configured = port_with(&[(1, 16), (2, 8)]);
    let mut grown = port_with(&[(1, 16)]);
    let (response, changed) = add_built(&mut grown, 0, 2, Ok((16384, 9)));
    assert!(response.ok && changed);
    let want = configured.subsystems[0].namespace(2).unwrap();
    let got = grown.subsystems[0].namespace(2).unwrap();
    assert_eq!(got.uuid, want.uuid);
    assert_eq!(got.uuid, default_uuid(NQN, 2));
    // The descriptor the host reads is the same too.
    assert_eq!(identify(&grown, 3, 2), identify(&configured, 3, 2));
}

#[test]
fn tbkas_advertised_and_io_traffic_keeps_controller_alive() {
    const KATO_MS: u32 = 1_000;
    let port = port_with(&[(1, 16)]);
    let mut registry = Registry::new(1, CNTLID_MAX);
    let info = |qid: u16| QueueInfo {
        qid,
        sqsize: 64,
        tid: 1,
        cpus: "*".to_owned(),
        peer: "127.0.0.1:1".to_owned(),
    };
    let cntlid = registry.allocate(NQN, HOSTNQN, 1, KATO_MS, info(0), false).unwrap();
    assert!(cntlid >= 1);
    let admin = registry.traffic(cntlid).unwrap();

    // The host only skips Keep Alive commands because of this bit, so the
    // advertisement and the behavior below have to travel together.
    let id = identify(&port, 1, 0);
    assert_ne!(
        le32(&id, 96) & 0x40,
        0,
        "TCP controllers advertise traffic-based keep-alive"
    );

    let io = registry.install_io_queue(cntlid, HOSTNQN, info(1)).unwrap();
    let mut q = NvmeTcpQueue::new(1, 64, 1 << 20, false);
    let mut k = KeepAlive { last_ms: 0 };
    let period = u64::from(KeepAlive::period(KATO_MS).unwrap());

    // Drive IO for well over two expiry windows (2×KATO + tick = 2.5 s)
    // while the admin queue stays completely silent.
    let read = sqe(0x02, 1, 7);
    for now in (100..=6_000u64).step_by(100) {
        if now % 200 == 0 {
            first_command(&mut q, Sqe::from_bytes(&read.bytes));
        }
        if now % period == 0 {
            if q.take_traffic() {
                io.traffic.set(&mut registry);
            }
            let heard = admin.take(&mut registry);
            assert_eq!(k.look(now, KATO_MS, heard), None, "alive at {now} ms");
        }
    }

    // Still alive: an admin command completes normally.
    let id = identify(&port, 1, 0);
    assert_eq!(u16::from_le_bytes([id[78], id[79]]), cntlid, "same controller throughout");
    assert!(registry.contains(cntlid));

    // Silence from here on ends it.
    assert_eq!(k.look(8_500, KATO_MS, admin.take(&mut registry)), Some(2_500));
}

#[test]
fn rdma_controllers_do_not_advertise_tbkas() {
    let mut port = port_with(&[(1, 16)]);
    port.trtype = TransportType::Rdma;
    assert_eq!(le32(&identify(&port, 1, 0), 96) & 0x40, 0);
}

#[test]
fn connect_reaches_only_what_the_port_serves() {
    let mut port = port_with(&[(1, 16)]);
    assert_eq!(port.connect_target(NQN, HOSTNQN), Ok(Target::Nvm(0)));
    let unknown = SC_CONNECT_INVALID_PARAM | SC_DNR;
    assert_eq!(unknown, 0x4182);
    assert_eq!(port.connect_target("nqn.2026-06.io.ioutgt:port-b", HOSTNQN), Err(unknown));
    port.subsystems[0].allow_any_host = false;
    assert_eq!(port.connect_target(NQN, HOSTNQN), Err(SC_CONNECT_INVALID_HOST | SC_DNR));
    assert_eq!(
        port.connect_target("nqn.2014-08.org.nvmexpress.discovery", HOSTNQN),
        Ok(Target::Discovery)
    );
}

#[test]
fn removal_undoes_addition() {
    let mut s = port_with(&[(1, 8), (3, 8)]).subsystems.remove(0);
    let uuid = |nsid: u32| default_uuid(NQN, nsid);
    let ns = |nsid: u32| Namespace { nsid, blocks: 1, block_shift: 9, uuid: uuid(nsid) };
    assert!(s.add_namespace(ns(2)).is_ok());
    assert!(matches!(s.add_namespace(ns(2)), Err(NsError::Exists)));
    assert_eq!(s.namespaces.iter().map(|n| n.nsid).collect::<Vec<_>>(), vec![1, 2, 3]);
    assert!(s.remove_namespace(2).is_ok());
    assert!(matches!(s.remove_namespace(2), Err(NsError::Missing)));
    assert_eq!(s.namespaces.iter().map(|n| n.nsid).collect::<Vec<_>>(), vec![1, 3]);
}

fn queue_info(qid: u16, sqsize: u16, tid: i32) -> QueueInfo {
    QueueInfo { qid, sqsize, tid, cpus: "0-3".to_owned(), peer: "127.0.0.1:50000".to_owned() }
}

#[test]
fn list_controller_reports_queues_and_namespaces() {
    let port = port_with(&[(1, 16)]);
    let mut registry = Registry::new(1, CNTLID_MAX);

    // Empty registry: ok, pid present, no controllers.
    let r = list_reply(&port, &registry.snapshot(), &Vec::new(), &vec!["*".to_owned()], 4242);
    assert!(r.ok);
    let data = r.data.as_ref();
    assert_eq!(number(data, "pid"), 4242);
    assert_eq!(count(child(data, "controllers")), 0);
    let ports = child(data, "ports");
    assert_eq!(count(ports), 1);
    assert_eq!(string_or(child(item(ports, 0), "traddr"), ""), "127.0.0.1");
    assert_eq!(string_or(child(item(ports, 0), "trsvcid"), ""), "4420");
    let subsystems = child(item(ports, 0), "subsystems");
    assert_eq!(count(subsystems), 1);
    assert_eq!(string_or(child(item(subsystems, 0), "nqn"), ""), NQN);
    let namespaces = child(item(subsystems, 0), "namespaces");
    assert_eq!(number(item(namespaces, 0), "nsid"), 1);

    // One controller with an admin and an IO queue.
    let cntlid = registry
        .allocate(NQN, HOSTNQN, 4, 60_000, queue_info(0, 32, 100), false)
        .unwrap();
    registry.install_io_queue(cntlid, HOSTNQN, queue_info(1, 64, 101)).unwrap();
    let cpus = vec![vec!["*".to_owned(), "3".to_owned()]];
    let r = list_reply(&port, &registry.snapshot(), &cpus, &vec!["*".to_owned()], 4242);
    let ctrls = child(r.data.as_ref(), "controllers");
    assert_eq!(count(ctrls), 1);
    let c = item(ctrls, 0);
    assert_eq!(number(c, "cntlid"), u64::from(cntlid));
    assert_eq!(string_or(child(c, "subsysnqn"), ""), NQN);
    assert_eq!(number(c, "kato_ms"), 60_000);
    let queues = child(c, "queues");
    assert_eq!(count(queues), 2);
    assert_eq!(number(item(queues, 0), "qid"), 0);
    assert_eq!(number(item(queues, 0), "depth"), 32);
    assert_eq!(number(item(queues, 1), "qid"), 1);
    assert_eq!(number(item(queues, 1), "depth"), 64);
    assert_eq!(number(item(queues, 1), "tid"), 101);
    assert_eq!(count(child(c, "namespaces")), 1);

    registry.remove(cntlid).unwrap();
    let r = list_reply(&port, &registry.snapshot(), &Vec::new(), &vec!["*".to_owned()], 4242);
    assert_eq!(count(child(r.data.as_ref(), "controllers")), 0);
}

fn entry(qid: u16, live: bool, reads: u64, writes: u64) -> QueueEntry<NoTransport> {
    let mut stats: QueueStats<NoTransport> = QueueStats::new(qid);
    stats.cntlid = 1;
    stat_add(&mut stats.read_cmds, reads);
    stat_add(&mut stats.read_bytes, reads * 4096);
    stat_add(&mut stats.write_cmds, writes);
    QueueEntry { stats, live }
}

#[test]
fn get_stats_counts_ios_and_folds_retired() {
    let mut queues = vec![entry(1, true, 3, 4)];
    let mut retired = QueueStatsSnapshot::default();
    let ring = RingStats { parks: 9, sqes: 50, send_sqes: 20, recv_sqes: 20, ..RingStats::default() };
    let j = thread_stats_json("ioutgt-io0", 42, &queues, &retired, &ring);
    let q = item(child(Some(&j), "queues"), 0);
    assert_eq!(number(q, "write_cmds"), 4);
    assert_eq!(number(q, "read_cmds"), 3);
    assert_eq!(number(q, "read_bytes"), 3 * 4096);
    assert_eq!(number(q, "errors"), 0);
    assert_eq!(number(q, "cntlid"), 1);
    assert_eq!(number(child(Some(&j), "ring"), "sqes"), 50);

    // Cleared: from zero, with identity preserved.
    clear_thread_stats(&mut queues, &mut retired);
    let j = thread_stats_json("ioutgt-io0", 42, &queues, &retired, &RingStats::default());
    let q = item(child(Some(&j), "queues"), 0);
    assert_eq!((number(q, "write_cmds"), number(q, "read_bytes"), number(q, "qid")), (0, 0, 1));

    // Counting resumes, and teardown folds the final counts into retired.
    stat_add(&mut queues[0].stats.write_cmds, 2);
    queues[0].live = false;
    prune_dead_queues(&mut queues, &mut retired);
    assert!(queues.is_empty());
    assert_eq!(retired.write_cmds, 2);

    let port = port_with(&[(1, 8)]);
    let mut registry = Registry::new(1, CNTLID_MAX);
    let cntlid = registry
        .allocate(NQN, HOSTNQN, 4, 60_000, queue_info(0, 32, 100), false)
        .unwrap();
    let r = stats_reply(&port, &registry.snapshot(), vec![Some(j), None]);
    let data = r.data.as_ref();
    assert_eq!(number(data, "controllers"), 1);
    let info = child(data, "controller_info");
    assert_eq!(number(item(info, 0), "cntlid"), u64::from(cntlid));
    assert_eq!(string_or(child(item(info, 0), "subsysnqn"), ""), NQN);
    let threads = child(data, "threads");
    assert_eq!(count(threads), 2);
    assert_eq!(string_or(child(item(threads, 1), "error"), ""), "thread unresponsive");
}

#[test]
fn pruning_keeps_totals() {
    let mut queues = vec![entry(1, false, 1, 0), entry(2, true, 10, 0), entry(3, false, 100, 7)];
    let mut retired = QueueStatsSnapshot::default();
    prune_dead_queues(&mut queues, &mut retired);
    assert_eq!(queues.len(), 1);
    assert_eq!(queues[0].stats.qid, 2);
    assert_eq!((retired.read_cmds, retired.write_cmds), (101, 7));
    assert_eq!(retired.read_cmds + queues[0].stats.read_cmds, 111);
}

#[test]
fn thread_statistics_text() {
    assert_eq!(
        json_text(&zeroed_stats("ioutgt-admin", 7)),
        "{\"name\":\"ioutgt-admin\",\"queues\":[],\"retired\":{\"errors\":0,\"flush_cmds\":0,\
         \"other_cmds\":0,\"read_bytes\":0,\"read_cmds\":0,\"write_bytes\":0,\"write_cmds\":0},\
         \"ring\":{\"cqes\":0,\"parks\":0,\"read_sqes\":0,\"recv_sqes\":0,\"send_sqes\":0,\
         \"sqes\":0,\"write_sqes\":0},\"tid\":7}"
    );
}

#[test]
fn transport_counters_are_reported_in_key_order() {
    let mut stats: QueueStats<RdmaWrStats> = QueueStats::new(1);
    stats.set_transport(RdmaWrStats::new());
    let queues = vec![QueueEntry { stats, live: true }];
    let j = thread_stats_json(
        "t",
        1,
        &queues,
        &QueueStatsSnapshot::default(),
        &RingStats::default(),
    );
    let wr = match child(item(child(Some(&j), "queues"), 0), "wr") {
        Some(Json::Obj(m)) => m,
        _ => panic!("no counters"),
    };
    assert!(wr.len() > 10);
    assert!(wr.windows(2).all(|w| w[0].0 < w[1].0));
}

#[test]
fn connections_are_counted_and_routed() {
    assert_eq!(accept_one(0), Some(1));
    assert_eq!(accept_one(MAX_CONNECTIONS - 1), Some(MAX_CONNECTIONS));
    assert_eq!(accept_one(MAX_CONNECTIONS), None);
    assert_eq!(route(0, 4), Route::Admin);
    assert_eq!(route(1, 4), Route::Io(0));
    assert_eq!(route(6, 4), Route::Io(1));
    assert_eq!(route(1, 0), Route::Dropped);
    assert_eq!(io_thread_name(3), "ioutgt-io3");
}

#[test]
fn idle_pool_is_torn_down_after_the_grace() {
    let sec = 1_000_000_000u128;
    let mut t = IdleTeardown::new(grace(30));
    assert_eq!(u128::from(t.period()), 5 * sec);
    assert!(!t.check(true, 0, 0));
    assert!(!t.check(true, 0, 29 * sec));
    // A connection restarts the clock.
    assert!(!t.check(true, 1, 30 * sec));
    assert!(!t.check(true, 0, 31 * sec));
    assert!(!t.check(true, 0, 60 * sec));
    assert!(t.check(true, 0, 61 * sec));
    // Down: nothing to tear down.
    assert!(!t.check(false, 0, 1000 * sec));
    t.reset();
    let mut off = IdleTeardown::new(grace(0));
    assert_eq!(u128::from(off.period()), 3600 * sec);
    assert!(!off.check(true, 0, u128::MAX));
    assert_eq!(IdleTeardown::new(Some(sec / 10)).period(), 100_000_000);
    // The longest grace period there is, to the second.
    let mut long = IdleTeardown::new(grace(u64::MAX));
    assert_eq!(long.grace_ns, Some(u128::from(u64::MAX) * sec));
    assert_eq!(long.period(), t.period());
    assert!(!long.check(true, 0, 0));
    assert!(!long.check(true, 0, u128::from(u64::MAX) * sec - 1));
    assert!(long.check(true, 0, u128::from(u64::MAX) * sec));
}

#[test]
fn file_sizes_saturate() {
    assert_eq!(buf_bytes(8), 8 << 20);
    assert_eq!(buf_bytes(usize::MAX), usize::MAX);
    let c = TargetConfig::from_file(FileConfig {
        listen: "0.0.0.0:4420".to_owned(),
        io_threads: 3,
        header_digest: true,
        data_digest: false,
        pin_threads: true,
        send_zc: true,
        io_queue_size: 64,
        queue_buf_mb: 2,
        recv_buf_mb: 0,
        control_socket: None,
        idle_teardown_secs: 0,
        subsystems: Vec::new(),
    });
    assert_eq!((c.queue_buf_bytes, c.recv_buf_bytes, c.idle_teardown_ns), (2 << 20, 0, None));
    assert!(c.allow_hdgst && !c.allow_ddgst && c.pin_threads && c.send_zc);
    assert!(matches!(backend_named("memory", 4), BackendConfig::Memory { size_mb: 4 }));
    assert!(matches!(backend_named("null", 4), BackendConfig::Null { size_mb: 4 }));
    assert!(matches!(backend_named("/dev/sda", 4), BackendConfig::File { path } if path == "/dev/sda"));
}

fn mask(cpus: &[usize], n: usize) -> Vec<bool> {
    let mut m = vec![false; n];
    for c in cpus {
        m[*c] = true;
    }
    m
}

#[test]
fn cpu_lists() {
    assert_eq!(cpulist(&mask(&[3], 8)), "3");
    assert_eq!(cpulist(&mask(&[0, 1, 2, 3, 8], 16)), "0-3,8");
    assert_eq!(cpulist(&mask(&[], 8)), "");
    assert_eq!(cpulist(&mask(&[0, 2, 3, 7], 8)), "0,2-3,7");
    assert_eq!(cpus_of(None, 8), "?");
    assert_eq!(cpus_of(Some(&mask(&[0, 1], 8)), 2), "*");
    assert_eq!(cpus_of(Some(&mask(&[0, 1], 8)), 4), "0-1");
}

#[test]
fn io_threads_are_placed_on_online_cpus() {
    let groups = vec![mask(&[0, 1, 32, 33], 64), mask(&[5], 64)];
    let online = mask(&[1, 32, 33], 64);
    let p = io_thread_cpus(3, Some((&groups, &online)));
    assert_eq!((p[0].cpu, p[0].group.as_str()), (Some(1), "1,32-33"));
    assert_eq!((p[1].cpu, p[1].group.as_str()), (None, "*"), "no online cpu");
    assert_eq!((p[2].cpu, p[2].group.as_str()), (None, "*"), "more threads than groups");
    let p = io_thread_cpus(2, None);
    assert!(p.iter().all(|x| x.cpu.is_none() && x.group == "*"));
}

#[test]
fn a_line_that_is_no_request_is_refused() {
    assert_eq!(
        bad_request("expected value at line 1 column 1").to_line(),
        "{\"ok\":false,\"error\":\"bad request: expected value at line 1 column 1\"}\n"
    );
}
