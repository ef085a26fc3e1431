//! Rendering of a target's listing and counters.

use ioutgt::client::{check_reply, expand_cpulist, render_cpu_group, render_ctrl_list, Reply};
use ioutgt::json::{json_text, parse_json, Json};
use ioutgt::stat::Scale;

const SAMPLE_PORT: &str = r#"{
    "traddr": "0.0.0.0",
    "trsvcid": "14420",
    "subsystems": [{
        "nqn": "nqn.2026-06.io.ioutgt:test",
        "namespaces": [{"nsid": 1, "blocks": 131072, "block_shift": 9}]
    }]
}"#;

const PORT_HEADER: &str = "port 0.0.0.0:14420\n\
     \x20 subsystem nqn.2026-06.io.ioutgt:test\n\
     \x20   ns 1: 64 MiB (512B blocks)\n";

fn value(text: &str) -> Json {
    parse_json(text).unwrap()
}

/// Counters as totals, or as rates over `secs`.
fn render(data: &Json, prev: Option<(&Json, f64)>) -> String {
    let secs = prev.map(|(_, s)| s);
    let scale = Scale {
        rate: move |raw: u64| match secs {
            Some(s) if s > 0.0 => (raw as f64 / s).round() as u64,
            _ => raw,
        },
        ratio: |num: u64, den: u64| {
            let q = if den == 0 { 0.0 } else { num as f64 / den as f64 };
            format!("{q:.1}")
        },
        mib: |bytes: u64| {
            let v = bytes as f64 / f64::from(1u32 << 20);
            format!("{v:.1} MiB")
        },
    };
    scale.render_stat(data, prev.map(|(p, _)| p))
}

#[test]
fn render_cpu_group_marks_active() {
    // Full group dumped, active CPU bracketed.
    assert_eq!(render_cpu_group("0-1,32-33", "32"), "0,1,[32],33");
    assert_eq!(render_cpu_group("12", "12"), "[12]");
    // Unknown/unpinned group falls back to just the active CPU.
    assert_eq!(render_cpu_group("*", "3"), "3");
    assert_eq!(render_cpu_group("*", "*"), "*");
}

#[test]
fn cpulist_parts_that_are_no_numbers_are_skipped() {
    assert_eq!(expand_cpulist("0-2,5"), vec![0, 1, 2, 5]);
    assert_eq!(expand_cpulist("3-1,x,7"), vec![7]);
    assert_eq!(expand_cpulist(""), Vec::<u32>::new());
}

#[test]
fn render_ctrl_list_formats_controllers() {
    let data = value(&format!(
        r#"{{
        "pid": 4242,
        "ports": [{SAMPLE_PORT}],
        "controllers": [{{
            "cntlid": 1,
            "subsysnqn": "nqn.2026-06.io.ioutgt:test",
            "hostnqn": "nqn.2014-08.org.nvmexpress:uuid:abc",
            "discovery": false,
            "kato_ms": 60000,
            "queues": [
                {{"qid": 0, "depth": 32, "tid": 100, "cpus": "*"}},
                {{"qid": 1, "depth": 64, "tid": 101, "cpus": "3"}}
            ],
            "namespaces": [{{"nsid": 1, "blocks": 32768, "block_shift": 9}}]
        }}]
    }}"#
    ));
    let out = render_ctrl_list(&data);
    let expected = format!(
        "pid 4242\n{PORT_HEADER}\
         controller 1: nqn.2026-06.io.ioutgt:test\n\
         \x20 host:   nqn.2014-08.org.nvmexpress:uuid:abc\n\
         \x20 kato:   60000 ms\n\
         \x20 queues: 0:32@100 cpus * | 1:64@101 cpus 3\n\
         \x20 ns:     1\n"
    );
    assert_eq!(out, expected);
}

#[test]
fn render_ctrl_list_empty() {
    let data = value(&format!(
        r#"{{ "pid": 4242, "ports": [{SAMPLE_PORT}], "controllers": [] }}"#
    ));
    assert_eq!(
        render_ctrl_list(&data),
        format!("pid 4242\n{PORT_HEADER}no controllers\n")
    );
}

#[test]
fn render_ctrl_list_gib_sizes() {
    let data = value(
        r#"{
        "pid": 1,
        "ports": [{
            "traddr": "::", "trsvcid": "14420",
            "subsystems": [{
                "nqn": "nqn.x",
                "namespaces": [{"nsid": 7, "blocks": 524288, "block_shift": 12}]
            }]
        }],
        "controllers": []
    }"#,
    );
    let out = render_ctrl_list(&data);
    assert!(out.contains("port :::14420\n"), "{out}");
    assert!(out.contains("ns 7: 2 GiB (4096B blocks)\n"), "{out}");
}

#[test]
fn render_ctrl_list_without_port_section() {
    let data = value(r#"{ "pid": 4242, "controllers": [] }"#);
    assert_eq!(render_ctrl_list(&data), "pid 4242\nno controllers\n");
}

#[test]
fn render_ctrl_list_discovery() {
    let data = value(
        r#"{
        "pid": 4242,
        "controllers": [{
            "cntlid": 2,
            "subsysnqn": "nqn.2014-08.org.nvmexpress.discovery",
            "hostnqn": "nqn.2014-08.org.nvmexpress:uuid:abc",
            "discovery": true,
            "kato_ms": 120000,
            "queues": [{"qid": 0, "depth": 32, "tid": 100, "cpus": "*"}],
            "namespaces": []
        }]
    }"#,
    );
    let out = render_ctrl_list(&data);
    assert_eq!(
        out,
        "pid 4242\n\
         controller 2 (discovery): nqn.2014-08.org.nvmexpress.discovery\n\
         \x20 host:   nqn.2014-08.org.nvmexpress:uuid:abc\n\
         \x20 kato:   120000 ms\n\
         \x20 queues: 0:32@100 cpus *\n\
         \x20 ns:     -\n"
    );
}

const STAT_SAMPLE: &str = r#"{
    "controller_info": [
        { "cntlid": 1, "subsysnqn": "nqn.2026-06.io.ioutgt:test",
          "hostnqn": "nqn.2014-08.org.nvmexpress:uuid:abc",
          "discovery": false },
        { "cntlid": 2, "subsysnqn": "nqn.2014-08.org.nvmexpress.discovery",
          "hostnqn": "nqn.2014-08.org.nvmexpress:uuid:abc",
          "discovery": true }
    ],
    "threads": [{
        "name": "ioutgt-io0", "tid": 42,
        "ring": { "parks": 90, "sqes": 5000, "send_sqes": 2500,
                  "rw_sq_b1": 30, "rw_sq_b2": 40, "rw_sq_b4": 15,
                  "rw_sq_b8": 5, "rw_sq_b16": 0, "rw_sq_b32": 0,
                  "recv_sqes": 2400, "read_sqes": 60, "write_sqes": 40,
                  "cqes": 5000 },
        "queues": [{ "cntlid": 1, "qid": 1,
            "read_cmds": 3000, "write_cmds": 1000, "flush_cmds": 0,
            "other_cmds": 2, "read_bytes": 12288000,
            "write_bytes": 4096000, "errors": 0 }],
        "retired": { "read_cmds": 0, "write_cmds": 0, "flush_cmds": 0,
            "other_cmds": 0, "read_bytes": 0, "write_bytes": 0, "errors": 0 }
    }]}"#;

fn stat_sample() -> Json {
    value(STAT_SAMPLE)
}

/// The sample with `from`, which occurs in it, replaced by `to`.
fn sample_with(edits: &[(&str, &str)]) -> Json {
    let mut text = STAT_SAMPLE.to_owned();
    for (from, to) in edits {
        assert!(text.contains(from), "{from}");
        text = text.replacen(from, to, 1);
    }
    value(&text)
}

const WR_PLAIN: &str = r#""errors": 0, "wr": {
    "read_posted": 100, "read_done": 90, "read_inflight": 10,
    "write_posted": 0, "write_done": 0, "write_inflight": 0,
    "send_posted": 90, "send_done": 90, "send_inflight": 0,
    "recv_posted": 128, "recv_done": 90, "recv_inflight": 38,
    "poll_batches": 45, "sq_doorbells": 190 } }],"#;

const WR_HISTOGRAMS: &str = r#""errors": 0, "wr": {
    "read_posted": 100, "read_done": 90, "read_inflight": 10,
    "write_posted": 0, "write_done": 0, "write_inflight": 0,
    "send_posted": 90, "send_done": 90, "send_inflight": 0,
    "recv_posted": 128, "recv_done": 90, "recv_inflight": 38,
    "poll_batches": 45, "sq_doorbells": 190,
    "read_db_b1": 60, "read_db_b2": 20, "read_db_b4": 0,
    "read_db_b8": 0, "read_db_b16": 0, "read_db_b32": 0,
    "resp_db_b1": 50, "resp_db_b2": 10, "resp_db_b4": 5,
    "resp_db_b8": 0, "resp_db_b16": 0, "resp_db_b32": 0,
    "recv_db_b1": 40, "recv_db_b2": 25, "recv_db_b4": 0,
    "recv_db_b8": 0, "recv_db_b16": 0, "recv_db_b32": 0,
    "poll_b1": 10, "poll_b2": 15, "poll_b4": 12,
    "poll_b8": 8, "poll_b16": 0, "poll_b32": 0 } }],"#;

#[test]
fn render_stat_shows_wr_row() {
    let data = sample_with(&[("\"errors\": 0 }],", WR_PLAIN)]);
    let out = render(&data, None);
    assert!(out.contains("wr  read 90 if 10"), "{out}");
    assert!(out.contains("recv 90 if 38"), "{out}");
    assert!(out.contains("poll 45"), "{out}");
    // 190 send-queue WRs (read 100 + send 90) over 190 doorbells = 1.0 wr/db.
    assert!(out.contains("db 190 (1.0 wr/db)"), "{out}");
    // No batch histogram keys: no batch row.
    assert!(!out.contains("batch  read/db"), "{out}");
}

#[test]
fn render_stat_shows_batch_histograms() {
    let data = sample_with(&[("\"errors\": 0 }],", WR_HISTOGRAMS)]);
    let out = render(&data, None);
    assert!(
        out.contains("batch  read/db [1:60 2:20 <=4:0 <=8:0 <=16:0 >16:0]"),
        "{out}"
    );
    assert!(out.contains("resp/db [1:50 2:10 <=4:5"), "{out}");
    assert!(out.contains("recv/db [1:40 2:25"), "{out}");
    assert!(out.contains("cqe/poll [1:10 2:15 <=4:12 <=8:8"), "{out}");
}

#[test]
fn render_stat_totals() {
    let out = render(&stat_sample(), None);
    // Controller identity first, so the cntlid rows are readable.
    assert!(
        out.starts_with("controller 1: nqn.2026-06.io.ioutgt:test"),
        "{out}"
    );
    // Backend-IO submission batching row from the ring histogram keys.
    assert!(
        out.contains("backend rw/submit [1:30 2:40 <=4:15 <=8:5 <=16:0 >16:0]"),
        "{out}"
    );
    assert!(
        out.contains("host nqn.2014-08.org.nvmexpress:uuid:abc"),
        "{out}"
    );
    assert!(out.contains("controller 2 (discovery):"), "{out}");
    assert!(out.contains("ioutgt-io0"), "{out}");
    assert!(out.contains("tid 42"), "{out}");
    assert!(out.contains("5000"), "sqes visible: {out}");
    // sqes/park amortization: 5000 / 90 = 55.6.
    assert!(out.contains("sqes/park 55.6"), "amortization: {out}");
    assert!(out.contains("cntlid 1 qid 1"), "{out}");
    assert!(out.contains("read 3000"), "{out}");
}

#[test]
fn render_stat_interval_rates() {
    let prev = stat_sample();
    let next = sample_with(&[
        ("\"read_cmds\": 3000", "\"read_cmds\": 5000"),
        ("\"parks\": 90", "\"parks\": 290"),
    ]);
    // 2000 reads over 2 s: 1000/s; 200 parks over 2 s: 100/s.
    let out = render(&next, Some((&prev, 2.0)));
    assert!(out.contains("read 1000"), "rate visible: {out}");
    assert!(out.contains("parks/s 100"), "park rate visible: {out}");
    // Counters that did not move render as zero rates, not totals.
    assert!(out.contains("write 0"), "{out}");
}

#[test]
fn render_stat_saturates_on_restart() {
    // Target restarted between samples: counters went backwards.
    let prev = stat_sample();
    let next = sample_with(&[("\"read_cmds\": 3000", "\"read_cmds\": 10")]);
    let out = render(&next, Some((&prev, 1.0)));
    assert!(out.contains("read 0"), "saturating delta: {out}");
}

/// The sample after its queue retired with the given lifetime counts.
fn retired_sample(reads: u64, bytes: u64) -> Json {
    let start = STAT_SAMPLE.find("[{ \"cntlid\": 1, \"qid\": 1").unwrap();
    let end = STAT_SAMPLE.find("\"errors\": 0 }],").unwrap() + "\"errors\": 0 }],".len();
    let mut text = String::new();
    text.push_str(&STAT_SAMPLE[..start]);
    text.push_str("[],");
    text.push_str(&STAT_SAMPLE[end..]);
    let text = text
        .replacen("\"read_cmds\": 0", &format!("\"read_cmds\": {reads}"), 1)
        .replacen("\"read_bytes\": 0", &format!("\"read_bytes\": {bytes}"), 1);
    value(&text)
}

#[test]
fn render_stat_retired_rate_is_interval_work_only() {
    // A queue retired between samples: its lifetime counts moved from queues
    // into retired. Only work done in this interval may show as a retired
    // rate, never the re-folded history.
    let prev = stat_sample(); // queue live: 3000 reads, retired 0
    // 3000 historical + 500 new reads folded on teardown.
    let next = retired_sample(3500, 14_336_000);
    let out = render(&next, Some((&prev, 2.0)));
    // (3500 total - 3000 already shown) / 2 s = 250/s, not 1750/s.
    assert!(out.contains("retired"), "{out}");
    assert!(out.contains("read 250"), "interval work only: {out}");

    // No new work at all: no retired row in rate mode.
    let idle = retired_sample(3000, 12_288_000);
    let out = render(&idle, Some((&prev, 2.0)));
    assert!(!out.contains("retired"), "{out}");
}

#[test]
fn render_stat_unresponsive_thread() {
    let v = value(r#"{ "threads": [{ "error": "thread unresponsive" }] }"#);
    let out = render(&v, None);
    assert!(out.contains("unresponsive"), "{out}");
}

#[test]
fn render_stat_skips_retired_when_zero() {
    let out = render(&stat_sample(), None);
    assert!(!out.contains("retired"), "{out}");
    let v = sample_with(&[("\"write_cmds\": 0", "\"write_cmds\": 7")]);
    let out = render(&v, None);
    assert!(out.contains("retired"), "{out}");
}

#[test]
fn replies_are_judged_by_their_ok() {
    assert!(matches!(check_reply(r#"{"ok":true,"data":{"n":1}}"#), Reply::Accepted { .. }));
    assert!(matches!(check_reply(r#"{"ok":false,"error":"x"}"#), Reply::Refused));
    assert!(matches!(check_reply("not json"), Reply::Garbled { .. }));
}

#[test]
fn json_text_is_compact_and_sorted() {
    let v = value(r#"{ "b": [1, -2, true, null, "a\"b\n"], "a": 1.5 }"#);
    assert_eq!(json_text(&v), r#"{"a":1.5,"b":[1,-2,true,null,"a\"b\n"]}"#);
    assert!(parse_json("{").is_err());
}
