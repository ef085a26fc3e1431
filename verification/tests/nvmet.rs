//! Loading of nvmet configuration documents.

use ioutgt::config::BackendConfig;
use ioutgt::nvmet::{parse_config, targets, NvmetTarget};
use ioutgt::subsystem::{parse_uuid, TransportType};

fn from_str(json: &str, trtype: TransportType) -> Result<Vec<NvmetTarget>, String> {
    let config = parse_config(json)?;
    let ip = vec![true; config.ports.len()];
    targets(&config, &ip, trtype)
}

fn listen(t: &NvmetTarget) -> String {
    if t.traddr.contains(':') {
        format!("[{}]:{}", t.traddr, t.trsvcid)
    } else {
        format!("{}:{}", t.traddr, t.trsvcid)
    }
}

/// Parse a document expected to define exactly one `trtype` port.
fn parse(json: &str, trtype: TransportType) -> Result<NvmetTarget, String> {
    from_str(json, trtype).map(|mut targets| {
        assert_eq!(targets.len(), 1, "single-port doc");
        targets.remove(0)
    })
}

/// The message of a document that must not load.
fn fault(json: &str, trtype: TransportType) -> String {
    match from_str(json, trtype) {
        Ok(_) => panic!("loaded"),
        Err(e) => e,
    }
}

/// A one-tcp-port document exporting "nqn.a"; each test supplies only its
/// distinguishing subsystems array.
fn tcp_doc(subsystems: &str) -> String {
    format!(
        r#"{{ "ports": [ {{ "addr": {{ "traddr": "127.0.0.1", "trsvcid": "4420",
                          "trtype": "tcp" }}, "subsystems": [ "nqn.a" ] }} ],
             "subsystems": {subsystems} }}"#
    )
}

/// A full `nvmetcli save`-shaped document: every field the kernel dumps for an
/// rdma port (attr groups, portid, referrals, treq).
const RDMA_EXAMPLE: &str = r#"{
  "hosts": [ { "nqn": "nqn.2014-08.org.nvmexpress:uuid:host-1" } ],
  "ports": [
    {
      "addr": { "adrfam": "ipv4", "traddr": "10.0.0.7",
                "treq": "not specified", "trsvcid": "4420", "trtype": "rdma" },
      "portid": 2, "referrals": [], "subsystems": [ "nqn.2026-06.io.ioutgt:rd" ]
    }
  ],
  "subsystems": [
    {
      "allowed_hosts": [],
      "attr": { "allow_any_host": "1" },
      "namespaces": [
        { "device": { "nguid": "0a651b8c-2d13-44e4-9c7f-5e00d1f0a923",
                      "path": "/dev/nvme9n1" },
          "enable": 1, "nsid": 1 }
      ],
      "nqn": "nqn.2026-06.io.ioutgt:rd"
    }
  ]
}"#;

#[test]
fn nvmetcli_rdma_example_loads() {
    let config = parse(RDMA_EXAMPLE, TransportType::Rdma).unwrap();
    assert_eq!(listen(&config), "10.0.0.7:4420");
    assert_eq!(config.subsystems.len(), 1);
    let subsys = &config.subsystems[0];
    assert_eq!(subsys.nqn, "nqn.2026-06.io.ioutgt:rd");
    assert!(subsys.allow_any_host);
    assert_eq!(subsys.namespaces.len(), 1);
    assert_eq!(subsys.namespaces[0].nsid, 1);
    let BackendConfig::File { path } = &subsys.namespaces[0].backend else {
        panic!("expected file backend");
    };
    assert_eq!(path, "/dev/nvme9n1");
}

#[test]
fn transport_mismatch_rejected() {
    assert!(fault(RDMA_EXAMPLE, TransportType::Tcp).contains("no tcp port"));
}

#[test]
fn acl_and_serial_attrs_map() {
    let config = parse(
        &tcp_doc(
            r#"[ { "nqn": "nqn.a",
               "attr": { "allow_any_host": "0", "serial": "SN123", "model": "Linux" },
               "allowed_hosts": [ "hostnqn" ],
               "namespaces": [ { "nsid": 1, "device": { "path": "/dev/sda" } } ] } ]"#,
        ),
        TransportType::Tcp,
    )
    .unwrap();
    let subsys = &config.subsystems[0];
    assert!(!subsys.allow_any_host);
    assert_eq!(subsys.allowed_hosts, ["hostnqn"]);
    assert_eq!(subsys.serial, "SN123");
    assert_eq!(subsys.model, "Linux");
}

#[test]
fn device_uuid_mapped_nguid_ignored() {
    let config = parse(
        &tcp_doc(
            r#"[ { "nqn": "nqn.a", "attr": { "allow_any_host": "1" },
               "namespaces": [ { "nsid": 1,
                 "device": { "path": "/dev/sda",
                             "uuid": "00112233-4455-6677-8899-aabbccddeeff",
                             "nguid": "5b1e6a44-97f2-40e9-b3d1-0c88a1c0d201" } } ] } ]"#,
        ),
        TransportType::Tcp,
    )
    .unwrap();
    assert_eq!(
        config.subsystems[0].namespaces[0].uuid,
        parse_uuid("00112233-4455-6677-8899-aabbccddeeff"),
    );
    assert_eq!(
        config.subsystems[0].namespaces[0].uuid,
        Some([
            0x00, 0x11, 0x22, 0x33, 0x44, 0x55, 0x66, 0x77, 0x88, 0x99, 0xaa, 0xbb, 0xcc, 0xdd,
            0xee, 0xff
        ]),
    );
}

#[test]
fn disabled_namespace_skipped() {
    let config = parse(
        &tcp_doc(
            r#"[ { "nqn": "nqn.a", "attr": { "allow_any_host": "1" },
               "namespaces": [
                 { "nsid": 1, "device": { "path": "/dev/sda" }, "enable": 0 },
                 { "nsid": 2, "device": { "path": "/dev/sdb" }, "enable": 1 } ] } ]"#,
        ),
        TransportType::Tcp,
    )
    .unwrap();
    let nsids: Vec<u32> = config.subsystems[0]
        .namespaces
        .iter()
        .map(|n| n.nsid)
        .collect();
    assert_eq!(nsids, [2]);
}

#[test]
fn ipv6_traddr_bracketed() {
    let config = parse(
        r#"{ "ports": [ { "addr": { "adrfam": "ipv6", "traddr": "::1",
                          "trsvcid": "4420", "trtype": "tcp" },
                          "subsystems": [ "nqn.a" ] } ],
             "subsystems": [ { "nqn": "nqn.a", "attr": { "allow_any_host": "1" },
               "namespaces": [ { "nsid": 1, "device": { "path": "/dev/sda" } } ] } ] }"#,
        TransportType::Tcp,
    )
    .unwrap();
    assert_eq!(listen(&config), "[::1]:4420");
}

#[test]
fn multiple_ports_yield_one_target_each() {
    // Two tcp ports with disjoint exports and one shared subsystem: each
    // becomes its own target (sorted by portid) carrying only its port's
    // exports; the shared subsystem appears in both.
    let targets = from_str(
        r#"{ "ports": [
               { "addr": { "traddr": "127.0.0.1", "trsvcid": "4421", "trtype": "tcp" },
                 "portid": 2, "subsystems": [ "nqn.b", "nqn.shared" ] },
               { "addr": { "traddr": "127.0.0.1", "trsvcid": "4420", "trtype": "tcp" },
                 "portid": 1, "subsystems": [ "nqn.a", "nqn.shared" ] } ],
             "subsystems": [
               { "nqn": "nqn.a",
                 "namespaces": [ { "nsid": 1, "device": { "path": "/dev/sda" } } ] },
               { "nqn": "nqn.b",
                 "namespaces": [ { "nsid": 1, "device": { "path": "/dev/sdb" } } ] },
               { "nqn": "nqn.shared",
                 "namespaces": [ { "nsid": 1, "device": { "path": "/dev/sdc" } } ] } ] }"#,
        TransportType::Tcp,
    )
    .unwrap();
    assert_eq!(targets.len(), 2);
    assert_eq!(targets[0].portid, 1);
    assert_eq!(listen(&targets[0]), "127.0.0.1:4420");
    let nqns =
        |t: &NvmetTarget| -> Vec<String> { t.subsystems.iter().map(|s| s.nqn.clone()).collect() };
    assert_eq!(nqns(&targets[0]), ["nqn.a", "nqn.shared"]);
    assert_eq!(targets[1].portid, 2);
    assert_eq!(listen(&targets[1]), "127.0.0.1:4421");
    assert_eq!(nqns(&targets[1]), ["nqn.b", "nqn.shared"]);
}

#[test]
fn bad_shapes_rejected() {
    // Two ports for the serving transport with colliding portids: per-port
    // resource names (control socket) need distinct ids.
    assert!(fault(
        r#"{ "ports": [
           { "addr": { "traddr": "127.0.0.1", "trsvcid": "4420", "trtype": "tcp" },
             "portid": 1, "subsystems": [ "nqn.a" ] },
           { "addr": { "traddr": "127.0.0.1", "trsvcid": "4421", "trtype": "tcp" },
             "portid": 1, "subsystems": [ "nqn.a" ] } ],
         "subsystems": [ { "nqn": "nqn.a", "namespaces": [
           { "nsid": 1, "device": { "path": "/dev/sda" } } ] } ] }"#,
        TransportType::Tcp,
    )
    .contains("duplicate tcp portid"));
    // Port symlink to a subsystem the file never defines.
    assert!(fault(
        r#"{ "ports": [ { "addr": { "traddr": "127.0.0.1", "trsvcid": "4420",
                      "trtype": "tcp" }, "subsystems": [ "nqn.ghost" ] } ],
         "subsystems": [] }"#,
        TransportType::Tcp,
    )
    .contains("undefined subsystem"));
    // Enabled namespace without a backing device path.
    assert!(fault(
        &tcp_doc(r#"[ { "nqn": "nqn.a", "namespaces": [ { "nsid": 1 } ] } ]"#),
        TransportType::Tcp,
    )
    .contains("no device path"));
    // Malformed device uuid is a load error, not a silent fallback.
    assert!(fault(
        &tcp_doc(
            r#"[ { "nqn": "nqn.a", "namespaces": [ { "nsid": 1,
               "device": { "path": "/dev/sda", "uuid": "not-a-uuid" } } ] } ]"#,
        ),
        TransportType::Tcp,
    )
    .contains("hyphenated UUID"));
    // Structural validation runs on the loaded model.
    assert!(fault(
        &tcp_doc(
            r#"[ { "nqn": "nqn.a", "namespaces": [
               { "nsid": 1, "device": { "path": "/dev/sda" } },
               { "nsid": 1, "device": { "path": "/dev/sdb" } } ] } ]"#,
        ),
        TransportType::Tcp,
    )
    .contains("duplicate nsid"));
}

#[test]
fn port_address_must_be_an_ip() {
    let config = parse_config(RDMA_EXAMPLE).unwrap();
    assert!(targets(&config, &vec![false], TransportType::Rdma).is_err());
    assert!(targets(&config, &vec![true], TransportType::Rdma).is_ok());
}

#[test]
fn text_that_is_no_document_is_refused() {
    assert!(parse_config("{").is_err());
    assert!(parse_config("[]").is_err());
    assert!(parse_config(r#"{ "ports": 3 }"#).is_err());
}
