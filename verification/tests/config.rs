//! Configuration rules and connection-manager messages.

use ioutgt::cm::{EventType, RdmaTransport};
use ioutgt::cmproto::{reject_status, CmRej, CmRep, CmReq, CM_FMT_1_0};
use ioutgt::config::{
    default_model, default_serial, validate_subsystems, BackendConfig, NamespaceConfig,
    SubsystemConfig,
};

fn subsystem(namespaces: Vec<NamespaceConfig>) -> SubsystemConfig {
    SubsystemConfig {
        nqn: "nqn.2026-06.io.ioutgt:a".into(),
        serial: default_serial(),
        model: default_model(),
        allow_any_host: true,
        allowed_hosts: vec![],
        namespaces,
    }
}

fn mem(nsid: u32, size_mb: u64) -> NamespaceConfig {
    NamespaceConfig {
        nsid,
        backend: BackendConfig::Memory { size_mb },
        uuid: None,
    }
}

fn le16(b: &[u8], off: usize) -> u16 {
    u16::from_le_bytes([b[off], b[off + 1]])
}

#[test]
fn valid_subsystems_pass() {
    validate_subsystems(&[subsystem(vec![mem(1, 64), mem(2, 64)])]).unwrap();
}

#[test]
fn structural_defects_rejected() {
    assert!(
        validate_subsystems(&[])
            .unwrap_err()
            .contains("at least one subsystem")
    );
    assert!(
        validate_subsystems(&[subsystem(vec![mem(1, 1), mem(1, 1)])])
            .unwrap_err()
            .contains("duplicate nsid")
    );
    assert!(
        validate_subsystems(&[subsystem(vec![mem(0, 1)])])
            .unwrap_err()
            .contains("reserved")
    );
    assert!(
        validate_subsystems(&[subsystem(vec![mem(1, 0)])])
            .unwrap_err()
            .contains("size_mb")
    );
    let mut long_nqn = subsystem(vec![mem(1, 1)]);
    long_nqn.nqn = "n".repeat(224);
    assert!(
        validate_subsystems(&[long_nqn])
            .unwrap_err()
            .contains("nqn")
    );
}

#[test]
fn cm_req_parses_little_endian_fields_at_the_right_offsets() {
    let mut data = [0u8; 32];
    data[0..2].copy_from_slice(&CM_FMT_1_0.to_le_bytes()); // recfmt
    data[2..4].copy_from_slice(&3u16.to_le_bytes()); // qid
    data[4..6].copy_from_slice(&128u16.to_le_bytes()); // hrqsize
    data[6..8].copy_from_slice(&127u16.to_le_bytes()); // hsqsize
    data[8..10].copy_from_slice(&0xffffu16.to_le_bytes()); // cntlid
    let req = CmReq::parse(&data).unwrap();
    assert_eq!(req.recfmt, CM_FMT_1_0);
    assert_eq!(req.qid, 3);
    assert_eq!(req.hrqsize, 128);
    assert_eq!(req.hsqsize, 127);
    assert_eq!(req.cntlid, 0xffff);
}

#[test]
fn cm_req_rejects_short_private_data() {
    assert!(CmReq::parse(&[0u8; 16]).is_err());
    assert!(CmReq::parse(&[]).is_err());
}

#[test]
fn cm_req_ignores_trailing_private_data() {
    // A longer buffer (extra vendor bytes) still parses the leading record.
    let mut data = vec![0u8; 64];
    data[2..4].copy_from_slice(&5u16.to_le_bytes());
    assert_eq!(CmReq::parse(&data).unwrap().qid, 5);
}

#[test]
fn cm_rep_encodes_recfmt_and_crqsize() {
    let bytes = CmRep {
        recfmt: CM_FMT_1_0,
        crqsize: 127,
    }
    .to_bytes();
    assert_eq!(bytes.len(), 32);
    assert_eq!(le16(&bytes, 0), CM_FMT_1_0);
    assert_eq!(le16(&bytes, 2), 127);
    assert!(bytes[4..].iter().all(|&b| b == 0));
}

#[test]
fn cm_req_round_trips() {
    let req = CmReq {
        recfmt: CM_FMT_1_0,
        qid: 9,
        hrqsize: 128,
        hsqsize: 127,
        cntlid: 0xabcd,
    };
    let back = CmReq::parse(&req.to_bytes()).unwrap();
    assert_eq!(
        (
            back.recfmt,
            back.qid,
            back.hrqsize,
            back.hsqsize,
            back.cntlid
        ),
        (req.recfmt, req.qid, req.hrqsize, req.hsqsize, req.cntlid)
    );
}

#[test]
fn cm_rep_round_trips() {
    let rep = CmRep {
        recfmt: CM_FMT_1_0,
        crqsize: 127,
    };
    let back = CmRep::parse(&rep.to_bytes()).unwrap();
    assert_eq!((back.recfmt, back.crqsize), (rep.recfmt, rep.crqsize));
    assert!(CmRep::parse(&[0u8; 8]).is_err());
}

#[test]
fn cm_rej_encodes_status() {
    let bytes = CmRej::new(reject_status::INVALID_QID).to_bytes();
    assert_eq!(le16(&bytes, 0), CM_FMT_1_0);
    assert_eq!(le16(&bytes, 2), reject_status::INVALID_QID);
}

#[test]
fn cm_events_by_code() {
    assert_eq!(EventType::from(0), EventType::AddressResolved);
    assert_eq!(EventType::from(4), EventType::ConnectRequest);
    assert_eq!(EventType::from(8), EventType::Rejected);
    assert_eq!(EventType::from(11), EventType::DeviceRemoval);
    assert_eq!(EventType::from(3), EventType::Other(3));
    assert!(EventType::from(5).has_private_data());
    assert!(!EventType::from(9).has_private_data());
}

#[test]
fn rdma_peer_is_named_by_queue() {
    assert_eq!(RdmaTransport::peer(12), "rdma:qid12");
}
