//! Verified engine of an NVMe over Fabrics target.

pub mod admin;
pub mod client;
pub mod cm;
pub mod cmproto;
pub mod command;
pub mod config;
pub mod control;
pub mod cpus;
pub mod digest;
pub mod file;
pub mod harness;
pub mod json;
pub mod nvme;
pub mod nvmet;
pub mod pdu;
pub mod pool;
pub mod port;
pub mod queue;
pub mod rdma;
pub mod registry;
pub mod sgl;
pub mod slotq;
pub mod stat;
pub mod subsystem;
pub mod tcp;
pub mod text;
pub mod wire;
pub mod wrstats;
