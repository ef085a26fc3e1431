//! Connection-management reject status codes, sent in a reject's `sts`.

use vstd::prelude::*;

verus! {

/// Invalid private-data length.
pub const INVALID_LEN: u16 = 0x01;

/// Invalid record format.
pub const INVALID_RECFMT: u16 = 0x02;

/// Invalid queue ID.
pub const INVALID_QID: u16 = 0x03;

/// Invalid host SQ size.
pub const INVALID_HSQSIZE: u16 = 0x04;

/// Invalid host RQ size.
pub const INVALID_HRQSIZE: u16 = 0x05;

/// Resource not found.
pub const NO_RSC: u16 = 0x06;

/// Invalid IRD (initiator read depth).
pub const INVALID_IRD: u16 = 0x07;

/// Invalid ORD (outbound read depth).
pub const INVALID_ORD: u16 = 0x08;

/// Invalid controller ID.
pub const INVALID_CNTLID: u16 = 0x09;

} // verus!
