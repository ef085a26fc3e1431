//! Connection-manager events.

use vstd::prelude::*;

use crate::subsystem::TransportType;

verus! {

/// Event codes of the connection manager.
pub const EVENT_ADDR_RESOLVED: u32 = 0;
pub const EVENT_ADDR_ERROR: u32 = 1;
pub const EVENT_ROUTE_RESOLVED: u32 = 2;
pub const EVENT_CONNECT_REQUEST: u32 = 4;
pub const EVENT_CONNECT_RESPONSE: u32 = 5;
pub const EVENT_REJECTED: u32 = 8;
pub const EVENT_ESTABLISHED: u32 = 9;
pub const EVENT_DISCONNECTED: u32 = 10;
pub const EVENT_DEVICE_REMOVAL: u32 = 11;

/// The events a target handles; everything else is `Other`.
#[derive(Debug, Clone, Copy, PartialEq, Eq, Structural)]
pub enum EventType {
    AddressResolved,
    AddressError,
    RouteResolved,
    ConnectRequest,
    ConnectResponse,
    Rejected,
    Established,
    Disconnected,
    DeviceRemoval,
    Other(u32),
}

/// The event of code `v`.
pub open spec fn event_of(v: u32) -> EventType {
    if v == EVENT_ADDR_RESOLVED {
        EventType::AddressResolved
    } else if v == EVENT_ADDR_ERROR {
        EventType::AddressError
    } else if v == EVENT_ROUTE_RESOLVED {
        EventType::RouteResolved
    } else if v == EVENT_CONNECT_REQUEST {
        EventType::ConnectRequest
    } else if v == EVENT_CONNECT_RESPONSE {
        EventType::ConnectResponse
    } else if v == EVENT_REJECTED {
        EventType::Rejected
    } else if v == EVENT_ESTABLISHED {
        EventType::Established
    } else if v == EVENT_DISCONNECTED {
        EventType::Disconnected
    } else if v == EVENT_DEVICE_REMOVAL {
        EventType::DeviceRemoval
    } else {
        EventType::Other(v)
    }
}

impl vstd::std_specs::convert::FromSpecImpl<u32> for EventType {
    open spec fn obeys_from_spec() -> bool {
        true
    }

    open spec fn from_spec(v: u32) -> EventType {
        event_of(v)
    }
}

impl From<u32> for EventType {
    fn from(v: u32) -> (e: EventType) {
        if v == EVENT_ADDR_RESOLVED {
            EventType::AddressResolved
        } else if v == EVENT_ADDR_ERROR {
            EventType::AddressError
        } else if v == EVENT_ROUTE_RESOLVED {
            EventType::RouteResolved
        } else if v == EVENT_CONNECT_REQUEST {
            EventType::ConnectRequest
        } else if v == EVENT_CONNECT_RESPONSE {
            EventType::ConnectResponse
        } else if v == EVENT_REJECTED {
            EventType::Rejected
        } else if v == EVENT_ESTABLISHED {
            EventType::Established
        } else if v == EVENT_DISCONNECTED {
            EventType::Disconnected
        } else if v == EVENT_DEVICE_REMOVAL {
            EventType::DeviceRemoval
        } else {
            EventType::Other(v)
        }
    }
}

/// Different codes are different events.
pub proof fn events_distinct(a: u32, b: u32)
    requires
        a != b,
    ensures
        event_of(a) != event_of(b),
{
}

/// The connection manager's codes: what each number tells of.
pub proof fn codes_are_understood(v: u32)
    ensures
        event_of(v) is AddressResolved == (v == 0),
        event_of(v) is AddressError == (v == 1),
        event_of(v) is RouteResolved == (v == 2),
        event_of(v) is ConnectRequest == (v == 4),
        event_of(v) is ConnectResponse == (v == 5),
        event_of(v) is Rejected == (v == 8),
        event_of(v) is Established == (v == 9),
        event_of(v) is Disconnected == (v == 10),
        event_of(v) is DeviceRemoval == (v == 11),
        event_of(v) matches EventType::Other(w) ==> w == v,
{
}

impl EventType {
    /// Only connection requests and responses carry the peer's private data.
    pub fn has_private_data(&self) -> (b: bool)
        ensures
            b == (*self is ConnectRequest || *self is ConnectResponse),
    {
        match self {
            EventType::ConnectRequest => true,
            EventType::ConnectResponse => true,
            _ => false,
        }
    }
}

/// The RDMA transport, as the rest of the target names it.
pub struct RdmaTransport;

impl RdmaTransport {
    /// The transport type of its ports.
    pub fn trtype() -> (t: TransportType)
        ensures
            t is Rdma,
    {
        TransportType::Rdma
    }

    /// A connection's peer, by its queue.
    pub fn peer(qid: u16) -> (s: String)
        ensures
            s@ == "rdma:qid"@ + crate::text::dec(qid as nat),
    {
        crate::rdma::conn::peer_name(qid)
    }
}

} // verus!
