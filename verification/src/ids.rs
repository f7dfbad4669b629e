//! Identifier types: session ids, qualified task/object ids, and network
//! addresses standing for workers and clients.

use vstd::prelude::*;

verus! {

/// Sessions are numbered by the server with positive integers.
pub type SessionId = i32;

/// A task identifier, unique within its session.
#[derive(Clone, Copy, PartialEq, Eq, Structural, Debug, Hash)]
pub struct TaskId {
    pub session_id: SessionId,
    pub id: i32,
}

/// A data-object identifier, unique within its session.
#[derive(Clone, Copy, PartialEq, Eq, Structural, Debug, Hash)]
pub struct DataObjectId {
    pub session_id: SessionId,
    pub id: i32,
}

/// A network address: a host (kept as a 32-bit value) and a port.
/// An address whose host part is zero is "unspecified"; as a worker id
/// it stands for the server itself as the source of a data object.
#[derive(Clone, Copy, PartialEq, Eq, Structural, Debug, Hash)]
pub struct Address {
    pub ip: u32,
    pub port: u16,
}

/// Workers are identified by the address their control endpoint announced.
pub type WorkerId = Address;

/// Clients are identified by the remote address of their connection.
pub type ClientId = Address;

impl TaskId {
    pub fn new(session_id: SessionId, id: i32) -> (r: Self)
        ensures
            r == (TaskId { session_id, id }),
    {
        TaskId { session_id, id }
    }
}

impl DataObjectId {
    pub fn new(session_id: SessionId, id: i32) -> (r: Self)
        ensures
            r == (DataObjectId { session_id, id }),
    {
        DataObjectId { session_id, id }
    }
}

impl Address {
    pub fn new(ip: u32, port: u16) -> (r: Self)
        ensures
            r == (Address { ip, port }),
    {
        Address { ip, port }
    }

    /// The sentinel address that names the server itself.
    pub fn server() -> (r: Self)
        ensures
            r == Address::server_spec(),
    {
        Address { ip: 0, port: 0 }
    }

    pub open spec fn server_spec() -> Address {
        Address { ip: 0, port: 0 }
    }

    /// True when the host part leaves the machine unnamed.
    pub fn is_unspecified(&self) -> (r: bool)
        ensures
            r == (self.ip == 0),
    {
        self.ip == 0
    }
}

} // verus!
