//! Plain values that the parts of the client exchange.

use vstd::prelude::*;

verus! {

/// A tree connect, as the server numbers it.
#[derive(Clone, Copy, Debug, PartialEq, Eq, Structural)]
pub struct TreeId(pub u32);

/// A globally unique identifier.
#[derive(Clone, Copy, Debug, PartialEq, Eq, Structural)]
pub struct Guid(pub u128);

/// An open file or directory on the server.
#[derive(Clone, Copy, Debug, PartialEq, Eq, Structural)]
pub struct FileId {
    pub persistent: u64,
    pub volatile: u64,
}

/// What a CREATE response says about caching.
#[derive(Clone, Copy, Debug, PartialEq, Eq, Structural)]
pub enum OplockLevel {
    NoOplock,
    LevelII,
    Exclusive,
    Batch,
    Lease,
}

/// A connection to a server. Clones of a connection have the same number.
#[derive(Clone, Copy, Debug, PartialEq, Eq, Structural)]
pub struct Connection {
    pub id: u64,
}

/// How a connection stands at the moment.
#[derive(Clone, Copy, Debug)]
pub struct ConnectionState {
    /// The transport is gone.
    pub disconnected: bool,
    /// How often the connection was revived on a new transport.
    pub generation: u64,
    /// The server at the other end, once that is negotiated.
    pub server_guid: Option<Guid>,
}

/// Whether two connections lead to the same server, or both to none so far.
pub fn same_server(a: Option<Guid>, b: Option<Guid>) -> (same: bool)
    ensures
        same == (a == b),
{
    match (a, b) {
        (Some(a), Some(b)) => a == b,
        (None, None) => true,
        _ => false,
    }
}

} // verus!
