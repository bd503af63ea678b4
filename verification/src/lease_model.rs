//! What the registry of read leases is, mathematically, and how each event
//! changes it.

use crate::create_context::ContextModel;
use crate::error::SmbError;
use crate::types::{Connection, ConnectionState, Guid, OplockLevel, TreeId};
use vstd::prelude::*;

verus! {

/// How far a receipt has come.
#[derive(Clone, Copy, Debug, PartialEq, Eq, Structural)]
pub enum ReceiptState {
    /// Asked for, not granted yet.
    Pending,
    /// Granted and unbroken.
    Granted,
    /// Broken, refused or closed. Nothing leads out of this state.
    Invalid,
}

/// What the client knows of one lease that it asked for.
#[derive(Clone, Copy, Debug)]
pub struct LeaseState {
    /// The random key under which the server knows the lease.
    pub key: [u8; 16],
    pub state: ReceiptState,
    /// The connection that the lease was asked for on.
    pub connection: Connection,
    /// The generation of that connection at the time.
    pub generation: u64,
    pub tree: TreeId,
    /// A break of this key reaches this lease.
    pub listed: bool,
}

/// The mathematical state of the lease registry.
#[verifier::ext_equal]
pub struct LeaseModel {
    /// The leases of all open files, by number.
    pub leases: Map<u64, LeaseState>,
    /// How each connection stands.
    pub connections: Map<u64, ConnectionState>,
    /// The number that the next lease gets.
    pub next_lease: u64,
}

/// The reply to a lease break: which lease, and where to send it.
#[verifier::ext_equal]
pub struct AckModel {
    pub connection: Connection,
    pub tree: TreeId,
    pub key: Seq<u8>,
}

/// The name of the create context that asks for, and grants, a lease.
pub open spec fn lease_context_name() -> Seq<u8> {
    seq![0x52u8, 0x71u8, 0x4cu8, 0x73u8]
}

/// The lease context of a request: the key, a wish for read caching and nothing
/// else, and reserved zeros.
pub open spec fn lease_request(key: Seq<u8>) -> ContextModel {
    ContextModel {
        name: lease_context_name(),
        data: key + crate::wire::le_bytes(1, 4) + crate::wire::zeros(12),
    }
}

/// What a CREATE response means for a lease.
pub enum GrantVerdict {
    /// Its contexts cannot be read. That says nothing about the lease.
    Unreadable,
    /// The server grants no lease, or another one than was asked for.
    Refused,
    /// The server's grant breaks the format.
    Malformed,
    /// The server grants the lease.
    Granted,
}

/// The lease contexts among those of a response.
pub open spec fn lease_contexts(contexts: Seq<ContextModel>) -> Seq<ContextModel> {
    contexts.filter(|context: ContextModel| context.name == lease_context_name())
}

/// The data of a lease context grants read caching, and only that, on `key`.
pub open spec fn grants_read_caching(data: Seq<u8>, key: Seq<u8>) -> bool {
    &&& data.take(16) == key
    &&& crate::wire::u32_at(data, 16) == 1
    &&& crate::wire::u32_at(data, 20) == 0
}

/// What a CREATE response with this oplock level and these contexts means for
/// the lease on `key`.
pub open spec fn grant_verdict(key: Seq<u8>, level: OplockLevel, bytes: Seq<u8>) -> GrantVerdict {
    match crate::create_context::parsed_contexts(bytes) {
        None => GrantVerdict::Unreadable,
        Some(contexts) => {
            let matching = lease_contexts(contexts);
            if !(level is Lease) || matching.len() == 0 {
                GrantVerdict::Refused
            } else if matching.len() != 1 || matching[0].data.len() != 32 {
                GrantVerdict::Malformed
            } else if grants_read_caching(matching[0].data, key) {
                GrantVerdict::Granted
            } else {
                GrantVerdict::Refused
            }
        },
    }
}

/// The size of a lease break notification.
pub const BREAK_LEN: usize = 44;

/// `bytes` have the size of a lease break notification and say so.
pub open spec fn is_break(bytes: Seq<u8>) -> bool {
    bytes.len() == BREAK_LEN && crate::wire::u16_at(bytes, 0) == BREAK_LEN
}

/// The key that a break notification is about.
pub open spec fn break_key(bytes: Seq<u8>) -> Seq<u8> {
    bytes.subrange(8, 24)
}

/// The server wants the break to be acknowledged.
pub open spec fn wants_ack(bytes: Seq<u8>) -> bool {
    crate::wire::u32_at(bytes, 4) % 2 == 1
}

/// The acknowledgement of a break, which gives up all caching.
pub open spec fn ack_bytes(key: Seq<u8>) -> Seq<u8> {
    crate::wire::le_bytes(36, 2) + crate::wire::zeros(6) + key + crate::wire::zeros(12)
}

/// How a connection stands that nothing is known of.
pub open spec fn unknown_connection() -> ConnectionState {
    ConnectionState { disconnected: true, generation: 0, server_guid: None }
}

impl LeaseModel {
    pub open spec fn connection_state(self, connection: Connection) -> ConnectionState {
        if self.connections.contains_key(connection.id) {
            self.connections[connection.id]
        } else {
            unknown_connection()
        }
    }

    /// The server that the connection of a lease leads to at the moment.
    pub open spec fn server_of(self, lease: LeaseState) -> Option<Guid> {
        self.connection_state(lease.connection).server_guid
    }

    /// The receipt of a lease proves that cached reads are still good.
    pub open spec fn receipt_valid(self, lease: u64) -> bool {
        &&& self.leases.contains_key(lease)
        &&& self.leases[lease].state is Granted
        &&& !self.connection_state(self.leases[lease].connection).disconnected
        &&& self.connection_state(self.leases[lease].connection).generation
            == self.leases[lease].generation
    }

    pub open spec fn with_lease(self, lease: u64, state: LeaseState) -> LeaseModel {
        LeaseModel { leases: self.leases.insert(lease, state), ..self }
    }

    /// The receipt of a lease is no longer good.
    pub open spec fn invalidated(self, lease: u64) -> LeaseModel {
        if self.leases.contains_key(lease) {
            self.with_lease(
                lease,
                (LeaseState { state: ReceiptState::Invalid, ..self.leases[lease] }),
            )
        } else {
            self
        }
    }

    /// The server granted a lease. A receipt that is already broken stays so.
    pub open spec fn granted(self, lease: u64) -> LeaseModel {
        if self.leases.contains_key(lease) && self.leases[lease].state is Pending {
            self.with_lease(
                lease,
                (LeaseState { state: ReceiptState::Granted, ..self.leases[lease] }),
            )
        } else {
            self
        }
    }

    /// A CREATE response has been read.
    pub open spec fn answered(self, lease: u64, verdict: GrantVerdict) -> LeaseModel {
        match verdict {
            GrantVerdict::Unreadable => self,
            GrantVerdict::Refused => self.invalidated(lease),
            GrantVerdict::Malformed => self.invalidated(lease),
            GrantVerdict::Granted => self.granted(lease),
        }
    }

    /// Breaks of `key` reach no lease.
    pub open spec fn unlisted(self, key: Seq<u8>) -> LeaseModel {
        LeaseModel {
            leases: self.leases.map_values(
                |lease: LeaseState|
                    if lease.key@ == key {
                        (LeaseState { listed: false, ..lease })
                    } else {
                        lease
                    },
            ),
            ..self
        }
    }

    /// A lease is asked for. From now on breaks of its key reach it.
    pub open spec fn registered(
        self,
        key: [u8; 16],
        connection: Connection,
        tree: TreeId,
    ) -> LeaseModel {
        LeaseModel {
            next_lease: (self.next_lease + 1) as u64,
            ..self.unlisted(key@).with_lease(
                self.next_lease,
                LeaseState {
                    key,
                    state: ReceiptState::Pending,
                    connection,
                    generation: self.connection_state(connection).generation,
                    tree,
                    listed: true,
                },
            )
        }
    }

    /// The open that a lease belongs to is closed.
    pub open spec fn released(self, lease: u64, key: Seq<u8>) -> LeaseModel {
        LeaseModel { leases: self.unlisted(key).leases.remove(lease), ..self }
    }

    /// No receipt for a file on this server is good any more.
    pub open spec fn server_invalidated(self, server: Option<Guid>) -> LeaseModel {
        LeaseModel {
            leases: self.leases.map_values(
                |lease: LeaseState|
                    if lease.listed && self.server_of(lease) == server {
                        (LeaseState { state: ReceiptState::Invalid, ..lease })
                    } else {
                        lease
                    },
            ),
            ..self
        }
    }

    /// A break of `key` reaches this lease.
    pub open spec fn is_listed(self, lease: u64, key: Seq<u8>) -> bool {
        self.leases.contains_key(lease) && self.leases[lease].listed && self.leases[lease].key@
            == key
    }

    /// The lease that a break of `key` reaches.
    pub open spec fn listed_lease(self, key: Seq<u8>) -> Option<u64> {
        if exists|lease: u64| self.is_listed(lease, key) {
            Some(choose|lease: u64| self.is_listed(lease, key))
        } else {
            None
        }
    }

    /// The lease that a break of `key` by this server breaks.
    pub open spec fn break_target(self, key: Seq<u8>, server: Option<Guid>) -> Option<u64> {
        match self.listed_lease(key) {
            Some(lease) if self.server_of(self.leases[lease]) == server => Some(lease),
            _ => None,
        }
    }

    /// A message that should be a lease break came in from this server.
    pub open spec fn after_break(self, bytes: Seq<u8>, server: Option<Guid>) -> LeaseModel {
        if bytes.len() < 2 {
            self
        } else if !is_break(bytes) {
            self.server_invalidated(server)
        } else {
            match self.break_target(break_key(bytes), server) {
                Some(lease) => self.invalidated(lease),
                None => self,
            }
        }
    }

    /// What the client makes of such a message.
    pub open spec fn break_reply(self, bytes: Seq<u8>, server: Option<Guid>) -> Result<
        Option<AckModel>,
        SmbError,
    > {
        if bytes.len() < 2 {
            Err(SmbError::Truncated)
        } else if !is_break(bytes) {
            Err(SmbError::InvalidLeaseBreak)
        } else {
            match self.break_target(break_key(bytes), server) {
                Some(lease) if wants_ack(bytes) => Ok(
                    Some(
                        AckModel {
                            connection: self.leases[lease].connection,
                            tree: self.leases[lease].tree,
                            key: break_key(bytes),
                        },
                    ),
                ),
                _ => Ok(None),
            }
        }
    }

    /// Numbers are given out in order, and breaks of a key reach one lease.
    pub open spec fn well_formed(self) -> bool {
        &&& forall|lease: u64| #[trigger]
            self.leases.contains_key(lease) ==> lease < self.next_lease
        &&& forall|a: u64, b: u64, key: Seq<u8>| #[trigger]
            self.is_listed(a, key) && #[trigger] self.is_listed(b, key) ==> a == b
    }

    /// `later` can come after `self`: no number is given out twice, a lease
    /// keeps what it was asked for with, and a receipt only moves on.
    pub open spec fn evolves_to(self, later: LeaseModel) -> bool {
        &&& self.next_lease <= later.next_lease
        &&& forall|lease: u64| #[trigger]
            later.leases.contains_key(lease) && lease < self.next_lease
                ==> self.leases.contains_key(lease) && moves_on(
                self.leases[lease],
                later.leases[lease],
            )
    }
}

/// A lease keeps what it was asked for with, and its receipt only moves on.
pub open spec fn moves_on(before: LeaseState, after: LeaseState) -> bool {
    &&& after.key == before.key
    &&& after.connection == before.connection
    &&& after.generation == before.generation
    &&& after.tree == before.tree
    &&& before.state is Invalid ==> after.state is Invalid
    &&& before.state is Granted ==> !(after.state is Pending)
    &&& after.listed ==> before.listed
}

/// Where no lease is new and each one that is left only moved on, the registry
/// stays well formed.
pub proof fn lemma_moved_on(before: LeaseModel, after: LeaseModel)
    requires
        before.well_formed(),
        after.next_lease == before.next_lease,
        forall|lease: u64| #[trigger]
            after.leases.contains_key(lease) ==> before.leases.contains_key(lease) && moves_on(
                before.leases[lease],
                after.leases[lease],
            ),
    ensures
        after.well_formed(),
        before.evolves_to(after),
{
    assert forall|a: u64, b: u64, key: Seq<u8>| #[trigger]
        after.is_listed(a, key) && #[trigger] after.is_listed(b, key) implies a == b by {
        assert(before.is_listed(a, key) && before.is_listed(b, key));
    }
}

/// Asking for a lease keeps the registry well formed.
pub proof fn lemma_registered(
    before: LeaseModel,
    key: [u8; 16],
    connection: Connection,
    tree: TreeId,
)
    requires
        before.well_formed(),
        before.next_lease < u64::MAX,
    ensures
        before.registered(key, connection, tree).well_formed(),
        before.evolves_to(before.registered(key, connection, tree)),
{
    let after = before.registered(key, connection, tree);
    assert forall|a: u64, b: u64, listed: Seq<u8>| #[trigger]
        after.is_listed(a, listed) && #[trigger] after.is_listed(b, listed) implies a == b by {
        if a != before.next_lease {
            assert(before.is_listed(a, listed));
        }
        if b != before.next_lease {
            assert(before.is_listed(b, listed));
        }
    }
}

} // verus!
