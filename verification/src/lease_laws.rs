//! What holds of read leases as a whole.

use crate::lease_model::{
    ack_bytes, break_key, grant_verdict, is_break, lease_request, moves_on, wants_ack, AckModel,
    GrantVerdict, LeaseModel,
};
use crate::types::{Connection, ConnectionState, Guid, OplockLevel, TreeId};
use vstd::prelude::*;

verus! {

/// What can come after what can come after `a` can come after `a`.
pub proof fn law_evolution_goes_on(a: LeaseModel, b: LeaseModel, c: LeaseModel)
    requires
        a.evolves_to(b),
        b.evolves_to(c),
    ensures
        a.evolves_to(c),
{
    assert forall|lease: u64| #[trigger]
        c.leases.contains_key(lease) && lease < a.next_lease implies a.leases.contains_key(lease)
        && moves_on(a.leases[lease], c.leases[lease]) by {
        assert(b.leases.contains_key(lease));
    }
}

/// A break is terminal: a receipt that was broken, refused or closed is never
/// good again, whatever happens later.
pub proof fn law_broken_receipt_never_returns(before: LeaseModel, later: LeaseModel, lease: u64)
    requires
        before.evolves_to(later),
        lease < before.next_lease,
        before.leases.contains_key(lease) ==> before.leases[lease].state is Invalid,
    ensures
        !later.receipt_valid(lease),
{
    if later.leases.contains_key(lease) {
        assert(moves_on(before.leases[lease], later.leases[lease]));
    }
}

/// A break of its key reaches a lease from the moment it is asked for, before
/// the server can have answered.
pub proof fn law_lease_can_be_broken_at_once(
    m: LeaseModel,
    key: [u8; 16],
    connection: Connection,
    tree: TreeId,
)
    ensures
        m.registered(key, connection, tree).is_listed(m.next_lease, key@),
        !m.registered(key, connection, tree).receipt_valid(m.next_lease),
{
}

/// A break that reaches a lease breaks its receipt, no matter whether the
/// CREATE response came in before it or comes in after it. Other leases keep
/// their state.
pub proof fn law_break_beats_grant(
    m: LeaseModel,
    lease: u64,
    bytes: Seq<u8>,
    server: Option<Guid>,
    verdict: GrantVerdict,
)
    requires
        m.well_formed(),
        is_break(bytes),
        m.is_listed(lease, break_key(bytes)),
        m.server_of(m.leases[lease]) == server,
    ensures
        !m.after_break(bytes, server).receipt_valid(lease),
        !m.after_break(bytes, server).answered(lease, verdict).receipt_valid(lease),
        forall|other: u64| #[trigger]
            m.leases.contains_key(other) && other != lease ==> m.after_break(
                bytes,
                server,
            ).leases[other] == m.leases[other],
{
    assert(m.listed_lease(break_key(bytes)) == Some(lease));
}

/// The connection on which a break comes in does not matter: the acknowledgement
/// goes out on the connection and the tree that the lease belongs to, and the
/// receipt is broken by then.
pub proof fn law_ack_follows_its_lease(m: LeaseModel, lease: u64, bytes: Seq<u8>, server: Option<
    Guid,
>)
    requires
        m.well_formed(),
        is_break(bytes),
        m.is_listed(lease, break_key(bytes)),
        m.server_of(m.leases[lease]) == server,
    ensures
        m.break_reply(bytes, server) == (if wants_ack(bytes) {
            Ok::<Option<AckModel>, crate::error::SmbError>(
                Some(
                    AckModel {
                        connection: m.leases[lease].connection,
                        tree: m.leases[lease].tree,
                        key: m.leases[lease].key@,
                    },
                ),
            )
        } else {
            Ok(None)
        }),
        !m.after_break(bytes, server).receipt_valid(lease),
{
    assert(m.listed_lease(break_key(bytes)) == Some(lease));
}

/// A message of the wrong size fails closed: no receipt for that server that a
/// break could have reached is good afterwards.
pub proof fn law_malformed_break_fails_closed(
    m: LeaseModel,
    lease: u64,
    bytes: Seq<u8>,
    server: Option<Guid>,
)
    requires
        bytes.len() >= 2,
        !is_break(bytes),
        m.leases.contains_key(lease),
        m.leases[lease].listed,
        m.server_of(m.leases[lease]) == server,
    ensures
        !m.after_break(bytes, server).receipt_valid(lease),
{
}

/// What one server does, or fails to do, leaves the leases of other servers
/// alone.
pub proof fn law_servers_are_apart(
    m: LeaseModel,
    lease: u64,
    bytes: Seq<u8>,
    server: Option<Guid>,
)
    requires
        m.well_formed(),
        m.leases.contains_key(lease),
        m.server_of(m.leases[lease]) != server,
    ensures
        m.server_invalidated(server).leases[lease] == m.leases[lease],
        m.after_break(bytes, server).leases[lease] == m.leases[lease],
{
    if is_break(bytes) {
        match m.break_target(break_key(bytes), server) {
            Some(target) => {
                assert(m.is_listed(target, break_key(bytes)));
            },
            None => {},
        }
    }
}

/// Closing the open invalidates every clone of its receipt.
pub proof fn law_release_invalidates_receipts(m: LeaseModel, lease: u64, key: Seq<u8>)
    ensures
        !m.released(lease, key).receipt_valid(lease),
{
}

/// Losing the transport, or reviving the connection on a new one, invalidates
/// the receipts that were granted on it.
pub proof fn law_receipt_needs_its_connection(
    m: LeaseModel,
    lease: u64,
    connection: Connection,
    state: ConnectionState,
)
    requires
        m.leases.contains_key(lease),
        m.leases[lease].connection == connection,
        state.disconnected || state.generation != m.leases[lease].generation,
    ensures
        !(LeaseModel {
            connections: m.connections.insert(connection.id, state),
            ..m
        }).receipt_valid(lease),
{
}

/// A server that sends back the lease context of the request grants the lease.
pub proof fn law_echoed_request_is_a_grant(key: Seq<u8>)
    requires
        key.len() == 16,
    ensures
        grant_verdict(
            key,
            OplockLevel::Lease,
            crate::create_context::packed_contexts(seq![lease_request(key)]),
        ) is Granted,
{
    let request = lease_request(key);
    let contexts = seq![request];
    crate::wire::lemma_le_u32(1);
    crate::create_context::lemma_packed_contexts_parse(contexts);
    reveal(Seq::filter);
    assert(contexts.drop_last() =~= Seq::empty());
    assert(crate::lease_model::lease_contexts(contexts) =~= contexts);
    let data = request.data;
    assert(data.take(16) =~= key);
    assert(data.subrange(16, 20) =~= crate::wire::le_bytes(1, 4));
    crate::wire::lemma_u16_at_part(data, data.subrange(16, 20), 16, 0);
    crate::wire::lemma_u16_at_part(data, data.subrange(16, 20), 16, 2);
}

/// A lease that is granted before any break has a good receipt for as long as
/// its connection lives on.
pub proof fn law_granted_lease_is_valid(m: LeaseModel, lease: u64)
    requires
        m.leases.contains_key(lease),
        m.leases[lease].state is Pending,
        !m.connection_state(m.leases[lease].connection).disconnected,
        m.connection_state(m.leases[lease].connection).generation == m.leases[lease].generation,
    ensures
        m.answered(lease, GrantVerdict::Granted).receipt_valid(lease),
{
}

/// The acknowledgement is 36 bytes long, names the lease, and asks to keep
/// nothing.
pub proof fn law_ack_relinquishes_everything(key: Seq<u8>)
    requires
        key.len() == 16,
    ensures
        ack_bytes(key).len() == 36,
        crate::wire::u16_at(ack_bytes(key), 0) == 36,
        ack_bytes(key).subrange(8, 24) == key,
        ack_bytes(key).skip(24) == crate::wire::zeros(12),
{
    crate::wire::lemma_le_u16(36);
    assert(ack_bytes(key).subrange(0, 2) =~= crate::wire::le_bytes(36, 2));
    crate::wire::lemma_u16_at_part(ack_bytes(key), crate::wire::le_bytes(36, 2), 0, 0);
    assert(ack_bytes(key).subrange(8, 24) =~= key);
    assert(ack_bytes(key).skip(24) =~= crate::wire::zeros(12));
}

} // verus!
