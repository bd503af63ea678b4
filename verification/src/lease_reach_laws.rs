//! Which leases an event reaches, and that it leaves the others as they were.

use crate::error::SmbError;
use crate::lease_model::{
    lemma_registered, AckModel, GrantVerdict, LeaseModel, LeaseState, ReceiptState,
};
use crate::types::{Connection, Guid, TreeId};
use vstd::prelude::*;

verus! {

/// The open of this lease is alive, and a break of `key` is about it.
pub open spec fn reachable(m: LeaseModel, lease: u64, key: Seq<u8>) -> bool {
    &&& m.leases.contains_key(lease)
    &&& m.leases[lease].listed
    &&& m.leases[lease].key@ == key
}

/// The server that a connection leads to, if that is known.
pub open spec fn server_behind(m: LeaseModel, connection: Connection) -> Option<Guid> {
    if m.connections.contains_key(connection.id) {
        m.connections[connection.id].server_guid
    } else {
        None
    }
}

/// 44 bytes that start with the number 44.
pub open spec fn says_break(bytes: Seq<u8>) -> bool {
    bytes.len() == 44 && bytes[0] == 44 && bytes[1] == 0
}

/// Registering a lease leaves every lease with another key exactly as it was, and
/// its receipt as good as it was.
pub proof fn law_registering_leaves_other_keys_alone(
    m: LeaseModel,
    key: [u8; 16],
    connection: Connection,
    tree: TreeId,
    other: u64,
)
    requires
        m.well_formed(),
        m.next_lease < u64::MAX,
        m.leases.contains_key(other),
        m.leases[other].key@ != key@,
    ensures
        ({
            let after = m.registered(key, connection, tree);
            &&& after.leases.contains_key(other)
            &&& after.leases[other] == m.leases[other]
            &&& after.connections == m.connections
            &&& after.receipt_valid(other) == m.receipt_valid(other)
        }),
{
}

/// A lease whose key is registered again keeps its receipt; breaks of the key are
/// about the new lease from then on.
pub proof fn law_registering_a_key_again_takes_over_its_breaks(
    m: LeaseModel,
    key: [u8; 16],
    connection: Connection,
    tree: TreeId,
    other: u64,
)
    requires
        m.well_formed(),
        m.next_lease < u64::MAX,
        m.leases.contains_key(other),
        m.leases[other].key@ == key@,
    ensures
        ({
            let after = m.registered(key, connection, tree);
            &&& after.leases.contains_key(other)
            &&& after.leases[other] == (LeaseState { listed: false, ..m.leases[other] })
            &&& after.receipt_valid(other) == m.receipt_valid(other)
        }),
{
}

/// The new lease is the only new one. It is as it was asked for, under the next
/// number, on the connection as it stands now.
pub proof fn law_new_lease_is_as_asked_for(
    m: LeaseModel,
    key: [u8; 16],
    connection: Connection,
    tree: TreeId,
    lease: u64,
)
    requires
        m.well_formed(),
        m.next_lease < u64::MAX,
    ensures
        ({
            let after = m.registered(key, connection, tree);
            let new = after.leases[m.next_lease];
            &&& after.leases.contains_key(lease) <==> m.leases.contains_key(lease) || lease
                == m.next_lease
            &&& after.next_lease == m.next_lease + 1
            &&& new.key == key
            &&& new.state == ReceiptState::Pending
            &&& new.connection == connection
            &&& new.tree == tree
            &&& new.listed
            &&& m.connections.contains_key(connection.id) ==> new.generation
                == m.connections[connection.id].generation
            &&& !m.connections.contains_key(connection.id) ==> new.generation == 0
        }),
{
}

/// Closing an open forgets its lease. Leases with other keys stay exactly as they
/// were, and every other receipt stays as good as it was.
pub proof fn law_releasing_leaves_other_leases_alone(
    m: LeaseModel,
    lease: u64,
    key: Seq<u8>,
    other: u64,
)
    requires
        other != lease,
    ensures
        ({
            let after = m.released(lease, key);
            &&& !after.leases.contains_key(lease)
            &&& after.leases.contains_key(other) == m.leases.contains_key(other)
            &&& m.leases.contains_key(other) && m.leases[other].key@ != key ==> after.leases[other]
                == m.leases[other]
            &&& m.leases.contains_key(other) && m.leases[other].key@ == key ==> after.leases[other]
                == (LeaseState { listed: false, ..m.leases[other] })
            &&& after.receipt_valid(other) == m.receipt_valid(other)
            &&& after.connections == m.connections
            &&& after.next_lease == m.next_lease
        }),
{
}

/// An answer of the server concerns the lease that it answers and changes
/// nothing but how far that has come.
pub proof fn law_answer_concerns_one_lease(
    m: LeaseModel,
    lease: u64,
    verdict: GrantVerdict,
    other: u64,
)
    ensures
        ({
            let after = m.answered(lease, verdict);
            &&& after.leases.contains_key(other) == m.leases.contains_key(other)
            &&& other != lease && m.leases.contains_key(other) ==> after.leases[other]
                == m.leases[other]
            &&& m.leases.contains_key(lease) ==> after.leases[lease] == (LeaseState {
                state: after.leases[lease].state,
                ..m.leases[lease]
            })
            &&& after.connections == m.connections
            &&& after.next_lease == m.next_lease
        }),
{
}

/// A break from the server that a lease lives on, about its key, breaks that
/// receipt and changes nothing else. It is acknowledged if and only if the server
/// asks for that, by the lowest bit of its flags: on the connection and the tree
/// that the lease was asked for on, by its key.
pub proof fn law_break_breaks_exactly_its_lease(
    m: LeaseModel,
    lease: u64,
    bytes: Seq<u8>,
    server: Option<Guid>,
    other: u64,
)
    requires
        m.well_formed(),
        says_break(bytes),
        reachable(m, lease, bytes.subrange(8, 24)),
        server_behind(m, m.leases[lease].connection) == server,
    ensures
        ({
            let after = m.after_break(bytes, server);
            &&& after.leases.contains_key(other) == m.leases.contains_key(other)
            &&& after.leases[lease] == (LeaseState {
                state: ReceiptState::Invalid,
                ..m.leases[lease]
            })
            &&& other != lease && m.leases.contains_key(other) ==> after.leases[other]
                == m.leases[other]
            &&& after.connections == m.connections
            &&& after.next_lease == m.next_lease
            &&& bytes[4] % 2 == 1 ==> m.break_reply(bytes, server) == Ok::<
                Option<AckModel>,
                SmbError,
            >(
                Some(
                    AckModel {
                        connection: m.leases[lease].connection,
                        tree: m.leases[lease].tree,
                        key: m.leases[lease].key@,
                    },
                ),
            )
            &&& bytes[4] % 2 == 0 ==> m.break_reply(bytes, server) == Ok::<
                Option<AckModel>,
                SmbError,
            >(None)
        }),
{
    let key = bytes.subrange(8, 24);
    assert(m.is_listed(lease, key));
    assert(m.listed_lease(key) == Some(lease));
}

/// A break that is about no lease of that server changes nothing, and is not
/// acknowledged.
pub proof fn law_break_of_nothing_does_nothing(m: LeaseModel, bytes: Seq<u8>, server: Option<Guid>)
    requires
        says_break(bytes),
        forall|lease: u64|
            reachable(m, lease, bytes.subrange(8, 24)) ==> server_behind(
                m,
                (#[trigger] m.leases[lease]).connection,
            ) != server,
    ensures
        m.after_break(bytes, server) == m,
        m.break_reply(bytes, server) == Ok::<Option<AckModel>, SmbError>(None),
{
    let key = bytes.subrange(8, 24);
    match m.listed_lease(key) {
        Some(lease) => {
            assert(m.is_listed(lease, key));
            assert(reachable(m, lease, key));
            assert(server_behind(m, m.leases[lease].connection) != server);
        },
        None => {},
    }
}

/// A message that does not say it is a break, or is not as long as one, is an
/// error. It breaks every receipt for that server that a break could reach, and
/// no other. One that is too short to say anything changes nothing.
pub proof fn law_malformed_break_breaks_exactly_its_server(
    m: LeaseModel,
    bytes: Seq<u8>,
    server: Option<Guid>,
    lease: u64,
)
    requires
        !says_break(bytes),
    ensures
        bytes.len() < 2 ==> m.after_break(bytes, server) == m && m.break_reply(bytes, server)
            == Err::<Option<AckModel>, SmbError>(SmbError::Truncated),
        bytes.len() >= 2 ==> {
            let after = m.after_break(bytes, server);
            let hit = m.leases[lease].listed && server_behind(m, m.leases[lease].connection)
                == server;
            &&& m.break_reply(bytes, server) == Err::<Option<AckModel>, SmbError>(
                SmbError::InvalidLeaseBreak,
            )
            &&& after.leases.contains_key(lease) == m.leases.contains_key(lease)
            &&& m.leases.contains_key(lease) && hit ==> after.leases[lease] == (LeaseState {
                state: ReceiptState::Invalid,
                ..m.leases[lease]
            })
            &&& m.leases.contains_key(lease) && !hit ==> after.leases[lease] == m.leases[lease]
            &&& after.connections == m.connections
            &&& after.next_lease == m.next_lease
        },
{
    law_lost_server_breaks_exactly_its_leases(m, server, lease);
}

/// Losing touch with a server breaks exactly the receipts of its leases that a
/// break could reach.
pub proof fn law_lost_server_breaks_exactly_its_leases(
    m: LeaseModel,
    server: Option<Guid>,
    lease: u64,
)
    ensures
        ({
            let after = m.server_invalidated(server);
            &&& after.leases.contains_key(lease) == m.leases.contains_key(lease)
            &&& m.leases.contains_key(lease) && m.leases[lease].listed && server_behind(
                m,
                m.leases[lease].connection,
            ) == server ==> after.leases[lease] == (LeaseState {
                state: ReceiptState::Invalid,
                ..m.leases[lease]
            })
            &&& m.leases.contains_key(lease) && !(m.leases[lease].listed && server_behind(
                m,
                m.leases[lease].connection,
            ) == server) ==> after.leases[lease] == m.leases[lease]
            &&& after.connections == m.connections
            &&& after.next_lease == m.next_lease
        }),
{
}

/// A receipt is good if and only if its lease was granted and not broken since,
/// its open is alive, and its connection is up and has not been revived since.
pub proof fn law_receipt_is_good_only_while_everything_holds(m: LeaseModel, lease: u64)
    ensures
        m.receipt_valid(lease) <==> {
            &&& m.leases.contains_key(lease)
            &&& m.leases[lease].state == ReceiptState::Granted
            &&& m.connections.contains_key(m.leases[lease].connection.id)
            &&& !m.connections[m.leases[lease].connection.id].disconnected
            &&& m.connections[m.leases[lease].connection.id].generation
                == m.leases[lease].generation
        },
{
}

/// One event that neither closes the open of `lease` nor registers or releases
/// its key.
pub open spec fn spares(before: LeaseModel, after: LeaseModel, lease: u64, key: Seq<u8>) -> bool {
    ||| exists|other: [u8; 16], connection: Connection, tree: TreeId|
        other@ != key && before.next_lease < u64::MAX && after == #[trigger] before.registered(
            other,
            connection,
            tree,
        )
    ||| exists|other: u64, its: Seq<u8>|
        other != lease && its != key && after == #[trigger] before.released(other, its)
    ||| exists|other: u64, verdict: GrantVerdict|
        after == #[trigger] before.answered(other, verdict)
    ||| exists|bytes: Seq<u8>, server: Option<Guid>|
        after == #[trigger] before.after_break(bytes, server)
    ||| exists|server: Option<Guid>| after == #[trigger] before.server_invalidated(server)
    ||| after == (LeaseModel { connections: after.connections, ..before })
}

proof fn lemma_spared(before: LeaseModel, after: LeaseModel, lease: u64, key: Seq<u8>)
    requires
        before.well_formed(),
        spares(before, after, lease, key),
        reachable(before, lease, key),
    ensures
        reachable(after, lease, key),
{
    if exists|bytes: Seq<u8>, server: Option<Guid>|
        after == #[trigger] before.after_break(bytes, server) {
        let (bytes, server) = choose|bytes: Seq<u8>, server: Option<Guid>|
            after == #[trigger] before.after_break(bytes, server);
        assert(reachable(before.server_invalidated(server), lease, key));
    }
}

/// Each open lease stays reachable by breaks of its key until its open is closed
/// or its key is registered again, whatever else happens to this and other leases.
pub proof fn law_open_lease_stays_reachable(
    history: Seq<LeaseModel>,
    lease: u64,
    key: Seq<u8>,
    at: int,
)
    requires
        0 <= at < history.len(),
        reachable(history[0], lease, key),
        forall|i: int| 0 <= i < history.len() ==> (#[trigger] history[i]).well_formed(),
        forall|i: int|
            0 < i < history.len() ==> spares(history[i - 1], #[trigger] history[i], lease, key),
    ensures
        reachable(history[at], lease, key),
    decreases at,
{
    if at > 0 {
        law_open_lease_stays_reachable(history, lease, key, at - 1);
        lemma_spared(history[at - 1], history[at], lease, key);
    }
}

/// Two leases on one connection are broken apart: after both were registered, a
/// break of the first key breaks the first lease and spares the second.
pub proof fn law_leases_are_broken_one_by_one(
    m: LeaseModel,
    first: [u8; 16],
    second: [u8; 16],
    connection: Connection,
    tree: TreeId,
    bytes: Seq<u8>,
)
    requires
        m.well_formed(),
        m.next_lease + 1 < u64::MAX,
        first@ != second@,
        says_break(bytes),
        bytes.subrange(8, 24) == first@,
    ensures
        ({
            let one = m.registered(first, connection, tree);
            let two = one.registered(second, connection, tree);
            let after = two.after_break(bytes, server_behind(m, connection));
            &&& after.leases[m.next_lease].state == ReceiptState::Invalid
            &&& after.leases[one.next_lease].state == ReceiptState::Pending
        }),
{
    let one = m.registered(first, connection, tree);
    let two = one.registered(second, connection, tree);
    lemma_registered(m, first, connection, tree);
    lemma_registered(one, second, connection, tree);
    law_registering_leaves_other_keys_alone(one, second, connection, tree, m.next_lease);
    law_break_breaks_exactly_its_lease(
        two,
        m.next_lease,
        bytes,
        server_behind(m, connection),
        one.next_lease,
    );
}

} // verus!
