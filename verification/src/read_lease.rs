//! Read-cache continuity for an open file.
//!
//! A receipt is useful only while its original open and connection survive. A
//! break is terminal, including a break that races the CREATE response. Leases
//! are not reclaimed, and timestamps are not taken for content versions.

use crate::create_context::{pack_contexts, parse_contexts, ContextModel, CreateContext};
use crate::error::SmbError;
use crate::lease_model::{AckModel, GrantVerdict, LeaseModel, LeaseState, ReceiptState, BREAK_LEN};
use crate::types::{same_server, Connection, ConnectionState, Guid, OplockLevel, TreeId};
use crate::wire::{read_u16, read_u32, write_bytes, write_le, write_zeros};
use std::collections::HashMap;
use vstd::prelude::*;

verus! {

broadcast use vstd::std_specs::hash::group_hash_axioms;

/// `getrandom::Error`, carried as an opaque value.
#[verifier::external_type_specification]
#[verifier::external_body]
pub struct ExRandomError(getrandom::Error);

/// Calls `getrandom::fill` on a fresh key. Nothing is claimed of the bytes, nor
/// of whether the system has any to give.
#[verifier::external_body]
fn random_key() -> (key: Result<[u8; 16], getrandom::Error>) {
    let mut key = [0u8; 16];
    getrandom::fill(&mut key).map(|()| key)
}

/// Every lease that an open file of this client holds. All connections share
/// one registry: a server may send a break on any of them.
pub struct LeaseRegistry {
    leases: HashMap<u64, LeaseState>,
    connections: HashMap<u64, ConnectionState>,
    next_lease: u64,
}

impl View for LeaseRegistry {
    type V = LeaseModel;

    closed spec fn view(&self) -> LeaseModel {
        LeaseModel {
            leases: self.leases@,
            connections: self.connections@,
            next_lease: self.next_lease,
        }
    }
}

/// Whether two keys are the same.
fn same_key(a: &[u8; 16], b: &[u8; 16]) -> (same: bool)
    ensures
        same == (a@ == b@),
{
    let mut i: usize = 0;
    while i < 16
        invariant
            i <= 16,
            forall|j: int| 0 <= j < i ==> a@[j] == b@[j],
        decreases 16 - i,
    {
        if a[i] != b[i] {
            return false;
        }
        i = i + 1;
    }
    assert(a@ =~= b@);
    true
}

/// The key that stands at `at`.
fn key_at(bytes: &[u8], at: usize) -> (key: [u8; 16])
    requires
        at + 16 <= bytes@.len(),
    ensures
        key@ == bytes@.subrange(at as int, at + 16),
{
    assert(bytes@.len() == bytes.len());
    let mut key: [u8; 16] = [0u8; 16];
    let mut i: usize = 0;
    while i < 16
        invariant
            i <= 16,
            at + 16 <= bytes@.len() <= usize::MAX,
            forall|j: int| 0 <= j < i ==> key@[j] == bytes@[at + j],
        decreases 16 - i,
    {
        key[i] = bytes[at + i];
        i = i + 1;
    }
    assert(key@ =~= bytes@.subrange(at as int, at + 16));
    key
}

impl LeaseRegistry {
    /// A registry without leases.
    pub fn new() -> (registry: Self)
        ensures
            registry@ == (LeaseModel {
                leases: Map::empty(),
                connections: Map::empty(),
                next_lease: 0,
            }),
            registry@.well_formed(),
    {
        LeaseRegistry { leases: HashMap::new(), connections: HashMap::new(), next_lease: 0 }
    }

    /// Takes note of how a connection stands.
    pub fn update_connection(&mut self, connection: Connection, state: ConnectionState)
        requires
            old(self)@.well_formed(),
        ensures
            final(self)@ == (LeaseModel {
                connections: old(self)@.connections.insert(connection.id, state),
                ..old(self)@
            }),
            final(self)@.well_formed(),
            old(self)@.evolves_to(final(self)@),
    {
        self.connections.insert(connection.id, state);
        proof {
            crate::lease_model::lemma_moved_on(old(self)@, self@);
        }
    }

    /// A connection is gone for good.
    pub fn forget_connection(&mut self, connection: Connection)
        requires
            old(self)@.well_formed(),
        ensures
            final(self)@ == (LeaseModel {
                connections: old(self)@.connections.remove(connection.id),
                ..old(self)@
            }),
            final(self)@.well_formed(),
            old(self)@.evolves_to(final(self)@),
    {
        self.connections.remove(&connection.id);
        proof {
            crate::lease_model::lemma_moved_on(old(self)@, self@);
        }
    }

    fn connection_state(&self, connection: Connection) -> (state: ConnectionState)
        ensures
            state == self@.connection_state(connection),
    {
        match self.connections.get(&connection.id) {
            Some(state) => *state,
            None => ConnectionState { disconnected: true, generation: 0, server_guid: None },
        }
    }

    /// The numbers of all leases.
    fn lease_numbers(&self) -> (numbers: Vec<u64>)
        ensures
            forall|lease: u64| #[trigger]
                self@.leases.contains_key(lease) <==> numbers@.contains(lease),
    {
        let mut numbers: Vec<u64> = Vec::new();
        let keys = self.leases.keys();
        let ghost all = vstd::std_specs::iter::IteratorSpec::remaining(&keys).unref();
        for number in iter: keys
            invariant
                iter.seq().unref() == all,
                numbers@ == all.take(iter.index()),
        {
            numbers.push(*number);
        }
        proof {
            assert(numbers@ =~= all);
            assert(all.to_set() == self@.leases.dom());
            assert forall|lease: u64| #[trigger]
                self@.leases.contains_key(lease) <==> numbers@.contains(lease) by {
                assert(all.to_set().contains(lease) <==> all.contains(lease));
            }
        }
        numbers
    }

    /// The lease that a break of `key` reaches.
    fn find_listed(&self, key: &[u8; 16]) -> (found: Option<u64>)
        requires
            self@.well_formed(),
        ensures
            found == self@.listed_lease(key@),
    {
        let numbers = self.lease_numbers();
        let mut i: usize = 0;
        while i < numbers.len()
            invariant
                self@.well_formed(),
                i <= numbers@.len(),
                forall|lease: u64| #[trigger]
                    self@.leases.contains_key(lease) <==> numbers@.contains(lease),
                forall|j: int| 0 <= j < i ==> !self@.is_listed(#[trigger] numbers@[j], key@),
            decreases numbers@.len() - i,
        {
            let number: u64 = numbers[i];
            match self.leases.get(&number) {
                Some(lease) => {
                    if lease.listed && same_key(&lease.key, key) {
                        proof {
                            assert(self@.is_listed(number, key@));
                        }
                        return Some(number);
                    }
                },
                None => {},
            }
            i = i + 1;
        }
        proof {
            assert forall|lease: u64| !self@.is_listed(lease, key@) by {
                if self@.is_listed(lease, key@) {
                    assert(numbers@.contains(lease));
                    let j = choose|j: int| 0 <= j < numbers@.len() && numbers@[j] == lease;
                    assert(!self@.is_listed(numbers@[j], key@));
                }
            }
        }
        None
    }

    /// Breaks of `key` no longer reach a lease.
    fn unlist(&mut self, key: &[u8; 16])
        requires
            old(self)@.well_formed(),
        ensures
            final(self)@ == old(self)@.unlisted(key@),
            final(self)@.well_formed(),
            old(self)@.evolves_to(final(self)@),
    {
        let found = self.find_listed(key);
        match found {
            Some(number) => {
                match self.leases.get(&number) {
                    Some(lease) => {
                        let mut lease: LeaseState = *lease;
                        lease.listed = false;
                        self.leases.insert(number, lease);
                    },
                    None => {},
                }
            },
            None => {},
        }
        proof {
            let before = old(self)@;
            let after = before.unlisted(key@);
            assert forall|lease: u64| #[trigger]
                before.leases.contains_key(lease) implies self@.leases[lease]
                == after.leases[lease] by {
                if before.is_listed(lease, key@) {
                    assert(found == Some(lease));
                }
            }
            assert(self@.leases =~= after.leases);
            crate::lease_model::lemma_moved_on(before, self@);
        }
    }

    /// The server granted a lease. A receipt that is already broken stays so.
    fn confirm(&mut self, number: u64)
        requires
            old(self)@.well_formed(),
        ensures
            final(self)@ == old(self)@.granted(number),
            final(self)@.well_formed(),
            old(self)@.evolves_to(final(self)@),
    {
        match self.leases.get(&number) {
            Some(lease) => {
                if lease.state == ReceiptState::Pending {
                    let mut lease: LeaseState = *lease;
                    lease.state = ReceiptState::Granted;
                    self.leases.insert(number, lease);
                }
            },
            None => {},
        }
        proof {
            crate::lease_model::lemma_moved_on(old(self)@, self@);
        }
    }

    /// The receipt of a lease is no longer good.
    fn invalidate(&mut self, number: u64)
        requires
            old(self)@.well_formed(),
        ensures
            final(self)@ == old(self)@.invalidated(number),
            final(self)@.well_formed(),
            old(self)@.evolves_to(final(self)@),
    {
        match self.leases.get(&number) {
            Some(lease) => {
                let mut lease: LeaseState = *lease;
                lease.state = ReceiptState::Invalid;
                self.leases.insert(number, lease);
            },
            None => {},
        }
        proof {
            crate::lease_model::lemma_moved_on(old(self)@, self@);
        }
    }
}

/// How many of these contexts grant a lease, and where the first of them
/// stands.
fn find_lease_contexts(contexts: &Vec<CreateContext>) -> (found: (usize, usize))
    ensures
        ({
            let matching = crate::lease_model::lease_contexts(
                crate::create_context::context_models(contexts@),
            );
            &&& found.0 == matching.len()
            &&& found.0 > 0 ==> found.1 < contexts@.len() && contexts@[found.1 as int]@
                == matching[0]
        }),
{
    let ghost models = crate::create_context::context_models(contexts@);
    let ghost named = |context: ContextModel|
        context.name == crate::lease_model::lease_context_name();
    let mut count: usize = 0;
    let mut first: usize = 0;
    let mut i: usize = 0;
    while i < contexts.len()
        invariant
            i <= contexts@.len(),
            models == crate::create_context::context_models(contexts@),
            named == (|context: ContextModel|
                context.name == crate::lease_model::lease_context_name()),
            count <= i,
            count == models.take(i as int).filter(named).len(),
            count > 0 ==> first < i && contexts@[first as int]@ == models.take(i as int).filter(
                named,
            )[0],
        decreases contexts@.len() - i,
    {
        proof {
            reveal(Seq::filter);
            assert(models.take(i + 1).drop_last() =~= models.take(i as int));
            assert(models.take(i + 1).last() == contexts@[i as int]@);
        }
        if is_lease_name(&contexts[i].name) {
            if count == 0 {
                first = i;
            }
            count = count + 1;
        }
        i = i + 1;
    }
    proof {
        assert(models.take(i as int) =~= models);
        assert(crate::lease_model::lease_contexts(models) == models.filter(named));
    }
    (count, first)
}

/// Whether this is the name of a lease context.
fn is_lease_name(name: &Vec<u8>) -> (is: bool)
    ensures
        is == (name@ == crate::lease_model::lease_context_name()),
{
    let is = name.len() == 4 && name[0] == 0x52 && name[1] == 0x71 && name[2] == 0x4c && name[3]
        == 0x73;
    proof {
        if is {
            assert(name@ =~= crate::lease_model::lease_context_name());
        }
    }
    is
}

/// An unforgeable, process-local receipt for an uninterrupted read lease. It
/// proves cache continuity, not namespace identity or application consistency.
#[derive(Clone, Copy)]
pub struct ReadLeaseProof {
    lease: u64,
    key: [u8; 16],
}

impl ReadLeaseProof {
    /// The number of the lease that this receipt is for.
    pub closed spec fn lease(&self) -> u64 {
        self.lease
    }

    /// The key of the lease that this receipt is for.
    pub closed spec fn key(&self) -> [u8; 16] {
        self.key
    }

    /// Opaque receipt identifier. Persisting it does not persist its validity.
    pub fn token(&self) -> (token: [u8; 16])
        ensures
            token == self.key(),
    {
        self.key
    }

    /// False after any break, close, transport loss, or connection revival.
    pub fn is_valid(&self, registry: &LeaseRegistry) -> (valid: bool)
        ensures
            valid == registry@.receipt_valid(self.lease()),
    {
        match registry.leases.get(&self.lease) {
            Some(lease) => {
                let state = registry.connection_state(lease.connection);
                lease.state == ReceiptState::Granted && !state.disconnected && state.generation
                    == lease.generation
            },
            None => false,
        }
    }
}

/// Owned by the open, never by a cached receipt. Releasing it invalidates the
/// receipts.
pub struct ReadLeaseRegistration {
    receipt: ReadLeaseProof,
}

impl ReadLeaseRegistration {
    /// The receipt that the open holds.
    pub closed spec fn receipt(&self) -> ReadLeaseProof {
        self.receipt
    }

    /// Asks for a lease under a fresh random key.
    pub fn new(registry: &mut LeaseRegistry, connection: Connection, tree: TreeId) -> (registration:
        Result<Self, SmbError>)
        requires
            old(registry)@.well_formed(),
        ensures
            match registration {
                Ok(registration) => {
                    &&& old(registry)@.next_lease < u64::MAX
                    &&& registration.receipt().lease() == old(registry)@.next_lease
                    &&& final(registry)@ == old(registry)@.registered(
                        registration.receipt().key(),
                        connection,
                        tree,
                    )
                },
                Err(error) => {
                    &&& final(registry)@ == old(registry)@
                    &&& error == SmbError::LeaseKeyUnavailable || (error
                        == SmbError::LeaseNumbersExhausted && old(registry)@.next_lease == u64::MAX)
                },
            },
            final(registry)@.well_formed(),
            old(registry)@.evolves_to(final(registry)@),
    {
        match random_key() {
            Ok(key) => Self::with_key(registry, connection, tree, key),
            Err(_) => {
                proof {
                    crate::lease_model::lemma_moved_on(old(registry)@, registry@);
                }
                Err(SmbError::LeaseKeyUnavailable)
            },
        }
    }

    /// Asks for a lease under a given key. Only when every lease number has
    /// been used is there none.
    pub fn with_key(
        registry: &mut LeaseRegistry,
        connection: Connection,
        tree: TreeId,
        key: [u8; 16],
    ) -> (registration: Result<Self, SmbError>)
        requires
            old(registry)@.well_formed(),
        ensures
            if old(registry)@.next_lease < u64::MAX {
                &&& registration matches Ok(registration)
                &&& registration.receipt().lease() == old(registry)@.next_lease
                &&& registration.receipt().key() == key
                &&& final(registry)@ == old(registry)@.registered(key, connection, tree)
            } else {
                &&& registration == Err::<Self, SmbError>(SmbError::LeaseNumbersExhausted)
                &&& final(registry)@ == old(registry)@
            },
            forall|other: u64| #[trigger]
                old(registry)@.leases.contains_key(other) && old(registry)@.leases[other].key@
                    != key@ ==> final(registry)@.leases.contains_key(other)
                    && final(registry)@.leases[other] == old(registry)@.leases[other],
            final(registry)@.well_formed(),
            old(registry)@.evolves_to(final(registry)@),
    {
        if registry.next_lease == u64::MAX {
            proof {
                crate::lease_model::lemma_moved_on(old(registry)@, registry@);
            }
            return Err(SmbError::LeaseNumbersExhausted);
        }
        let number: u64 = registry.next_lease;
        let generation: u64 = registry.connection_state(connection).generation;
        registry.unlist(&key);
        registry.leases.insert(
            number,
            LeaseState {
                key,
                state: ReceiptState::Pending,
                connection,
                generation,
                tree,
                listed: true,
            },
        );
        registry.next_lease = number + 1;
        proof {
            crate::lease_model::lemma_registered(old(registry)@, key, connection, tree);
            assert(registry@ =~= old(registry)@.registered(key, connection, tree));
        }
        Ok(ReadLeaseRegistration { receipt: ReadLeaseProof { lease: number, key } })
    }

    /// The create contexts that ask the server for this lease.
    pub fn context(&self) -> (bytes: Vec<u8>)
        ensures
            bytes@ == crate::create_context::packed_contexts(
                seq![crate::lease_model::lease_request(self.receipt().key()@)],
            ),
            crate::create_context::parsed_contexts(bytes@) == Some(
                seq![crate::lease_model::lease_request(self.receipt().key()@)],
            ),
    {
        let mut name: Vec<u8> = Vec::new();
        name.push(0x52);
        name.push(0x71);
        name.push(0x4c);
        name.push(0x73);
        let mut data: Vec<u8> = Vec::new();
        write_bytes(&mut data, self.receipt.key.as_slice());
        write_le(&mut data, 1, 4);
        write_zeros(&mut data, 12);
        let mut contexts: Vec<CreateContext> = Vec::new();
        contexts.push(CreateContext { name, data });
        proof {
            let request = crate::lease_model::lease_request(self.receipt.key@);
            crate::wire::lemma_le_bytes_len(1, 4);
            assert(contexts@[0]@ =~= request);
            assert(crate::create_context::context_models(contexts@) =~= seq![request]);
        }
        pack_contexts(contexts.as_slice())
    }

    /// Reads the CREATE response: its oplock level and its create contexts. The
    /// lease is good only if the server granted exactly what was asked for and
    /// no break came first.
    pub fn grant(&self, registry: &mut LeaseRegistry, level: OplockLevel, bytes: &[u8]) -> (outcome:
        Result<(), SmbError>)
        requires
            old(registry)@.well_formed(),
        ensures
            ({
                let verdict = crate::lease_model::grant_verdict(
                    self.receipt().key()@,
                    level,
                    bytes@,
                );
                &&& outcome == (match verdict {
                    GrantVerdict::Unreadable => Err::<(), SmbError>(
                        SmbError::InvalidCreateContexts,
                    ),
                    GrantVerdict::Malformed => Err(SmbError::InvalidLeaseGrant),
                    GrantVerdict::Refused => Ok(()),
                    GrantVerdict::Granted => Ok(()),
                })
                &&& final(registry)@ == old(registry)@.answered(self.receipt().lease(), verdict)
            }),
            ({
                let lease = self.receipt().lease();
                let exact = crate::lease_grant_laws::is_exact_grant(
                    self.receipt().key()@,
                    level,
                    bytes@,
                );
                &&& final(registry)@.receipt_valid(lease) && !old(registry)@.receipt_valid(lease)
                    ==> exact
                &&& crate::create_context::parsed_contexts(bytes@) is Some && !exact
                    ==> !(final(registry)@.receipt_valid(lease))
            }),
            final(registry)@.well_formed(),
            old(registry)@.evolves_to(final(registry)@),
    {
        proof {
            crate::lease_model::lemma_moved_on(old(registry)@, old(registry)@);
            crate::lease_grant_laws::law_only_an_exact_grant_grants(
                self.receipt.key@,
                level,
                bytes@,
            );
        }
        let contexts = match parse_contexts(bytes) {
            Ok(contexts) => contexts,
            Err(error) => {
                return Err(error);
            },
        };
        let (count, first) = find_lease_contexts(&contexts);
        if level != OplockLevel::Lease || count == 0 {
            registry.invalidate(self.receipt.lease);
            return Ok(());
        }
        if count != 1 || contexts[first].data.len() != 32 {
            registry.invalidate(self.receipt.lease);
            return Err(SmbError::InvalidLeaseGrant);
        }
        let data = contexts[first].data.as_slice();
        let key = key_at(data, 0);
        let state: u32 = read_u32(data, 16);
        let flags: u32 = read_u32(data, 20);
        proof {
            assert(data@.take(16) =~= data@.subrange(0, 16));
        }
        if !same_key(&key, &self.receipt.key) || state != 1 || flags != 0 {
            registry.invalidate(self.receipt.lease);
            return Ok(());
        }
        registry.confirm(self.receipt.lease);
        Ok(())
    }

    /// The receipt, if it is good.
    pub fn current_proof(&self, registry: &LeaseRegistry) -> (receipt: Option<ReadLeaseProof>)
        ensures
            receipt == (if registry@.receipt_valid(self.receipt().lease()) {
                Some(self.receipt())
            } else {
                None
            }),
    {
        if self.receipt.is_valid(registry) {
            Some(self.receipt)
        } else {
            None
        }
    }

    /// The open is closed: no clone of its receipt is good any more.
    pub fn release(self, registry: &mut LeaseRegistry)
        requires
            old(registry)@.well_formed(),
        ensures
            final(registry)@ == old(registry)@.released(
                self.receipt().lease(),
                self.receipt().key()@,
            ),
            final(registry)@.well_formed(),
            old(registry)@.evolves_to(final(registry)@),
    {
        registry.unlist(&self.receipt.key);
        registry.leases.remove(&self.receipt.lease);
        proof {
            assert(registry@ =~= old(registry)@.released(
                self.receipt.lease,
                self.receipt.key@,
            ));
            crate::lease_model::lemma_moved_on(old(registry)@, registry@);
        }
    }
}

/// Losing any receive channel creates uncertainty: the server may have sent
/// another connection's break there. Every receipt for that server fails.
pub fn invalidate_server(registry: &mut LeaseRegistry, server: Option<Guid>)
    requires
        old(registry)@.well_formed(),
    ensures
        final(registry)@ == old(registry)@.server_invalidated(server),
        final(registry)@.well_formed(),
        old(registry)@.evolves_to(final(registry)@),
{
    let ghost before = registry@;
    let ghost after = before.server_invalidated(server);
    let numbers = registry.lease_numbers();
    let mut i: usize = 0;
    while i < numbers.len()
        invariant
            i <= numbers@.len(),
            after == before.server_invalidated(server),
            forall|lease: u64| #[trigger]
                before.leases.contains_key(lease) <==> numbers@.contains(lease),
            registry@ == (LeaseModel { leases: registry@.leases, ..before }),
            registry@.leases.dom() == before.leases.dom(),
            forall|lease: u64| #[trigger]
                before.leases.contains_key(lease) ==> registry@.leases[lease]
                    == before.leases[lease] || registry@.leases[lease] == after.leases[lease],
            forall|j: int|
                0 <= j < i ==> registry@.leases[#[trigger] numbers@[j]]
                    == after.leases[numbers@[j]],
        decreases numbers@.len() - i,
    {
        let number: u64 = numbers[i];
        assert(numbers@.contains(number));
        match registry.leases.get(&number) {
            Some(lease) => {
                let server_now = registry.connection_state(lease.connection).server_guid;
                if lease.listed && same_server(server_now, server) {
                    let mut lease: LeaseState = *lease;
                    lease.state = ReceiptState::Invalid;
                    registry.leases.insert(number, lease);
                }
            },
            None => {},
        }
        proof {
            assert(registry@.leases.dom() =~= before.leases.dom());
        }
        i = i + 1;
    }
    proof {
        assert forall|lease: u64| #[trigger]
            before.leases.contains_key(lease) implies registry@.leases[lease]
            == after.leases[lease] by {
            assert(numbers@.contains(lease));
            let j = choose|j: int| 0 <= j < numbers@.len() && numbers@[j] == lease;
            assert(registry@.leases[numbers@[j]] == after.leases[numbers@[j]]);
        }
        assert(registry@.leases =~= after.leases);
        crate::lease_model::lemma_moved_on(before, registry@);
    }
}

/// The acknowledgement of a lease break.
#[derive(Clone, Copy)]
pub struct LeaseAck(pub [u8; 16]);

impl LeaseAck {
    /// Appends the message, which relinquishes everything.
    pub fn pack(&self, out: &mut Vec<u8>)
        ensures
            final(out)@ == old(out)@ + crate::lease_model::ack_bytes(self.0@),
    {
        let ghost start = out@;
        write_le(out, 36, 2);
        write_le(out, 0, 2);
        write_le(out, 0, 4);
        write_bytes(out, self.0.as_slice());
        write_le(out, 0, 4);
        write_le(out, 0, 8);
        proof {
            crate::wire::lemma_le_zero(2);
            crate::wire::lemma_le_zero(4);
            crate::wire::lemma_le_zero(8);
            assert(out@ =~= start + crate::lease_model::ack_bytes(self.0@));
        }
    }
}

/// A lease break that the server wants to be acknowledged: on the connection
/// and the tree that the lease belongs to.
#[derive(Clone, Copy)]
pub struct AckRequest {
    pub connection: Connection,
    pub tree: TreeId,
    pub ack: LeaseAck,
}

impl View for AckRequest {
    type V = AckModel;

    open spec fn view(&self) -> AckModel {
        AckModel { connection: self.connection, tree: self.tree, key: self.ack.0@ }
    }
}

/// Reads a lease break notification that came in from `server`. Called before
/// any reply is routed. Returns the acknowledgement to send, if one is wanted.
pub fn receive_break(registry: &mut LeaseRegistry, bytes: &[u8], server: Option<Guid>) -> (reply:
    Result<Option<AckRequest>, SmbError>)
    requires
        old(registry)@.well_formed(),
    ensures
        final(registry)@ == old(registry)@.after_break(bytes@, server),
        match (reply, old(registry)@.break_reply(bytes@, server)) {
            (Ok(Some(request)), Ok(Some(expected))) => request@ == expected,
            (Ok(None), Ok(None)) => true,
            (Err(error), Err(expected)) => error == expected,
            _ => false,
        },
        reply matches Ok(Some(request)) ==> exists|lease: u64|
            {
                &&& #[trigger] old(registry)@.leases.contains_key(lease)
                &&& old(registry)@.leases[lease].listed
                &&& old(registry)@.leases[lease].key@ == bytes@.subrange(8, 24)
                &&& request.ack.0@ == bytes@.subrange(8, 24)
                &&& request.connection == old(registry)@.leases[lease].connection
                &&& request.tree == old(registry)@.leases[lease].tree
            },
        final(registry)@.well_formed(),
        old(registry)@.evolves_to(final(registry)@),
{
    proof {
        crate::lease_model::lemma_moved_on(old(registry)@, old(registry)@);
    }
    if bytes.len() < 2 {
        return Err(SmbError::Truncated);
    }
    if read_u16(bytes, 0) as usize != BREAK_LEN || bytes.len() != BREAK_LEN {
        invalidate_server(registry, server);
        return Err(SmbError::InvalidLeaseBreak);
    }
    let flags: u32 = read_u32(bytes, 4);
    let key = key_at(bytes, 8);
    let number: u64 = match registry.find_listed(&key) {
        Some(number) => number,
        None => {
            return Ok(None);
        },
    };
    proof {
        assert(registry@.is_listed(number, key@));
    }
    let lease: LeaseState = match registry.leases.get(&number) {
        Some(lease) => *lease,
        None => {
            return Ok(None);
        },
    };
    if !same_server(registry.connection_state(lease.connection).server_guid, server) {
        return Ok(None);
    }
    registry.invalidate(number);
    if flags % 2 == 1 {
        Ok(
            Some(
                AckRequest { connection: lease.connection, tree: lease.tree, ack: LeaseAck(key) },
            ),
        )
    } else {
        Ok(None)
    }
}

/// Takes note of how an acknowledgement went. If it failed, the server and the
/// client may disagree, so every receipt for that server fails.
pub fn ack_finished(registry: &mut LeaseRegistry, delivered: bool, server: Option<Guid>)
    requires
        old(registry)@.well_formed(),
    ensures
        final(registry)@ == (if delivered {
            old(registry)@
        } else {
            old(registry)@.server_invalidated(server)
        }),
        final(registry)@.well_formed(),
        old(registry)@.evolves_to(final(registry)@),
{
    proof {
        crate::lease_model::lemma_moved_on(old(registry)@, old(registry)@);
    }
    if !delivered {
        invalidate_server(registry, server);
    }
}

} // verus!
