//! Which answers of a server make a receipt good, byte by byte.

use crate::create_context::{packed_contexts, parsed_contexts, ContextModel};
use crate::lease_laws::law_broken_receipt_never_returns;
use crate::lease_model::{
    ack_bytes, grant_verdict, lease_contexts, lease_request, LeaseModel, ReceiptState,
};
use crate::types::OplockLevel;
use vstd::prelude::*;

verus! {

/// The context is named `RqLs`.
pub open spec fn is_lease_context(context: ContextModel) -> bool {
    &&& context.name.len() == 4
    &&& context.name[0] == 0x52
    &&& context.name[1] == 0x71
    &&& context.name[2] == 0x4c
    &&& context.name[3] == 0x73
}

/// The context at `i` is the only lease context.
pub open spec fn is_only_lease_context(contexts: Seq<ContextModel>, i: int) -> bool {
    &&& 0 <= i < contexts.len()
    &&& is_lease_context(contexts[i])
    &&& forall|j: int|
        0 <= j < contexts.len() && j != i ==> !is_lease_context(#[trigger] contexts[j])
}

/// 32 bytes: the key, the 32-bit lease state READ, 32-bit flags of zero, and
/// eight bytes that do not matter.
pub open spec fn is_read_grant(data: Seq<u8>, key: Seq<u8>) -> bool {
    &&& data.len() == 32
    &&& forall|i: int| 0 <= i < 16 ==> #[trigger] data[i] == key[i]
    &&& data[16] == 1 && data[17] == 0 && data[18] == 0 && data[19] == 0
    &&& data[20] == 0 && data[21] == 0 && data[22] == 0 && data[23] == 0
}

/// The response grants what was asked for: it says that a lease was granted, and
/// holds exactly one lease context, which grants READ on `key`.
pub open spec fn is_exact_grant(key: Seq<u8>, level: OplockLevel, bytes: Seq<u8>) -> bool {
    &&& level == OplockLevel::Lease
    &&& parsed_contexts(bytes) matches Some(contexts)
    &&& exists|i: int| #[trigger]
        is_only_lease_context(contexts, i) && is_read_grant(contexts[i].data, key)
}

proof fn lemma_lease_name(context: ContextModel)
    ensures
        is_lease_context(context) == (context.name == crate::lease_model::lease_context_name()),
{
    if is_lease_context(context) {
        assert(context.name =~= crate::lease_model::lease_context_name());
    }
}

/// What is among the lease contexts is a lease context of the response, and the
/// other way round.
proof fn lemma_lease_contexts(contexts: Seq<ContextModel>)
    ensures
        lease_contexts(contexts).len() == 0 <==> forall|i: int|
            0 <= i < contexts.len() ==> !is_lease_context(#[trigger] contexts[i]),
        lease_contexts(contexts).len() == 1 <==> exists|i: int| #[trigger]
            is_only_lease_context(contexts, i),
        forall|i: int| #[trigger]
            is_only_lease_context(contexts, i) ==> lease_contexts(contexts)[0] == contexts[i],
    decreases contexts.len(),
{
    reveal(Seq::filter);
    let all = lease_contexts(contexts);
    if contexts.len() > 0 {
        let earlier = contexts.drop_last();
        let last = contexts.last();
        let n = contexts.len() - 1;
        lemma_lease_contexts(earlier);
        lemma_lease_name(last);
        assert forall|i: int| 0 <= i < n implies earlier[i] == contexts[i] by {}
        if is_lease_context(last) {
            assert(all == lease_contexts(earlier).push(last));
            assert(contexts[n] == last);
            if lease_contexts(earlier).len() == 0 {
                assert forall|j: int|
                    0 <= j < contexts.len() && j != n implies !is_lease_context(
                    #[trigger] contexts[j],
                ) by {
                    assert(earlier[j] == contexts[j]);
                }
                assert(is_only_lease_context(contexts, n));
            } else {
                let j = choose|j: int|
                    0 <= j < earlier.len() && is_lease_context(#[trigger] earlier[j]);
                assert(contexts[j] == earlier[j]);
            }
            assert forall|i: int| #[trigger] is_only_lease_context(contexts, i) implies all.len()
                == 1 && all[0] == contexts[i] by {
                if i != n {
                    assert(!is_lease_context(contexts[n]));
                }
                assert forall|j: int| 0 <= j < earlier.len() implies !is_lease_context(
                    #[trigger] earlier[j],
                ) by {
                    assert(earlier[j] == contexts[j]);
                }
            }
        } else {
            assert(all == lease_contexts(earlier));
            assert forall|i: int| #[trigger] is_only_lease_context(contexts, i) implies
                is_only_lease_context(earlier, i) by {
                assert(contexts[n] == last);
                assert forall|j: int| 0 <= j < earlier.len() && j != i implies !is_lease_context(
                    #[trigger] earlier[j],
                ) by {
                    assert(earlier[j] == contexts[j]);
                }
            }
            assert forall|i: int| #[trigger] is_only_lease_context(earlier, i) implies
                is_only_lease_context(contexts, i) by {
                assert forall|j: int| 0 <= j < contexts.len() && j != i implies !is_lease_context(
                    #[trigger] contexts[j],
                ) by {
                    if j < n {
                        assert(earlier[j] == contexts[j]);
                    }
                }
            }
            if all.len() == 0 {
                assert forall|i: int| 0 <= i < contexts.len() implies !is_lease_context(
                    #[trigger] contexts[i],
                ) by {
                    if i < n {
                        assert(earlier[i] == contexts[i]);
                    }
                }
            } else {
                let j = choose|j: int|
                    0 <= j < earlier.len() && is_lease_context(#[trigger] earlier[j]);
                assert(contexts[j] == earlier[j]);
            }
        }
    }
}

proof fn lemma_read_grant(data: Seq<u8>, key: Seq<u8>)
    requires
        data.len() == 32,
        key.len() == 16,
    ensures
        is_read_grant(data, key) == crate::lease_model::grants_read_caching(data, key),
{
    if is_read_grant(data, key) {
        assert(data.take(16) =~= key);
    }
    if crate::lease_model::grants_read_caching(data, key) {
        assert forall|i: int| 0 <= i < 16 implies #[trigger] data[i] == key[i] by {
            assert(data.take(16)[i] == data[i]);
        }
    }
}

/// The server grants the lease if and only if its response is an exact grant. A
/// response that cannot be read decides nothing. One that promises a lease, but
/// with several lease contexts or with one of the wrong size, is malformed. Every
/// other response is a refusal.
pub proof fn law_only_an_exact_grant_grants(key: Seq<u8>, level: OplockLevel, bytes: Seq<u8>)
    requires
        key.len() == 16,
    ensures
        grant_verdict(key, level, bytes) is Granted <==> is_exact_grant(key, level, bytes),
        grant_verdict(key, level, bytes) is Unreadable <==> parsed_contexts(bytes) is None,
        grant_verdict(key, level, bytes) is Malformed <==> {
            &&& level == OplockLevel::Lease
            &&& parsed_contexts(bytes) matches Some(contexts)
            &&& exists|i: int| 0 <= i < contexts.len() && is_lease_context(#[trigger] contexts[i])
            &&& !exists|i: int| #[trigger]
                is_only_lease_context(contexts, i) && contexts[i].data.len() == 32
        },
{
    if parsed_contexts(bytes) is Some {
        let contexts = parsed_contexts(bytes)->0;
        lemma_lease_contexts(contexts);
        let matching = lease_contexts(contexts);
        if matching.len() == 1 {
            let i = choose|i: int| #[trigger] is_only_lease_context(contexts, i);
            assert(matching[0] == contexts[i]);
            assert(is_lease_context(contexts[i]));
            if contexts[i].data.len() == 32 {
                lemma_read_grant(contexts[i].data, key);
            }
            assert forall|j: int| #[trigger] is_only_lease_context(contexts, j) implies contexts[j]
                == contexts[i] by {}
        }
    }
}

/// A receipt turns good through an answer of the server only if that is an exact
/// grant: the response says that a lease was granted and holds exactly one lease
/// context, of 32 bytes, with the key that was asked for, the lease state READ and
/// no flags.
pub proof fn law_receipt_turns_good_only_by_an_exact_grant(
    m: LeaseModel,
    lease: u64,
    key: Seq<u8>,
    level: OplockLevel,
    bytes: Seq<u8>,
)
    requires
        key.len() == 16,
        !m.receipt_valid(lease),
        m.answered(lease, grant_verdict(key, level, bytes)).receipt_valid(lease),
    ensures
        is_exact_grant(key, level, bytes),
        m.leases.contains_key(lease) && m.leases[lease].state == ReceiptState::Pending,
{
    law_only_an_exact_grant_grants(key, level, bytes);
}

/// Every other answer that can be read, one with the lease state zero among them,
/// leaves the receipt not good for ever.
pub proof fn law_any_other_answer_is_final(
    m: LeaseModel,
    lease: u64,
    key: Seq<u8>,
    level: OplockLevel,
    bytes: Seq<u8>,
    later: LeaseModel,
)
    requires
        key.len() == 16,
        m.well_formed(),
        lease < m.next_lease,
        parsed_contexts(bytes) is Some,
        !is_exact_grant(key, level, bytes),
        m.answered(lease, grant_verdict(key, level, bytes)).evolves_to(later),
    ensures
        !m.answered(lease, grant_verdict(key, level, bytes)).receipt_valid(lease),
        !later.receipt_valid(lease),
{
    law_only_an_exact_grant_grants(key, level, bytes);
    let after = m.answered(lease, grant_verdict(key, level, bytes));
    law_broken_receipt_never_returns(after, later, lease);
}

/// An exact grant makes the receipt good where nothing came in between: no break,
/// and neither the end nor the revival of the connection. It takes no receipt away.
pub proof fn law_exact_grant_makes_the_receipt_good(
    m: LeaseModel,
    lease: u64,
    key: Seq<u8>,
    level: OplockLevel,
    bytes: Seq<u8>,
)
    requires
        key.len() == 16,
        is_exact_grant(key, level, bytes),
        m.leases.contains_key(lease),
    ensures
        ({
            let after = m.answered(lease, grant_verdict(key, level, bytes));
            let state = m.leases[lease].state;
            &&& after.leases[lease].state == (if state == ReceiptState::Pending {
                ReceiptState::Granted
            } else {
                state
            })
            &&& after.leases.remove(lease) == m.leases.remove(lease)
        }),
{
    law_only_an_exact_grant_grants(key, level, bytes);
    assert(m.answered(lease, grant_verdict(key, level, bytes)).leases.remove(lease)
        =~= m.leases.remove(lease));
}

/// An answer that cannot be read changes nothing.
pub proof fn law_unreadable_answer_changes_nothing(
    m: LeaseModel,
    lease: u64,
    key: Seq<u8>,
    level: OplockLevel,
    bytes: Seq<u8>,
)
    requires
        parsed_contexts(bytes) is None,
    ensures
        m.answered(lease, grant_verdict(key, level, bytes)) == m,
{
}

/// The request for a lease, byte by byte: one context named `RqLs` of 32 bytes,
/// with the key, the lease state READ and zeros.
pub proof fn law_lease_request_bytes(key: Seq<u8>)
    requires
        key.len() == 16,
    ensures
        packed_contexts(seq![lease_request(key)]) == seq![
            0u8, 0, 0, 0, 16, 0, 4, 0, 0, 0, 24, 0, 32, 0, 0, 0,
        ] + seq![0x52u8, 0x71, 0x4c, 0x73, 0, 0, 0, 0] + key + seq![
            1u8, 0, 0, 0, 0, 0, 0, 0, 0, 0, 0, 0, 0, 0, 0, 0,
        ],
{
    reveal_with_fuel(crate::wire::le_bytes, 5);
    let request = lease_request(key);
    assert(request.data.len() == 32);
    assert(packed_contexts(seq![request]) =~= seq![
        0u8, 0, 0, 0, 16, 0, 4, 0, 0, 0, 24, 0, 32, 0, 0, 0,
    ] + seq![0x52u8, 0x71, 0x4c, 0x73, 0, 0, 0, 0] + key + seq![
        1u8, 0, 0, 0, 0, 0, 0, 0, 0, 0, 0, 0, 0, 0, 0, 0,
    ]);
}

/// The acknowledgement of a break, byte by byte: its size, zeros, the key, and
/// zeros, which keep no caching.
pub proof fn law_ack_bytes(key: Seq<u8>)
    ensures
        ack_bytes(key) == seq![36u8, 0, 0, 0, 0, 0, 0, 0] + key + seq![
            0u8, 0, 0, 0, 0, 0, 0, 0, 0, 0, 0, 0,
        ],
{
    reveal_with_fuel(crate::wire::le_bytes, 3);
    assert(ack_bytes(key) =~= seq![36u8, 0, 0, 0, 0, 0, 0, 0] + key + seq![
        0u8, 0, 0, 0, 0, 0, 0, 0, 0, 0, 0, 0,
    ]);
}

} // verus!
