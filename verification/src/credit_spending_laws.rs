//! What a request costs, when it may be sent, and what becomes of its credits.

use crate::credit_laws::{
    credits_taken, law_answers_stand, law_dispatch_conserves_credits, law_dispatch_settles,
    law_each_class_is_first_come_first_served, lemma_served_keeps_slot, lemma_served_prefix,
};
use crate::credit_model::{
    effective_charge, is_first_free, lemma_available_is_free, lemma_dispatched,
    lemma_head_served_well_formed, lemma_parked, lemma_served, lemma_withdrawn_well_formed,
    requested, saturating_sum, steps_from, CreditClass, CreditModel, SlotModel, Waiter, WaiterState,
};
use crate::credits::{collected, CreditWaitRegistration};
use crate::wakeup::{Answer, CreditPoolClosed};
use tokio::sync::oneshot::error::RecvError;
use vstd::prelude::*;

verus! {

/// Two pools that differ in nothing but the credits on hand.
pub open spec fn only_credits_differ(a: CreditModel, b: CreditModel) -> bool {
    &&& a.closed == b.closed
    &&& a.generation == b.generation
    &&& a.next_waiter_id == b.next_waiter_id
    &&& a.control == b.control
    &&& a.data == b.data
    &&& a.slots == b.slots
}

/// A request is charged what it asks for. Only one that asks for nothing is
/// charged otherwise: one credit.
pub proof fn law_charge_is_what_was_asked_for(charge: u16)
    ensures
        charge >= 1 ==> effective_charge(charge) == charge,
        charge == 0 ==> effective_charge(charge) == 1,
{
}

/// A request is sent at once if and only if the pool is open, all the credits it
/// asks for are there, and nobody with an older claim waits: no CLOSE and, for
/// another request, nobody at all.
pub proof fn law_request_is_sent_at_once_only_if_paid_for(
    m: CreditModel,
    charge: u16,
    class: CreditClass,
)
    requires
        charge >= 1,
    ensures
        m.can_reserve(effective_charge(charge), class) <==> !m.closed && m.available >= charge
            && m.control.len() == 0 && (class == CreditClass::Data ==> m.data.len() == 0),
{
}

/// What is left and what was asked for add up to what was there, and nothing
/// else changes.
pub proof fn law_sending_takes_exactly_the_charge(m: CreditModel, charge: u16, class: CreditClass)
    requires
        m.can_reserve(effective_charge(charge), class),
    ensures
        ({
            let after = m.with_available((m.available - effective_charge(charge)) as u16);
            &&& charge >= 1 ==> after.available + charge == m.available
            &&& charge == 0 ==> after.available + 1 == m.available
            &&& only_credits_differ(m, after)
        }),
{
}

/// A larger request never leaves more behind than a smaller one, and never goes
/// where the smaller one cannot.
pub proof fn law_larger_requests_cost_more(m: CreditModel, less: u16, more: u16, class: CreditClass)
    requires
        1 <= less <= more,
        m.can_reserve(effective_charge(more), class),
    ensures
        m.can_reserve(effective_charge(less), class),
        ({
            let after_less = m.with_available((m.available - effective_charge(less)) as u16);
            let after_more = m.with_available((m.available - effective_charge(more)) as u16);
            after_less.available - after_more.available == more - less
        }),
{
}

/// Parking costs nothing yet, but the request is entered with all that it asks
/// for, in its class and session, still unanswered, on its own channel. Nobody
/// else's entry changes.
pub proof fn law_parking_enters_the_whole_charge(
    m: CreditModel,
    charge: u16,
    class: CreditClass,
    id: u64,
    channel: int,
)
    requires
        charge >= 1,
        !m.slots.contains_key(id),
    ensures
        ({
            let after = m.parked(effective_charge(charge), class, id, channel);
            &&& after.available == m.available
            &&& after.closed == m.closed
            &&& after.generation == m.generation
            &&& after.slots.contains_key(id)
            &&& after.slots[id].charge == charge
            &&& after.slots[id].class == class
            &&& after.slots[id].generation == m.generation
            &&& after.slots[id].channel == channel
            &&& after.slots[id].state == WaiterState::Pending
            &&& after.slots.remove(id) == m.slots
            &&& after.next_waiter_id == (id + 1) % 0x1_0000_0000_0000_0000
        }),
{
    let after = m.parked(effective_charge(charge), class, id, channel);
    assert(after.slots.remove(id) =~= m.slots);
}

/// Serving a class tells exactly the waiters that left it: to go ahead, or
/// nothing where their owner is gone. Their entries keep everything else.
proof fn lemma_served_answers(m: CreditModel, class: CreditClass, gone: Set<u64>, i: int)
    requires
        m.well_formed(),
        0 <= i < m.queue(class).len(),
    ensures
        ({
            let after = m.served(class, gone);
            let left = m.queue(class).len() - after.queue(class).len();
            let id = m.queue(class)[i].id;
            &&& 0 <= left
            &&& after.slots[id] == (if i < left {
                (SlotModel {
                    state: if gone.contains(id) {
                        WaiterState::Cancelled
                    } else {
                        WaiterState::Granted
                    },
                    ..m.slots[id]
                })
            } else {
                m.slots[id]
            })
            &&& i < left ==> m.queue(class)[i].charge <= m.available
        }),
    decreases m.queue(class).len(),
{
    if m.head_fits(class) {
        let head = m.queue(class)[0];
        let lost = gone.contains(head.id);
        let next = m.head_served(class, lost);
        assert(m.waiter_has_slot(class, head));
        assert(m.waiter_has_slot(class, m.queue(class)[i]));
        lemma_head_served_well_formed(m, class, lost);
        lemma_served(next, class, gone);
        lemma_served_prefix(next, class, gone);
        if i == 0 {
            lemma_served_keeps_slot(next, class, gone, head.id);
        } else {
            assert(next.queue(class)[i - 1] == m.queue(class)[i]);
            assert(m.queue(class)[i].id != m.queue(class)[0].id);
            lemma_served_answers(next, class, gone, i - 1);
        }
    }
}

/// What became of the waiter at `place`, where the first `left` of its queue
/// left it.
pub open spec fn told_if_left(
    before: CreditModel,
    after: CreditModel,
    gone: Set<u64>,
    waiter: Waiter,
    place: int,
    left: int,
) -> bool {
    let was = before.slots[waiter.id];
    let is = after.slots[waiter.id];
    &&& after.slots.contains_key(waiter.id)
    &&& is.charge == was.charge && is.class == was.class && is.generation == was.generation
        && is.channel == was.channel
    &&& is.charge == waiter.charge && is.channel == waiter.channel
    &&& place >= left ==> is.state == WaiterState::Pending
    &&& place < left && gone.contains(waiter.id) ==> is.state == WaiterState::Cancelled
    &&& place < left && !gone.contains(waiter.id) ==> is.state == WaiterState::Granted
    &&& place < left ==> waiter.charge <= before.available
}

/// A dispatch tells exactly the waiters that leave a queue, and each of them in
/// full: to go ahead, unless its owner is gone. Whoever stays in a queue is told
/// nothing. Nobody is served with fewer credits on hand than it asked for. This is
/// what becomes of a CLOSE.
pub proof fn law_dispatch_tells_the_closes(m: CreditModel, gone: Set<u64>, i: int)
    requires
        m.well_formed(),
        0 <= i < m.control.len(),
    ensures
        told_if_left(m, m.dispatched(gone), gone, m.control[i], i, m.control.len()
            - m.dispatched(gone).control.len()),
{
    let closes_served = m.served(CreditClass::Control, gone);
    let waiter = m.queue(CreditClass::Control)[i];
    assert(m.waiter_has_slot(CreditClass::Control, waiter));
    lemma_served(m, CreditClass::Control, gone);
    lemma_served_answers(m, CreditClass::Control, gone, i);
    lemma_served(closes_served, CreditClass::Data, gone);
    assert(closes_served.slots.dom().contains(waiter.id));
    lemma_served_keeps_slot(closes_served, CreditClass::Data, gone, waiter.id);
    lemma_dispatched(m, gone);
    assert(m.dispatched(gone).slots.dom().contains(waiter.id));
}

/// This is what becomes of any other request.
pub proof fn law_dispatch_tells_the_others(m: CreditModel, gone: Set<u64>, j: int)
    requires
        m.well_formed(),
        0 <= j < m.data.len(),
    ensures
        told_if_left(m, m.dispatched(gone), gone, m.data[j], j, m.data.len() - m.dispatched(
            gone,
        ).data.len()),
{
    let closes_served = m.served(CreditClass::Control, gone);
    let waiter = m.queue(CreditClass::Data)[j];
    assert(m.waiter_has_slot(CreditClass::Data, waiter));
    lemma_served(m, CreditClass::Control, gone);
    lemma_served_keeps_slot(m, CreditClass::Control, gone, waiter.id);
    lemma_dispatched(m, gone);
    assert(m.dispatched(gone).slots.dom().contains(waiter.id));
    if closes_served.control.len() == 0 {
        assert(closes_served.queue(CreditClass::Data) == m.queue(CreditClass::Data));
        lemma_served_answers(closes_served, CreditClass::Data, gone, j);
    }
}

/// Where a dispatch lets exactly one request go ahead, the pool is left with
/// exactly that much less.
pub proof fn law_one_grant_takes_one_charge(m: CreditModel, gone: Set<u64>)
    requires
        m.well_formed(),
        m.control.len() + m.data.len() == m.dispatched(gone).control.len() + m.dispatched(
            gone,
        ).data.len() + 1,
    ensures
        ({
            let after = m.dispatched(gone);
            let served = if after.control.len() < m.control.len() {
                m.control[0]
            } else {
                m.data[0]
            };
            &&& !gone.contains(served.id) ==> after.available + served.charge == m.available
            &&& gone.contains(served.id) ==> after.available == m.available
        }),
{
    let after = m.dispatched(gone);
    law_dispatch_conserves_credits(m, gone);
    law_each_class_is_first_come_first_served(m, gone);
    reveal_with_fuel(credits_taken, 3);
    assert(m.control.take(0).len() == 0 && m.data.take(0).len() == 0);
}

/// A single request that waits alone takes exactly what it asked for out of the
/// credits that come in, as soon as they suffice, and nothing before.
pub proof fn law_lone_waiter_takes_its_charge(
    m: CreditModel,
    charge: u16,
    class: CreditClass,
    id: u64,
    channel: int,
    credits: u16,
)
    requires
        m.inv(),
        !m.closed,
        charge >= 1,
        m.control.len() == 0,
        m.data.len() == 0,
        m.available < charge,
        !m.slots.contains_key(id),
        m.available + credits <= u16::MAX,
    ensures
        ({
            let parked = m.parked(effective_charge(charge), class, id, channel);
            let after = parked.with_available(
                saturating_sum(parked.available, credits),
            ).dispatched(Set::empty());
            if m.available + credits >= charge {
                &&& after.available + charge == m.available + credits
                &&& after.slots[id].state == WaiterState::Granted
            } else {
                &&& after.available == m.available + credits
                &&& after.slots[id].state == WaiterState::Pending
            }
        }),
{
    let parked = m.parked(effective_charge(charge), class, id, channel);
    let gone: Set<u64> = Set::empty();
    lemma_parked(m, effective_charge(charge), class, id, channel);
    let funded = parked.with_available(saturating_sum(parked.available, credits));
    lemma_available_is_free(parked, funded.available);
    law_dispatch_conserves_credits(funded, gone);
    law_dispatch_settles(funded, gone, gone);
    law_each_class_is_first_come_first_served(funded, gone);
    if class is Control {
        assert(funded.control[0].charge == charge);
        law_dispatch_tells_the_closes(funded, gone, 0);
    } else {
        assert(funded.data[0].charge == charge);
        law_dispatch_tells_the_others(funded, gone, 0);
    }
    reveal_with_fuel(credits_taken, 3);
}

/// Everything that a pool promises between two events: nobody who can be paid
/// for is parked, whoever is parked is entered once, with the same charge and
/// channel, unanswered, in the open session, and a closed pool has nobody parked.
pub proof fn law_invariant_means(m: CreditModel, i: int, j: int)
    requires
        m.inv(),
    ensures
        m.control.len() > 0 ==> m.control[0].charge > m.available,
        m.control.len() == 0 && m.data.len() > 0 ==> m.data[0].charge > m.available,
        m.closed ==> m.control.len() == 0 && m.data.len() == 0,
        0 <= i < m.control.len() ==> m.slots.contains_key(m.control[i].id)
            && m.slots[m.control[i].id] == (SlotModel {
            charge: m.control[i].charge,
            class: CreditClass::Control,
            generation: m.generation,
            channel: m.control[i].channel,
            state: WaiterState::Pending,
        }) && m.control[i].charge >= 1,
        0 <= i < m.data.len() ==> m.slots.contains_key(m.data[i].id) && m.slots[m.data[i].id] == (
        SlotModel {
            charge: m.data[i].charge,
            class: CreditClass::Data,
            generation: m.generation,
            channel: m.data[i].channel,
            state: WaiterState::Pending,
        }) && m.data[i].charge >= 1,
        0 <= i < j < m.control.len() ==> m.control[i].id != m.control[j].id,
        0 <= i < j < m.data.len() ==> m.data[i].id != m.data[j].id,
        0 <= i < m.control.len() && 0 <= j < m.data.len() ==> m.control[i].id != m.data[j].id,
{
    if 0 <= i < m.control.len() {
        assert(m.waiter_has_slot(CreditClass::Control, m.queue(CreditClass::Control)[i]));
    }
    if 0 <= i < m.data.len() {
        assert(m.waiter_has_slot(CreditClass::Data, m.queue(CreditClass::Data)[i]));
    }
    if 0 <= j < m.data.len() {
        assert(m.waiter_has_slot(CreditClass::Data, m.queue(CreditClass::Data)[j]));
    }
    if 0 <= i < j < m.control.len() {
        assert(m.queue(CreditClass::Control)[i].id != m.queue(CreditClass::Control)[j].id);
    }
    if 0 <= i < j < m.data.len() {
        assert(m.queue(CreditClass::Data)[i].id != m.queue(CreditClass::Data)[j].id);
    }
}

/// Every request that is entered as waiting stands in the queue of its class.
pub proof fn law_waiting_request_stands_in_its_queue(m: CreditModel, id: u64)
    requires
        m.inv(),
        m.slots.contains_key(id),
        m.slots[id].state == WaiterState::Pending,
    ensures
        m.slots[id].class == CreditClass::Control ==> exists|i: int|
            0 <= i < m.control.len() && #[trigger] m.control[i].id == id,
        m.slots[id].class == CreditClass::Data ==> exists|i: int|
            0 <= i < m.data.len() && #[trigger] m.data[i].id == id,
        m.slots[id].generation == m.generation,
        !m.closed,
{
    let class = m.slots[id].class;
    assert(m.queued(class, id));
    let i = m.place(class, id);
    assert(m.waiter_has_slot(class, m.queue(class)[i]));
    if class is Control {
        assert(m.control[i].id == id);
    } else {
        assert(m.data[i].id == id);
    }
}

/// A dispatch leaves the session, and everyone who does not wait, alone, and
/// never adds to the credits on hand. Whatever follows a dispatch is one.
pub proof fn law_dispatch_touches_only_waiters(m: CreditModel, after: CreditModel, id: u64)
    requires
        m.well_formed(),
        after.follows_dispatch_of(m),
    ensures
        exists|gone: Set<u64>| after == #[trigger] m.dispatched(gone),
        after.closed == m.closed,
        after.generation == m.generation,
        after.next_waiter_id == m.next_waiter_id,
        after.available <= m.available,
        after.slots.contains_key(id) == m.slots.contains_key(id),
        m.slots.contains_key(id) && m.slots[id].state != WaiterState::Pending ==> after.slots[id]
            == m.slots[id],
{
    let gone = choose|gone: Set<u64>| after == #[trigger] m.dispatched(gone);
    lemma_dispatched(m, gone);
    assert(after.slots.dom().contains(id) == m.slots.dom().contains(id));
    if m.slots.contains_key(id) && m.slots[id].state != WaiterState::Pending {
        law_answers_stand(m, gone, id);
    }
}

/// Banking credits, and taking back unsent ones, adds exactly them, up to the
/// largest count there is, and changes nothing else.
pub proof fn law_banking_adds_exactly_the_credits(m: CreditModel, credits: u16)
    ensures
        ({
            let after = m.with_available(saturating_sum(m.available, credits));
            &&& m.available + credits <= u16::MAX ==> after.available == m.available + credits
            &&& m.available + credits > u16::MAX ==> after.available == u16::MAX
            &&& only_credits_differ(m, after)
        }),
{
}

/// A request asks for its charge and for all that the window lacks of 512
/// credits, or for as much of that as the field can say.
pub proof fn law_request_asks_for_what_is_missing(charge: u16, available: u16)
    ensures
        ({
            let missing: int = if available < 512 {
                512 - available
            } else {
                0
            };
            requested(charge, available) == (if charge + missing <= u16::MAX {
                charge + missing
            } else {
                u16::MAX as int
            })
        }),
{
}

/// A teardown tells everyone who still waits to give up, and changes no answer
/// that was given. The pool is closed under a new session number.
pub proof fn law_teardown_fails_exactly_the_waiting(m: CreditModel, id: u64)
    ensures
        m.shut().closed,
        m.shut().available == m.available,
        m.shut().generation == (m.generation + 1) % 0x1_0000_0000_0000_0000,
        m.shut().next_waiter_id == m.next_waiter_id,
        m.shut().control.len() == 0 && m.shut().data.len() == 0,
        m.shut().slots.contains_key(id) == m.slots.contains_key(id),
        m.slots.contains_key(id) ==> m.shut().slots[id] == (if m.slots[id].state
            == WaiterState::Pending {
            SlotModel {
                charge: m.slots[id].charge,
                class: m.slots[id].class,
                generation: m.slots[id].generation,
                channel: m.slots[id].channel,
                state: WaiterState::Failed,
            }
        } else {
            m.slots[id]
        }),
{
}

/// A revival does the same, but leaves the pool open with a single credit.
pub proof fn law_revival_starts_from_one_credit(m: CreditModel, id: u64)
    ensures
        !m.restarted().closed,
        m.restarted().available == 1,
        m.restarted().generation == (m.generation + 1) % 0x1_0000_0000_0000_0000,
        m.restarted().next_waiter_id == m.next_waiter_id,
        m.restarted().control.len() == 0 && m.restarted().data.len() == 0,
        m.restarted().slots == m.shut().slots,
{
}

/// The owner of a parked request gets its session if and only if it has not
/// collected before, was told to go ahead, and the session is still open.
/// Otherwise it is refused.
pub proof fn law_collecting_needs_a_grant_of_the_open_session(
    m: CreditModel,
    claim: CreditWaitRegistration,
    received: Result<Answer, RecvError>,
)
    ensures
        ({
            let id = claim.id();
            collected(m, claim, received) == (if claim.armed() && m.slots.contains_key(id)
                && m.slots[id].generation == m.generation && !m.closed && received is Ok
                && received->Ok_0 is Ok {
                Ok::<u64, CreditPoolClosed>(m.generation)
            } else {
                Err(CreditPoolClosed)
            })
        }),
{
}

/// A parked request gets a number that no other one has: the next in line, or
/// the first free one behind it.
pub proof fn law_parked_request_has_its_own_number(taken: Set<u64>, start: u64, id: u64, n: u64)
    requires
        is_first_free(taken, start, id),
    ensures
        !taken.contains(id),
        !taken.contains(start) ==> id == start,
        start <= n < id ==> taken.contains(n),
        id < start && (n >= start || n < id) ==> taken.contains(n),
{
    assert(steps_from(start, n) < steps_from(start, id) ==> taken.contains(n));
}

/// Collecting forgets the request and changes nothing else.
pub proof fn law_collecting_forgets_only_the_request(m: CreditModel, id: u64, other: u64)
    ensures
        ({
            let after = m.without_slot(id);
            &&& !after.slots.contains_key(id)
            &&& other != id ==> after.slots.contains_key(other) == m.slots.contains_key(other)
            &&& other != id && m.slots.contains_key(other) ==> after.slots[other]
                == m.slots[other]
            &&& after.available == m.available
            &&& after.closed == m.closed
            &&& after.generation == m.generation
            &&& after.next_waiter_id == m.next_waiter_id
            &&& after.control == m.control
            &&& after.data == m.data
        }),
{
}

/// Walking away forgets the request. One that waited leaves its place in its
/// queue, and costs nothing; one that was told to go ahead in the open session
/// gives back exactly its charge; any other changes nothing. Others keep their
/// entries and their order.
pub proof fn law_walking_away_gives_back_exactly_the_charge(m: CreditModel, id: u64, other: u64)
    requires
        m.inv(),
        m.slots.contains_key(id),
    ensures
        ({
            let slot = m.slots[id];
            let after = m.abandoned(id);
            let waited = slot.state == WaiterState::Pending;
            let owed = slot.state == WaiterState::Granted && slot.generation == m.generation
                && !m.closed;
            &&& !after.slots.contains_key(id)
            &&& other != id ==> after.slots.contains_key(other) == m.slots.contains_key(other)
            &&& other != id && m.slots.contains_key(other) ==> after.slots[other]
                == m.slots[other]
            &&& after.closed == m.closed
            &&& after.generation == m.generation
            &&& after.next_waiter_id == m.next_waiter_id
            &&& owed && m.available + slot.charge <= u16::MAX ==> after.available == m.available
                + slot.charge
            &&& owed && m.available + slot.charge > u16::MAX ==> after.available == u16::MAX
            &&& !owed ==> after.available == m.available
            &&& if waited && slot.class == CreditClass::Control {
                &&& exists|i: int|
                    0 <= i < m.control.len() && m.control[i].id == id && after.control
                        == #[trigger] m.control.remove(i)
                &&& after.data == m.data
            } else if waited {
                &&& exists|i: int|
                    0 <= i < m.data.len() && m.data[i].id == id && after.data
                        == #[trigger] m.data.remove(i)
                &&& after.control == m.control
            } else {
                after.control == m.control && after.data == m.data
            }
        }),
{
    let slot = m.slots[id];
    if slot.state is Pending {
        lemma_withdrawn_well_formed(m, id);
        let place = m.place(slot.class, id);
        if slot.class is Control {
            assert(m.abandoned(id).control == m.control.remove(place));
        } else {
            assert(m.abandoned(id).data == m.data.remove(place));
        }
    }
}

/// A request that is still waiting, or was told to go ahead in the open session,
/// leaves room for others when its owner walks away, so the pool looks again.
pub proof fn law_walking_away_makes_the_pool_look_again(m: CreditModel, id: u64)
    requires
        m.inv(),
        m.slots.contains_key(id),
    ensures
        m.abandoning_frees(id) <==> m.slots[id].state == WaiterState::Pending || (
        m.slots[id].state == WaiterState::Granted && m.slots[id].generation == m.generation
            && !m.closed),
{
    if m.slots[id].state is Pending {
        lemma_withdrawn_well_formed(m, id);
    }
}

} // verus!
