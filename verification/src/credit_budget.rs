//! Where the credits of a session are, and that none appear from nowhere.

use crate::credit_model::{
    lemma_head_served_well_formed, lemma_served, lemma_withdrawn_well_formed, saturating_sum,
    CreditClass, CreditModel, SlotModel,
};
use vstd::prelude::*;

verus! {

/// What is set aside for one parked request: its charge, from the moment it is
/// told to go ahead until its owner collects.
pub open spec fn slot_holds(slot: SlotModel, generation: u64) -> int {
    if slot.state is Granted && slot.generation == generation {
        slot.charge as int
    } else {
        0
    }
}

/// What is set aside for all parked requests of a session.
pub open spec fn set_aside(slots: Map<u64, SlotModel>, generation: u64) -> int
    decreases slots.dom().len(),
    when slots.dom().finite()
{
    if slots.dom().len() == 0 {
        0
    } else {
        let id = slots.dom().choose();
        slot_holds(slots[id], generation) + set_aside(slots.remove(id), generation)
    }
}

/// The credits of a session that the client can still spend: those on hand and
/// those set aside.
pub open spec fn budget(m: CreditModel) -> int {
    m.available + set_aside(m.slots, m.generation)
}

/// The order in which slots are counted does not matter.
proof fn lemma_set_aside_remove(slots: Map<u64, SlotModel>, generation: u64, id: u64)
    requires
        slots.dom().finite(),
        slots.contains_key(id),
    ensures
        set_aside(slots, generation) == slot_holds(slots[id], generation) + set_aside(
            slots.remove(id),
            generation,
        ),
    decreases slots.dom().len(),
{
    let first = slots.dom().choose();
    assert(slots.dom().contains(id));
    assert(slots.dom().len() > 0);
    if first != id {
        lemma_set_aside_remove(slots.remove(first), generation, id);
        lemma_set_aside_remove(slots.remove(id), generation, first);
        assert(slots.remove(first).remove(id) =~= slots.remove(id).remove(first));
    }
}

/// Changing one slot changes the count by what that slot holds.
proof fn lemma_set_aside_insert(
    slots: Map<u64, SlotModel>,
    generation: u64,
    id: u64,
    slot: SlotModel,
)
    requires
        slots.dom().finite(),
    ensures
        set_aside(slots.insert(id, slot), generation) == slot_holds(slot, generation) + set_aside(
            slots.remove(id),
            generation,
        ),
{
    lemma_set_aside_remove(slots.insert(id, slot), generation, id);
    assert(slots.insert(id, slot).remove(id) =~= slots.remove(id));
}

/// Where nothing is held, nothing is set aside.
proof fn lemma_nothing_set_aside(slots: Map<u64, SlotModel>, generation: u64)
    requires
        slots.dom().finite(),
        forall|id: u64| #[trigger]
            slots.contains_key(id) ==> slot_holds(slots[id], generation) == 0,
    ensures
        set_aside(slots, generation) == 0,
    decreases slots.dom().len(),
{
    if slots.dom().len() > 0 {
        let id = slots.dom().choose();
        assert(slots.contains_key(id));
        let rest = slots.remove(id);
        assert forall|other: u64| #[trigger] rest.contains_key(other) implies slot_holds(
            rest[other],
            generation,
        ) == 0 by {
            assert(slots.contains_key(other));
        }
        lemma_nothing_set_aside(rest, generation);
    }
}

proof fn lemma_served_keeps_budget(m: CreditModel, class: CreditClass, gone: Set<u64>)
    requires
        m.well_formed(),
    ensures
        budget(m.served(class, gone)) == budget(m),
    decreases m.queue(class).len(),
{
    if m.head_fits(class) {
        let head = m.queue(class)[0];
        let lost = gone.contains(head.id);
        let next = m.head_served(class, lost);
        assert(m.waiter_has_slot(class, head));
        lemma_head_served_well_formed(m, class, lost);
        lemma_set_aside_remove(m.slots, m.generation, head.id);
        lemma_set_aside_insert(m.slots, m.generation, head.id, next.slots[head.id]);
        assert(next.slots =~= m.slots.insert(head.id, next.slots[head.id]));
        lemma_served_keeps_budget(next, class, gone);
    }
}

/// A dispatch moves credits from the pool to waiters, and makes none.
pub proof fn law_dispatch_keeps_budget(m: CreditModel, gone: Set<u64>)
    requires
        m.well_formed(),
    ensures
        budget(m.dispatched(gone)) == budget(m),
{
    let closes_served = m.served(CreditClass::Control, gone);
    lemma_served(m, CreditClass::Control, gone);
    lemma_served_keeps_budget(m, CreditClass::Control, gone);
    lemma_served_keeps_budget(closes_served, CreditClass::Data, gone);
}

/// A request that is parked costs nothing yet.
pub proof fn law_parking_keeps_budget(
    m: CreditModel,
    charge: u16,
    class: CreditClass,
    id: u64,
    channel: int,
)
    requires
        m.well_formed(),
        !m.slots.contains_key(id),
    ensures
        budget(m.parked(charge, class, id, channel)) == budget(m),
{
    let parked = m.parked(charge, class, id, channel);
    lemma_set_aside_insert(m.slots, m.generation, id, parked.slots[id]);
    assert(m.slots.remove(id) =~= m.slots);
}

/// A request that is sent at once costs exactly its charge.
pub proof fn law_reserving_costs_the_charge(m: CreditModel, charge: u16, class: CreditClass)
    requires
        m.can_reserve(charge, class),
    ensures
        budget(m.with_available((m.available - charge) as u16)) == budget(m) - charge,
{
}

/// A request whose owner collects costs exactly its charge if it was told to go
/// ahead in this session, and nothing otherwise.
pub proof fn law_collecting_costs_the_charge(m: CreditModel, id: u64)
    requires
        m.well_formed(),
        m.slots.contains_key(id),
    ensures
        budget(m.without_slot(id)) == budget(m) - slot_holds(m.slots[id], m.generation),
{
    lemma_set_aside_remove(m.slots, m.generation, id);
}

/// Walking away costs nothing: what was set aside is on hand again, up to the
/// largest count there is.
pub proof fn law_walking_away_keeps_budget(m: CreditModel, id: u64)
    requires
        m.well_formed(),
        m.slots.contains_key(id),
        !m.closed,
        m.available + m.slots[id].charge <= u16::MAX,
    ensures
        budget(m.abandoned(id)) == budget(m),
{
    lemma_set_aside_remove(m.slots, m.generation, id);
    if m.slots[id].state is Pending {
        lemma_withdrawn_well_formed(m, id);
        assert(m.abandoned(id).slots =~= m.slots.remove(id));
    } else {
        assert(m.abandoned(id).slots =~= m.slots.remove(id));
    }
}

/// Credits come from the server only: banking a grant adds at most what was
/// granted.
pub proof fn law_grant_adds_at_most_itself(m: CreditModel, credits: u16)
    ensures
        budget(m) <= budget(m.with_available(saturating_sum(m.available, credits))) <= budget(m)
            + credits,
        m.available + credits <= u16::MAX ==> budget(
            m.with_available(saturating_sum(m.available, credits)),
        ) == budget(m) + credits,
{
}

/// A new session starts with one credit, however many the old one had.
pub proof fn law_new_session_has_one_credit(m: CreditModel)
    requires
        m.well_formed(),
        forall|id: u64| #[trigger]
            m.slots.contains_key(id) ==> m.slots[id].generation
                != crate::credit_model::successor(m.generation),
    ensures
        budget(m.restarted()) == 1,
{
    let after = m.restarted();
    assert(after.slots.dom() =~= m.slots.dom());
    assert forall|id: u64| #[trigger] after.slots.contains_key(id) implies slot_holds(
        after.slots[id],
        after.generation,
    ) == 0 by {
        assert(m.slots.contains_key(id));
    }
    lemma_nothing_set_aside(after.slots, after.generation);
}

} // verus!
