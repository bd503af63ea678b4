//! Who goes first: requests of a class are answered in the order in which they
//! were parked.

use crate::credit_laws::{law_answers_stand, law_each_class_is_first_come_first_served};
use crate::credit_model::{
    lemma_dispatched, lemma_withdrawn_well_formed, CreditClass, CreditModel, Waiter, WaiterState,
};
use crate::credit_spending_laws::{law_dispatch_tells_the_closes, law_dispatch_tells_the_others};
use vstd::prelude::*;

verus! {

/// The waiters of a class, oldest first.
pub open spec fn line(m: CreditModel, class: CreditClass) -> Seq<Waiter> {
    if class == CreditClass::Control {
        m.control
    } else {
        m.data
    }
}

/// `a` and `b` both wait in this class, `a` before `b`.
pub open spec fn stands_before(m: CreditModel, class: CreditClass, a: u64, b: u64) -> bool {
    exists|i: int, j: int|
        0 <= i < j < line(m, class).len() && #[trigger] line(m, class)[i].id == a
            && #[trigger] line(m, class)[j].id == b
}

/// The request has not been answered.
pub open spec fn still_waits(m: CreditModel, id: u64) -> bool {
    m.slots.contains_key(id) && m.slots[id].state == WaiterState::Pending
}

/// The request has been answered, and its owner has not come back yet.
pub open spec fn was_answered(m: CreditModel, id: u64) -> bool {
    m.slots.contains_key(id) && m.slots[id].state != WaiterState::Pending
}

/// A request that is parked joins the back of the queue of its class: the queue
/// is the old one followed by the new request. The other queue stays as it was.
pub proof fn law_parking_joins_the_back(
    m: CreditModel,
    charge: u16,
    class: CreditClass,
    id: u64,
    channel: int,
)
    ensures
        ({
            let after = m.parked(charge, class, id, channel);
            let other = if class == CreditClass::Control {
                CreditClass::Data
            } else {
                CreditClass::Control
            };
            &&& line(after, class).len() == line(m, class).len() + 1
            &&& line(after, class).drop_last() == line(m, class)
            &&& line(after, class).last() == (Waiter { id, charge, channel })
            &&& line(after, other) == line(m, other)
        }),
{
    let after = m.parked(charge, class, id, channel);
    assert(line(after, class).drop_last() =~= line(m, class));
}

/// Whoever was parked earlier in a class stands before whoever is parked now.
pub proof fn law_parking_keeps_arrival_order(
    m: CreditModel,
    charge: u16,
    class: CreditClass,
    id: u64,
    channel: int,
    i: int,
)
    requires
        0 <= i < line(m, class).len(),
    ensures
        stands_before(m.parked(charge, class, id, channel), class, line(m, class)[i].id, id),
{
    let after = m.parked(charge, class, id, channel);
    law_parking_joins_the_back(m, charge, class, id, channel);
    assert(line(after, class)[i] == line(after, class).drop_last()[i]);
    assert(line(after, class)[line(m, class).len() as int].id == id);
}

/// One event within a session that parks nobody under the numbers `a` and `b`:
/// the number of credits changes, waiters are served, another request is parked,
/// an answer is collected, or an owner walks away.
pub open spec fn is_event(before: CreditModel, after: CreditModel, a: u64, b: u64) -> bool {
    ||| exists|available: u16| after == #[trigger] before.with_available(available)
    ||| after.follows_dispatch_of(before)
    ||| exists|charge: u16, class: CreditClass, id: u64, channel: int|
        id != a && id != b && !before.slots.contains_key(id) && after == #[trigger] before.parked(
            charge,
            class,
            id,
            channel,
        )
    ||| exists|id: u64|
        !still_waits(before, id) && after == #[trigger] before.without_slot(id)
    ||| exists|id: u64|
        before.slots.contains_key(id) && after == #[trigger] before.abandoned(id)
}

/// While `a` waits, `b` waits behind it or is not known any more.
pub open spec fn waits_its_turn(m: CreditModel, class: CreditClass, a: u64, b: u64) -> bool {
    still_waits(m, a) ==> {
        &&& m.slots[a].class == class
        &&& m.slots.contains_key(b) ==> stands_before(m, class, a, b)
    }
}

proof fn lemma_event_keeps_turn(
    before: CreditModel,
    after: CreditModel,
    class: CreditClass,
    a: u64,
    b: u64,
)
    requires
        before.well_formed(),
        after.well_formed(),
        a != b,
        is_event(before, after, a, b),
        waits_its_turn(before, class, a, b),
    ensures
        waits_its_turn(after, class, a, b),
{
    if still_waits(after, a) {
        assert(before.queue(class) == line(before, class));
        assert(after.queue(class) == line(after, class));
        if exists|available: u16| after == #[trigger] before.with_available(available) {
            lemma_same_line(before, after, class, a, b);
        } else if after.follows_dispatch_of(before) {
            let gone = choose|gone: Set<u64>| after == #[trigger] before.dispatched(gone);
            lemma_dispatch_keeps_turn(before, gone, class, a, b);
        } else if exists|charge: u16, its: CreditClass, id: u64, channel: int|
            id != a && id != b && !before.slots.contains_key(id) && after
                == #[trigger] before.parked(charge, its, id, channel) {
            let (charge, its, id, channel) = choose|
                charge: u16,
                its: CreditClass,
                id: u64,
                channel: int,
            |
                id != a && id != b && !before.slots.contains_key(id) && after
                    == #[trigger] before.parked(charge, its, id, channel);
            law_parking_joins_the_back(before, charge, its, id, channel);
            if after.slots.contains_key(b) {
                let (i, j) = choose|i: int, j: int|
                    0 <= i < j < line(before, class).len() && #[trigger] line(before, class)[i].id
                        == a && #[trigger] line(before, class)[j].id == b;
                if its == class {
                    assert(line(after, class)[i] == line(after, class).drop_last()[i]);
                    assert(line(after, class)[j] == line(after, class).drop_last()[j]);
                }
                assert(line(after, class)[i].id == a);
                assert(line(after, class)[j].id == b);
            }
        } else if exists|id: u64|
            !still_waits(before, id) && after == #[trigger] before.without_slot(id) {
            let id = choose|id: u64|
                !still_waits(before, id) && after == #[trigger] before.without_slot(id);
            lemma_same_line(before, after, class, a, b);
        } else {
            let id = choose|id: u64|
                before.slots.contains_key(id) && after == #[trigger] before.abandoned(id);
            lemma_abandon_keeps_turn(before, id, class, a, b);
        }
    }
}

proof fn lemma_same_line(
    before: CreditModel,
    after: CreditModel,
    class: CreditClass,
    a: u64,
    b: u64,
)
    requires
        line(after, class) == line(before, class),
        still_waits(after, a),
        still_waits(before, a),
        after.slots[a] == before.slots[a],
        after.slots.contains_key(b) ==> before.slots.contains_key(b),
        waits_its_turn(before, class, a, b),
    ensures
        waits_its_turn(after, class, a, b),
{
    if after.slots.contains_key(b) {
        let (i, j) = choose|i: int, j: int|
            0 <= i < j < line(before, class).len() && #[trigger] line(before, class)[i].id == a
                && #[trigger] line(before, class)[j].id == b;
        assert(line(after, class)[i].id == a);
        assert(line(after, class)[j].id == b);
    }
}

proof fn lemma_dispatch_keeps_turn(
    m: CreditModel,
    gone: Set<u64>,
    class: CreditClass,
    a: u64,
    b: u64,
)
    requires
        m.well_formed(),
        a != b,
        waits_its_turn(m, class, a, b),
        still_waits(m.dispatched(gone), a),
    ensures
        waits_its_turn(m.dispatched(gone), class, a, b),
{
    let after = m.dispatched(gone);
    lemma_dispatched(m, gone);
    assert(after.slots.dom().contains(a) && m.slots.dom().contains(a));
    assert(after.slots.dom().contains(b) == m.slots.dom().contains(b));
    if m.slots[a].state != WaiterState::Pending {
        law_answers_stand(m, gone, a);
    }
    assert(m.queue(class) == line(m, class) && after.queue(class) == line(after, class));
    assert(m.queued(m.slots[a].class, a));
    let i = m.place(class, a);
    assert(m.waiter_has_slot(class, m.queue(class)[i]));
    if class is Control {
        law_dispatch_tells_the_closes(m, gone, i);
    } else {
        law_dispatch_tells_the_others(m, gone, i);
    }
    law_each_class_is_first_come_first_served(m, gone);
    let left = line(m, class).len() - line(after, class).len();
    assert(line(after, class) == line(m, class).skip(left));
    assert(i >= left);
    if m.slots.contains_key(b) {
        let (k, j) = choose|k: int, j: int|
            0 <= k < j < line(m, class).len() && #[trigger] line(m, class)[k].id == a
                && #[trigger] line(m, class)[j].id == b;
        if k < i {
            assert(m.queue(class)[k].id != m.queue(class)[i].id);
        } else if i < k {
            assert(m.queue(class)[i].id != m.queue(class)[k].id);
        }
        assert(line(after, class)[i - left].id == a);
        assert(line(after, class)[j - left].id == b);
    }
}

proof fn lemma_abandon_keeps_turn(m: CreditModel, id: u64, class: CreditClass, a: u64, b: u64)
    requires
        m.well_formed(),
        m.slots.contains_key(id),
        waits_its_turn(m, class, a, b),
        still_waits(m.abandoned(id), a),
    ensures
        waits_its_turn(m.abandoned(id), class, a, b),
{
    let after = m.abandoned(id);
    let its = m.slots[id].class;
    assert(m.queue(class) == line(m, class) && after.queue(class) == line(after, class));
    if m.slots[id].state is Pending && its == class {
        lemma_withdrawn_well_formed(m, id);
        let place = m.place(its, id);
        assert(id != a);
        if after.slots.contains_key(b) {
            let (i, j) = choose|i: int, j: int|
                0 <= i < j < line(m, class).len() && #[trigger] line(m, class)[i].id == a
                    && #[trigger] line(m, class)[j].id == b;
            assert(i != place && j != place);
            let i0 = if i > place {
                i - 1
            } else {
                i
            };
            let j0 = if j > place {
                j - 1
            } else {
                j
            };
            assert(line(after, class)[i0].id == a);
            assert(line(after, class)[j0].id == b);
        }
    } else {
        if m.slots[id].state is Pending {
            lemma_withdrawn_well_formed(m, id);
        }
        lemma_same_line(m, after, class, a, b);
    }
}

/// First come, first served over a whole session: of two requests of a class, the
/// one that was parked later is never answered while the one that was parked
/// earlier still waits, whatever is granted, parked, collected or abandoned.
pub proof fn law_nobody_overtakes(
    history: Seq<CreditModel>,
    class: CreditClass,
    earlier: u64,
    later: u64,
    at: int,
)
    requires
        earlier != later,
        0 <= at < history.len(),
        stands_before(history[0], class, earlier, later),
        forall|i: int| 0 <= i < history.len() ==> (#[trigger] history[i]).well_formed(),
        forall|i: int|
            0 < i < history.len() ==> is_event(
                history[i - 1],
                #[trigger] history[i],
                earlier,
                later,
            ),
    ensures
        was_answered(history[at], later) ==> !still_waits(history[at], earlier),
{
    lemma_turn_over_history(history, class, earlier, later, at);
    let m = history[at];
    if still_waits(m, earlier) && m.slots.contains_key(later) {
        let (i, j) = choose|i: int, j: int|
            0 <= i < j < line(m, class).len() && #[trigger] line(m, class)[i].id == earlier
                && #[trigger] line(m, class)[j].id == later;
        assert(m.queue(class) == line(m, class));
        assert(m.waiter_has_slot(class, m.queue(class)[j]));
    }
}

/// The same from the moment the later request is parked: no request of its class
/// that was parked before it is still waiting when it is answered.
pub proof fn law_parked_later_is_answered_later(
    m: CreditModel,
    charge: u16,
    class: CreditClass,
    later: u64,
    channel: int,
    place: int,
    history: Seq<CreditModel>,
    at: int,
)
    requires
        m.well_formed(),
        !m.slots.contains_key(later),
        0 <= place < line(m, class).len(),
        0 <= at < history.len(),
        history[0] == m.parked(charge, class, later, channel),
        forall|i: int| 0 <= i < history.len() ==> (#[trigger] history[i]).well_formed(),
        forall|i: int|
            0 < i < history.len() ==> is_event(
                history[i - 1],
                #[trigger] history[i],
                line(m, class)[place].id,
                later,
            ),
    ensures
        was_answered(history[at], later) ==> !still_waits(history[at], line(m, class)[place].id),
{
    let earlier = line(m, class)[place].id;
    assert(m.queue(class) == line(m, class));
    assert(m.waiter_has_slot(class, m.queue(class)[place]));
    law_parking_keeps_arrival_order(m, charge, class, later, channel, place);
    law_nobody_overtakes(history, class, earlier, later, at);
}

proof fn lemma_turn_over_history(
    history: Seq<CreditModel>,
    class: CreditClass,
    a: u64,
    b: u64,
    at: int,
)
    requires
        a != b,
        0 <= at < history.len(),
        stands_before(history[0], class, a, b),
        forall|i: int| 0 <= i < history.len() ==> (#[trigger] history[i]).well_formed(),
        forall|i: int|
            0 < i < history.len() ==> is_event(history[i - 1], #[trigger] history[i], a, b),
    ensures
        waits_its_turn(history[at], class, a, b),
    decreases at,
{
    if at == 0 {
        let m = history[0];
        let (i, j) = choose|i: int, j: int|
            0 <= i < j < line(m, class).len() && #[trigger] line(m, class)[i].id == a
                && #[trigger] line(m, class)[j].id == b;
        assert(m.queue(class) == line(m, class));
        assert(m.waiter_has_slot(class, m.queue(class)[i]));
    } else {
        lemma_turn_over_history(history, class, a, b, at - 1);
        lemma_event_keeps_turn(history[at - 1], history[at], class, a, b);
    }
}

} // verus!
