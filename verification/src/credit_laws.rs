//! What holds of a credit pool as a whole.

use crate::credit_model::{
    lemma_available_is_free, lemma_dispatched, lemma_head_served_well_formed, lemma_served,
    requested, saturating_sum, successor, CreditClass, CreditModel, Waiter, WaiterState,
    CREDIT_TARGET,
};
use crate::credits::{collected, CreditWaitRegistration};
use crate::wakeup::{Answer, CreditPoolClosed};
use tokio::sync::oneshot::error::RecvError;
use vstd::prelude::*;

verus! {

/// A settled pool has nothing to dispatch.
pub proof fn law_settled_pool_is_left_alone(m: CreditModel, gone: Set<u64>)
    requires
        m.inv(),
    ensures
        m.dispatched(gone) == m,
{
}

/// After a dispatch no waiter that can be paid for is left parked, and another
/// dispatch changes nothing.
pub proof fn law_dispatch_settles(m: CreditModel, gone: Set<u64>, gone_later: Set<u64>)
    requires
        m.well_formed(),
    ensures
        ({
            let after = m.dispatched(gone);
            &&& after.control.len() == 0 || after.control[0].charge > after.available
            &&& after.control.len() == 0 ==> after.data.len() == 0 || after.data[0].charge
                > after.available
            &&& after.dispatched(gone_later) == after
        }),
{
    lemma_dispatched(m, gone);
    law_settled_pool_is_left_alone(m.dispatched(gone), gone_later);
}

/// Credits that were reserved and handed back unsent leave the pool exactly as
/// it was.
pub proof fn law_refund_undoes_reservation(
    m: CreditModel,
    charge: u16,
    class: CreditClass,
    gone: Set<u64>,
)
    requires
        m.inv(),
        m.can_reserve(charge, class),
    ensures
        ({
            let spent = m.with_available((m.available - charge) as u16);
            spent.with_available(saturating_sum(spent.available, charge)).dispatched(gone) == m
        }),
{
    let spent = m.with_available((m.available - charge) as u16);
    assert(spent.with_available(saturating_sum(spent.available, charge)) =~= m);
    law_settled_pool_is_left_alone(m, gone);
}

/// What the waiters of a queue took with them. Those in `gone` took nothing.
pub open spec fn credits_taken(queue: Seq<Waiter>, gone: Set<u64>) -> int
    decreases queue.len(),
{
    if queue.len() == 0 {
        0
    } else {
        (if gone.contains(queue[0].id) {
            0
        } else {
            queue[0].charge as int
        }) + credits_taken(queue.drop_first(), gone)
    }
}

/// How many waiters of a class a dispatch serves.
pub open spec fn served_count(m: CreditModel, class: CreditClass, gone: Set<u64>) -> nat
    decreases m.queue(class).len(),
{
    if m.head_fits(class) {
        1 + served_count(
            m.head_served(class, gone.contains(m.queue(class)[0].id)),
            class,
            gone,
        )
    } else {
        0
    }
}

/// Serving a class takes waiters off the front of its queue, and their charges
/// out of the budget.
pub proof fn lemma_served_prefix(m: CreditModel, class: CreditClass, gone: Set<u64>)
    requires
        m.well_formed(),
    ensures
        served_count(m, class, gone) <= m.queue(class).len(),
        m.served(class, gone).queue(class) == m.queue(class).skip(
            served_count(m, class, gone) as int,
        ),
        m.available == m.served(class, gone).available + credits_taken(
            m.queue(class).take(served_count(m, class, gone) as int),
            gone,
        ),
    decreases m.queue(class).len(),
{
    let queue = m.queue(class);
    if m.head_fits(class) {
        let lost = gone.contains(queue[0].id);
        let next = m.head_served(class, lost);
        let count = served_count(next, class, gone) as int;
        lemma_head_served_well_formed(m, class, lost);
        lemma_served_prefix(next, class, gone);
        assert(next.queue(class) == queue.drop_first());
        assert(next.queue(class).skip(count) =~= queue.skip(count + 1));
        assert(queue.take(count + 1).drop_first() =~= next.queue(class).take(count));
        assert(queue.take(count + 1)[0] == queue[0]);
    } else {
        assert(queue.skip(0) =~= queue);
        assert(queue.take(0) =~= Seq::empty());
    }
}

/// Each class is served strictly in order: a dispatch takes waiters off the
/// front of a queue and nowhere else.
pub proof fn law_each_class_is_first_come_first_served(m: CreditModel, gone: Set<u64>)
    requires
        m.well_formed(),
    ensures
        exists|n: int|
            0 <= n <= m.control.len() && m.dispatched(gone).control == #[trigger] m.control.skip(n),
        exists|n: int|
            0 <= n <= m.data.len() && m.dispatched(gone).data == #[trigger] m.data.skip(n),
{
    let closes_served = m.served(CreditClass::Control, gone);
    lemma_served(m, CreditClass::Control, gone);
    lemma_served_prefix(m, CreditClass::Control, gone);
    lemma_served(closes_served, CreditClass::Data, gone);
    lemma_served_prefix(closes_served, CreditClass::Data, gone);
    let closes = served_count(m, CreditClass::Control, gone) as int;
    assert(m.dispatched(gone).control == m.control.skip(closes));
    if closes_served.control.len() > 0 {
        assert(m.data.skip(0) =~= m.data);
    } else {
        let others = served_count(closes_served, CreditClass::Data, gone) as int;
        assert(m.dispatched(gone).data == m.data.skip(others));
    }
}

/// A smaller request never jumps over an older one that cannot be paid for.
pub proof fn law_unpaid_head_holds_its_queue(m: CreditModel, gone: Set<u64>)
    requires
        m.well_formed(),
        m.data.len() > 0,
        m.data[0].charge > m.available,
    ensures
        m.dispatched(gone).data == m.data,
{
    lemma_served(m, CreditClass::Control, gone);
}

/// A CLOSE that can be paid for runs, whatever else waits. Other requests run
/// only when no CLOSE is left waiting.
pub proof fn law_closes_run_first(m: CreditModel, gone: Set<u64>)
    requires
        m.well_formed(),
    ensures
        m.head_fits(CreditClass::Control) ==> m.dispatched(gone).control.len() < m.control.len(),
        m.dispatched(gone).control.len() > 0 ==> m.dispatched(gone).data == m.data,
{
    let closes_served = m.served(CreditClass::Control, gone);
    lemma_served(m, CreditClass::Control, gone);
    lemma_served_prefix(m, CreditClass::Control, gone);
    lemma_served(closes_served, CreditClass::Data, gone);
}

/// A dispatch neither loses nor makes credits: what leaves the budget is what
/// the served waiters took.
pub proof fn law_dispatch_conserves_credits(m: CreditModel, gone: Set<u64>)
    requires
        m.well_formed(),
    ensures
        ({
            let after = m.dispatched(gone);
            let closes = m.control.take(m.control.len() - after.control.len());
            let others = m.data.take(m.data.len() - after.data.len());
            m.available == after.available + credits_taken(closes, gone) + credits_taken(
                others,
                gone,
            )
        }),
{
    let closes_served = m.served(CreditClass::Control, gone);
    lemma_served(m, CreditClass::Control, gone);
    lemma_served_prefix(m, CreditClass::Control, gone);
    lemma_served(closes_served, CreditClass::Data, gone);
    lemma_served_prefix(closes_served, CreditClass::Data, gone);
    assert(m.data.take(0) =~= Seq::empty());
}

/// Serving a class leaves every request alone that does not wait in it.
pub proof fn lemma_served_keeps_slot(m: CreditModel, class: CreditClass, gone: Set<u64>, id: u64)
    requires
        m.well_formed(),
        m.slots.contains_key(id),
        !(m.slots[id].state is Pending) || m.slots[id].class != class,
    ensures
        m.served(class, gone).slots[id] == m.slots[id],
    decreases m.queue(class).len(),
{
    if m.head_fits(class) {
        let lost = gone.contains(m.queue(class)[0].id);
        assert(m.waiter_has_slot(class, m.queue(class)[0]));
        lemma_head_served_well_formed(m, class, lost);
        lemma_served_keeps_slot(m.head_served(class, lost), class, gone, id);
    }
}

/// An answer stands: what a parked request was told, no later dispatch,
/// teardown or revival changes.
pub proof fn law_answers_stand(m: CreditModel, gone: Set<u64>, id: u64)
    requires
        m.well_formed(),
        m.slots.contains_key(id),
        !(m.slots[id].state is Pending),
    ensures
        m.dispatched(gone).slots[id] == m.slots[id],
        m.shut().slots[id] == m.slots[id],
        m.restarted().slots[id] == m.slots[id],
{
    let closes_served = m.served(CreditClass::Control, gone);
    lemma_served(m, CreditClass::Control, gone);
    lemma_served_keeps_slot(m, CreditClass::Control, gone, id);
    lemma_served_keeps_slot(closes_served, CreditClass::Data, gone, id);
}

/// A grant wakes a waiter: once the oldest request that may run can be paid
/// for, a dispatch answers it. It is told to go ahead unless its owner has left.
pub proof fn law_fitting_head_is_answered(m: CreditModel, class: CreditClass, gone: Set<u64>)
    requires
        m.well_formed(),
        m.head_fits(class),
        class is Data ==> m.control.len() == 0,
    ensures
        ({
            let head = m.queue(class)[0];
            m.dispatched(gone).slots[head.id].state == (if gone.contains(head.id) {
                WaiterState::Cancelled
            } else {
                WaiterState::Granted
            })
        }),
{
    let head = m.queue(class)[0];
    let lost = gone.contains(head.id);
    let closes_served = m.served(CreditClass::Control, gone);
    assert(m.waiter_has_slot(class, head));
    lemma_served(m, CreditClass::Control, gone);
    lemma_head_served_well_formed(m, class, lost);
    lemma_served_keeps_slot(m.head_served(class, lost), class, gone, head.id);
    if class is Control {
        lemma_served_keeps_slot(closes_served, CreditClass::Data, gone, head.id);
    }
}

/// A teardown or a revival leaves nobody waiting and forgets nobody.
pub proof fn law_session_change_leaves_nobody_waiting(m: CreditModel, id: u64)
    ensures
        m.shut().control.len() == 0 && m.shut().data.len() == 0,
        m.restarted().control.len() == 0 && m.restarted().data.len() == 0,
        m.slots.contains_key(id) ==> !(m.shut().slots[id].state is Pending),
        m.slots.contains_key(id) ==> !(m.restarted().slots[id].state is Pending),
        m.shut().slots.dom() == m.slots.dom() && m.restarted().slots.dom() == m.slots.dom(),
{
}

/// The number of the session after so many changes.
pub open spec fn later_session(generation: u64, changes: nat) -> u64
    decreases changes,
{
    if changes == 0 {
        generation
    } else {
        successor(later_session(generation, (changes - 1) as nat))
    }
}

proof fn lemma_later_session(generation: u64, changes: nat)
    ensures
        later_session(generation, changes) == (generation + changes) % 0x1_0000_0000_0000_0000,
    decreases changes,
{
    if changes > 0 {
        lemma_later_session(generation, (changes - 1) as nat);
    }
}

/// A session that is over does not come back: its number is not used again
/// until all the others have been.
pub proof fn law_retired_session_stays_retired(generation: u64, changes: nat)
    requires
        0 < changes < 0x1_0000_0000_0000_0000,
    ensures
        later_session(generation, changes) != generation,
{
    lemma_later_session(generation, changes);
}

/// Nobody collects in a new session what was granted in the one before.
pub proof fn law_grants_do_not_cross_sessions(m: CreditModel, id: u64)
    requires
        m.slots.contains_key(id),
        m.slots[id].generation == m.generation,
    ensures
        !m.shut().is_current(m.shut().slots[id]),
        !m.restarted().is_current(m.restarted().slots[id]),
        !m.shut().restarted().is_current(m.shut().restarted().slots[id]),
{
}

/// Within a session, whatever else happens to the pool, the request `id` keeps
/// its slot, and is not told to give up.
pub open spec fn keeps_wait(before: CreditModel, after: CreditModel, id: u64) -> bool {
    &&& after.generation == before.generation
    &&& after.closed == before.closed
    &&& after.slots.contains_key(id)
    &&& after.slots[id].generation == before.slots[id].generation
    &&& after.slots[id].state is Failed ==> before.slots[id].state is Failed
}

/// The pool is torn down or revived.
pub open spec fn changes_session(before: CreditModel, after: CreditModel) -> bool {
    after == before.shut() || after == before.restarted()
}

/// How often the pool is torn down or revived in a history.
pub open spec fn session_changes(history: Seq<CreditModel>) -> nat
    decreases history.len(),
{
    if history.len() < 2 {
        0
    } else {
        session_changes(history.drop_last()) + (if changes_session(
            history[history.len() - 2],
            history.last(),
        ) {
            1nat
        } else {
            0nat
        })
    }
}

/// The history of a pool while the request `id` is parked: it starts in the open
/// session in which the request was parked, and each event either changes the
/// session or leaves the request its wait.
pub open spec fn is_wait(history: Seq<CreditModel>, id: u64) -> bool {
    &&& history.len() > 0
    &&& history[0].slots.contains_key(id)
    &&& history[0].slots[id].generation == history[0].generation
    &&& history[0].slots[id].state is Pending
    &&& !history[0].closed
    &&& forall|i: int|
        0 < i < history.len() ==> changes_session(history[i - 1], #[trigger] history[i])
            || keeps_wait(history[i - 1], history[i], id)
}

proof fn lemma_served_keeps_wait(m: CreditModel, class: CreditClass, gone: Set<u64>, id: u64)
    requires
        m.well_formed(),
        m.slots.contains_key(id),
    ensures
        keeps_wait(m, m.served(class, gone), id),
    decreases m.queue(class).len(),
{
    if m.head_fits(class) {
        let lost = gone.contains(m.queue(class)[0].id);
        assert(m.waiter_has_slot(class, m.queue(class)[0]));
        lemma_head_served_well_formed(m, class, lost);
        lemma_served_keeps_wait(m.head_served(class, lost), class, gone, id);
    }
}

/// The wait of a request starts when it is parked.
pub proof fn law_parking_starts_a_wait(
    m: CreditModel,
    charge: u16,
    class: CreditClass,
    id: u64,
    channel: int,
)
    requires
        !m.closed,
    ensures
        is_wait(seq![m.parked(charge, class, id, channel)], id),
{
}

/// Nothing that the pool does within a session ends the wait of a request:
/// changing the number of credits, dispatching, and the parking, collecting and
/// walking away of others.
pub proof fn law_session_events_keep_a_wait(
    m: CreditModel,
    id: u64,
    available: u16,
    gone: Set<u64>,
    charge: u16,
    class: CreditClass,
    other: u64,
    channel: int,
)
    requires
        m.well_formed(),
        m.slots.contains_key(id),
        other != id,
    ensures
        keeps_wait(m, m.with_available(available), id),
        keeps_wait(m, m.dispatched(gone), id),
        keeps_wait(m, m.parked(charge, class, other, channel), id),
        keeps_wait(m, m.without_slot(other), id),
        keeps_wait(m, m.abandoned(other), id),
{
    let closes_served = m.served(CreditClass::Control, gone);
    lemma_served(m, CreditClass::Control, gone);
    lemma_served_keeps_wait(m, CreditClass::Control, gone, id);
    lemma_served_keeps_wait(closes_served, CreditClass::Data, gone, id);
}

/// A parked request that was told to go ahead is refused if and only if its
/// session is over by the time its owner collects. Otherwise its owner gets the
/// number of its session.
pub proof fn law_collecting_depends_on_the_session(
    later: CreditModel,
    claim: CreditWaitRegistration,
    generation: u64,
    changes: nat,
)
    requires
        claim.armed(),
        later.slots.contains_key(claim.id()),
        later.slots[claim.id()].generation == generation,
        later.generation == later_session(generation, changes),
        changes < 0x1_0000_0000_0000_0000,
        later.closed ==> changes > 0,
    ensures
        collected(later, claim, Ok(Ok(()))) is Err <==> changes > 0,
        changes == 0 ==> collected(later, claim, Ok(Ok(()))) == Ok::<u64, CreditPoolClosed>(
            generation,
        ),
{
    lemma_later_session(generation, changes);
}

proof fn lemma_wait(history: Seq<CreditModel>, id: u64)
    requires
        is_wait(history, id),
    ensures
        history.last().slots.contains_key(id),
        history.last().slots[id].generation == history[0].generation,
        history.last().generation == later_session(
            history[0].generation,
            session_changes(history),
        ),
        history.last().closed ==> session_changes(history) > 0,
        history.last().slots[id].state is Failed ==> session_changes(history) > 0,
    decreases history.len(),
{
    if history.len() > 1 {
        let earlier = history.drop_last();
        assert forall|i: int| 0 < i < earlier.len() implies changes_session(
            earlier[i - 1],
            #[trigger] earlier[i],
        ) || keeps_wait(earlier[i - 1], earlier[i], id) by {
            assert(history[i] == earlier[i] && history[i - 1] == earlier[i - 1]);
        }
        lemma_wait(earlier, id);
        let last = history[history.len() - 1];
        assert(earlier.last() == history[history.len() - 2]);
        assert(changes_session(history[history.len() - 2], last) || keeps_wait(
            history[history.len() - 2],
            last,
            id,
        ));
    }
}

/// A wait as a whole: a request that was parked and is answered in the end is
/// refused if and only if the pool was torn down or revived in between, also
/// where it had been told to go ahead before that. Otherwise its owner gets the
/// session in which it was parked, which is still the pool's. What its owner
/// received is what was sent: to go ahead, or to give up.
pub proof fn law_wait_is_refused_only_by_a_session_change(
    history: Seq<CreditModel>,
    claim: CreditWaitRegistration,
    received: Result<Answer, RecvError>,
)
    requires
        is_wait(history, claim.id()),
        claim.armed(),
        session_changes(history) < 0x1_0000_0000_0000_0000,
        ({
            let state = history.last().slots[claim.id()].state;
            ||| state is Granted && received == Ok::<Answer, RecvError>(Ok(()))
            ||| state is Failed && received == Ok::<Answer, RecvError>(Err(CreditPoolClosed))
        }),
    ensures
        collected(history.last(), claim, received) is Err <==> session_changes(history) > 0,
        session_changes(history) == 0 ==> collected(history.last(), claim, received) == Ok::<
            u64,
            CreditPoolClosed,
        >(history[0].generation) && history.last().generation == history[0].generation,
{
    lemma_wait(history, claim.id());
    law_collecting_depends_on_the_session(
        history.last(),
        claim,
        history[0].generation,
        session_changes(history),
    );
}

/// Serving a class, then adding credits and serving it again, is serving it once
/// with all the credits.
proof fn lemma_served_twice(m: CreditModel, class: CreditClass, gone: Set<u64>, credits: u16)
    requires
        m.well_formed(),
        m.available + credits <= u16::MAX,
    ensures
        ({
            let once = m.served(class, gone);
            m.with_available((m.available + credits) as u16).served(class, gone)
                == once.with_available((once.available + credits) as u16).served(class, gone)
        }),
    decreases m.queue(class).len(),
{
    if m.head_fits(class) {
        let lost = gone.contains(m.queue(class)[0].id);
        let next = m.head_served(class, lost);
        let richer = m.with_available((m.available + credits) as u16);
        lemma_head_served_well_formed(m, class, lost);
        lemma_served_twice(next, class, gone, credits);
        assert(richer.head_fits(class));
        assert(richer.head_served(class, lost) =~= next.with_available(
            (next.available + credits) as u16,
        ));
    }
}

/// Grants add up: banking one grant and then another leaves the pool exactly as
/// banking both at once, with the same waiters served.
pub proof fn law_grants_add_up(m: CreditModel, a: u16, b: u16, gone: Set<u64>)
    requires
        m.inv(),
        !m.closed,
        m.available + a + b <= u16::MAX,
    ensures
        ({
            let first = m.with_available(saturating_sum(m.available, a)).dispatched(gone);
            let both = m.with_available(saturating_sum(m.available, (a + b) as u16));
            first.with_available(saturating_sum(first.available, b)).dispatched(gone)
                == both.dispatched(gone)
        }),
{
    let once = m.with_available((m.available + a) as u16);
    let both = m.with_available((m.available + a + b) as u16);
    lemma_available_is_free(m, (m.available + a) as u16);
    lemma_dispatched(once, gone);
    assert(both =~= once.with_available((once.available + b) as u16));
    lemma_served(once, CreditClass::Control, gone);
    lemma_served_twice(once, CreditClass::Control, gone, b);
    let closes_served = once.served(CreditClass::Control, gone);
    if closes_served.control.len() == 0 {
        lemma_served(closes_served, CreditClass::Data, gone);
        lemma_served_twice(closes_served, CreditClass::Data, gone, b);
        let richer = closes_served.with_available((closes_served.available + b) as u16);
        assert(richer.served(CreditClass::Control, gone) == richer);
        let first = closes_served.served(CreditClass::Data, gone);
        let again = first.with_available((first.available + b) as u16);
        assert(again.served(CreditClass::Control, gone) == again);
    }
}

/// Serving a class depends only on which of the answered waiters are gone.
proof fn lemma_served_agrees(m: CreditModel, class: CreditClass, g: Set<u64>, h: Set<u64>)
    requires
        m.well_formed(),
        forall|id: u64| #[trigger]
            m.slots.contains_key(id) && m.slots[id].state is Pending && !(m.served(
                class,
                g,
            ).slots[id].state is Pending) ==> g.contains(id) == h.contains(id),
    ensures
        m.served(class, g) == m.served(class, h),
    decreases m.queue(class).len(),
{
    if m.head_fits(class) {
        let head = m.queue(class)[0];
        let lost = g.contains(head.id);
        let next = m.head_served(class, lost);
        assert(m.waiter_has_slot(class, head));
        lemma_head_served_well_formed(m, class, lost);
        lemma_served_keeps_slot(next, class, g, head.id);
        assert(m.slots.contains_key(head.id));
        assert forall|id: u64| #[trigger]
            next.slots.contains_key(id) && next.slots[id].state is Pending && !(next.served(
                class,
                g,
            ).slots[id].state is Pending) implies g.contains(id) == h.contains(id) by {
            assert(m.slots.contains_key(id));
        }
        lemma_served_agrees(next, class, g, h);
    }
}

/// A dispatch depends only on which of the answered waiters are gone.
proof fn lemma_dispatched_agrees(m: CreditModel, g: Set<u64>, h: Set<u64>)
    requires
        m.well_formed(),
        forall|id: u64| #[trigger]
            m.slots.contains_key(id) && m.slots[id].state is Pending && !(m.dispatched(
                g,
            ).slots[id].state is Pending) ==> g.contains(id) == h.contains(id),
    ensures
        m.dispatched(g) == m.dispatched(h),
{
    let closes_served = m.served(CreditClass::Control, g);
    lemma_served(m, CreditClass::Control, g);
    assert forall|id: u64| #[trigger]
        m.slots.contains_key(id) && m.slots[id].state is Pending && !(
        closes_served.slots[id].state is Pending) implies g.contains(id) == h.contains(id) by {
        assert(closes_served.slots.dom().contains(id));
        lemma_served_keeps_slot(closes_served, CreditClass::Data, g, id);
    }
    lemma_served_agrees(m, CreditClass::Control, g, h);
    if closes_served.control.len() == 0 {
        assert forall|id: u64| #[trigger]
            closes_served.slots.contains_key(id) && closes_served.slots[id].state is Pending
                && !(closes_served.served(CreditClass::Data, g).slots[id].state is Pending) implies
            g.contains(id) == h.contains(id) by {
            assert(m.slots.dom().contains(id));
            if !(m.slots[id].state is Pending) {
                lemma_served_keeps_slot(m, CreditClass::Control, g, id);
            }
        }
        lemma_served_agrees(closes_served, CreditClass::Data, g, h);
    }
}

/// Grants add up whoever leaves in between: what two grants in a row leave
/// behind, one grant of their sum can leave behind.
pub proof fn law_two_grants_follow_one(
    m: CreditModel,
    a: u16,
    b: u16,
    first: CreditModel,
    second: CreditModel,
)
    requires
        m.inv(),
        !m.closed,
        m.available + a + b <= u16::MAX,
        first.follows_dispatch_of(m.with_available(saturating_sum(m.available, a))),
        second.follows_dispatch_of(first.with_available(saturating_sum(first.available, b))),
    ensures
        second.follows_dispatch_of(
            m.with_available(saturating_sum(m.available, (a + b) as u16)),
        ),
{
    let once = m.with_available(saturating_sum(m.available, a));
    let again = first.with_available(saturating_sum(first.available, b));
    let g = choose|gone: Set<u64>| first == #[trigger] once.dispatched(gone);
    let h = choose|gone: Set<u64>| second == #[trigger] again.dispatched(gone);
    let gone = Set::new(
        |id: u64|
            if first.slots[id].state is Pending {
                h.contains(id)
            } else {
                g.contains(id)
            },
    );
    lemma_available_is_free(m, once.available);
    lemma_dispatched(once, g);
    lemma_available_is_free(first, again.available);
    lemma_dispatched_agrees(once, g, gone);
    lemma_dispatched_agrees(again, h, gone);
    law_grants_add_up(m, a, b, gone);
}

/// Every request asks for at least its own charge and, as far as the field can
/// say it, for what the window lacks.
pub proof fn law_request_covers_charge_and_target(charge: u16, available: u16)
    ensures
        requested(charge, available) >= charge,
        available >= CREDIT_TARGET ==> requested(charge, available) == charge,
        available < CREDIT_TARGET ==> (available + requested(charge, available) == charge
            + CREDIT_TARGET || requested(charge, available) == u16::MAX),
{
}

/// Walking away from a grant of this session returns its credits in full,
/// unless the count is at its limit.
pub proof fn law_abandoned_grant_comes_back(m: CreditModel, id: u64)
    requires
        m.slots.contains_key(id),
        m.slots[id].state is Granted,
        m.is_current(m.slots[id]),
        m.available + m.slots[id].charge <= u16::MAX,
    ensures
        m.abandoned(id).available == m.available + m.slots[id].charge,
        !m.abandoned(id).slots.contains_key(id),
{
}

/// Walking away from a waiting request takes it, and nobody else, out of its
/// queue, and costs no credits.
pub proof fn law_abandoned_wait_frees_its_place(m: CreditModel, id: u64)
    requires
        m.well_formed(),
        m.slots.contains_key(id),
        m.slots[id].state is Pending,
    ensures
        !m.abandoned(id).queued(m.slots[id].class, id),
        forall|class: CreditClass, other: u64|
            other != id ==> m.abandoned(id).queued(class, other) == #[trigger] m.queued(
                class,
                other,
            ),
        m.abandoned(id).available == m.available,
        !m.abandoned(id).slots.contains_key(id),
{
    crate::credit_model::lemma_withdrawn_well_formed(m, id);
    let after = m.abandoned(id);
    let its = m.slots[id].class;
    let place = m.place(its, id);
    if after.queued(its, id) {
        let i = after.place(its, id);
        assert(after.waiter_has_slot(its, after.queue(its)[i]));
    }
    assert forall|class: CreditClass, other: u64| other != id implies after.queued(class, other)
        == #[trigger] m.queued(class, other) by {
        if m.queued(class, other) {
            let i = m.place(class, other);
            let j = if class == its && i > place {
                i - 1
            } else {
                i
            };
            assert(after.queue(class)[j].id == other);
        }
        if after.queued(class, other) {
            let j = after.place(class, other);
            let i = if class == its && j >= place {
                j + 1
            } else {
                j
            };
            assert(m.queue(class)[i].id == other);
        }
    }
}

} // verus!
