//! What a credit pool is, mathematically, and how each event changes it.

use vstd::prelude::*;

verus! {

/// The window the client steers the server toward, in credits.
///
/// Every request asks for its own charge back plus whatever is needed to reach
/// this number, so an idle connection asks for little and a saturated one asks
/// for a lot. Servers clamp the request to their own maximum, so asking high is
/// safe. Asking low is not, because a window that shrinks to nothing serializes
/// every transfer.
pub const CREDIT_TARGET: u16 = 512;

/// Scheduling class for a request waiting on credits.
#[derive(Clone, Copy, Debug, PartialEq, Eq, Structural)]
pub enum CreditClass {
    /// Standalone CLOSE requests, which must not be blocked by a large READ.
    Control,
    /// All ordinary and compound requests.
    Data,
}

/// How far a parked request has come.
pub enum WaiterState {
    /// In its queue, not answered yet.
    Pending,
    /// Its credits have been set aside and it has been told to go ahead.
    Granted,
    /// Told to give up, because the budget it waited for is gone.
    Failed,
    /// Its owner had left by the time the credits were offered.
    Cancelled,
}

/// What is known of a parked request until its owner collects the answer or
/// walks away.
pub struct SlotModel {
    pub charge: u16,
    pub class: CreditClass,
    pub generation: u64,
    /// The channel on which it is, or was, answered.
    pub channel: int,
    pub state: WaiterState,
}

/// A queued request: its number, what it needs, and the channel on which it is
/// answered.
pub struct Waiter {
    pub id: u64,
    pub charge: u16,
    pub channel: int,
}

/// The mathematical state of a credit pool.
#[verifier::ext_equal]
pub struct CreditModel {
    /// Credits granted by the server and not reserved by a request.
    pub available: u16,
    pub closed: bool,
    /// Which session the budget belongs to.
    pub generation: u64,
    pub next_waiter_id: u64,
    /// Parked CLOSE requests, oldest first.
    pub control: Seq<Waiter>,
    /// Other parked requests, oldest first.
    pub data: Seq<Waiter>,
    /// Every parked request whose owner has not come back yet.
    pub slots: Map<u64, SlotModel>,
}

/// `a + b`, or the largest credit count where that is too much.
pub open spec fn saturating_sum(a: u16, b: u16) -> u16 {
    if a + b > u16::MAX {
        u16::MAX
    } else {
        (a + b) as u16
    }
}

/// No request is free of charge.
pub open spec fn effective_charge(charge: u16) -> u16 {
    if charge == 0 {
        1
    } else {
        charge
    }
}

/// How many credits to ask for on a request of this charge.
pub open spec fn requested(charge: u16, available: u16) -> u16 {
    saturating_sum(
        charge,
        if available < CREDIT_TARGET {
            (CREDIT_TARGET - available) as u16
        } else {
            0
        },
    )
}

/// The number that follows `n`, starting over after the largest one.
pub open spec fn successor(n: u64) -> u64 {
    if n == u64::MAX {
        0
    } else {
        (n + 1) as u64
    }
}

/// How many steps lead from `start` up to `n`, starting over after the largest
/// number.
pub open spec fn steps_from(start: u64, n: u64) -> int {
    if n >= start {
        n - start
    } else {
        n - start + 0x1_0000_0000_0000_0000
    }
}

/// `id` is the first number from `start` on that `taken` does not hold.
pub open spec fn is_first_free(taken: Set<u64>, start: u64, id: u64) -> bool {
    &&& !taken.contains(id)
    &&& !taken.contains(start) ==> id == start
    &&& forall|n: u64| steps_from(start, n) < steps_from(start, id) ==> #[trigger] taken.contains(n)
}

impl CreditModel {
    /// The queue of one class.
    pub open spec fn queue(self, class: CreditClass) -> Seq<Waiter> {
        match class {
            CreditClass::Control => self.control,
            CreditClass::Data => self.data,
        }
    }

    pub open spec fn with_queue(self, class: CreditClass, queue: Seq<Waiter>) -> CreditModel {
        match class {
            CreditClass::Control => CreditModel { control: queue, ..self },
            CreditClass::Data => CreditModel { data: queue, ..self },
        }
    }

    pub open spec fn with_available(self, available: u16) -> CreditModel {
        CreditModel { available, ..self }
    }

    /// The slot of `id`, with its state replaced.
    pub open spec fn with_state(self, id: u64, state: WaiterState) -> CreditModel {
        CreditModel {
            slots: self.slots.insert(id, (SlotModel { state, ..self.slots[id] })),
            ..self
        }
    }

    pub open spec fn without_slot(self, id: u64) -> CreditModel {
        CreditModel { slots: self.slots.remove(id), ..self }
    }

    /// Some waiter of this class has this number.
    pub open spec fn queued(self, class: CreditClass, id: u64) -> bool {
        exists|i: int| 0 <= i < self.queue(class).len() && #[trigger] self.queue(class)[i].id == id
    }

    /// A request of this class and charge can be sent at once: the credits are
    /// there and nobody with an older claim is waiting.
    pub open spec fn can_reserve(self, charge: u16, class: CreditClass) -> bool {
        &&& !self.closed
        &&& charge <= self.available
        &&& self.control.len() == 0
        &&& class is Data ==> self.data.len() == 0
    }

    /// The oldest waiter of this class can be paid for.
    pub open spec fn head_fits(self, class: CreditClass) -> bool {
        self.queue(class).len() > 0 && self.queue(class)[0].charge <= self.available
    }

    /// The oldest waiter of a class leaves its queue.
    pub open spec fn head_left(self, class: CreditClass, state: WaiterState) -> CreditModel {
        self.with_queue(class, self.queue(class).drop_first()).with_state(
            self.queue(class)[0].id,
            state,
        )
    }

    /// The oldest waiter of a class leaves its queue with its credits. If its
    /// owner is `gone`, the credits stay.
    pub open spec fn head_served(self, class: CreditClass, gone: bool) -> CreditModel {
        if gone {
            self.head_left(class, WaiterState::Cancelled)
        } else {
            self.head_left(class, WaiterState::Granted).with_available(
                (self.available - self.queue(class)[0].charge) as u16,
            )
        }
    }

    /// Waiters of a class are served in order for as long as the oldest one can
    /// be paid for. `gone` holds the waiters whose owners have left.
    pub open spec fn served(self, class: CreditClass, gone: Set<u64>) -> CreditModel
        decreases self.queue(class).len(),
    {
        if self.head_fits(class) {
            self.head_served(class, gone.contains(self.queue(class)[0].id)).served(class, gone)
        } else {
            self
        }
    }

    /// Serves every CLOSE that can be paid for and, only when no CLOSE is left,
    /// the other requests.
    pub open spec fn dispatched(self, gone: Set<u64>) -> CreditModel {
        let closes_served = self.served(CreditClass::Control, gone);
        if closes_served.control.len() > 0 {
            closes_served
        } else {
            closes_served.served(CreditClass::Data, gone)
        }
    }

    /// `self` is `before` after everyone who can be paid for has been served,
    /// for some set of waiters whose owners have left.
    pub open spec fn follows_dispatch_of(self, before: CreditModel) -> bool {
        exists|gone: Set<u64>| self == #[trigger] before.dispatched(gone)
    }

    /// Everyone still waiting is told to give up.
    pub open spec fn waiters_failed(self) -> CreditModel {
        CreditModel {
            control: Seq::empty(),
            data: Seq::empty(),
            slots: self.slots.map_values(
                |slot: SlotModel|
                    if slot.state is Pending {
                        (SlotModel { state: WaiterState::Failed, ..slot })
                    } else {
                        slot
                    },
            ),
            ..self
        }
    }

    /// A request joins the back of its queue.
    pub open spec fn parked(
        self,
        charge: u16,
        class: CreditClass,
        id: u64,
        channel: int,
    ) -> CreditModel {
        let joined = self.with_queue(
            class,
            self.queue(class).push(Waiter { id, charge, channel }),
        );
        CreditModel {
            next_waiter_id: successor(id),
            slots: self.slots.insert(
                id,
                (SlotModel {
                    charge,
                    class,
                    generation: self.generation,
                    channel,
                    state: WaiterState::Pending,
                }),
            ),
            ..joined
        }
    }

    /// Where in its queue the waiter with this number stands.
    pub open spec fn place(self, class: CreditClass, id: u64) -> int {
        choose|i: int| 0 <= i < self.queue(class).len() && #[trigger] self.queue(class)[i].id == id
    }

    /// A request leaves its queue without an answer.
    pub open spec fn withdrawn(self, id: u64) -> CreditModel {
        let class = self.slots[id].class;
        self.with_queue(class, self.queue(class).remove(self.place(class, id))).without_slot(id)
    }

    /// The owner of a parked request walks away. A request that still waits
    /// leaves its queue. Credits that were set aside for it in this session go
    /// back to the budget.
    pub open spec fn abandoned(self, id: u64) -> CreditModel {
        let slot = self.slots[id];
        match slot.state {
            WaiterState::Pending => self.withdrawn(id),
            WaiterState::Granted if self.is_current(slot) => self.without_slot(id).with_available(
                saturating_sum(self.available, slot.charge),
            ),
            _ => self.without_slot(id),
        }
    }

    /// Walking away from this request may let another one go ahead.
    pub open spec fn abandoning_frees(self, id: u64) -> bool {
        let slot = self.slots[id];
        self.is_current(slot) && (slot.state is Pending || slot.state is Granted)
    }

    /// A new session: nobody waits, one credit to negotiate with.
    pub open spec fn restarted(self) -> CreditModel {
        CreditModel {
            available: 1,
            closed: false,
            generation: successor(self.generation),
            ..self.waiters_failed()
        }
    }

    /// The connection is gone: nobody waits and nothing can be reserved.
    pub open spec fn shut(self) -> CreditModel {
        CreditModel {
            closed: true,
            generation: successor(self.generation),
            ..self.waiters_failed()
        }
    }

    /// The slot belongs to the session that is open now.
    pub open spec fn is_current(self, slot: SlotModel) -> bool {
        slot.generation == self.generation && !self.closed
    }

    /// Every queued waiter has a pending slot of its own that agrees with it,
    /// every pending slot has a queued waiter, and a closed pool has nobody
    /// waiting.
    pub open spec fn well_formed(self) -> bool {
        &&& forall|class: CreditClass, i: int|
            0 <= i < self.queue(class).len() ==> self.waiter_has_slot(
                class,
                #[trigger] self.queue(class)[i],
            )
        &&& forall|class: CreditClass, i: int, j: int|
            0 <= i < j < self.queue(class).len() ==> #[trigger] self.queue(class)[i].id
                != #[trigger] self.queue(class)[j].id
        &&& forall|id: u64|
            #![trigger self.slots.contains_key(id)]
            self.slots.contains_key(id) && self.slots[id].state is Pending ==> self.queued(
                self.slots[id].class,
                id,
            )
        &&& self.closed ==> self.control.len() == 0 && self.data.len() == 0
        &&& self.slots.dom().finite()
    }

    pub open spec fn waiter_has_slot(self, class: CreditClass, waiter: Waiter) -> bool {
        &&& waiter.charge > 0
        &&& self.slots.contains_key(waiter.id)
        &&& self.slots[waiter.id] == (SlotModel {
            charge: waiter.charge,
            class,
            generation: self.generation,
            channel: waiter.channel,
            state: WaiterState::Pending,
        })
    }

    /// Nobody waits for credits that are there: the oldest CLOSE cannot be paid
    /// for and, where no CLOSE waits, neither can the oldest other request.
    pub open spec fn settled(self) -> bool {
        &&& !self.head_fits(CreditClass::Control)
        &&& self.control.len() == 0 ==> !self.head_fits(CreditClass::Data)
    }

    /// What holds of a pool between two events.
    pub open spec fn inv(self) -> bool {
        self.well_formed() && self.settled()
    }
}

/// A waiter that leaves its queue with an answer keeps the pool well formed.
pub proof fn lemma_head_left_well_formed(m: CreditModel, class: CreditClass, state: WaiterState)
    requires
        m.well_formed(),
        m.queue(class).len() > 0,
        !(state is Pending),
    ensures
        m.head_left(class, state).well_formed(),
{
    let after = m.head_left(class, state);
    let head = m.queue(class)[0];
    assert(m.waiter_has_slot(class, head));
    assert forall|other: CreditClass, i: int|
        0 <= i < after.queue(other).len() implies after.waiter_has_slot(
        other,
        #[trigger] after.queue(other)[i],
    ) by {
        if other == class {
            assert(after.queue(other)[i] == m.queue(class)[i + 1]);
        } else {
            assert(after.queue(other)[i] == m.queue(other)[i]);
        }
    }
    assert forall|other: CreditClass, i: int, j: int|
        0 <= i < j < after.queue(other).len() implies #[trigger] after.queue(other)[i].id
        != #[trigger] after.queue(other)[j].id by {
        if other == class {
            assert(after.queue(other)[i] == m.queue(class)[i + 1]);
            assert(after.queue(other)[j] == m.queue(class)[j + 1]);
        } else {
            assert(after.queue(other)[i] == m.queue(other)[i]);
            assert(after.queue(other)[j] == m.queue(other)[j]);
        }
    }
    assert forall|id: u64|
        #![trigger after.slots.contains_key(id)]
        after.slots.contains_key(id) && after.slots[id].state is Pending implies after.queued(
        after.slots[id].class,
        id,
    ) by {
        assert(m.slots.contains_key(id));
        let other = m.slots[id].class;
        assert(m.queued(other, id));
        let i = m.place(other, id);
        if other == class {
            assert(after.queue(other)[i - 1].id == id);
        } else {
            assert(after.queue(other)[i].id == id);
        }
    }
}

/// Serving the oldest waiter keeps the pool well formed.
pub proof fn lemma_head_served_well_formed(m: CreditModel, class: CreditClass, gone: bool)
    requires
        m.well_formed(),
        m.queue(class).len() > 0,
    ensures
        m.head_served(class, gone).well_formed(),
{
    if gone {
        lemma_head_left_well_formed(m, class, WaiterState::Cancelled);
    } else {
        let left = m.head_left(class, WaiterState::Granted);
        lemma_head_left_well_formed(m, class, WaiterState::Granted);
        lemma_available_is_free(left, (m.available - m.queue(class)[0].charge) as u16);
    }
}

/// Whether a pool is well formed does not depend on how many credits it has.
pub proof fn lemma_available_is_free(m: CreditModel, available: u16)
    requires
        m.well_formed(),
    ensures
        m.with_available(available).well_formed(),
{
    let after = m.with_available(available);
    assert forall|class: CreditClass, i: int|
        0 <= i < after.queue(class).len() implies after.waiter_has_slot(
        class,
        #[trigger] after.queue(class)[i],
    ) by {
        assert(m.waiter_has_slot(class, m.queue(class)[i]));
    }
    assert forall|class: CreditClass, i: int, j: int|
        0 <= i < j < after.queue(class).len() implies #[trigger] after.queue(class)[i].id
        != #[trigger] after.queue(class)[j].id by {
        assert(m.queue(class)[i].id != m.queue(class)[j].id);
    }
    assert forall|id: u64|
        #![trigger after.slots.contains_key(id)]
        after.slots.contains_key(id) && after.slots[id].state is Pending implies after.queued(
        after.slots[id].class,
        id,
    ) by {
        let class = m.slots[id].class;
        assert(m.slots.contains_key(id));
        assert(m.queued(class, id));
        let i = m.place(class, id);
        assert(after.queue(class)[i].id == id);
    }
}

/// Forgetting a request that no longer waits keeps the pool well formed.
pub proof fn lemma_without_slot_well_formed(m: CreditModel, id: u64)
    requires
        m.well_formed(),
        m.slots.contains_key(id) ==> !(m.slots[id].state is Pending),
    ensures
        m.without_slot(id).well_formed(),
{
    let after = m.without_slot(id);
    assert forall|class: CreditClass, i: int|
        0 <= i < after.queue(class).len() implies after.waiter_has_slot(
        class,
        #[trigger] after.queue(class)[i],
    ) by {
        assert(m.waiter_has_slot(class, m.queue(class)[i]));
    }
    assert forall|class: CreditClass, i: int, j: int|
        0 <= i < j < after.queue(class).len() implies #[trigger] after.queue(class)[i].id
        != #[trigger] after.queue(class)[j].id by {
        assert(m.queue(class)[i].id != m.queue(class)[j].id);
    }
    assert forall|other: u64|
        #![trigger after.slots.contains_key(other)]
        after.slots.contains_key(other) && after.slots[other].state is Pending implies after.queued(
        after.slots[other].class,
        other,
    ) by {
        let class = m.slots[other].class;
        assert(m.slots.contains_key(other));
        assert(m.queued(class, other));
        let i = m.place(class, other);
        assert(after.queue(class)[i].id == other);
    }
}

/// Taking a waiting request out of its queue keeps the pool well formed.
pub proof fn lemma_withdrawn_well_formed(m: CreditModel, id: u64)
    requires
        m.well_formed(),
        m.slots.contains_key(id),
        m.slots[id].state is Pending,
    ensures
        m.withdrawn(id).well_formed(),
        0 <= m.place(m.slots[id].class, id) < m.queue(m.slots[id].class).len(),
        m.queue(m.slots[id].class)[m.place(m.slots[id].class, id)].id == id,
        m.is_current(m.slots[id]),
{
    let class = m.slots[id].class;
    assert(m.queued(class, id));
    let place = m.place(class, id);
    let after = m.withdrawn(id);
    assert(m.waiter_has_slot(class, m.queue(class)[place]));
    assert forall|other: CreditClass, i: int|
        0 <= i < after.queue(other).len() implies after.waiter_has_slot(
        other,
        #[trigger] after.queue(other)[i],
    ) by {
        let j = if other == class && i >= place {
            i + 1
        } else {
            i
        };
        assert(after.queue(other)[i] == m.queue(other)[j]);
        assert(m.waiter_has_slot(other, m.queue(other)[j]));
        if other == class {
            assert(m.queue(class)[j].id != m.queue(class)[place].id);
        }
    }
    assert forall|other: CreditClass, i: int, j: int|
        0 <= i < j < after.queue(other).len() implies #[trigger] after.queue(other)[i].id
        != #[trigger] after.queue(other)[j].id by {
        let i0 = if other == class && i >= place {
            i + 1
        } else {
            i
        };
        let j0 = if other == class && j >= place {
            j + 1
        } else {
            j
        };
        assert(after.queue(other)[i] == m.queue(other)[i0]);
        assert(after.queue(other)[j] == m.queue(other)[j0]);
    }
    assert forall|other: u64|
        #![trigger after.slots.contains_key(other)]
        after.slots.contains_key(other) && after.slots[other].state is Pending implies after.queued(
        after.slots[other].class,
        other,
    ) by {
        let its = m.slots[other].class;
        assert(m.slots.contains_key(other));
        assert(m.queued(its, other));
        let i = m.place(its, other);
        let j = if its == class && i > place {
            i - 1
        } else {
            i
        };
        assert(after.queue(its)[j].id == other);
    }
}

/// Walking away from a request keeps the pool well formed and, unless it may
/// let another one go ahead, settled.
pub proof fn lemma_abandoned(m: CreditModel, id: u64)
    requires
        m.inv(),
        m.slots.contains_key(id),
    ensures
        m.abandoned(id).well_formed(),
        !m.abandoning_frees(id) ==> m.abandoned(id).inv(),
{
    if m.slots[id].state is Pending {
        lemma_withdrawn_well_formed(m, id);
    } else {
        lemma_without_slot_well_formed(m, id);
        lemma_available_is_free(
            m.without_slot(id),
            saturating_sum(m.available, m.slots[id].charge),
        );
    }
}

/// Parking a request that cannot be sent at once keeps the pool as it should be.
pub proof fn lemma_parked(m: CreditModel, charge: u16, class: CreditClass, id: u64, channel: int)
    requires
        m.inv(),
        charge > 0,
        !m.closed,
        !m.can_reserve(charge, class),
        !m.slots.contains_key(id),
    ensures
        m.parked(charge, class, id, channel).inv(),
{
    let after = m.parked(charge, class, id, channel);
    assert forall|other: CreditClass, i: int|
        0 <= i < after.queue(other).len() implies after.waiter_has_slot(
        other,
        #[trigger] after.queue(other)[i],
    ) by {
        if other == class && i == m.queue(class).len() {
        } else {
            assert(after.queue(other)[i] == m.queue(other)[i]);
            assert(m.waiter_has_slot(other, m.queue(other)[i]));
        }
    }
    assert forall|other: CreditClass, i: int, j: int|
        0 <= i < j < after.queue(other).len() implies #[trigger] after.queue(other)[i].id
        != #[trigger] after.queue(other)[j].id by {
        assert(after.queue(other)[i] == m.queue(other)[i]);
        assert(m.waiter_has_slot(other, m.queue(other)[i]));
        if j < m.queue(other).len() {
            assert(after.queue(other)[j] == m.queue(other)[j]);
        }
    }
    assert forall|other: u64|
        #![trigger after.slots.contains_key(other)]
        after.slots.contains_key(other) && after.slots[other].state is Pending implies after.queued(
        after.slots[other].class,
        other,
    ) by {
        if other == id {
            assert(after.queue(class)[m.queue(class).len() as int].id == id);
        } else {
            let its = m.slots[other].class;
            assert(m.slots.contains_key(other));
            assert(m.queued(its, other));
            let i = m.place(its, other);
            assert(after.queue(its)[i].id == other);
        }
    }
    if m.control.len() > 0 {
        assert(after.control[0] == m.control[0]);
    }
    if m.data.len() > 0 {
        assert(after.data[0] == m.data[0]);
    }
}

/// Serving a class keeps the pool well formed, leaves its oldest waiter unpaid
/// for, and touches neither the other class nor the session.
pub proof fn lemma_served(m: CreditModel, class: CreditClass, gone: Set<u64>)
    requires
        m.well_formed(),
    ensures
        m.served(class, gone).well_formed(),
        !m.served(class, gone).head_fits(class),
        m.served(class, gone).closed == m.closed,
        m.served(class, gone).generation == m.generation,
        m.served(class, gone).next_waiter_id == m.next_waiter_id,
        m.served(class, gone).available <= m.available,
        m.served(class, gone).slots.dom() == m.slots.dom(),
        class is Control ==> m.served(class, gone).data == m.data,
        class is Data ==> m.served(class, gone).control == m.control,
    decreases m.queue(class).len(),
{
    if m.head_fits(class) {
        let lost = gone.contains(m.queue(class)[0].id);
        lemma_head_served_well_formed(m, class, lost);
        lemma_served(m.head_served(class, lost), class, gone);
        assert(m.waiter_has_slot(class, m.queue(class)[0]));
        assert(m.head_served(class, lost).slots.dom() =~= m.slots.dom());
    }
}

/// After a dispatch nobody waits for credits that are there.
pub proof fn lemma_dispatched(m: CreditModel, gone: Set<u64>)
    requires
        m.well_formed(),
    ensures
        m.dispatched(gone).inv(),
        m.dispatched(gone).closed == m.closed,
        m.dispatched(gone).generation == m.generation,
        m.dispatched(gone).next_waiter_id == m.next_waiter_id,
        m.dispatched(gone).available <= m.available,
        m.dispatched(gone).slots.dom() == m.slots.dom(),
{
    lemma_served(m, CreditClass::Control, gone);
    let closes_served = m.served(CreditClass::Control, gone);
    lemma_served(closes_served, CreditClass::Data, gone);
}

} // verus!
