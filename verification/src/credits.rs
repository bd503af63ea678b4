//! Connection-wide SMB2 credit accounting.
//!
//! A server hands the client a budget ("credits") and every request spends from
//! it. Responses carry a grant that puts credits back. A client that sends more
//! than it holds is in violation, and the server may drop the connection; some
//! servers instead stop answering while the socket stays open, which looks
//! exactly like a hung client.
//!
//! The budget is per connection: several pipelined transfers over one connection
//! draw on the same pool.
//!
//! Credits are spent on send, not on receipt. Accounting for a request only once
//! its answer arrives leaves everything in flight invisible, and concurrent
//! senders each read the same "plenty available" number and pile on.

use crate::credit_model::{
    effective_charge, is_first_free, lemma_abandoned, lemma_available_is_free, lemma_dispatched,
    lemma_head_left_well_formed, lemma_head_served_well_formed, lemma_parked, lemma_served,
    lemma_withdrawn_well_formed, lemma_without_slot_well_formed, requested, saturating_sum,
    steps_from, CreditClass, CreditModel, SlotModel, Waiter, WaiterState, CREDIT_TARGET,
};
use crate::wakeup::{
    channel, receiver_channel, send, sender_channel, Answer, CreditPoolClosed, Delivery,
};
use std::collections::{HashMap, VecDeque};
use tokio::sync::oneshot::error::RecvError;
use tokio::sync::oneshot::{Receiver, Sender};
use vstd::prelude::*;

verus! {

broadcast use {
    vstd::std_specs::hash::group_hash_axioms,
    vstd::std_specs::vecdeque::group_vec_dequeue_axioms,
};

/// What the pool remembers of a parked request until its owner collects the
/// answer or walks away.
#[derive(Clone, Copy)]
struct WaitSlot {
    charge: u16,
    class: CreditClass,
    generation: u64,
    channel: Ghost<int>,
    /// The answer, once it was sent.
    delivery: Option<Delivery>,
}

impl WaitSlot {
    spec fn model(self) -> SlotModel {
        SlotModel {
            charge: self.charge,
            class: self.class,
            generation: self.generation,
            channel: match self.delivery {
                None => self.channel@,
                Some(delivery) => delivery.channel(),
            },
            state: match self.delivery {
                None => WaiterState::Pending,
                Some(delivery) => if delivery.answer() is Err {
                    WaiterState::Failed
                } else if delivery.arrived() {
                    WaiterState::Granted
                } else {
                    WaiterState::Cancelled
                },
            },
        }
    }
}

spec fn slots_model(slots: Map<u64, WaitSlot>) -> Map<u64, SlotModel> {
    slots.map_values(|slot: WaitSlot| slot.model())
}

/// The same waiters, some of which no longer wait because they were told to
/// give up.
spec fn only_fails(before: Map<u64, SlotModel>, after: Map<u64, SlotModel>) -> bool {
    &&& after.dom() == before.dom()
    &&& forall|id: u64| #[trigger]
        before.contains_key(id) ==> after[id] == before[id] || (before[id].state is Pending
            && after[id] == (SlotModel { state: WaiterState::Failed, ..before[id] }))
}

/// A request parked until its credits are there.
struct CreditWaiter {
    id: u64,
    charge: u16,
    ready: Sender<Answer>,
}

impl CreditWaiter {
    spec fn model(self) -> Waiter {
        Waiter { id: self.id, charge: self.charge, channel: sender_channel(self.ready) }
    }
}

spec fn queue_model(queue: Seq<CreditWaiter>) -> Seq<Waiter> {
    queue.map_values(|waiter: CreditWaiter| waiter.model())
}

/// The budget of one connection and the requests that wait for it.
pub struct CreditState {
    available: u16,
    closed: bool,
    generation: u64,
    next_waiter_id: u64,
    control: VecDeque<CreditWaiter>,
    data: VecDeque<CreditWaiter>,
    slots: HashMap<u64, WaitSlot>,
}

impl View for CreditState {
    type V = CreditModel;

    closed spec fn view(&self) -> CreditModel {
        CreditModel {
            available: self.available,
            closed: self.closed,
            generation: self.generation,
            next_waiter_id: self.next_waiter_id,
            control: queue_model(self.control@),
            data: queue_model(self.data@),
            slots: slots_model(self.slots@),
        }
    }
}

impl CreditState {
    spec fn queue_of(self, class: CreditClass) -> VecDeque<CreditWaiter> {
        match class {
            CreditClass::Control => self.control,
            CreditClass::Data => self.data,
        }
    }

    fn queue_mut(&mut self, class: CreditClass) -> (queue: &mut VecDeque<CreditWaiter>)
        ensures
            *queue == old(self).queue_of(class),
            *final(self) == (match class {
                CreditClass::Control => CreditState { control: *final(queue), ..*old(self) },
                CreditClass::Data => CreditState { data: *final(queue), ..*old(self) },
            }),
    {
        match class {
            CreditClass::Control => &mut self.control,
            CreditClass::Data => &mut self.data,
        }
    }

    fn can_reserve_now(&self, charge: u16, class: CreditClass) -> (can: bool)
        ensures
            can == self@.can_reserve(charge, class),
    {
        if self.closed || self.available < charge {
            return false;
        }
        match class {
            CreditClass::Control => self.control.len() == 0,
            CreditClass::Data => self.control.len() == 0 && self.data.len() == 0,
        }
    }

    fn head_fits(&self, class: CreditClass) -> (fits: bool)
        ensures
            fits == self@.head_fits(class),
    {
        match class {
            CreditClass::Control => self.control.len() > 0 && self.control[0].charge
                <= self.available,
            CreditClass::Data => self.data.len() > 0 && self.data[0].charge <= self.available,
        }
    }

    /// Remembers the answer that was sent to a parked request.
    fn record(&mut self, id: u64, delivery: Delivery)
        requires
            old(self)@.slots.contains_key(id),
            delivery.channel() == old(self)@.slots[id].channel,
        ensures
            final(self)@ == old(self)@.with_state(
                id,
                if delivery.answer() is Err {
                    WaiterState::Failed
                } else if delivery.arrived() {
                    WaiterState::Granted
                } else {
                    WaiterState::Cancelled
                },
            ),
    {
        let ghost before = self.slots@;
        match self.slots.get(&id) {
            Some(slot) => {
                let mut slot: WaitSlot = *slot;
                slot.delivery = Some(delivery);
                self.slots.insert(id, slot);
                proof {
                    assert(slots_model(self.slots@) =~= slots_model(before).insert(
                        id,
                        slot.model(),
                    ));
                }
            },
            None => {},
        }
    }

    /// Remembers the answer to a request whose credits were set aside. If it
    /// did not reach the owner, the credits go back.
    fn record_grant(&mut self, id: u64, charge: u16, delivery: Delivery)
        requires
            old(self)@.slots.contains_key(id),
            delivery.channel() == old(self)@.slots[id].channel,
            delivery.answer() is Ok,
        ensures
            final(self)@ == (if delivery.arrived() {
                old(self)@.with_state(id, WaiterState::Granted)
            } else {
                old(self)@.with_state(id, WaiterState::Cancelled).with_available(
                    saturating_sum(old(self)@.available, charge),
                )
            }),
    {
        self.record(id, delivery);
        if !delivery.delivered() {
            self.available = self.available.saturating_add(charge);
        }
    }

    /// Serves waiters of one class, oldest first, while they can be paid for.
    fn serve(&mut self, class: CreditClass) -> (gone: Ghost<Set<u64>>)
        requires
            old(self)@.well_formed(),
        ensures
            final(self)@.well_formed(),
            forall|g: Set<u64>|
                (forall|i: int|
                    0 <= i < old(self)@.queue(class).len() ==> (#[trigger] g.contains(
                        old(self)@.queue(class)[i].id,
                    ) == gone@.contains(old(self)@.queue(class)[i].id))) ==> final(self)@
                    == #[trigger] old(self)@.served(class, g),
    {
        let ghost start = self@;
        let ghost mut gone: Set<u64> = Set::empty();
        let ghost mut served: int = 0;
        while self.head_fits(class)
            invariant
                start.well_formed(),
                self@.well_formed(),
                0 <= served <= start.queue(class).len(),
                self@.queue(class) == start.queue(class).skip(served),
                forall|i: int|
                    served <= i < start.queue(class).len() ==> !gone.contains(
                        #[trigger] start.queue(class)[i].id,
                    ),
                forall|g: Set<u64>|
                    (forall|i: int|
                        0 <= i < served ==> (#[trigger] g.contains(start.queue(class)[i].id)
                            == gone.contains(start.queue(class)[i].id))) ==> self@.served(class, g)
                        == #[trigger] start.served(class, g),
            decreases self@.queue(class).len(),
        {
            let ghost before = self@;
            let ghost gone_before = gone;
            proof {
                assert(before.waiter_has_slot(class, before.queue(class)[0]));
                lemma_head_served_well_formed(before, class, true);
                lemma_head_served_well_formed(before, class, false);
            }
            let popped = self.queue_mut(class).pop_front();
            match popped {
                Some(waiter) => {
                    let id: u64 = waiter.id;
                    let charge: u16 = waiter.charge;
                    proof {
                        assert(before.queue(class)[0] == waiter.model());
                        assert(self@ =~= before.with_queue(
                            class,
                            before.queue(class).drop_first(),
                        ));
                    }
                    self.available = self.available - charge;
                    let delivery = send(waiter.ready, Ok(()));
                    self.record_grant(id, charge, delivery);
                    proof {
                        let delivered = delivery.arrived();
                        assert(self@ =~= before.head_served(class, !delivered));
                        if !delivered {
                            gone = gone.insert(id);
                        }
                        assert(start.queue(class)[served].id == id);
                        assert forall|g: Set<u64>|
                            (forall|i: int|
                                0 <= i < served + 1 ==> (#[trigger] g.contains(
                                    start.queue(class)[i].id,
                                ) == gone.contains(start.queue(class)[i].id))) implies self@.served(
                            class,
                            g,
                        ) == #[trigger] start.served(class, g) by {
                            assert forall|i: int| 0 <= i < served implies (#[trigger] g.contains(
                                start.queue(class)[i].id,
                            ) == gone_before.contains(start.queue(class)[i].id)) by {
                                assert(start.queue(class)[i].id != start.queue(class)[served].id);
                            }
                            assert(g.contains(start.queue(class)[served].id) == !delivered);
                            assert(before.served(class, g) == self@.served(class, g));
                        }
                        served = served + 1;
                    }
                },
                None => {},
            }
        }
        Ghost(gone)
    }

    /// Serves every fitting CLOSE first, then the oldest of the other requests.
    /// A smaller request never jumps over an older one of its class.
    fn dispatch(&mut self)
        requires
            old(self)@.well_formed(),
        ensures
            final(self)@.inv(),
            final(self)@.follows_dispatch_of(old(self)@),
    {
        let ghost start = self@;
        let closes_gone = self.serve(CreditClass::Control);
        let ghost closes_served = self@;
        proof {
            lemma_served(start, CreditClass::Control, closes_gone@);
        }
        if self.control.len() > 0 {
            proof {
                assert(self@ == start.dispatched(closes_gone@));
                lemma_dispatched(start, closes_gone@);
            }
            return ;
        }
        let data_gone = self.serve(CreditClass::Data);
        proof {
            let gone = closes_gone@.filter(|id: u64| start.queued(CreditClass::Control, id)).union(
                data_gone@.filter(|id: u64| start.queued(CreditClass::Data, id)),
            );
            assert forall|id: u64|
                !(start.queued(CreditClass::Control, id) && start.queued(
                    CreditClass::Data,
                    id,
                )) by {}
            assert(closes_served == start.served(CreditClass::Control, gone));
            assert(self@ == closes_served.served(CreditClass::Data, gone));
            assert(self@ == start.dispatched(gone));
            lemma_dispatched(start, gone);
        }
    }

    /// Takes the waiter with this number out of its queue.
    fn withdraw(&mut self, id: u64, class: CreditClass)
        requires
            old(self)@.well_formed(),
            old(self)@.queued(class, id),
        ensures
            final(self)@ == old(self)@.with_queue(
                class,
                old(self)@.queue(class).remove(old(self)@.place(class, id)),
            ),
    {
        let ghost before = self@;
        let ghost place = before.place(class, id);
        let len: usize = self.queue_len(class);
        let mut index: usize = 0;
        while self.waiter_id(class, index) != id
            invariant
                self@ == before,
                len == before.queue(class).len(),
                0 <= place < len,
                before.queue(class)[place].id == id,
                index <= place,
            decreases place - index,
        {
            index = index + 1;
        }
        proof {
            if index < place {
                assert(before.queue(class)[index as int].id != before.queue(class)[place].id);
            }
        }
        let _ = self.queue_mut(class).remove(index);
        proof {
            assert(self@.queue(class) =~= before.queue(class).remove(place));
            assert(self@ =~= before.with_queue(class, before.queue(class).remove(place)));
        }
    }

    fn waiter_id(&self, class: CreditClass, index: usize) -> (id: u64)
        requires
            index < self@.queue(class).len(),
        ensures
            id == self@.queue(class)[index as int].id,
    {
        match class {
            CreditClass::Control => self.control[index].id,
            CreditClass::Data => self.data[index].id,
        }
    }

    /// Tells everyone who waits in one queue to give up.
    fn fail_queue(&mut self, class: CreditClass)
        requires
            old(self)@.well_formed(),
        ensures
            final(self)@.well_formed(),
            final(self)@ == (CreditModel { slots: final(self)@.slots, ..old(self)@ }).with_queue(
                class,
                Seq::empty(),
            ),
            only_fails(old(self)@.slots, final(self)@.slots),
    {
        let ghost start = self@;
        while self.queue_len(class) > 0
            invariant
                self@.well_formed(),
                self@ == (CreditModel { slots: self@.slots, ..start }).with_queue(
                    class,
                    self@.queue(class),
                ),
                only_fails(start.slots, self@.slots),
            decreases self@.queue(class).len(),
        {
            let ghost before = self@;
            proof {
                assert(before.waiter_has_slot(class, before.queue(class)[0]));
                lemma_head_left_well_formed(before, class, WaiterState::Failed);
            }
            let popped = self.queue_mut(class).pop_front();
            match popped {
                Some(waiter) => {
                    proof {
                        assert(before.queue(class)[0] == waiter.model());
                        assert(self@ =~= before.with_queue(
                            class,
                            before.queue(class).drop_first(),
                        ));
                    }
                    let id: u64 = waiter.id;
                    let delivery = send(waiter.ready, Err(CreditPoolClosed));
                    self.record(id, delivery);
                    proof {
                        assert(self@ =~= before.head_left(class, WaiterState::Failed));
                        assert(self@.slots.dom() =~= before.slots.dom());
                    }
                },
                None => {},
            }
        }
        proof {
            assert(self@.queue(class) =~= Seq::empty());
        }
    }

    fn queue_len(&self, class: CreditClass) -> (len: usize)
        ensures
            len == self@.queue(class).len(),
    {
        match class {
            CreditClass::Control => self.control.len(),
            CreditClass::Data => self.data.len(),
        }
    }

    /// Tells everyone who waits to give up.
    fn fail_waiters(&mut self)
        requires
            old(self)@.well_formed(),
        ensures
            final(self)@ == old(self)@.waiters_failed(),
            final(self)@.inv(),
    {
        let ghost start = self@;
        self.fail_queue(CreditClass::Control);
        let ghost half = self@;
        self.fail_queue(CreditClass::Data);
        proof {
            let failed = start.waiters_failed();
            assert(self@.slots.dom() =~= failed.slots.dom());
            assert forall|id: u64| #[trigger] self@.slots.contains_key(id) implies self@.slots[id]
                == failed.slots[id] by {
                assert(start.slots.contains_key(id) && half.slots.contains_key(id));
                if self@.slots[id].state is Pending {
                    assert(self@.queued(self@.slots[id].class, id));
                }
            }
            assert(self@.slots =~= failed.slots);
            assert(self@ =~= failed);
        }
    }
}

/// The first number from `start` on that no waiter has.
fn first_free(slots: &HashMap<u64, WaitSlot>, start: u64) -> (id: u64)
    ensures
        is_first_free(slots@.dom(), start, id),
{
    let total: usize = slots.len();
    let mut id: u64 = start;
    let ghost mut visited: Set<u64> = Set::empty();
    while slots.contains_key(&id)
        invariant
            total == slots@.dom().len(),
            slots@.dom().finite(),
            visited.finite(),
            visited.len() == steps_from(start, id),
            visited.subset_of(slots@.dom()),
            forall|n: u64|
                #[trigger] visited.contains(n) <==> steps_from(start, n) < steps_from(start, id),
        decreases 0x1_0000_0000_0000_0000 - steps_from(start, id),
    {
        proof {
            visited = visited.insert(id);
            vstd::set_lib::lemma_len_subset(visited, slots@.dom());
        }
        id = id.wrapping_add(1);
    }
    proof {
        assert(steps_from(start, start) == 0);
        if id != start {
            assert(visited.contains(start));
        }
    }
    id
}

/// Default bound, in milliseconds, on how long a send waits for the server to
/// grant credits before it counts as starved.
///
/// Long enough that a merely busy server is never mistaken for a dead one,
/// short enough that a silent one surfaces as an error instead of a hang.
pub const DEFAULT_CREDIT_WAIT_MS: u64 = 30_000;

/// How a request for credits went.
pub enum Reserve {
    /// The credits are reserved. The number is the session they belong to.
    Ready(u64),
    /// The request is parked. Its answer comes through `ready`.
    Parked { ready: Receiver<Answer>, registration: CreditWaitRegistration },
}

/// Server-granted credits that have not been spent yet.
///
/// Credits are spent on send, not on receipt. Requests that must wait are split
/// into standalone CLOSE requests and all others. CLOSE requests that can be
/// paid for run first; the others remain strictly first come, first served.
pub struct CreditPool {
    state: CreditState,
    /// The reserve deadline in milliseconds, tunable per connection.
    wait_ms: u64,
}

impl View for CreditPool {
    type V = CreditModel;

    closed spec fn view(&self) -> CreditModel {
        self.state@
    }
}

impl CreditPool {
    /// The reserve deadline in milliseconds.
    pub closed spec fn deadline(&self) -> u64 {
        self.wait_ms
    }

    /// The answer that was sent to a parked request whose owner has not come back
    /// yet.
    pub closed spec fn answer_sent(&self, id: u64) -> Option<Delivery> {
        self.state.slots@[id].delivery
    }

    /// A fresh pool holds the single credit a client has before NEGOTIATE:
    /// enough to send NEGOTIATE and nothing else.
    pub fn new() -> (pool: Self)
        ensures
            pool@ == (CreditModel {
                available: 1,
                closed: false,
                generation: 0,
                next_waiter_id: 0,
                control: Seq::empty(),
                data: Seq::empty(),
                slots: Map::empty(),
            }),
            pool@.inv(),
            pool.deadline() == DEFAULT_CREDIT_WAIT_MS,
            pool.deadline() == 30_000,
    {
        let pool = CreditPool {
            state: CreditState {
                available: 1,
                closed: false,
                generation: 0,
                next_waiter_id: 0,
                control: VecDeque::new(),
                data: VecDeque::new(),
                slots: HashMap::new(),
            },
            wait_ms: DEFAULT_CREDIT_WAIT_MS,
        };
        proof {
            assert(pool@.control =~= Seq::empty());
            assert(pool@.data =~= Seq::empty());
            assert(pool@.slots =~= Map::empty());
        }
        pool
    }

    /// Throws the spent budget away and starts again from the single credit a
    /// client has before NEGOTIATE. Everyone who waits is told to give up: the
    /// old budget was granted by a session that no longer exists.
    pub fn reset(&mut self)
        requires
            old(self)@.inv(),
        ensures
            final(self)@ == old(self)@.restarted(),
            final(self)@.inv(),
            final(self).deadline() == old(self).deadline(),
    {
        self.state.fail_waiters();
        self.state.generation = self.state.generation.wrapping_add(1);
        self.state.available = 1;
        self.state.closed = false;
        proof {
            assert(self@ =~= old(self)@.restarted());
        }
    }

    /// Credits on hand: granted by the server and not reserved by a request.
    pub fn available(&self) -> (credits: u16)
        ensures
            credits == self@.available,
    {
        self.state.available
    }

    /// Banks the credits that a response carries. A closed pool takes none.
    pub fn grant(&mut self, credits: u16)
        requires
            old(self)@.inv(),
        ensures
            old(self)@.closed || credits == 0 ==> final(self)@ == old(self)@,
            !old(self)@.closed && credits > 0 ==> final(self)@.follows_dispatch_of(
                old(self)@.with_available(saturating_sum(old(self)@.available, credits)),
            ),
            final(self)@.inv(),
            final(self).deadline() == old(self).deadline(),
    {
        if credits > 0 {
            if !self.state.closed {
                let ghost before = self@;
                self.state.available = self.state.available.saturating_add(credits);
                proof {
                    lemma_available_is_free(before, self.state.available);
                }
                self.state.dispatch();
            }
        }
    }

    /// Takes `charge` credits if they are on hand right now and nobody with an
    /// older claim is waiting. Returns the session they belong to.
    pub fn try_reserve(&mut self, charge: u16, class: CreditClass) -> (session: Option<u64>)
        requires
            old(self)@.inv(),
        ensures
            ({
                let charge = effective_charge(charge);
                if old(self)@.can_reserve(charge, class) {
                    &&& session == Some(old(self)@.generation)
                    &&& final(self)@ == old(self)@.with_available(
                        (old(self)@.available - charge) as u16,
                    )
                } else {
                    &&& session is None
                    &&& final(self)@ == old(self)@
                }
            }),
            session is Some <==> !old(self)@.closed && old(self)@.available >= charge
                && old(self)@.available >= 1 && old(self)@.control.len() == 0 && (class
                == CreditClass::Data ==> old(self)@.data.len() == 0),
            session is Some && charge >= 1 ==> final(self)@.available + charge
                == old(self)@.available,
            session is Some && charge == 0 ==> final(self)@.available + 1 == old(self)@.available,
            final(self)@.inv(),
            final(self).deadline() == old(self).deadline(),
    {
        let charge: u16 = if charge == 0 {
            1
        } else {
            charge
        };
        if self.state.can_reserve_now(charge, class) {
            let ghost before = self@;
            self.state.available = self.state.available - charge;
            proof {
                lemma_available_is_free(before, self.state.available);
            }
            Some(self.state.generation)
        } else {
            None
        }
    }

    /// Asks for `charge` credits. They are reserved at once where
    /// [`CreditPool::try_reserve`] would reserve them. Otherwise the request
    /// joins the back of the queue of its class and is answered later.
    pub fn reserve(&mut self, charge: u16, class: CreditClass) -> (outcome: Result<
        Reserve,
        CreditPoolClosed,
    >)
        requires
            old(self)@.inv(),
        ensures
            ({
                let charge = effective_charge(charge);
                if old(self)@.closed {
                    &&& outcome == Err::<Reserve, CreditPoolClosed>(CreditPoolClosed)
                    &&& final(self)@ == old(self)@
                } else if old(self)@.can_reserve(charge, class) {
                    &&& outcome == Ok::<Reserve, CreditPoolClosed>(
                        Reserve::Ready(old(self)@.generation),
                    )
                    &&& final(self)@ == old(self)@.with_available(
                        (old(self)@.available - charge) as u16,
                    )
                } else {
                    &&& outcome matches Ok(Reserve::Parked { ready, registration })
                    &&& registration.armed()
                    &&& is_first_free(
                        old(self)@.slots.dom(),
                        old(self)@.next_waiter_id,
                        registration.id(),
                    )
                    &&& final(self)@ == old(self)@.parked(
                        charge,
                        class,
                        registration.id(),
                        receiver_channel(ready),
                    )
                }
            }),
            outcome matches Ok(Reserve::Ready(_)) && charge >= 1 ==> final(self)@.available + charge
                == old(self)@.available,
            outcome matches Ok(Reserve::Ready(_)) && charge == 0 ==> final(self)@.available + 1
                == old(self)@.available,
            outcome matches Ok(Reserve::Parked { ready, registration }) ==> {
                let waiter = Waiter {
                    id: registration.id(),
                    charge: if charge >= 1 {
                        charge
                    } else {
                        1
                    },
                    channel: receiver_channel(ready),
                };
                &&& final(self)@.available == old(self)@.available
                &&& class == CreditClass::Control ==> final(self)@.control
                    == old(self)@.control.push(waiter) && final(self)@.data == old(self)@.data
                &&& class == CreditClass::Data ==> final(self)@.data == old(self)@.data.push(waiter)
                    && final(self)@.control == old(self)@.control
            },
            final(self)@.inv(),
            final(self).deadline() == old(self).deadline(),
    {
        let charge: u16 = if charge == 0 {
            1
        } else {
            charge
        };
        let ghost before = self@;
        if self.state.closed {
            return Err(CreditPoolClosed);
        }
        if self.state.can_reserve_now(charge, class) {
            self.state.available = self.state.available - charge;
            proof {
                lemma_available_is_free(before, self.state.available);
            }
            return Ok(Reserve::Ready(self.state.generation));
        }
        let id: u64 = first_free(&self.state.slots, self.state.next_waiter_id);
        self.state.next_waiter_id = id.wrapping_add(1);
        let generation: u64 = self.state.generation;
        let (sender, ready) = channel();
        self.state.queue_mut(class).push_back(CreditWaiter { id, charge, ready: sender });
        self.state.slots.insert(
            id,
            WaitSlot {
                charge,
                class,
                generation,
                channel: Ghost(receiver_channel(ready)),
                delivery: None,
            },
        );
        proof {
            let parked = before.parked(charge, class, id, receiver_channel(ready));
            assert(self@.control =~= parked.control);
            assert(self@.data =~= parked.data);
            assert(self@.slots =~= parked.slots);
            assert(self@ =~= parked);
            lemma_parked(before, charge, class, id, receiver_channel(ready));
        }
        Ok(Reserve::Parked { ready, registration: CreditWaitRegistration { id, armed: true } })
    }

    /// Hands back credits reserved for a request whose bytes never reached the
    /// wire. Credits of another session are not taken back.
    pub fn refund(&mut self, charge: u16, generation: u64)
        requires
            old(self)@.inv(),
        ensures
            if !old(self)@.closed && old(self)@.generation == generation {
                final(self)@.follows_dispatch_of(
                    old(self)@.with_available(saturating_sum(old(self)@.available, charge)),
                )
            } else {
                final(self)@ == old(self)@
            },
            final(self)@.inv(),
            final(self).deadline() == old(self).deadline(),
    {
        if !self.state.closed && self.state.generation == generation {
            let ghost before = self@;
            self.state.available = self.state.available.saturating_add(charge);
            proof {
                lemma_available_is_free(before, self.state.available);
            }
            self.state.dispatch();
        }
    }

    /// How many credits to ask for on a request charging `charge`: the charge
    /// itself, so the window cannot shrink under a steady load, plus enough to
    /// climb back to [`CREDIT_TARGET`].
    pub fn request_for(&self, charge: u16) -> (credits: u16)
        ensures
            credits == requested(charge, self@.available),
    {
        charge.saturating_add(CREDIT_TARGET.saturating_sub(self.available()))
    }

    /// How long, in milliseconds, a send waits for credits before it counts as
    /// starved.
    pub fn wait_timeout(&self) -> (ms: u64)
        ensures
            ms == self.deadline(),
    {
        self.wait_ms
    }

    /// Retunes the starvation deadline, in milliseconds. A deadline that is too
    /// long to hold becomes the longest one.
    pub fn set_wait_timeout(&mut self, after_ms: u128)
        ensures
            final(self).deadline() == (if after_ms > u64::MAX {
                u64::MAX
            } else {
                after_ms as u64
            }),
            final(self)@ == old(self)@,
    {
        self.wait_ms = if after_ms > u64::MAX as u128 {
            u64::MAX
        } else {
            after_ms as u64
        };
    }

    /// Tells everyone who waits to give up. Called when the connection dies, so
    /// that a request parked on credits fails at once instead of waiting for a
    /// server that will never answer again.
    pub fn close(&mut self)
        requires
            old(self)@.inv(),
        ensures
            final(self)@ == old(self)@.shut(),
            final(self)@.inv(),
            final(self).deadline() == old(self).deadline(),
    {
        self.state.fail_waiters();
        self.state.closed = true;
        self.state.generation = self.state.generation.wrapping_add(1);
        proof {
            assert(self@ =~= old(self)@.shut());
        }
    }

    /// Whether the pool is closed.
    pub fn is_closed(&self) -> (closed: bool)
        ensures
            closed == self@.closed,
    {
        self.state.closed
    }

    /// Forces the pool to exactly `credits`, to stage a window without a full
    /// NEGOTIATE exchange. Whoever can be paid for is served.
    pub fn set_available(&mut self, credits: u16)
        requires
            old(self)@.inv(),
        ensures
            final(self)@.follows_dispatch_of(old(self)@.with_available(credits)),
            final(self)@.inv(),
            final(self).deadline() == old(self).deadline(),
    {
        let ghost before = self@;
        self.state.available = credits;
        proof {
            lemma_available_is_free(before, credits);
        }
        self.state.dispatch();
    }
}

/// The claim of a parked request. Its owner either collects the answer or
/// cancels, whichever comes first.
pub struct CreditWaitRegistration {
    id: u64,
    armed: bool,
}

impl CreditWaitRegistration {
    /// The number under which the pool knows the request.
    pub closed spec fn id(&self) -> u64 {
        self.id
    }

    /// The claim has not been used up.
    pub closed spec fn armed(&self) -> bool {
        self.armed
    }

    /// Collects the answer that came through the channel. An answer of an
    /// earlier session counts for nothing, and so does a channel that was given
    /// up without one.
    pub fn consume(&mut self, pool: &mut CreditPool, received: Result<Answer, RecvError>) -> (
        session: Result<u64, CreditPoolClosed>)
        requires
            old(pool)@.inv(),
        ensures
            session == collected(old(pool)@, *old(self), received),
            final(pool)@ == (if old(self).armed() && old(pool)@.slots.contains_key(old(self).id())
                && !(old(pool)@.slots[old(self).id()].state is Pending) {
                old(pool)@.without_slot(old(self).id())
            } else {
                old(pool)@
            }),
            !final(self).armed(),
            final(self).id() == old(self).id(),
            final(pool)@.inv(),
            final(pool).deadline() == old(pool).deadline(),
    {
        if !self.armed {
            return Err(CreditPoolClosed);
        }
        self.armed = false;
        let slot = match pool.state.slots.get(&self.id) {
            Some(slot) => *slot,
            None => {
                return Err(CreditPoolClosed);
            },
        };
        let ghost before = pool@;
        if slot.delivery.is_some() {
            pool.state.slots.remove(&self.id);
            proof {
                lemma_without_slot_well_formed(before, self.id);
                assert(pool@.slots =~= before.without_slot(self.id).slots);
            }
        }
        if slot.generation == pool.state.generation && !pool.state.closed {
            match received {
                Ok(Ok(())) => Ok(slot.generation),
                _ => Err(CreditPoolClosed),
            }
        } else {
            Err(CreditPoolClosed)
        }
    }

    /// The owner walks away before it collected an answer. A request that still
    /// waits leaves its queue; credits set aside for it in the current session
    /// go back. Either may let another request go ahead.
    pub fn cancel(&mut self, pool: &mut CreditPool)
        requires
            old(pool)@.inv(),
        ensures
            ({
                let id = old(self).id();
                if !old(self).armed() || !old(pool)@.slots.contains_key(id) {
                    final(pool)@ == old(pool)@
                } else if old(pool)@.abandoning_frees(id) {
                    final(pool)@.follows_dispatch_of(old(pool)@.abandoned(id))
                } else {
                    final(pool)@ == old(pool)@.abandoned(id)
                }
            }),
            !final(self).armed(),
            final(self).id() == old(self).id(),
            final(pool)@.inv(),
            final(pool).deadline() == old(pool).deadline(),
    {
        if !self.armed {
            return ;
        }
        self.armed = false;
        let slot = match pool.state.slots.get(&self.id) {
            Some(slot) => *slot,
            None => {
                return ;
            },
        };
        let ghost before = pool@;
        proof {
            lemma_abandoned(before, self.id);
        }
        match slot.delivery {
            None => {
                proof {
                    lemma_withdrawn_well_formed(before, self.id);
                }
                pool.state.withdraw(self.id, slot.class);
                pool.state.slots.remove(&self.id);
                proof {
                    assert(pool@.slots =~= before.abandoned(self.id).slots);
                    assert(pool@ =~= before.abandoned(self.id));
                }
                pool.state.dispatch();
            },
            Some(delivery) => {
                pool.state.slots.remove(&self.id);
                proof {
                    assert(pool@.slots =~= before.without_slot(self.id).slots);
                }
                if delivery.is_grant() && delivery.delivered() && slot.generation
                    == pool.state.generation && !pool.state.closed {
                    pool.state.available = pool.state.available.saturating_add(slot.charge);
                    proof {
                        assert(pool@ =~= before.abandoned(self.id));
                    }
                    pool.state.dispatch();
                }
            },
        }
    }
}

/// Credits taken from the pool for one request that has not been sent yet.
///
/// Giving it up before [`CreditReservation::commit`] refunds them: that is the
/// path for a request that failed to sign, encrypt or reach the transport.
pub struct CreditReservation {
    charge: u16,
    generation: u64,
    unsent: bool,
}

impl CreditReservation {
    pub closed spec fn charge(&self) -> u16 {
        self.charge
    }

    pub closed spec fn generation(&self) -> u64 {
        self.generation
    }

    /// The credits are still the client's to give back.
    pub closed spec fn unsent(&self) -> bool {
        self.unsent
    }

    pub fn new(charge: u16, generation: u64) -> (reservation: Self)
        ensures
            reservation.charge() == charge,
            reservation.generation() == generation,
            reservation.unsent(),
    {
        CreditReservation { charge, generation, unsent: true }
    }

    /// The bytes are on the wire: the credits belong to the server now.
    pub fn commit(&mut self)
        ensures
            !final(self).unsent(),
            final(self).charge() == old(self).charge(),
            final(self).generation() == old(self).generation(),
    {
        self.unsent = false;
    }

    /// The request is over. If it was never sent, its credits go back.
    pub fn release(&mut self, pool: &mut CreditPool)
        requires
            old(pool)@.inv(),
        ensures
            if old(self).unsent() && !old(pool)@.closed && old(self).generation()
                == old(pool)@.generation {
                final(pool)@.follows_dispatch_of(
                    old(pool)@.with_available(
                        saturating_sum(old(pool)@.available, old(self).charge()),
                    ),
                )
            } else {
                final(pool)@ == old(pool)@
            },
            !final(self).unsent(),
            final(self).charge() == old(self).charge(),
            final(self).generation() == old(self).generation(),
            final(pool)@.inv(),
            final(pool).deadline() == old(pool).deadline(),
    {
        if self.unsent {
            self.unsent = false;
            pool.refund(self.charge, self.generation);
        }
    }
}

/// What the owner of a parked request gets when it collects the answer.
pub open spec fn collected(
    pool: CreditModel,
    registration: CreditWaitRegistration,
    received: Result<Answer, RecvError>,
) -> Result<u64, CreditPoolClosed> {
    let id = registration.id();
    if registration.armed() && pool.slots.contains_key(id) && pool.is_current(pool.slots[id])
        && received matches Ok(Ok(())) {
        Ok(pool.slots[id].generation)
    } else {
        Err(CreditPoolClosed)
    }
}

/// How far a parked request has come is what was really sent to it: nothing, to
/// give up, or to go ahead. Only a message that found its owner counts as a grant.
pub proof fn law_state_is_what_was_sent(pool: CreditPool, id: u64)
    requires
        pool@.slots.contains_key(id),
    ensures
        match pool.answer_sent(id) {
            None => pool@.slots[id].state == WaiterState::Pending,
            Some(sent) => {
                &&& pool@.slots[id].channel == sent.channel()
                &&& sent.answer() is Err ==> pool@.slots[id].state == WaiterState::Failed
                &&& sent.answer() is Ok && sent.arrived() ==> pool@.slots[id].state
                    == WaiterState::Granted
                &&& sent.answer() is Ok && !sent.arrived() ==> pool@.slots[id].state
                    == WaiterState::Cancelled
            },
        },
{
}

} // verus!
