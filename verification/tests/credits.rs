use std::time::Duration;

use smb_client::credit_model::{CreditClass, CREDIT_TARGET};
use smb_client::credits::{
    CreditPool, CreditReservation, CreditWaitRegistration, Reserve, DEFAULT_CREDIT_WAIT_MS,
};
use smb_client::wakeup::{Answer, CreditPoolClosed};
use tokio::runtime::{Builder, Runtime};
use tokio::sync::oneshot::Receiver;

fn runtime() -> Runtime {
    Builder::new_current_thread().enable_time().build().unwrap()
}

/// A request that cannot be sent at once.
struct Waiting {
    ready: Receiver<Answer>,
    registration: CreditWaitRegistration,
}

impl Waiting {
    fn on(pool: &mut CreditPool, charge: u16, class: CreditClass) -> Waiting {
        match pool.reserve(charge, class) {
            Ok(Reserve::Parked { ready, registration }) => Waiting { ready, registration },
            _ => panic!("the request should have been parked"),
        }
    }

    fn is_still_waiting(&mut self, ms: u64) -> bool {
        let ready = &mut self.ready;
        runtime().block_on(async {
            tokio::time::timeout(Duration::from_millis(ms), ready).await.is_err()
        })
    }

    fn finish(self, pool: &mut CreditPool) -> Result<u64, CreditPoolClosed> {
        let Waiting { ready, mut registration } = self;
        let answer = runtime().block_on(async {
            tokio::time::timeout(Duration::from_millis(200), ready)
                .await
                .expect("the waiter must resolve, not hang")
        });
        registration.consume(pool, answer)
    }

    fn drop_into(self, pool: &mut CreditPool) {
        let Waiting { ready, mut registration } = self;
        drop(ready);
        registration.cancel(pool);
    }
}

#[test]
fn a_reservation_holds_credits_out_of_the_pool_until_it_is_refunded() {
    let mut pool = CreditPool::new();
    pool.set_available(10);

    let generation = pool
        .try_reserve(4, CreditClass::Data)
        .expect("credits are available");
    assert_eq!(pool.available(), 6);

    let mut reservation = CreditReservation::new(4, generation);
    reservation.release(&mut pool);
    assert_eq!(
        pool.available(),
        10,
        "an unsent request gives its credits back"
    );
}

#[test]
fn a_committed_reservation_leaves_the_credits_with_the_server() {
    let mut pool = CreditPool::new();
    pool.set_available(10);

    let generation = pool
        .try_reserve(4, CreditClass::Data)
        .expect("credits are available");
    let mut reservation = CreditReservation::new(4, generation);
    reservation.commit();
    reservation.release(&mut pool);

    assert_eq!(
        pool.available(),
        6,
        "credits spent on the wire only come back as a grant"
    );
}

#[test]
fn refund_from_a_retired_generation_does_not_enter_the_new_session() {
    let mut pool = CreditPool::new();
    pool.set_available(4);
    let generation = pool
        .try_reserve(4, CreditClass::Data)
        .expect("credits are available");
    let mut reservation = CreditReservation::new(4, generation);

    pool.reset();
    reservation.release(&mut pool);

    assert_eq!(pool.available(), 1);
}

#[test]
fn a_charge_larger_than_the_window_is_not_partially_reserved() {
    let mut pool = CreditPool::new();
    pool.set_available(3);

    assert!(pool.try_reserve(4, CreditClass::Data).is_none());
    assert_eq!(pool.available(), 3, "a failed reserve takes nothing");
}

#[test]
fn the_credit_request_always_covers_the_charge_and_climbs_to_the_target() {
    let mut pool = CreditPool::new();

    pool.set_available(0);
    assert_eq!(pool.request_for(8), 8 + CREDIT_TARGET);

    pool.set_available(CREDIT_TARGET);
    assert_eq!(
        pool.request_for(8),
        8,
        "at target, ask only for the charge back"
    );

    pool.set_available(u16::MAX);
    assert_eq!(pool.request_for(8), 8, "never ask for less than the charge");
}

#[test]
fn a_grant_wakes_a_waiter() {
    let mut pool = CreditPool::new();
    pool.set_available(0);

    let mut waiting = Waiting::on(&mut pool, 4, CreditClass::Data);
    assert!(waiting.is_still_waiting(50), "nothing to reserve yet");

    pool.grant(4);
    waiting
        .finish(&mut pool)
        .expect("the grant satisfies the waiter");
    assert_eq!(pool.available(), 0);
}

#[test]
fn closing_the_pool_fails_waiters_instead_of_parking_them() {
    let mut pool = CreditPool::new();
    pool.set_available(0);

    let mut waiting = Waiting::on(&mut pool, 1, CreditClass::Data);
    assert!(waiting.is_still_waiting(50));

    pool.close();
    assert!(waiting.finish(&mut pool).is_err());
    assert!(pool.is_closed());
}

#[test]
fn a_reset_pool_starts_from_one_credit_again_and_is_no_longer_closed() {
    let mut pool = CreditPool::new();
    pool.set_available(400);
    pool.close();
    assert!(pool.is_closed());

    pool.reset();

    assert!(
        !pool.is_closed(),
        "a revived connection needs a live budget"
    );
    assert_eq!(
        pool.available(),
        1,
        "credits granted by a dead session must not carry over -- the new \
         server's window may be far smaller"
    );
    assert!(pool.try_reserve(1, CreditClass::Data).is_some());
}

#[test]
fn a_waiter_on_the_old_budget_is_failed_by_the_reset_rather_than_migrated() {
    let mut pool = CreditPool::new();
    pool.set_available(0);

    let mut waiting = Waiting::on(&mut pool, 4, CreditClass::Data);
    assert!(waiting.is_still_waiting(50), "nothing to reserve yet");

    // Teardown, then revival. The waiter belongs to the dead generation.
    pool.close();
    pool.reset();
    pool.grant(64);

    assert!(
        waiting.finish(&mut pool).is_err(),
        "a send queued against the old session must fail rather than \
         silently continue on the new one"
    );
}

#[test]
fn a_fitting_close_runs_before_an_unsatisfied_multicredit_read() {
    let mut pool = CreditPool::new();
    pool.set_available(0);

    let mut data = Waiting::on(&mut pool, 4, CreditClass::Data);
    let mut control = Waiting::on(&mut pool, 1, CreditClass::Control);
    assert!(data.is_still_waiting(20));
    assert!(control.is_still_waiting(20));

    pool.grant(1);
    control
        .finish(&mut pool)
        .expect("one credit must be granted to CLOSE");
    assert!(data.is_still_waiting(20));

    pool.grant(4);
    data.finish(&mut pool)
        .expect("the READ runs once its full charge fits");
    assert_eq!(pool.available(), 0);
}

#[test]
fn data_waiters_remain_strictly_fifo() {
    let mut pool = CreditPool::new();
    pool.set_available(0);

    let mut large = Waiting::on(&mut pool, 4, CreditClass::Data);
    let mut small = Waiting::on(&mut pool, 1, CreditClass::Data);
    assert!(large.is_still_waiting(20));
    assert!(small.is_still_waiting(20));

    pool.grant(1);
    assert!(
        small.is_still_waiting(20),
        "a small Data request must not jump the queue"
    );

    pool.grant(3);
    large.finish(&mut pool).expect("the FIFO head now fits");
    assert!(small.is_still_waiting(20));
    pool.grant(1);
    small
        .finish(&mut pool)
        .expect("the second Data waiter follows the head");
}

#[test]
fn cancelling_a_waiter_removes_it_without_leaking_credits() {
    let mut pool = CreditPool::new();
    pool.set_available(0);

    let mut cancelled = Waiting::on(&mut pool, 4, CreditClass::Data);
    assert!(cancelled.is_still_waiting(20));
    cancelled.drop_into(&mut pool);

    let mut next = Waiting::on(&mut pool, 1, CreditClass::Data);
    assert!(next.is_still_waiting(20));
    pool.grant(1);
    next.finish(&mut pool)
        .expect("the cancelled FIFO head no longer blocks Data");
    assert_eq!(pool.available(), 0);
}

#[test]
fn cancelling_an_unfundable_data_head_wakes_the_next_fitting_waiter() {
    let mut pool = CreditPool::new();
    pool.set_available(1);

    let mut head = Waiting::on(&mut pool, 4, CreditClass::Data);
    assert!(head.is_still_waiting(20));
    let mut next = Waiting::on(&mut pool, 1, CreditClass::Data);
    assert!(next.is_still_waiting(20));

    head.drop_into(&mut pool);

    next.finish(&mut pool)
        .expect("removing the blocked FIFO head must dispatch the next waiter");
    assert_eq!(pool.available(), 0);
}

#[test]
fn cancelling_after_a_grant_refunds_the_unconsumed_reservation() {
    let mut pool = CreditPool::new();
    pool.set_available(0);

    let mut cancelled = Waiting::on(&mut pool, 4, CreditClass::Data);
    assert!(cancelled.is_still_waiting(20));
    pool.grant(4);
    cancelled.drop_into(&mut pool);

    assert_eq!(
        pool.available(),
        4,
        "credits granted to a cancelled future must return to the pool"
    );
}

#[test]
fn a_grant_not_consumed_before_reset_cannot_cross_sessions() {
    let mut pool = CreditPool::new();
    pool.set_available(0);

    let mut waiting = Waiting::on(&mut pool, 4, CreditClass::Data);
    assert!(waiting.is_still_waiting(20));
    pool.grant(4);
    pool.reset();

    assert!(waiting.finish(&mut pool).is_err());
    assert_eq!(
        pool.available(),
        1,
        "a grant from the retired session must not alter the reset budget"
    );
}

#[test]
fn a_fresh_pool_pays_for_negotiate_and_nothing_else() {
    let mut pool = CreditPool::new();
    assert_eq!(pool.available(), 1);
    assert!(!pool.is_closed());
    assert_eq!(pool.try_reserve(1, CreditClass::Data), Some(0));
    assert_eq!(pool.try_reserve(1, CreditClass::Data), None);
}

#[test]
fn a_request_without_a_charge_costs_one_credit() {
    let mut pool = CreditPool::new();
    assert_eq!(pool.try_reserve(0, CreditClass::Data), Some(0));
    assert_eq!(pool.available(), 0);

    let waiting = Waiting::on(&mut pool, 0, CreditClass::Data);
    pool.grant(1);
    assert_eq!(pool.available(), 0);
    assert_eq!(waiting.finish(&mut pool), Ok(0));
}

#[test]
fn an_affordable_request_is_reserved_at_once() {
    let mut pool = CreditPool::new();
    pool.set_available(5);
    assert!(matches!(
        pool.reserve(5, CreditClass::Data),
        Ok(Reserve::Ready(0))
    ));
    assert_eq!(pool.available(), 0);
}

#[test]
fn an_affordable_request_still_queues_behind_an_older_one() {
    let mut pool = CreditPool::new();
    pool.set_available(2);
    let mut head = Waiting::on(&mut pool, 4, CreditClass::Data);

    assert_eq!(pool.try_reserve(1, CreditClass::Data), None);
    let mut behind = Waiting::on(&mut pool, 1, CreditClass::Data);
    assert!(head.is_still_waiting(5));
    assert!(behind.is_still_waiting(5));
    assert_eq!(pool.available(), 2);

    // A CLOSE only yields to other CLOSE requests.
    assert_eq!(pool.try_reserve(1, CreditClass::Control), Some(0));
    let mut close = Waiting::on(&mut pool, 3, CreditClass::Control);
    assert!(close.is_still_waiting(5));
    assert_eq!(pool.try_reserve(1, CreditClass::Control), None);
}

#[test]
fn an_unpaid_close_holds_back_other_requests() {
    let mut pool = CreditPool::new();
    pool.set_available(0);
    let mut close = Waiting::on(&mut pool, 3, CreditClass::Control);
    let mut data = Waiting::on(&mut pool, 1, CreditClass::Data);

    pool.grant(2);
    assert!(close.is_still_waiting(5));
    assert!(data.is_still_waiting(5));
    assert_eq!(pool.available(), 2);

    pool.grant(2);
    assert_eq!(close.finish(&mut pool), Ok(0));
    assert_eq!(data.finish(&mut pool), Ok(0));
    assert_eq!(pool.available(), 0);
}

#[test]
fn a_grant_to_an_owner_who_left_stays_in_the_pool() {
    let mut pool = CreditPool::new();
    pool.set_available(0);
    let Waiting { ready, mut registration } = Waiting::on(&mut pool, 4, CreditClass::Data);
    let next = Waiting::on(&mut pool, 3, CreditClass::Data);

    drop(ready);
    pool.grant(4);
    assert_eq!(pool.available(), 1, "only the second request took credits");
    registration.cancel(&mut pool);
    assert_eq!(pool.available(), 1, "there is nothing left to return");
    assert_eq!(next.finish(&mut pool), Ok(0));
}

#[test]
fn a_claim_is_used_up_by_its_first_use() {
    let mut pool = CreditPool::new();
    pool.set_available(0);
    let Waiting { ready, mut registration } = Waiting::on(&mut pool, 4, CreditClass::Data);
    pool.grant(4);
    let answer = runtime().block_on(ready).unwrap();
    assert_eq!(answer, Ok(()));
    assert_eq!(registration.consume(&mut pool, Ok(answer)), Ok(0));

    registration.cancel(&mut pool);
    assert_eq!(pool.available(), 0, "collected credits are not returned");
    assert_eq!(
        registration.consume(&mut pool, Ok(Ok(()))),
        Err(CreditPoolClosed)
    );
}

#[test]
fn a_channel_given_up_without_an_answer_counts_as_closed() {
    let mut pool = CreditPool::new();
    pool.set_available(0);
    let Waiting { ready, mut registration } = Waiting::on(&mut pool, 4, CreditClass::Data);
    drop(pool);
    let received = runtime().block_on(ready);
    assert!(received.is_err());
    let mut revived = CreditPool::new();
    assert_eq!(
        registration.consume(&mut revived, received),
        Err(CreditPoolClosed)
    );
}

#[test]
fn a_cancelled_grant_of_a_closed_session_is_not_returned() {
    let mut pool = CreditPool::new();
    pool.set_available(0);
    let waiting = Waiting::on(&mut pool, 4, CreditClass::Data);
    pool.grant(4);
    pool.close();
    waiting.drop_into(&mut pool);
    assert_eq!(pool.available(), 0);
}

#[test]
fn a_closed_pool_takes_and_gives_nothing() {
    let mut pool = CreditPool::new();
    pool.set_available(7);
    let generation = pool.try_reserve(2, CreditClass::Data).unwrap();
    pool.close();
    assert_eq!(pool.available(), 5);
    pool.grant(10);
    pool.refund(2, generation);
    pool.refund(2, generation + 1);
    assert_eq!(pool.available(), 5);
    assert_eq!(pool.try_reserve(1, CreditClass::Control), None);
    assert!(matches!(
        pool.reserve(1, CreditClass::Control),
        Err(CreditPoolClosed)
    ));
}

#[test]
fn reserving_and_refunding_leaves_waiters_as_they_were() {
    let mut pool = CreditPool::new();
    pool.set_available(2);
    let mut waiting = Waiting::on(&mut pool, 4, CreditClass::Data);
    let generation = pool.try_reserve(1, CreditClass::Control).unwrap();
    assert_eq!(pool.available(), 1);
    pool.refund(1, generation);
    assert_eq!(pool.available(), 2);
    assert!(waiting.is_still_waiting(5));
}

#[test]
fn two_grants_do_what_one_of_their_sum_does() {
    let outcome = |grants: &[u16]| {
        let mut pool = CreditPool::new();
        pool.set_available(0);
        let mut waiting: Vec<Waiting> = vec![
            Waiting::on(&mut pool, 3, CreditClass::Data),
            Waiting::on(&mut pool, 2, CreditClass::Control),
            Waiting::on(&mut pool, 4, CreditClass::Data),
        ];
        for credits in grants {
            pool.grant(*credits);
        }
        let still: Vec<bool> = waiting.iter_mut().map(|w| w.is_still_waiting(5)).collect();
        (pool.available(), still)
    };
    assert_eq!(outcome(&[7]), (2, vec![false, false, true]));
    assert_eq!(outcome(&[1, 6]), outcome(&[7]));
    assert_eq!(outcome(&[4, 3]), outcome(&[7]));
    assert_eq!(outcome(&[0, 7]), outcome(&[7]));
}

#[test]
fn a_wait_is_refused_only_by_a_session_change() {
    for (before_grant, after_grant, outcome) in [
        (false, false, Ok(1)),
        (true, false, Err(CreditPoolClosed)),
        (false, true, Err(CreditPoolClosed)),
    ] {
        let mut pool = CreditPool::new();
        pool.reset();
        pool.set_available(0);
        let waiting = Waiting::on(&mut pool, 4, CreditClass::Data);
        if before_grant {
            pool.reset();
        }
        pool.grant(2);
        pool.grant(2);
        if after_grant {
            pool.close();
            pool.reset();
        }
        assert_eq!(waiting.finish(&mut pool), outcome);
    }
}

#[test]
fn sessions_are_numbered_in_order() {
    let mut pool = CreditPool::new();
    assert_eq!(pool.try_reserve(1, CreditClass::Data), Some(0));
    pool.reset();
    assert_eq!(pool.try_reserve(1, CreditClass::Data), Some(1));
    pool.close();
    pool.reset();
    assert_eq!(pool.try_reserve(1, CreditClass::Data), Some(3));
}

#[test]
fn credits_saturate() {
    let mut pool = CreditPool::new();
    pool.set_available(u16::MAX - 1);
    pool.grant(5);
    assert_eq!(pool.available(), u16::MAX);
    pool.grant(0);
    assert_eq!(pool.available(), u16::MAX);

    pool.set_available(0);
    assert_eq!(pool.request_for(u16::MAX), u16::MAX);
    pool.set_available(500);
    assert_eq!(pool.request_for(3), 15);
}

#[test]
fn the_starvation_deadline_can_be_tuned() {
    let mut pool = CreditPool::new();
    assert_eq!(pool.wait_timeout(), 30_000);
    assert_eq!(pool.wait_timeout(), DEFAULT_CREDIT_WAIT_MS);
    pool.set_wait_timeout(Duration::from_millis(250).as_millis());
    assert_eq!(pool.wait_timeout(), 250);
    pool.set_wait_timeout(u64::MAX as u128 + 1);
    assert_eq!(pool.wait_timeout(), u64::MAX);
}
