//! The one-shot channel over which a parked request learns its fate.

use tokio::sync::oneshot::{Receiver, Sender};
use vstd::prelude::*;

verus! {

/// The connection was torn down, so its credits are gone.
#[derive(Clone, Copy, Debug, PartialEq, Eq, Structural)]
pub struct CreditPoolClosed;

/// What a parked request is told: go ahead, or give up.
pub type Answer = Result<(), CreditPoolClosed>;

/// `tokio::sync::oneshot::Sender`, carried as an opaque value.
#[verifier::external_type_specification]
#[verifier::external_body]
#[verifier::reject_recursive_types(T)]
pub struct ExSender<T>(Sender<T>);

/// `tokio::sync::oneshot::Receiver`, carried as an opaque value.
#[verifier::external_type_specification]
#[verifier::external_body]
#[verifier::reject_recursive_types(T)]
pub struct ExReceiver<T>(Receiver<T>);

/// `tokio::sync::oneshot::error::RecvError`, what awaiting a receiving half
/// gives when the sending half went away without a word.
#[verifier::external_type_specification]
#[verifier::external_body]
pub struct ExRecvError(tokio::sync::oneshot::error::RecvError);

/// Which channel a sending half belongs to.
pub uninterp spec fn sender_channel(sender: Sender<Answer>) -> int;

/// Which channel a receiving half belongs to.
pub uninterp spec fn receiver_channel(receiver: Receiver<Answer>) -> int;

/// Calls `tokio::sync::oneshot::channel`. The two halves it returns share one
/// channel.
#[verifier::external_body]
pub(crate) fn channel() -> (halves: (Sender<Answer>, Receiver<Answer>))
    ensures
        sender_channel(halves.0) == receiver_channel(halves.1),
{
    tokio::sync::oneshot::channel()
}

/// The record of one answer that was sent. Only sending makes one.
#[derive(Clone, Copy)]
pub struct Delivery {
    channel: Ghost<int>,
    answer: Answer,
    delivered: bool,
}

impl Delivery {
    /// The channel on which the answer was sent.
    pub closed spec fn channel(&self) -> int {
        self.channel@
    }

    /// The answer that was sent.
    pub closed spec fn answer(&self) -> Answer {
        self.answer
    }

    /// The receiving half was still there.
    pub closed spec fn arrived(&self) -> bool {
        self.delivered
    }

    /// Whether the answer was to go ahead.
    pub fn is_grant(&self) -> (grant: bool)
        ensures
            grant == (self.answer() is Ok),
    {
        self.answer.is_ok()
    }

    /// Whether the receiving half was still there.
    pub fn delivered(&self) -> (delivered: bool)
        ensures
            delivered == self.arrived(),
    {
        self.delivered
    }
}

/// Calls `tokio::sync::oneshot::Sender::send` and records what was sent, and on
/// which channel. Whether it arrives depends on whether the receiving half is
/// still there, so nothing is claimed of that.
#[verifier::external_body]
pub(crate) fn send(sender: Sender<Answer>, answer: Answer) -> (delivery: Delivery)
    ensures
        delivery.channel() == sender_channel(sender),
        delivery.answer() == answer,
{
    let channel: Ghost<int> = Ghost(sender_channel(sender));
    let delivered = sender.send(answer).is_ok();
    Delivery { channel, answer, delivered }
}

} // verus!
