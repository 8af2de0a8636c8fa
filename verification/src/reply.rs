//! One-shot channels, over which a requester waits for the outcome of its request.

use crate::error::OutboundError;
use crate::protocol::OutboundRequest;
use futures::channel::oneshot;
use vstd::prelude::*;

verus! {

/// The sending half of a `futures` one-shot channel; carried, never looked into.
#[verifier::external_type_specification]
#[verifier::external_body]
#[verifier::reject_recursive_types(T)]
pub struct ExSender<T>(futures::channel::oneshot::Sender<T>);

/// The receiving half of a `futures` one-shot channel; carried, never looked into.
#[verifier::external_type_specification]
#[verifier::external_body]
#[verifier::reject_recursive_types(T)]
pub struct ExReceiver<T>(futures::channel::oneshot::Receiver<T>);

/// What the receiving half yields when the sending half was dropped unused.
#[verifier::external_type_specification]
#[verifier::external_body]
pub struct ExCanceled(futures::channel::oneshot::Canceled);

/// `futures::channel::oneshot::channel`: makes the two halves of a new channel. Nothing more is
/// claimed of them than that they come out of one call, which is what [`are_halves`] says.
pub assume_specification<T>[ futures::channel::oneshot::channel::<T> ]() -> (halves: (
    futures::channel::oneshot::Sender<T>,
    futures::channel::oneshot::Receiver<T>,
));

/// `futures::channel::oneshot::Sender::send`: puts `value` into the channel. Where the receiver is
/// gone, the value comes back. Whether it is gone is up to the task that holds it, and is not
/// stated.
pub assume_specification<T>[ futures::channel::oneshot::Sender::<T>::send ](
    sender: futures::channel::oneshot::Sender<T>,
    value: T,
) -> (sent: Result<(), T>)
    ensures
        sent matches Err(returned) ==> returned == value,
;

/// Whether `sender` and `receiver` are the two halves of one channel: a call of `oneshot::channel`
/// can hand them out together.
pub open spec fn are_halves<T>(sender: oneshot::Sender<T>, receiver: oneshot::Receiver<T>) -> bool {
    call_ensures(oneshot::channel::<T>, (), (sender, receiver))
}

/// An answer to a requester that waits for it.
#[verifier::reject_recursive_types(C)]
#[verifier::reject_recursive_types(E)]
pub struct Reply<C, E> {
    /// Where the requester waits.
    pub sender: oneshot::Sender<Result<C, OutboundError<E>>>,
    /// What it is told.
    pub outcome: Result<C, OutboundError<E>>,
}

impl<C, E> Reply<C, E> {
    /// Whether this is the reply that the result `chr` of making a channel owes to the requester of
    /// `request`: a channel to hand out, or the error of the gRPC transport.
    pub open spec fn answers(self, request: OutboundRequest<C, E>, chr: Result<C, E>) -> bool where
        C: Clone,
     {
        &&& self.sender == request.sender
        &&& match chr {
            Ok(channel) => self.outcome matches Ok(sent) && cloned(channel, sent),
            Err(error) => self.outcome == Err::<C, OutboundError<E>>(
                OutboundError::GrpcChannel(error),
            ),
        }
    }

    /// Whether `sent` can come of handing the answer over: `outcome` is sent to `sender`.
    pub open spec fn sends(self, sent: Result<(), Result<C, OutboundError<E>>>) -> bool {
        call_ensures(
            oneshot::Sender::<Result<C, OutboundError<E>>>::send,
            (self.sender, self.outcome),
            sent,
        )
    }

    /// Whether `send` can return when it is given `sender` and `outcome`. Only a call that did
    /// return shows this; it says neither when the call was made nor how often.
    pub open spec fn is_sent(self) -> bool {
        exists|sent: Result<(), Result<C, OutboundError<E>>>| self.sends(sent)
    }

    /// Hands the answer over: the result is that of sending `outcome` to `sender`. The answer comes
    /// back where nobody waits for it any more.
    pub fn send(self) -> (sent: Result<(), Result<C, OutboundError<E>>>)
        ensures
            self.sends(sent),
            sent matches Err(returned) ==> returned == self.outcome,
    {
        self.sender.send(self.outcome)
    }
}

} // verus!
