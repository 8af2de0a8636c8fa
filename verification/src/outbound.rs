//! What a requester gets.

use crate::error::{GrpcOutboundMapError, OutboundError};
use crate::protocol::OutboundId;
use futures::channel::oneshot;
use vstd::prelude::*;

verus! {

/// How a request for a channel stands.
#[verifier::reject_recursive_types(C)]
#[verifier::reject_recursive_types(E)]
pub enum GrpcOutbound<C, E> {
    /// There is a channel already.
    ServingChannel { outbound_id: OutboundId, channel: C },
    /// A new request was made, whose outcome can be waited for.
    WaitingChannel {
        outbound_id: OutboundId,
        channel_rx: oneshot::Receiver<Result<C, OutboundError<E>>>,
    },
    /// An earlier request is still pending.
    PendingOutbound { outbound_id: OutboundId },
}

/// What is left to do until a requested channel can be handed out.
#[verifier::reject_recursive_types(C)]
#[verifier::reject_recursive_types(E)]
pub enum GrpcOutboundStep<C, E> {
    /// Nothing.
    Done(Result<(C, OutboundId), GrpcOutboundMapError<E>>),
    /// To wait for what `channel_rx` yields, and to hand that to [`map_received`].
    Waiting {
        outbound_id: OutboundId,
        channel_rx: oneshot::Receiver<Result<C, OutboundError<E>>>,
    },
}

impl<C, E> GrpcOutbound<C, E> {
    /// The channel, with the request that it was made for, or what to wait for. An earlier request
    /// that is still pending is an error.
    pub fn map(self) -> (step: GrpcOutboundStep<C, E>)
        ensures
            step == (match self {
                GrpcOutbound::ServingChannel { outbound_id, channel } => GrpcOutboundStep::Done(
                    Ok((channel, outbound_id)),
                ),
                GrpcOutbound::WaitingChannel { outbound_id, channel_rx } =>
                    GrpcOutboundStep::Waiting { outbound_id, channel_rx },
                GrpcOutbound::PendingOutbound { outbound_id } => GrpcOutboundStep::Done(
                    Err(GrpcOutboundMapError::PrevOutbondPending(outbound_id)),
                ),
            }),
    {
        match self {
            GrpcOutbound::ServingChannel { outbound_id, channel } => GrpcOutboundStep::Done(
                Ok((channel, outbound_id)),
            ),
            GrpcOutbound::WaitingChannel { outbound_id, channel_rx } => GrpcOutboundStep::Waiting {
                outbound_id,
                channel_rx,
            },
            GrpcOutbound::PendingOutbound { outbound_id } => GrpcOutboundStep::Done(
                Err(GrpcOutboundMapError::PrevOutbondPending(outbound_id)),
            ),
        }
    }
}

/// What a requester gets of what it waited for.
pub open spec fn received_as<C, E>(
    outbound_id: OutboundId,
    received: Result<Result<C, OutboundError<E>>, oneshot::Canceled>,
) -> Result<(C, OutboundId), GrpcOutboundMapError<E>> {
    match received {
        Ok(Ok(channel)) => Ok((channel, outbound_id)),
        Ok(Err(error)) => Err(GrpcOutboundMapError::OutboundError(error)),
        Err(canceled) => Err(GrpcOutboundMapError::SenderCanceled(canceled)),
    }
}

/// What a requester gets of what it waited for.
pub fn map_received<C, E>(
    outbound_id: OutboundId,
    received: Result<Result<C, OutboundError<E>>, oneshot::Canceled>,
) -> (mapped: Result<(C, OutboundId), GrpcOutboundMapError<E>>)
    ensures
        mapped == received_as(outbound_id, received),
{
    match received {
        Ok(Ok(channel)) => Ok((channel, outbound_id)),
        Ok(Err(error)) => Err(GrpcOutboundMapError::OutboundError(error)),
        Err(canceled) => Err(GrpcOutboundMapError::SenderCanceled(canceled)),
    }
}

} // verus!
