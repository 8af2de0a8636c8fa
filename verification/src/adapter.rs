//! Streams on their way to and from gRPC.

use crate::net::{ConnectionId, PeerId};
use crate::protocol::OutboundRequest;
use tokio::sync::mpsc;
use vstd::prelude::*;

verus! {

/// The sending half of an unbounded `tokio` channel; carried, never looked into.
#[verifier::external_type_specification]
#[verifier::external_body]
#[verifier::reject_recursive_types(T)]
pub struct ExUnboundedSender<T>(tokio::sync::mpsc::UnboundedSender<T>);

/// The receiving half of an unbounded `tokio` channel; carried, never looked into.
#[verifier::external_type_specification]
#[verifier::external_body]
#[verifier::reject_recursive_types(T)]
pub struct ExUnboundedReceiver<T>(tokio::sync::mpsc::UnboundedReceiver<T>);

/// What a `tokio` channel hands back of a value that nobody can receive any more.
#[verifier::external_type_specification]
#[verifier::external_body]
#[verifier::reject_recursive_types(T)]
pub struct ExSendError<T>(tokio::sync::mpsc::error::SendError<T>);

/// `tokio::sync::mpsc::unbounded_channel`: makes the two halves of a new channel. Nothing more is
/// claimed of them than that they come out of one call, which is what [`leads_to`] says.
pub assume_specification<T>[ tokio::sync::mpsc::unbounded_channel::<T> ]() -> (halves: (
    tokio::sync::mpsc::UnboundedSender<T>,
    tokio::sync::mpsc::UnboundedReceiver<T>,
));

/// `tokio::sync::mpsc::UnboundedSender::send`: puts `value` behind what the channel holds, unless
/// the receiver is gone, in which case the value comes back inside the error. Whether it is gone is
/// up to the task that holds it, and the error is opaque here, so nothing is claimed of the result.
pub assume_specification<T>[ tokio::sync::mpsc::UnboundedSender::<T>::send ](
    sender: &tokio::sync::mpsc::UnboundedSender<T>,
    value: T,
) -> (sent: Result<(), tokio::sync::mpsc::error::SendError<T>>);

/// A negotiated stream `S`, with the peer and the connection that it belongs to.
#[derive(Debug)]
pub struct NegotiatedStreamWrapper<S> {
    /// The stream.
    pub inner: S,
    /// The peer at its other end.
    pub peer_id: PeerId,
    /// The connection that carries it.
    pub connection_id: ConnectionId,
}

impl<S> NegotiatedStreamWrapper<S> {
    /// Wraps `stream`.
    pub fn new(stream: S, peer_id: PeerId, connection_id: ConnectionId) -> (wrapper:
        NegotiatedStreamWrapper<S>)
        ensures
            wrapper == (NegotiatedStreamWrapper { inner: stream, peer_id, connection_id }),
    {
        NegotiatedStreamWrapper { inner: stream, peer_id, connection_id }
    }

    /// The peer at the stream's other end.
    pub fn peer_id(&self) -> (peer_id: &PeerId)
        ensures
            *peer_id == self.peer_id,
    {
        &self.peer_id
    }

    /// The connection that carries the stream.
    pub fn connection_id(&self) -> (connection_id: &ConnectionId)
        ensures
            *connection_id == self.connection_id,
    {
        &self.connection_id
    }

    /// The stream itself.
    pub fn into_inner(self) -> (stream: S)
        ensures
            stream == self.inner,
    {
        self.inner
    }
}

/// Whether what is sent to `server` comes out of `streams`: a call of `mpsc::unbounded_channel` can
/// hand the two out together.
pub open spec fn leads_to<T>(
    server: mpsc::UnboundedSender<T>,
    streams: mpsc::UnboundedReceiver<T>,
) -> bool {
    call_ensures(mpsc::unbounded_channel::<T>, (), (server, streams))
}

/// Whether `send` can return when it is given `server` and `stream`. Only a call that did return
/// shows this; it says neither when the call was made nor how often.
pub open spec fn is_forwarded<T>(server: mpsc::UnboundedSender<T>, stream: T) -> bool {
    exists|sent: Result<(), mpsc::error::SendError<T>>|
        call_ensures(mpsc::UnboundedSender::<T>::send, (&server, stream), sent)
}

/// A gRPC server that is due to start: the services, and where their streams come from.
#[verifier::reject_recursive_types(S)]
pub struct Serve<R, S> {
    /// Routes calls to services.
    pub router: R,
    /// Yields the streams that peers open.
    pub streams: mpsc::UnboundedReceiver<NegotiatedStreamWrapper<S>>,
}

/// A gRPC channel that is due to be made.
#[verifier::reject_recursive_types(C)]
#[verifier::reject_recursive_types(E)]
pub struct ChannelJob<C, E, S> {
    /// The stream that the channel is to run on.
    pub stream: NegotiatedStreamWrapper<S>,
    /// The request that the stream was opened for.
    pub outbound_request: OutboundRequest<C, E>,
    /// The peer at the stream's other end.
    pub peer: PeerId,
}

} // verus!
