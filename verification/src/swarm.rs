//! What the swarm tells this protocol, and what it is told.

use crate::error::{InboundError, OutboundError};
use crate::net::{ConnectionId, Multiaddr, PeerId};
use crate::protocol::{
    DirectGrpcUpgradeProtocol, InboundId, OutboundId, OutboundRequest,
};
use vstd::prelude::*;

verus! {

/// What is reported to the user of this protocol. `C` is a gRPC channel, `E` an error of the gRPC
/// transport.
#[allow(inconsistent_fields)]
#[derive(Debug)]
pub enum Event<C, E> {
    /// A stream that a peer opened was handed to the gRPC server.
    InboundSuccess { peer: PeerId, inbound_id: InboundId },
    /// A stream that a peer opened came to nothing.
    InboundFailure { peer: PeerId, inbound_id: InboundId, error: InboundError },
    /// A requested channel is ready.
    OutboundSuccess { peer: PeerId, outbound_id: OutboundId, channel: C },
    /// A request failed before there was a stream.
    OutboundFailure { peer: PeerId, outbound_id: OutboundId, error: OutboundError<E> },
    /// A stream was there, but no channel could be made of it, for the reason given.
    LiteralOutboundFailure { peer: PeerId, outbound_id: OutboundId, error: String },
}

/// What the swarm is told.
#[derive(Debug)]
#[verifier::reject_recursive_types(C)]
#[verifier::reject_recursive_types(E)]
pub enum ToSwarm<C, E> {
    /// Report this to the user.
    GenerateEvent(Event<C, E>),
    /// Dial this peer.
    Dial { peer_id: PeerId },
    /// Give this request to the handler of that one connection.
    NotifyHandler { peer_id: PeerId, handler: ConnectionId, event: OutboundRequest<C, E> },
}

impl<C, E> ToSwarm<C, E> {
    /// The request that is given to a handler.
    pub open spec fn request(self) -> Option<OutboundRequest<C, E>> {
        match self {
            ToSwarm::NotifyHandler { peer_id, handler, event } => Some(event),
            _ => None,
        }
    }
}

/// Which end of a connection the local node is.
#[derive(Debug)]
pub enum ConnectedPoint {
    /// It dialed this address.
    Dialer { address: Multiaddr },
    /// It was dialed.
    Listener,
}

impl ConnectedPoint {
    /// The address that was dialed, where the local node did dial.
    pub open spec fn dialed(self) -> Option<Seq<u8>> {
        match self {
            ConnectedPoint::Dialer { address } => Some(address@),
            ConnectedPoint::Listener => None,
        }
    }
}

/// A connection was established.
#[derive(Debug)]
pub struct ConnectionEstablished {
    /// The peer at its other end.
    pub peer_id: PeerId,
    /// Identifies the connection.
    pub connection_id: ConnectionId,
    /// Which end the local node is.
    pub endpoint: ConnectedPoint,
    /// How many connections to the peer there were already.
    pub other_established: usize,
}

/// A connection was closed.
#[derive(Debug)]
pub struct ConnectionClosed {
    /// The peer at its other end.
    pub peer_id: PeerId,
    /// Identifies the connection.
    pub connection_id: ConnectionId,
    /// How many connections to the peer are left.
    pub remaining_established: usize,
}

/// An attempt to dial failed.
#[derive(Debug)]
pub struct DialFailure {
    /// The peer that was dialed, where it was known.
    pub peer_id: Option<PeerId>,
}

/// What the swarm tells.
#[derive(Debug)]
pub enum FromSwarm {
    ConnectionEstablished(ConnectionEstablished),
    ConnectionClosed(ConnectionClosed),
    AddressChange,
    DialFailure(DialFailure),
    ListenFailure,
    NewListener,
    NewListenAddr,
    ExpiredListenAddr,
    ListenerError,
    ListenerClosed,
    NewExternalAddr,
    ExpiredExternalAddr,
}

/// Why a stream could not be upgraded. `F` is an error that is beyond repair.
#[derive(Debug)]
pub enum StreamUpgradeError<F> {
    /// The attempt took too long.
    Timeout,
    /// The upgrade itself failed.
    Apply(F),
    /// No protocol could be agreed upon.
    NegotiationFailed,
    /// Reading or writing failed.
    Io(F),
}

/// A stream that is to be negotiated, with what is to be known of it afterwards.
#[derive(Debug)]
pub struct SubstreamProtocol<I> {
    /// The upgrade that it gets.
    pub upgrade: DirectGrpcUpgradeProtocol,
    /// What is to be known of it.
    pub info: I,
}

/// What happened on a connection.
#[allow(inconsistent_fields)]
#[derive(Debug)]
#[verifier::reject_recursive_types(C)]
#[verifier::reject_recursive_types(E)]
pub enum ConnectionEvent<C, E, S, F> {
    /// A stream that the peer opened is ready.
    FullyNegotiatedInbound { protocol: S, info: InboundId },
    /// A requested stream is ready.
    FullyNegotiatedOutbound { protocol: S, info: OutboundRequest<C, E> },
    /// The address of the peer changed.
    AddressChange,
    /// A requested stream could not be upgraded.
    DialUpgradeError { info: OutboundRequest<C, E>, error: StreamUpgradeError<F> },
    /// A stream that the peer opened could not be upgraded.
    ListenUpgradeError { info: InboundId, error: StreamUpgradeError<F> },
}

impl<C, E, S, F> ConnectionEvent<C, E, S, F> {
    /// The request that this is about.
    pub open spec fn request(self) -> Option<OutboundRequest<C, E>> {
        match self {
            ConnectionEvent::FullyNegotiatedOutbound { protocol, info } => Some(info),
            ConnectionEvent::DialUpgradeError { info, error } => Some(info),
            _ => None,
        }
    }
}

/// What the handler of a connection asks for.
#[derive(Debug)]
#[verifier::reject_recursive_types(C)]
#[verifier::reject_recursive_types(E)]
pub enum ConnectionHandlerEvent<C, E, T, F> {
    /// Open a stream for this request.
    OutboundSubstreamRequest { protocol: SubstreamProtocol<OutboundRequest<C, E>> },
    /// Close the connection, for this reason.
    Close(StreamUpgradeError<F>),
    /// Pass this on.
    Custom(T),
}

} // verus!
