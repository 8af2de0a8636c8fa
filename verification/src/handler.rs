//! What happens on one connection.

use crate::adapter::{ChannelJob, NegotiatedStreamWrapper};
use crate::net::{ConnectionId, PeerId};
use crate::protocol::{
    DirectGrpcUpgradeProtocol, InboundId, InboundIdGen, OutboundRequest, successor,
};
use crate::queue::{pop, tail};
use crate::swarm::{
    ConnectionEvent, ConnectionHandlerEvent, StreamUpgradeError, SubstreamProtocol,
};
use std::collections::VecDeque;
use vstd::prelude::*;

verus! {

/// What the handler of a connection reports. `S` is a negotiated stream.
#[derive(Debug)]
#[verifier::reject_recursive_types(C)]
#[verifier::reject_recursive_types(E)]
pub enum Event<C, E, S> {
    /// A stream that the peer opened is ready.
    InboundStream { inbound_id: InboundId, stream: S },
    /// A requested stream is ready.
    OutboundStream { outbound_request: OutboundRequest<C, E>, stream: S },
    /// A requested stream took too long.
    OutboundTimeout(OutboundRequest<C, E>),
    /// The peer does not speak the protocol of a requested stream.
    OutboundUnsupportedProtocols(OutboundRequest<C, E>),
    /// A stream that the peer opened took too long.
    InboundTimeout(InboundId),
    /// The peer opened a stream for a protocol that is not spoken here.
    InboundUnsupportedProtocols(InboundId),
}

impl<C, E, S> Event<C, E, S> {
    /// The channel that is due to be made where the handler of the connection `id` to `peer`
    /// reported this.
    pub open spec fn job(self, peer: PeerId, id: ConnectionId) -> Option<ChannelJob<C, E, S>> {
        match self {
            Event::OutboundStream { outbound_request, stream } => Some(
                ChannelJob {
                    stream: NegotiatedStreamWrapper {
                        inner: stream,
                        peer_id: peer,
                        connection_id: id,
                    },
                    outbound_request,
                    peer,
                },
            ),
            _ => None,
        }
    }

    /// The request that is let go, with no answer to its requester, where the node takes this: one
    /// whose stream took too long, or whose protocol the peer does not speak.
    pub open spec fn dropped(self) -> Option<OutboundRequest<C, E>> {
        match self {
            Event::OutboundTimeout(request) => Some(request),
            Event::OutboundUnsupportedProtocols(request) => Some(request),
            _ => None,
        }
    }

    /// The request that this is about.
    pub open spec fn request(self) -> Option<OutboundRequest<C, E>> {
        match self {
            Event::OutboundStream { outbound_request, stream } => Some(outbound_request),
            _ => self.dropped(),
        }
    }
}

/// What a handler knows.
#[verifier::ext_equal]
#[verifier::reject_recursive_types(C)]
#[verifier::reject_recursive_types(E)]
pub struct HandlerState<C, E, S, F> {
    /// The protocol that its streams speak.
    pub protocol_name: Seq<char>,
    /// The requests for streams that are not opened yet, oldest first.
    pub outbounds: Seq<OutboundRequest<C, E>>,
    /// The error that is to close the connection.
    pub pending_error: Option<StreamUpgradeError<F>>,
    /// What is yet to be reported, oldest first.
    pub pending_events: Seq<Event<C, E, S>>,
}

impl<C, E, S, F> HandlerState<C, E, S, F> {
    /// A handler to which nothing happened yet.
    pub open spec fn fresh(protocol_name: Seq<char>) -> Self {
        HandlerState {
            protocol_name,
            outbounds: Seq::empty(),
            pending_error: None,
            pending_events: Seq::empty(),
        }
    }

    /// With `event` to be reported.
    pub open spec fn reporting(self, event: Event<C, E, S>) -> Self {
        HandlerState { pending_events: self.pending_events.push(event), ..self }
    }

    /// With `error` to close the connection.
    pub open spec fn failing(self, error: StreamUpgradeError<F>) -> Self {
        HandlerState { pending_error: Some(error), ..self }
    }

    /// With `request` waiting for its stream.
    pub open spec fn requested(self, request: OutboundRequest<C, E>) -> Self {
        HandlerState { outbounds: self.outbounds.push(request), ..self }
    }

    /// After a requested stream could not be upgraded. That it took too long, and that the peer
    /// does not speak the protocol, are reported; anything else closes the connection.
    pub open spec fn dial_upgrade_failed(
        self,
        info: OutboundRequest<C, E>,
        error: StreamUpgradeError<F>,
    ) -> Self {
        match error {
            StreamUpgradeError::Timeout => self.reporting(Event::OutboundTimeout(info)),
            StreamUpgradeError::NegotiationFailed => self.reporting(
                Event::OutboundUnsupportedProtocols(info),
            ),
            _ => self.failing(error),
        }
    }

    /// After a stream that the peer opened could not be upgraded. That it took too long, and that
    /// its protocol is not spoken here, are reported; anything else closes the connection.
    pub open spec fn listen_upgrade_failed(
        self,
        info: InboundId,
        error: StreamUpgradeError<F>,
    ) -> Self {
        match error {
            StreamUpgradeError::Timeout => self.reporting(Event::InboundTimeout(info)),
            StreamUpgradeError::NegotiationFailed => self.reporting(
                Event::InboundUnsupportedProtocols(info),
            ),
            _ => self.failing(error),
        }
    }

    /// After `event` happened on the connection.
    pub open spec fn after(self, event: ConnectionEvent<C, E, S, F>) -> Self {
        match event {
            ConnectionEvent::FullyNegotiatedInbound { protocol, info } => self.reporting(
                Event::InboundStream { inbound_id: info, stream: protocol },
            ),
            ConnectionEvent::FullyNegotiatedOutbound { protocol, info } => self.reporting(
                Event::OutboundStream { outbound_request: info, stream: protocol },
            ),
            ConnectionEvent::AddressChange => self,
            ConnectionEvent::DialUpgradeError { info, error } => self.dial_upgrade_failed(
                info,
                error,
            ),
            ConnectionEvent::ListenUpgradeError { info, error } => self.listen_upgrade_failed(
                info,
                error,
            ),
        }
    }

    /// Whether `asked` is what the handler asks for next: to close the connection where an error
    /// is pending, else to pass on the oldest event, else to open a stream for the oldest request.
    pub open spec fn asks_for(
        self,
        asked: Option<ConnectionHandlerEvent<C, E, Event<C, E, S>, F>>,
    ) -> bool {
        if self.pending_error is Some {
            asked == Some(
                ConnectionHandlerEvent::<C, E, Event<C, E, S>, F>::Close(self.pending_error->0),
            )
        } else if self.pending_events.len() > 0 {
            asked == Some(
                ConnectionHandlerEvent::<C, E, Event<C, E, S>, F>::Custom(self.pending_events[0]),
            )
        } else if self.outbounds.len() > 0 {
            asked matches Some(ConnectionHandlerEvent::OutboundSubstreamRequest { protocol })
                && protocol.upgrade.protocol_name@ == self.protocol_name && protocol.info
                == self.outbounds[0]
        } else {
            asked is None
        }
    }

    /// After the handler asked for what comes next.
    pub open spec fn polled(self) -> Self {
        if self.pending_error is Some {
            HandlerState { pending_error: None, ..self }
        } else if self.pending_events.len() > 0 {
            HandlerState { pending_events: tail(self.pending_events), ..self }
        } else {
            HandlerState { outbounds: tail(self.outbounds), ..self }
        }
    }
}

/// Opens and accepts the gRPC streams of one connection.
///
/// `C` is a gRPC channel, `E` an error of the gRPC transport, `S` a negotiated stream, and `F` an
/// error on which a connection is closed.
#[verifier::reject_recursive_types(C)]
#[verifier::reject_recursive_types(E)]
pub struct Handler<C, E, S, F> {
    protocol_name: String,
    outbounds: VecDeque<OutboundRequest<C, E>>,
    pending_error: Option<StreamUpgradeError<F>>,
    pending_events: VecDeque<Event<C, E, S>>,
}

impl<C, E, S, F> View for Handler<C, E, S, F> {
    type V = HandlerState<C, E, S, F>;

    closed spec fn view(&self) -> HandlerState<C, E, S, F> {
        HandlerState {
            protocol_name: self.protocol_name@,
            outbounds: self.outbounds@,
            pending_error: self.pending_error,
            pending_events: self.pending_events@,
        }
    }
}

impl<C, E, S, F> Handler<C, E, S, F> {
    /// The handler of a new connection.
    pub fn new(protocol_name: String) -> (handler: Self)
        ensures
            handler@ == HandlerState::<C, E, S, F>::fresh(protocol_name@),
    {
        Handler {
            protocol_name,
            outbounds: VecDeque::new(),
            pending_error: None,
            pending_events: VecDeque::new(),
        }
    }

    /// Takes note that a requested stream could not be upgraded. A request that is not reported is
    /// handed back as it came, to be let go with no answer to its requester.
    fn on_dial_upgrade_error(
        &mut self,
        info: OutboundRequest<C, E>,
        error: StreamUpgradeError<F>,
    ) -> (dropped: Option<OutboundRequest<C, E>>)
        ensures
            final(self)@ == old(self)@.dial_upgrade_failed(info, error),
            dropped == (match error {
                StreamUpgradeError::Timeout | StreamUpgradeError::NegotiationFailed => None,
                _ => Some(info),
            }),
    {
        match error {
            StreamUpgradeError::Timeout => {
                self.pending_events.push_back(Event::OutboundTimeout(info));
                None
            },
            // The peer merely does not speak the protocol. The connection may well be of use to
            // other protocols, so it stays open, and the user is told.
            StreamUpgradeError::NegotiationFailed => {
                self.pending_events.push_back(Event::OutboundUnsupportedProtocols(info));
                None
            },
            // Anything else is fatal, or misbehaviour of the peer.
            error => {
                self.pending_error = Some(error);
                Some(info)
            },
        }
    }

    fn on_listen_upgrade_error(&mut self, info: InboundId, error: StreamUpgradeError<F>)
        ensures
            final(self)@ == old(self)@.listen_upgrade_failed(info, error),
    {
        match error {
            StreamUpgradeError::Timeout => {
                self.pending_events.push_back(Event::InboundTimeout(info));
            },
            // The protocol is merely not spoken here. The connection may well be of use to other
            // protocols, so it stays open, and the user is told.
            StreamUpgradeError::NegotiationFailed => {
                self.pending_events.push_back(Event::InboundUnsupportedProtocols(info));
            },
            // Anything else is fatal, or misbehaviour of the peer.
            error => {
                self.pending_error = Some(error);
            },
        }
    }

    /// How the next stream that the peer opens is to be negotiated. It gets the identifier that
    /// is drawn here.
    pub fn listen_protocol(&self, inbound_id_gen: &mut InboundIdGen) -> (protocol:
        SubstreamProtocol<InboundId>)
        ensures
            protocol.upgrade.protocol_name@ == self@.protocol_name,
            protocol.info == InboundId(old(inbound_id_gen)@),
            final(inbound_id_gen)@ == successor(old(inbound_id_gen)@),
    {
        SubstreamProtocol {
            upgrade: DirectGrpcUpgradeProtocol { protocol_name: self.protocol_name.clone() },
            info: inbound_id_gen.next(),
        }
    }

    /// Takes a request for a stream.
    pub fn on_behaviour_event(&mut self, outbound_req: OutboundRequest<C, E>)
        ensures
            final(self)@ == old(self)@.requested(outbound_req),
    {
        self.outbounds.push_back(outbound_req);
    }

    /// Whether the connection is to be kept open: it always is.
    pub fn connection_keep_alive(&self) -> (keep: bool)
        ensures
            keep,
    {
        true
    }

    /// What the handler asks for next.
    pub fn poll(&mut self) -> (asked: Option<ConnectionHandlerEvent<C, E, Event<C, E, S>, F>>)
        ensures
            old(self)@.asks_for(asked),
            final(self)@ == old(self)@.polled(),
    {
        if let Some(error) = self.pending_error.take() {
            return Some(ConnectionHandlerEvent::Close(error));
        }
        if let Some(event) = pop(&mut self.pending_events) {
            return Some(ConnectionHandlerEvent::Custom(event));
        }
        if let Some(outbound_req) = self.outbounds.pop_front() {
            let protocol = SubstreamProtocol {
                upgrade: DirectGrpcUpgradeProtocol { protocol_name: self.protocol_name.clone() },
                info: outbound_req,
            };
            return Some(ConnectionHandlerEvent::OutboundSubstreamRequest { protocol });
        }
        None
    }

    /// Takes note of what happened on the connection.
    pub fn on_connection_event(&mut self, event: ConnectionEvent<C, E, S, F>)
        ensures
            final(self)@ == old(self)@.after(event),
    {
        match event {
            ConnectionEvent::FullyNegotiatedInbound { protocol, info } => {
                self.pending_events.push_back(
                    Event::InboundStream { inbound_id: info, stream: protocol },
                );
            },
            ConnectionEvent::FullyNegotiatedOutbound { protocol, info } => {
                self.pending_events.push_back(
                    Event::OutboundStream { outbound_request: info, stream: protocol },
                );
            },
            ConnectionEvent::DialUpgradeError { info, error } => {
                let _ = self.on_dial_upgrade_error(info, error);
            },
            ConnectionEvent::ListenUpgradeError { info, error } => {
                self.on_listen_upgrade_error(info, error);
            },
            ConnectionEvent::AddressChange => {},
        }
    }
}

} // verus!
