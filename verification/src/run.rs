//! A node and its connections at work together: every reply goes where the requester waits for it.

use crate::adapter::NegotiatedStreamWrapper;
use crate::error::{GrpcOutboundMapError, OutboundError};
use crate::handler::{Event as HandlerEvent, HandlerState};
use crate::laws::{
    law_handler_events_keep_invariant, law_initial_state_keeps_invariant,
    law_requests_keep_invariant, law_swarm_events_keep_invariant,
};
use crate::net::{ConnectionId, PeerId};
use crate::outbound::received_as;
use crate::protocol::{OutboundId, OutboundRequest};
use crate::queue::head;
use crate::reply::{Reply, are_halves};
use crate::state::{State, lemma_inv_frame};
use crate::swarm::{ConnectionEvent, ConnectionHandlerEvent, FromSwarm};
use futures::channel::oneshot;
use tokio::sync::mpsc;
use vstd::prelude::*;

verus! {

/// Where a requester waits.
#[verifier::reject_recursive_types(C)]
#[verifier::reject_recursive_types(E)]
pub struct Requester<C, E> {
    /// The peer that it asked for.
    pub peer: PeerId,
    /// The half of the channel that it was given.
    pub channel_rx: oneshot::Receiver<Result<C, OutboundError<E>>>,
}

/// A node, the handlers of its connections, and what the swarm holds for them.
#[verifier::reject_recursive_types(C)]
#[verifier::reject_recursive_types(E)]
#[verifier::reject_recursive_types(S)]
pub struct System<C, E, R, S, F> {
    /// The node.
    pub node: State<C, E, R, S>,
    /// The handlers, by connection.
    pub handlers: Map<ConnectionId, HandlerState<C, E, S, F>>,
    /// The requests that the swarm was given so far, by the node or by a handler.
    pub given: Set<OutboundRequest<C, E>>,
    /// Where the requester of each request waits.
    pub requesters: Map<OutboundId, Requester<C, E>>,
}

/// What can happen.
#[verifier::reject_recursive_types(C)]
#[verifier::reject_recursive_types(E)]
#[verifier::reject_recursive_types(S)]
pub enum Step<C, E, R, S, F> {
    /// A channel to `peer` is asked for, which makes a request.
    Request {
        peer: PeerId,
        sender: oneshot::Sender<Result<C, OutboundError<E>>>,
        channel_rx: oneshot::Receiver<Result<C, OutboundError<E>>>,
    },
    /// The swarm tells the node an event.
    Swarm {
        event: FromSwarm,
        started: Option<mpsc::UnboundedSender<NegotiatedStreamWrapper<S>>>,
    },
    /// The swarm takes the oldest of what it is to be told.
    Poll,
    /// A connection gets its handler.
    Handle { id: ConnectionId },
    /// The swarm gives a request to a handler.
    Notify { id: ConnectionId, request: OutboundRequest<C, E> },
    /// The swarm takes what a handler asks for.
    PollHandler {
        id: ConnectionId,
        asked: Option<ConnectionHandlerEvent<C, E, HandlerEvent<C, E, S>, F>>,
    },
    /// The swarm tells a handler an event.
    Connection { id: ConnectionId, event: ConnectionEvent<C, E, S, F> },
    /// The swarm tells the node what a handler reported.
    Report { peer: PeerId, id: ConnectionId, event: HandlerEvent<C, E, S> },
    /// The result of making a channel for `request` is there. The node keeps `kept` of it, and owes
    /// `reply`.
    Settle {
        chr: Result<C, E>,
        request: OutboundRequest<C, E>,
        peer: PeerId,
        kept: C,
        reply: Reply<C, E>,
    },
    /// An address is added.
    AddAddress { peer: PeerId, address: Seq<u8> },
    /// An address is removed.
    RemoveAddress { peer: PeerId, address: Seq<u8> },
    /// Services are offered.
    Offer { router: R },
}

impl<C: Clone, E, R, S, F> System<C, E, R, S, F> {
    /// A node at first, with no connections.
    pub open spec fn initial(
        local_peer_id: PeerId,
        protocol_name: Seq<char>,
        grpc_service_router: Option<R>,
    ) -> Self {
        System {
            node: State::initial(local_peer_id, protocol_name, grpc_service_router),
            handlers: Map::empty(),
            given: Set::empty(),
            requesters: Map::empty(),
        }
    }

    /// The handler of the connection `id`.
    pub open spec fn handler(self, id: ConnectionId) -> HandlerState<C, E, S, F> {
        self.handlers[id]
    }

    /// Whether `request`, if it is one, was given to the swarm.
    pub open spec fn was_given(self, request: Option<OutboundRequest<C, E>>) -> bool {
        request is Some ==> self.given.contains(request->0)
    }

    /// After `request`, if it is one, was given to the swarm.
    pub open spec fn giving(self, request: Option<OutboundRequest<C, E>>) -> Self {
        System {
            given: match request {
                Some(r) => self.given.insert(r),
                None => self.given,
            },
            ..self
        }
    }

    /// With the node in this state.
    pub open spec fn with_node(self, node: State<C, E, R, S>) -> Self {
        System { node, ..self }
    }

    /// With the handler of the connection `id` in this state.
    pub open spec fn with_handler(
        self,
        id: ConnectionId,
        handler: HandlerState<C, E, S, F>,
    ) -> Self {
        System { handlers: self.handlers.insert(id, handler), ..self }
    }

    /// Whether `step` can happen. The swarm hands on no request that it was not given, and closes
    /// only established connections; nothing is asked of the order in which it does what it does.
    pub open spec fn can(self, step: Step<C, E, R, S, F>) -> bool {
        match step {
            Step::Request { peer, sender, channel_rx } => {
                &&& self.node.makes_request(peer)
                &&& self.node.next_outbound_id.0 < u64::MAX
                &&& are_halves(sender, channel_rx)
            },
            Step::Swarm { event, started } => event matches FromSwarm::ConnectionClosed(closed)
                ==> self.node.has_connection(closed.peer_id, closed.connection_id),
            Step::Poll => true,
            Step::Handle { id } => true,
            Step::Notify { id, request } => self.handlers.contains_key(id) && self.given.contains(
                request,
            ),
            Step::PollHandler { id, asked } => self.handlers.contains_key(id) && self.handler(
                id,
            ).asks_for(asked),
            Step::Connection { id, event } => self.handlers.contains_key(id) && self.was_given(
                event.request(),
            ),
            Step::Report { peer, id, event } => self.was_given(event.request()),
            Step::Settle { chr, request, peer, kept, reply } => {
                &&& self.given.contains(request)
                &&& reply.answers(request, chr)
                &&& chr matches Ok(channel) ==> cloned(channel, kept)
            },
            Step::AddAddress { peer, address } => true,
            Step::RemoveAddress { peer, address } => true,
            Step::Offer { router } => true,
        }
    }

    /// After `step` happened.
    pub open spec fn after(self, step: Step<C, E, R, S, F>) -> Self {
        match step {
            Step::Request { peer, sender, channel_rx } => System {
                requesters: self.requesters.insert(
                    self.node.next_outbound_id,
                    Requester { peer, channel_rx },
                ),
                ..self.with_node(self.node.requested(peer, sender))
            },
            Step::Swarm { event, started } => self.with_node(
                self.node.after_swarm_event(event, started),
            ),
            Step::Poll => self.with_node(self.node.polled()).giving(
                match head(self.node.pending_events) {
                    Some(told) => told.request(),
                    None => None,
                },
            ),
            Step::Handle { id } => self.with_handler(
                id,
                HandlerState::fresh(self.node.protocol_name),
            ),
            Step::Notify { id, request } => self.with_handler(
                id,
                self.handler(id).requested(request),
            ),
            Step::PollHandler { id, asked } => self.with_handler(
                id,
                self.handler(id).polled(),
            ).giving(
                match asked {
                    Some(ConnectionHandlerEvent::OutboundSubstreamRequest { protocol }) => Some(
                        protocol.info,
                    ),
                    Some(ConnectionHandlerEvent::Custom(event)) => event.request(),
                    _ => None,
                },
            ),
            Step::Connection { id, event } => self.with_handler(id, self.handler(id).after(event)),
            Step::Report { peer, id, event } => self.with_node(
                self.node.after_handler_event(peer, id, event),
            ),
            Step::Settle { chr, request, peer, kept, reply } => match chr {
                Ok(channel) => self.with_node(
                    self.node.provided(peer, request.outbound_id, kept),
                ),
                Err(error) => self,
            },
            Step::AddAddress { peer, address } => self.with_node(
                self.node.address_added(peer, address),
            ),
            Step::RemoveAddress { peer, address } => self.with_node(
                self.node.address_removed(peer, address),
            ),
            Step::Offer { router } => self.with_node(
                State { grpc_service_router: Some(router), ..self.node },
            ),
        }
    }

    /// Whether `steps` can happen, one after the other.
    pub open spec fn can_run(self, steps: Seq<Step<C, E, R, S, F>>) -> bool
        decreases steps.len(),
    {
        steps.len() > 0 ==> {
            &&& self.can_run(steps.drop_last())
            &&& self.after_run(steps.drop_last()).can(steps.last())
        }
    }

    /// After `steps` happened, one after the other.
    pub open spec fn after_run(self, steps: Seq<Step<C, E, R, S, F>>) -> Self
        decreases steps.len(),
    {
        if steps.len() == 0 {
            self
        } else {
            self.after_run(steps.drop_last()).after(steps.last())
        }
    }

    /// Whether what is sent for `request` reaches the requester that was given its identifier.
    pub open spec fn reaches_requester(self, request: OutboundRequest<C, E>) -> bool {
        &&& self.requesters.contains_key(request.outbound_id)
        &&& self.requesters[request.outbound_id].peer == request.peer
        &&& are_halves(request.sender, self.requesters[request.outbound_id].channel_rx)
    }

    /// What holds at all times: whatever is sent for a request, wherever that is on its way,
    /// reaches its requester.
    pub open spec fn inv(self) -> bool {
        &&& self.node.inv()
        &&& forall|id: OutboundId| #[trigger]
            self.requesters.contains_key(id) ==> id.0 < self.node.next_outbound_id.0
        &&& forall|p: PeerId| #[trigger]
            self.node.pending_outbounds.contains_key(p) ==> self.reaches_requester(
                self.node.pending_outbounds[p],
            )
        &&& forall|i: int|
            0 <= i < self.node.pending_events.len() && (
            #[trigger] self.node.pending_events[i]).request() is Some ==> self.reaches_requester(
                self.node.pending_events[i].request()->0,
            )
        &&& forall|id: ConnectionId| #[trigger]
            self.handlers.contains_key(id) ==> self.handler_inv(self.handlers[id])
        &&& forall|request: OutboundRequest<C, E>| #[trigger]
            self.given.contains(request) ==> self.reaches_requester(request)
    }

    /// What holds of every handler.
    pub open spec fn handler_inv(self, handler: HandlerState<C, E, S, F>) -> bool {
        &&& forall|i: int|
            0 <= i < handler.outbounds.len() ==> self.reaches_requester(
                #[trigger] handler.outbounds[i],
            )
        &&& forall|i: int|
            0 <= i < handler.pending_events.len() && (
            #[trigger] handler.pending_events[i]).request() is Some ==> self.reaches_requester(
                handler.pending_events[i].request()->0,
            )
    }
}

/// At first nothing is on its way.
pub proof fn law_initial_system_keeps_invariant<C: Clone, E, R, S, F>(
    local_peer_id: PeerId,
    protocol_name: Seq<char>,
    router: Option<R>,
)
    ensures
        System::<C, E, R, S, F>::initial(local_peer_id, protocol_name, router).inv(),
{
    law_initial_state_keeps_invariant::<C, E, R, S>(local_peer_id, protocol_name, router);
}

/// Handlers keep what holds of them as long as requesters stay where they are.
proof fn lemma_handlers_stay<C: Clone, E, R, S, F>(
    s: System<C, E, R, S, F>,
    t: System<C, E, R, S, F>,
)
    requires
        s.inv(),
        forall|request: OutboundRequest<C, E>|
            s.reaches_requester(request) ==> #[trigger] t.reaches_requester(request),
    ensures
        forall|id: ConnectionId| #[trigger]
            s.handlers.contains_key(id) ==> t.handler_inv(s.handlers[id]),
{
    assert forall|id: ConnectionId| #[trigger] s.handlers.contains_key(id) implies t.handler_inv(
        s.handlers[id],
    ) by {
        assert(s.handler_inv(s.handlers[id]));
    }
}

/// Whatever happens, what is sent for a request still reaches its requester.
pub proof fn law_step_keeps_invariant<C: Clone, E, R, S, F>(
    s: System<C, E, R, S, F>,
    step: Step<C, E, R, S, F>,
)
    requires
        s.inv(),
        s.can(step),
    ensures
        s.after(step).inv(),
{
    let t = s.after(step);
    assert forall|request: OutboundRequest<C, E>|
        s.reaches_requester(request) implies #[trigger] t.reaches_requester(request) by {}
    lemma_handlers_stay(s, t);
    match step {
        Step::Request { peer, sender, channel_rx } => {
            law_requests_keep_invariant(
                s.node,
                peer,
                sender,
                s.node.next_outbound_id,
                arbitrary(),
                Seq::empty(),
            );
            assert(t.reaches_requester(s.node.next_request(peer, sender)));
        },
        Step::Swarm { event, started } => {
            law_swarm_events_keep_invariant(s.node, event, started);
        },
        Step::Poll => {
            lemma_inv_frame(s.node, s.node.polled());
        },
        Step::Handle { id } => {
            assert(t.handler_inv(t.handlers[id]));
        },
        Step::Notify { id, request } => {
            assert(t.handler_inv(t.handlers[id]));
        },
        Step::PollHandler { id, asked } => {
            assert(s.handler_inv(s.handlers[id]));
            assert(t.handler_inv(t.handlers[id]));
        },
        Step::Connection { id, event } => {
            assert(s.handler_inv(s.handlers[id]));
            assert(t.handler_inv(t.handlers[id]));
        },
        Step::Report { peer, id, event } => {
            law_handler_events_keep_invariant(s.node, peer, id, event);
        },
        Step::Settle { chr, request, peer, kept, reply } => {
            law_requests_keep_invariant(
                s.node,
                peer,
                request.sender,
                request.outbound_id,
                kept,
                Seq::empty(),
            );
        },
        Step::AddAddress { peer, address } => {
            law_requests_keep_invariant(
                s.node,
                peer,
                arbitrary(),
                s.node.next_outbound_id,
                arbitrary(),
                address,
            );
        },
        Step::RemoveAddress { peer, address } => {
            law_requests_keep_invariant(
                s.node,
                peer,
                arbitrary(),
                s.node.next_outbound_id,
                arbitrary(),
                address,
            );
        },
        Step::Offer { router } => {
            lemma_inv_frame(s.node, t.node);
        },
    }
}

/// However a node and its connections came to where they are, what is sent for a request reaches
/// its requester.
pub proof fn law_run_keeps_invariant<C: Clone, E, R, S, F>(
    s: System<C, E, R, S, F>,
    steps: Seq<Step<C, E, R, S, F>>,
)
    requires
        s.inv(),
        s.can_run(steps),
    ensures
        s.after_run(steps).inv(),
    decreases steps.len(),
{
    if steps.len() > 0 {
        law_run_keeps_invariant(s, steps.drop_last());
        law_step_keeps_invariant(s.after_run(steps.drop_last()), steps.last());
    }
}

/// Where a requester waits stays the same, whatever happens.
pub proof fn law_requester_stays<C: Clone, E, R, S, F>(
    s: System<C, E, R, S, F>,
    steps: Seq<Step<C, E, R, S, F>>,
    id: OutboundId,
)
    requires
        s.inv(),
        s.can_run(steps),
        s.requesters.contains_key(id),
    ensures
        s.after_run(steps).requesters.contains_key(id),
        s.after_run(steps).requesters[id] == s.requesters[id],
    decreases steps.len(),
{
    if steps.len() > 0 {
        law_requester_stays(s, steps.drop_last(), id);
        law_run_keeps_invariant(s, steps.drop_last());
    }
}

/// Who asks for a channel gets it, in every run. Let a node, wherever it is, be asked for a channel
/// to `peer`, and make a request; `channel_rx` is the half that is handed out. When, after whatever
/// `steps`, a channel for a request with that identifier is there, which is when success is
/// reported, the reply that is sent is one that `channel_rx` yields, and of it the requester gets
/// that channel under that identifier; when the gRPC transport failed, it gets that error.
pub proof fn law_success_reaches_requester<C: Clone, E, R, S, F>(
    s: System<C, E, R, S, F>,
    peer: PeerId,
    sender: oneshot::Sender<Result<C, OutboundError<E>>>,
    channel_rx: oneshot::Receiver<Result<C, OutboundError<E>>>,
    steps: Seq<Step<C, E, R, S, F>>,
    chr: Result<C, E>,
    request: OutboundRequest<C, E>,
    at: PeerId,
    kept: C,
    reply: Reply<C, E>,
)
    requires
        s.inv(),
        s.can(Step::Request { peer, sender, channel_rx }),
        s.after(Step::Request { peer, sender, channel_rx }).can_run(steps),
        s.after(Step::Request { peer, sender, channel_rx }).after_run(steps).can(
            Step::Settle { chr, request, peer: at, kept, reply },
        ),
        request.outbound_id == s.node.next_outbound_id,
    ensures
        request.peer == peer,
        are_halves(reply.sender, channel_rx),
        match chr {
            Ok(channel) => received_as(s.node.next_outbound_id, Ok(reply.outcome)) matches Ok(
                (got, got_id),
            ) && cloned(channel, got) && got_id == s.node.next_outbound_id,
            Err(error) => received_as(s.node.next_outbound_id, Ok(reply.outcome)) == Err::<
                (C, OutboundId),
                GrpcOutboundMapError<E>,
            >(GrpcOutboundMapError::OutboundError(OutboundError::GrpcChannel(error))),
        },
{
    let asked = s.after(Step::Request { peer, sender, channel_rx });
    law_step_keeps_invariant(s, Step::Request { peer, sender, channel_rx });
    law_run_keeps_invariant(asked, steps);
    law_requester_stays(asked, steps, s.node.next_outbound_id);
    assert(asked.after_run(steps).reaches_requester(request));
}

/// Who asks for a channel to a peer that cannot be dialed is told so, in every run: where the
/// request with that identifier still waits when the failure is told, the reply that is sent is one
/// that `channel_rx` yields, and of it the requester gets that error.
pub proof fn law_failed_dial_reaches_requester<C: Clone, E, R, S, F>(
    s: System<C, E, R, S, F>,
    peer: PeerId,
    sender: oneshot::Sender<Result<C, OutboundError<E>>>,
    channel_rx: oneshot::Receiver<Result<C, OutboundError<E>>>,
    steps: Seq<Step<C, E, R, S, F>>,
)
    requires
        s.inv(),
        s.can(Step::Request { peer, sender, channel_rx }),
        s.after(Step::Request { peer, sender, channel_rx }).can_run(steps),
        ({
            let then = s.after(Step::Request { peer, sender, channel_rx }).after_run(steps).node;
            &&& then.pending_outbounds.contains_key(peer)
            &&& then.pending_outbounds[peer].outbound_id == s.node.next_outbound_id
        }),
    ensures
        ({
            let then = s.after(Step::Request { peer, sender, channel_rx }).after_run(steps).node;
            &&& then.dial_failure_reply(Some(peer)) matches Some(reply)
            &&& are_halves(reply.sender, channel_rx)
            &&& received_as(s.node.next_outbound_id, Ok(reply.outcome)) == Err::<
                (C, OutboundId),
                GrpcOutboundMapError<E>,
            >(GrpcOutboundMapError::OutboundError(OutboundError::DialFailure))
        }),
{
    let asked = s.after(Step::Request { peer, sender, channel_rx });
    law_step_keeps_invariant(s, Step::Request { peer, sender, channel_rx });
    law_run_keeps_invariant(asked, steps);
    law_requester_stays(asked, steps, s.node.next_outbound_id);
}

} // verus!
