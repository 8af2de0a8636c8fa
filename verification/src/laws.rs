//! What can be relied on, over several steps and in every state.

use crate::adapter::{NegotiatedStreamWrapper, leads_to};
use crate::error::{GrpcOutboundMapError, OutboundError};
use crate::handler::{Event as HandlerEvent, HandlerState};
use crate::net::{ConnectionId, PeerId, other_than};
use crate::outbound::received_as;
use crate::protocol::{InboundId, OutboundId, OutboundRequest, successor};
use crate::queue::head;
use crate::reply::{Reply, are_halves};
use crate::state::{
    ConnectionView, State, has_id, is_position, lemma_address_added_inv,
    lemma_address_removed_inv, lemma_assigned_inv, lemma_closed_inv, lemma_dial_failed_inv,
    lemma_inv_frame, lemma_joined_inv, lemma_position_exists, lemma_position_is,
    lemma_provided_inv, lemma_released_inv, lemma_requested_inv, position, served,
};
use crate::swarm::{
    ConnectionEvent, ConnectionHandlerEvent, Event, FromSwarm, ToSwarm,
};
use futures::channel::oneshot;
use tokio::sync::mpsc;
use vstd::prelude::*;

verus! {

/// The invariant holds of a node at first.
pub proof fn law_initial_state_keeps_invariant<C, E, R, S>(
    local_peer_id: PeerId,
    protocol_name: Seq<char>,
    router: Option<R>,
)
    ensures
        State::<C, E, R, S>::initial(local_peer_id, protocol_name, router).inv(),
{
}

/// The invariant survives whatever the swarm tells, provided that only established connections
/// are closed.
pub proof fn law_swarm_events_keep_invariant<C, E, R, S>(
    s: State<C, E, R, S>,
    event: FromSwarm,
    started: Option<mpsc::UnboundedSender<NegotiatedStreamWrapper<S>>>,
)
    requires
        s.inv(),
        event matches FromSwarm::ConnectionClosed(closed) ==> s.has_connection(
            closed.peer_id,
            closed.connection_id,
        ),
    ensures
        s.after_swarm_event(event, started).inv(),
{
    match event {
        FromSwarm::ConnectionEstablished(e) => {
            let joined = s.joined(e.peer_id, e.connection_id, e.endpoint.dialed());
            lemma_joined_inv(s, e.peer_id, e.connection_id, e.endpoint.dialed());
            let connections = joined.connections_of(e.peer_id);
            assert(connections[connections.len() - 1].id == e.connection_id);
            if e.other_established == 0 && s.pending_outbounds.contains_key(e.peer_id) {
                lemma_assigned_inv(joined, e.peer_id, e.connection_id);
            }
        },
        FromSwarm::ConnectionClosed(e) => lemma_closed_inv(s, e.peer_id, e.connection_id),
        FromSwarm::DialFailure(e) => lemma_dial_failed_inv(s, e.peer_id),
        _ => lemma_inv_frame(s, s.after_swarm_event(event, started)),
    }
}

/// The invariant survives whatever the handlers of connections report.
pub proof fn law_handler_events_keep_invariant<C, E, R, S>(
    s: State<C, E, R, S>,
    peer: PeerId,
    id: ConnectionId,
    event: HandlerEvent<C, E, S>,
)
    requires
        s.inv(),
    ensures
        s.after_handler_event(peer, id, event).inv(),
{
    match event {
        HandlerEvent::OutboundTimeout(request) => {
            lemma_released_inv(s, peer, id, request.outbound_id);
            lemma_inv_frame(
                s.released(peer, id, request.outbound_id),
                s.after_handler_event(peer, id, event),
            );
        },
        HandlerEvent::OutboundUnsupportedProtocols(request) => {
            lemma_released_inv(s, peer, id, request.outbound_id);
            lemma_inv_frame(
                s.released(peer, id, request.outbound_id),
                s.after_handler_event(peer, id, event),
            );
        },
        _ => lemma_inv_frame(s, s.after_handler_event(peer, id, event)),
    }
}

/// The invariant survives whatever the user asks for, and every result that comes of it.
pub proof fn law_requests_keep_invariant<C, E, R, S>(
    s: State<C, E, R, S>,
    peer: PeerId,
    sender: oneshot::Sender<Result<C, OutboundError<E>>>,
    request: OutboundId,
    channel: C,
    address: Seq<u8>,
)
    requires
        s.inv(),
    ensures
        s.next_outbound_id.0 < u64::MAX ==> s.requested(peer, sender).inv(),
        s.provided(peer, request, channel).inv(),
        s.address_added(peer, address).inv(),
        s.address_removed(peer, address).inv(),
        s.polled().inv(),
{
    if s.next_outbound_id.0 < u64::MAX {
        lemma_requested_inv(s, peer, sender);
    }
    lemma_provided_inv(s, peer, request, channel);
    lemma_address_added_inv(s, peer, address);
    lemma_address_removed_inv(s, peer, address);
    lemma_inv_frame(s, s.polled());
}

/// Known addresses change by being added and removed, and by nothing else that happens.
pub proof fn law_addresses_stay<C, E, R, S>(
    s: State<C, E, R, S>,
    swarm_event: FromSwarm,
    started: Option<mpsc::UnboundedSender<NegotiatedStreamWrapper<S>>>,
    handler_event: HandlerEvent<C, E, S>,
    peer: PeerId,
    id: ConnectionId,
    sender: oneshot::Sender<Result<C, OutboundError<E>>>,
    request: OutboundId,
    channel: C,
)
    ensures
        s.after_swarm_event(swarm_event, started).addresses == s.addresses,
        s.after_handler_event(peer, id, handler_event).addresses == s.addresses,
        s.requested(peer, sender).addresses == s.addresses,
        s.provided(peer, request, channel).addresses == s.addresses,
        s.polled().addresses == s.addresses,
{
}

/// An address that was added is one at which the peer can be dialed, beside those that were
/// there before.
pub proof fn law_added_address_can_be_dialed<C, E, R, S>(
    s: State<C, E, R, S>,
    peer: PeerId,
    address: Seq<u8>,
)
    ensures
        s.address_added(peer, address).dial_addresses(peer) == s.dial_addresses(peer).push(
            address,
        ),
        s.address_added(peer, address).dial_addresses(peer).contains(address),
{
    let t = s.address_added(peer, address);
    assert(t.dial_addresses(peer) =~= s.dial_addresses(peer).push(address));
    assert(t.dial_addresses(peer).last() == address);
}

proof fn lemma_filter_other_than(addresses: Seq<Seq<u8>>, address: Seq<u8>)
    ensures
        !addresses.filter(other_than(address)).contains(address),
        !addresses.contains(address) ==> addresses.filter(other_than(address)) == addresses,
        forall|other: Seq<u8>|
            other != address ==> (#[trigger] addresses.filter(other_than(address)).contains(other)
                <==> addresses.contains(other)),
    decreases addresses.len(),
{
    reveal(Seq::filter);
    let kept = addresses.filter(other_than(address));
    if addresses.len() > 0 {
        let shorter = addresses.drop_last();
        let shorter_kept = shorter.filter(other_than(address));
        lemma_filter_other_than(shorter, address);
        assert(addresses =~= shorter.push(addresses.last()));
        assert forall|a: Seq<u8>| #[trigger] addresses.contains(a) <==> shorter.contains(a) || a
            == addresses.last() by {
            if shorter.contains(a) {
                let i = choose|i: int| 0 <= i < shorter.len() && shorter[i] == a;
                assert(addresses[i] == a);
            }
            if a == addresses.last() {
                assert(addresses[addresses.len() - 1] == a);
            }
        }
        if addresses.last() == address {
            assert(kept == shorter_kept);
            assert(addresses.contains(address));
        } else {
            assert(kept == shorter_kept.push(addresses.last()));
            assert forall|a: Seq<u8>| #[trigger] kept.contains(a) <==> shorter_kept.contains(a) || a
                == addresses.last() by {
                if shorter_kept.contains(a) {
                    let i = choose|i: int| 0 <= i < shorter_kept.len() && shorter_kept[i] == a;
                    assert(kept[i] == a);
                }
                if a == addresses.last() {
                    assert(kept[kept.len() - 1] == a);
                }
            }
        }
    }
}

/// An address that was removed is known no more, however often it was added, and all others still
/// are.
pub proof fn law_removed_address_is_gone<C, E, R, S>(
    s: State<C, E, R, S>,
    peer: PeerId,
    address: Seq<u8>,
)
    ensures
        !s.address_removed(peer, address).addresses_of(peer).contains(address),
        forall|other: Seq<u8>|
            other != address ==> (#[trigger] s.address_removed(peer, address).addresses_of(
                peer,
            ).contains(other) <==> s.addresses_of(peer).contains(other)),
        forall|p: PeerId|
            p != peer ==> #[trigger] s.address_removed(peer, address).addresses_of(p)
                == s.addresses_of(p),
{
    lemma_filter_other_than(s.addresses_of(peer), address);
    let left = s.addresses_of(peer).filter(other_than(address));
    assert(s.address_removed(peer, address).addresses_of(peer) =~= left);
}

/// To remove an address that was not known before it was added undoes that.
pub proof fn law_remove_undoes_add<C, E, R, S>(s: State<C, E, R, S>, peer: PeerId, address: Seq<u8>)
    requires
        s.inv(),
        !s.addresses_of(peer).contains(address),
    ensures
        s.address_added(peer, address).address_removed(peer, address) == s,
{
    reveal(Seq::filter);
    let before = s.addresses_of(peer);
    let added = s.address_added(peer, address);
    lemma_filter_other_than(before, address);
    assert(added.addresses_of(peer).drop_last() =~= before);
    assert(added.addresses_of(peer).filter(other_than(address)) == before);
    assert(added.address_removed(peer, address).addresses =~= s.addresses);
    assert(added.address_removed(peer, address) =~= s);
}

/// The identifier of a new request is larger than all that were given before, so none is ever
/// given twice.
pub proof fn law_request_identifiers_ascend<C, E, R, S>(
    s: State<C, E, R, S>,
    peer: PeerId,
    sender: oneshot::Sender<Result<C, OutboundError<E>>>,
)
    requires
        s.inv(),
        s.next_outbound_id.0 < u64::MAX,
    ensures
        s.requested(peer, sender).next_outbound_id.0 == s.next_outbound_id.0 + 1,
        forall|p: PeerId| #[trigger]
            s.pending_outbounds.contains_key(p) ==> s.pending_outbounds[p].outbound_id.0
                < s.next_outbound_id.0,
        forall|p: PeerId, i: int, id: OutboundId| #[trigger]
            s.serves(p, i, id) ==> id.0 < s.next_outbound_id.0,
{
}

/// Identifiers are drawn by new requests, and by nothing else that happens.
pub proof fn law_request_identifiers_stay<C, E, R, S>(
    s: State<C, E, R, S>,
    swarm_event: FromSwarm,
    started: Option<mpsc::UnboundedSender<NegotiatedStreamWrapper<S>>>,
    handler_event: HandlerEvent<C, E, S>,
    peer: PeerId,
    id: ConnectionId,
    request: OutboundId,
    channel: C,
)
    ensures
        s.after_swarm_event(swarm_event, started).next_outbound_id == s.next_outbound_id,
        s.after_handler_event(peer, id, handler_event).next_outbound_id == s.next_outbound_id,
        s.provided(peer, request, channel).next_outbound_id == s.next_outbound_id,
        s.polled().next_outbound_id == s.next_outbound_id,
{
}

/// While a request to a peer waits for a connection, another one is not made: it is told of the
/// first.
pub proof fn law_second_request_waits_for_first<C, E, R, S>(
    s: State<C, E, R, S>,
    peer: PeerId,
    sender: oneshot::Sender<Result<C, OutboundError<E>>>,
)
    requires
        s.makes_request(peer),
    ensures
        served(s.requested(peer, sender).connections_of(peer)) is None,
        s.requested(peer, sender).pending_outbounds.contains_key(peer),
        s.requested(peer, sender).pending_outbounds[peer].outbound_id == s.next_outbound_id,
        !s.requested(peer, sender).makes_request(peer),
{
}

/// Where only the connection at `i` has a channel, that is the one handed out.
proof fn lemma_served_at<C>(connections: Seq<ConnectionView<C>>, i: int, id: OutboundId, channel: C)
    requires
        0 <= i < connections.len(),
        connections[i].serving_channel == Some((id, Some(channel))),
        forall|j: int|
            0 <= j < i ==> !((#[trigger] connections[j]).serving_channel is Some && (
            connections[j].serving_channel->0).1 is Some),
    ensures
        served(connections) == Some((id, channel)),
    decreases connections.len(),
{
    if i > 0 {
        assert(!(connections[0].serving_channel is Some && (connections[0].serving_channel->0).1 is Some));
        lemma_served_at(connections.drop_first(), i - 1, id, channel);
    }
}

/// Where no channel is handed out, no connection has one.
proof fn lemma_none_served<C>(connections: Seq<ConnectionView<C>>, i: int)
    requires
        served(connections) is None,
        0 <= i < connections.len(),
    ensures
        !(connections[i].serving_channel is Some && (connections[i].serving_channel->0).1 is Some),
    decreases connections.len(),
{
    if i > 0 {
        lemma_none_served(connections.drop_first(), i - 1);
    }
}

/// The channel that is made for a request which a connection serves is the channel that later
/// requests to that peer get, with the identifier of the first.
pub proof fn law_channel_is_handed_out<C, E, R, S>(
    s: State<C, E, R, S>,
    peer: PeerId,
    i: int,
    id: OutboundId,
    channel: C,
)
    requires
        s.inv(),
        s.serves(peer, i, id),
        served(s.connections_of(peer)) is None,
    ensures
        served(s.provided(peer, id, channel).connections_of(peer)) == Some((id, channel)),
{
    let before = s.connections_of(peer);
    let after = s.provided(peer, id, channel).connections_of(peer);
    assert forall|j: int| 0 <= j < i implies !((#[trigger] after[j]).serving_channel is Some && (
    after[j].serving_channel->0).1 is Some) by {
        lemma_none_served(before, j);
        if before[j].serves(id) {
            assert(s.serves(peer, j, id));
        }
    }
    lemma_served_at(after, i, id, channel);
}

/// A request becomes a channel: once the peer is connected, its first connection is told to open a
/// stream for the request, and once a channel was made of that, the channel is handed out under
/// the request's identifier, with no new request.
pub proof fn law_request_becomes_channel<C, E, R, S>(
    s: State<C, E, R, S>,
    peer: PeerId,
    sender: oneshot::Sender<Result<C, OutboundError<E>>>,
    id: ConnectionId,
    dialed: Option<Seq<u8>>,
    channel: C,
)
    requires
        s.inv(),
        s.makes_request(peer),
        s.next_outbound_id.0 < u64::MAX,
    ensures
        s.requested(peer, sender).pending_events.last() == (ToSwarm::<C, E>::Dial {
            peer_id: peer,
        }),
        ({
            let request = s.next_request(peer, sender);
            let connected = s.requested(peer, sender).established(peer, id, dialed, 0);
            let provided = connected.provided(peer, request.outbound_id, channel);
            &&& connected.pending_events.last() == (ToSwarm::<C, E>::NotifyHandler {
                peer_id: peer,
                handler: id,
                event: request,
            })
            &&& connected.connection_serves(peer, id, request.outbound_id)
            &&& !connected.pending_outbounds.contains_key(peer)
            &&& served(provided.connections_of(peer)) == Some((request.outbound_id, channel))
            &&& !provided.makes_request(peer)
        }),
{
    let request = s.next_request(peer, sender);
    let requested = s.requested(peer, sender);
    let joined = requested.joined(peer, id, dialed);
    let connected = requested.established(peer, id, dialed, 0);
    lemma_requested_inv(s, peer, sender);
    lemma_joined_inv(requested, peer, id, dialed);
    let connections = joined.connections_of(peer);
    assert(connections[connections.len() - 1].id == id);
    assert(joined.has_connection(peer, id));
    lemma_assigned_inv(joined, peer, id);
    let i = position(connections, id);
    lemma_position_exists(connections, id);
    let after = connected.connections_of(peer);
    assert(is_position(after, id, i));
    lemma_position_is(after, id, i);
    assert(connected.serves(peer, i, request.outbound_id));
    assert(served(after) is None) by {
        assert forall|j: int| 0 <= j < after.len() implies !((
        #[trigger] after[j]).serving_channel is Some && (after[j].serving_channel->0).1 is Some) by {
            if j < connections.len() - 1 {
                lemma_none_served(s.connections_of(peer), j);
            }
        }
        lemma_served_is_none(after);
    }
    law_channel_is_handed_out(connected, peer, i, request.outbound_id, channel);
}

proof fn lemma_served_is_none<C>(connections: Seq<ConnectionView<C>>)
    requires
        forall|j: int|
            0 <= j < connections.len() ==> !((#[trigger] connections[j]).serving_channel is Some && (
            connections[j].serving_channel->0).1 is Some),
    ensures
        served(connections) is None,
    decreases connections.len(),
{
    if connections.len() > 0 {
        assert(!(connections[0].serving_channel is Some && (connections[0].serving_channel->0).1 is Some));
        assert forall|j: int| 0 <= j < connections.drop_first().len() implies !((
        #[trigger] connections.drop_first()[j]).serving_channel is Some && (
        connections.drop_first()[j].serving_channel->0).1 is Some) by {
            assert(connections.drop_first()[j] == connections[j + 1]);
        }
        lemma_served_is_none(connections.drop_first());
    }
}

/// A new request waits for a connection until there is one, or until the peer cannot be dialed;
/// nothing else that happens touches it, or where its answer goes.
pub proof fn law_pending_request_stays<C, E, R, S>(
    s: State<C, E, R, S>,
    peer: PeerId,
    sender: oneshot::Sender<Result<C, OutboundError<E>>>,
    swarm_event: FromSwarm,
    started: Option<mpsc::UnboundedSender<NegotiatedStreamWrapper<S>>>,
    handler_event: HandlerEvent<C, E, S>,
    other: PeerId,
    id: ConnectionId,
    request: OutboundId,
    channel: C,
    address: Seq<u8>,
)
    ensures
        s.requested(peer, sender).pending_outbounds.contains_key(peer),
        s.requested(peer, sender).pending_outbounds[peer] == s.next_request(peer, sender),
        s.pending_outbounds.contains_key(peer) ==> {
            let waiting = |t: State<C, E, R, S>|
                t.pending_outbounds.contains_key(peer) && t.pending_outbounds[peer]
                    == s.pending_outbounds[peer];
            &&& match swarm_event {
                FromSwarm::ConnectionEstablished(e) => e.peer_id != peer || e.other_established
                    != 0 ==> waiting(s.after_swarm_event(swarm_event, started)),
                FromSwarm::DialFailure(e) => e.peer_id != Some(peer) ==> waiting(
                    s.after_swarm_event(swarm_event, started),
                ),
                _ => waiting(s.after_swarm_event(swarm_event, started)),
            }
            &&& waiting(s.after_handler_event(other, id, handler_event))
            &&& other != peer ==> waiting(s.requested(other, sender))
            &&& waiting(s.provided(other, request, channel))
            &&& waiting(s.address_added(other, address))
            &&& waiting(s.address_removed(other, address))
            &&& waiting(s.polled())
        },
{
}

/// Who asks for a channel gets it. Let `channel_rx` be the half that was handed out for a request
/// that waits for a connection to its peer. Once there is one, its handler is given the request,
/// asks for a stream for it, and reports the stream with it; the stream goes on with the request to
/// become a channel; and the reply that the result of that owes is one that `channel_rx` yields. Of
/// that reply the requester gets the channel, under the identifier of its request, or the error of
/// the gRPC transport.
pub proof fn law_requester_gets_channel<C: Clone, E, R, S, F>(
    s: State<C, E, R, S>,
    peer: PeerId,
    channel_rx: oneshot::Receiver<Result<C, OutboundError<E>>>,
    id: ConnectionId,
    dialed: Option<Seq<u8>>,
    h: HandlerState<C, E, S, F>,
    stream: S,
    chr: Result<C, E>,
    reply: Reply<C, E>,
)
    requires
        s.pending_outbounds.contains_key(peer),
        are_halves(s.pending_outbounds[peer].sender, channel_rx),
        reply.answers(s.pending_outbounds[peer], chr),
    ensures
        ({
            let request = s.pending_outbounds[peer];
            let ready = ConnectionEvent::<C, E, S, F>::FullyNegotiatedOutbound {
                protocol: stream,
                info: request,
            };
            let reported = HandlerEvent::OutboundStream { outbound_request: request, stream };
            &&& s.established(peer, id, dialed, 0).pending_events.last() == (ToSwarm::<
                C,
                E,
            >::NotifyHandler { peer_id: peer, handler: id, event: request })
            &&& h.requested(request).outbounds.last() == request
            &&& h.after(ready).pending_events.last() == reported
            &&& reported.job(peer, id) matches Some(job)
            &&& job.outbound_request == request
            &&& job.peer == peer
            &&& job.stream.inner == stream
            &&& are_halves(reply.sender, channel_rx)
            &&& match chr {
                Ok(channel) => received_as(request.outbound_id, Ok(reply.outcome)) matches Ok(
                    (got, got_id),
                ) && cloned(channel, got) && got_id == request.outbound_id,
                Err(error) => received_as(request.outbound_id, Ok(reply.outcome)) == Err::<
                    (C, OutboundId),
                    GrpcOutboundMapError<E>,
                >(GrpcOutboundMapError::OutboundError(OutboundError::GrpcChannel(error))),
            }
        }),
{
}

/// Who asks for a channel to a peer that cannot be dialed is told so: the reply that is owed is one
/// that the half which was handed out yields, and of it the requester gets that error.
pub proof fn law_requester_is_told_of_failed_dial<C, E, R, S>(
    s: State<C, E, R, S>,
    peer: PeerId,
    channel_rx: oneshot::Receiver<Result<C, OutboundError<E>>>,
)
    requires
        s.pending_outbounds.contains_key(peer),
        are_halves(s.pending_outbounds[peer].sender, channel_rx),
    ensures
        s.dial_failure_reply(Some(peer)) matches Some(reply) && are_halves(reply.sender, channel_rx)
            && received_as(s.pending_outbounds[peer].outbound_id, Ok(reply.outcome)) == Err::<
            (C, OutboundId),
            GrpcOutboundMapError<E>,
        >(GrpcOutboundMapError::OutboundError(OutboundError::DialFailure)),
{
}

/// A request whose stream took too long, or whose protocol the peer does not speak, is reported as
/// failed and let go: no channel is made for it, so no reply is owed, and its requester finds it
/// canceled.
pub proof fn law_failed_stream_cancels_request<C, E, R, S>(
    s: State<C, E, R, S>,
    peer: PeerId,
    id: ConnectionId,
    event: HandlerEvent<C, E, S>,
    canceled: oneshot::Canceled,
)
    requires
        event.dropped() is Some,
    ensures
        event.job(peer, id) is None,
        s.after_handler_event(peer, id, event).pending_outbounds == s.pending_outbounds,
        s.after_handler_event(peer, id, event).pending_events.last() matches ToSwarm::GenerateEvent(
            Event::OutboundFailure { peer: failed, outbound_id, error },
        ) && failed == peer && outbound_id == (event.dropped()->0).outbound_id && (error is Timeout
            || error is UnsupportedProtocol),
        received_as::<C, E>((event.dropped()->0).outbound_id, Err(canceled)) == Err::<
            (C, OutboundId),
            GrpcOutboundMapError<E>,
        >(GrpcOutboundMapError::SenderCanceled(canceled)),
{
}

/// A request whose peer cannot be dialed is reported as failed under its identifier, and nothing
/// is left of it: the peer can be asked again.
pub proof fn law_failed_dial_ends_request<C, E, R, S>(
    s: State<C, E, R, S>,
    peer: PeerId,
    sender: oneshot::Sender<Result<C, OutboundError<E>>>,
)
    requires
        s.makes_request(peer),
    ensures
        ({
            let failed = s.requested(peer, sender).dial_failed(Some(peer));
            &&& failed.pending_events.last() == ToSwarm::<C, E>::GenerateEvent(
                Event::OutboundFailure {
                    peer,
                    outbound_id: s.next_outbound_id,
                    error: OutboundError::DialFailure,
                },
            )
            &&& failed.pending_outbounds == s.pending_outbounds
            &&& failed.connected == s.connected
            &&& failed.makes_request(peer)
        }),
{
    let failed = s.requested(peer, sender).dial_failed(Some(peer));
    assert(failed.pending_outbounds =~= s.pending_outbounds);
}

/// A failure to dial that no request waits on changes nothing.
pub proof fn law_idle_dial_failure_changes_nothing<C, E, R, S>(
    s: State<C, E, R, S>,
    peer: Option<PeerId>,
)
    requires
        peer is Some ==> !s.pending_outbounds.contains_key(peer->0),
    ensures
        s.dial_failed(peer) == s,
{
}

/// To close a connection undoes, for all connections, that it was established.
pub proof fn law_close_undoes_establish<C, E, R, S>(
    s: State<C, E, R, S>,
    peer: PeerId,
    id: ConnectionId,
    dialed: Option<Seq<u8>>,
    other_established: int,
)
    requires
        s.inv(),
        !s.has_connection(peer, id),
    ensures
        s.established(peer, id, dialed, other_established).has_connection(peer, id),
        s.established(peer, id, dialed, other_established).closed(peer, id).connected
            == s.connected,
{
    let before = s.connections_of(peer);
    let joined = s.joined(peer, id, dialed);
    let last = before.len() as int;
    assert(is_position(joined.connections_of(peer), id, last)) by {
        assert forall|j: int| 0 <= j < last implies joined.connections_of(peer)[j].id != id by {
            assert(before[j].id != id);
        }
    }
    assert(has_id(joined.connections_of(peer), id));
    lemma_position_is(joined.connections_of(peer), id, last);
    let established = s.established(peer, id, dialed, other_established);
    let after = established.connections_of(peer);
    assert(is_position(after, id, last));
    lemma_position_is(after, id, last);
    assert(after[last].id == id);
    assert(after.remove(last) =~= before);
    assert(established.closed(peer, id).connected =~= s.connected);
}

/// A peer is connected from its first connection until its last is closed.
pub proof fn law_connected_until_last_close<C, E, R, S>(
    s: State<C, E, R, S>,
    peer: PeerId,
    id: ConnectionId,
    dialed: Option<Seq<u8>>,
    other_established: int,
)
    ensures
        s.established(peer, id, dialed, other_established).is_connected(peer),
        s.established(peer, id, dialed, other_established).connections_of(peer).len()
            == s.connections_of(peer).len() + 1,
        s.has_connection(peer, id) ==> (s.closed(peer, id).is_connected(peer)
            <==> s.connections_of(peer).len() > 1),
{
    let connections = s.joined(peer, id, dialed).connections_of(peer);
    assert(connections[connections.len() - 1].id == id);
    lemma_position_exists(connections, id);
    if s.has_connection(peer, id) {
        lemma_position_exists(s.connections_of(peer), id);
    }
}

/// With its last connection a peer loses its channel: unless a request to it is pending, the next
/// one is made anew.
pub proof fn law_channel_is_lost_with_last_connection<C, E, R, S>(
    s: State<C, E, R, S>,
    peer: PeerId,
    id: ConnectionId,
)
    requires
        s.has_connection(peer, id),
        s.connections_of(peer).len() == 1,
    ensures
        served(s.closed(peer, id).connections_of(peer)) is None,
        s.closed(peer, id).makes_request(peer) <==> !s.pending_outbounds.contains_key(peer),
{
    lemma_position_exists(s.connections_of(peer), id);
}

/// A request that failed on its connection is not served there any more; no other connection is
/// affected.
pub proof fn law_failed_stream_releases_connection<C, E, R, S>(
    s: State<C, E, R, S>,
    peer: PeerId,
    id: ConnectionId,
    request: OutboundId,
    error: OutboundError<E>,
)
    requires
        s.inv(),
    ensures
        !s.outbound_failed(peer, id, request, error).connection_serves(peer, id, request),
        s.outbound_failed(peer, id, request, error).pending_events.last() == ToSwarm::<
            C,
            E,
        >::GenerateEvent(Event::OutboundFailure { peer, outbound_id: request, error }),
        forall|p: PeerId, i: int, r: OutboundId|
            r != request ==> (#[trigger] s.outbound_failed(peer, id, request, error).serves(p, i, r)
                <==> s.serves(p, i, r)),
{
    let t = s.outbound_failed(peer, id, request, error);
    let before = s.connections_of(peer);
    let after = t.connections_of(peer);
    if s.connection_serves(peer, id, request) {
        lemma_position_exists(before, id);
        let i = position(before, id);
        assert(is_position(after, id, i));
        lemma_position_is(after, id, i);
    }
}

/// What happens between a node and one peer leaves its connections to all others as they are.
pub proof fn law_peers_are_independent<C, E, R, S>(
    s: State<C, E, R, S>,
    peer: PeerId,
    other: PeerId,
    id: ConnectionId,
    dialed: Option<Seq<u8>>,
    other_established: int,
    handler_event: HandlerEvent<C, E, S>,
    request: OutboundId,
    channel: C,
    sender: oneshot::Sender<Result<C, OutboundError<E>>>,
)
    requires
        other != peer,
    ensures
        s.established(peer, id, dialed, other_established).connections_of(other)
            == s.connections_of(other),
        s.closed(peer, id).connections_of(other) == s.connections_of(other),
        s.after_handler_event(peer, id, handler_event).connections_of(other) == s.connections_of(
            other,
        ),
        s.provided(peer, request, channel).connections_of(other) == s.connections_of(other),
        s.requested(peer, sender).connections_of(other) == s.connections_of(other),
        s.established(peer, id, dialed, other_established).pending_outbounds.contains_key(other)
            == s.pending_outbounds.contains_key(other),
        s.dial_failed(Some(peer)).pending_outbounds.contains_key(other)
            == s.pending_outbounds.contains_key(other),
        s.requested(peer, sender).pending_outbounds.contains_key(other)
            == s.pending_outbounds.contains_key(other),
{
}

/// Streams that peers open are of no consequence until there is a server, which there is from the
/// first listener after services were offered, and for good.
pub proof fn law_inbound_waits_for_server<C, E, R, S>(
    s: State<C, E, R, S>,
    peer: PeerId,
    id: ConnectionId,
    inbound_id: InboundId,
    stream: S,
    server: mpsc::UnboundedSender<NegotiatedStreamWrapper<S>>,
    swarm_event: FromSwarm,
)
    ensures
        ({
            let opened = HandlerEvent::InboundStream { inbound_id, stream };
            &&& s.server is None ==> s.forwarded(peer, id, opened) is None
            &&& s.server is None ==> s.after_handler_event(peer, id, opened) == s
        }),
        s.listening(Some(server)).server == Some(server),
        s.after_swarm_event(swarm_event, None).server == s.server,
{
}

/// A stream that a peer opens goes to the gRPC server: where `streams` is what the services were
/// given, `server` leads to it from the listener on, whatever else happens, and a stream that is
/// reported as accepted is the one that is sent to `server`, with its peer and its connection.
pub proof fn law_accepted_stream_goes_to_server<C, E, R, S>(
    s: State<C, E, R, S>,
    server: mpsc::UnboundedSender<NegotiatedStreamWrapper<S>>,
    streams: mpsc::UnboundedReceiver<NegotiatedStreamWrapper<S>>,
    swarm_event: FromSwarm,
    handler_event: HandlerEvent<C, E, S>,
    peer: PeerId,
    id: ConnectionId,
    inbound_id: InboundId,
    stream: S,
    sender: oneshot::Sender<Result<C, OutboundError<E>>>,
    request: OutboundId,
    channel: C,
    address: Seq<u8>,
)
    requires
        leads_to(server, streams),
    ensures
        ({
            let t = s.listening(Some(server));
            &&& t.server is Some && leads_to(t.server->0, streams)
        }),
        s.server == Some(server) ==> {
            &&& s.after_swarm_event(swarm_event, None).server == Some(server)
            &&& s.after_handler_event(peer, id, handler_event).server == Some(server)
            &&& s.requested(peer, sender).server == Some(server)
            &&& s.provided(peer, request, channel).server == Some(server)
            &&& s.address_added(peer, address).server == Some(server)
            &&& s.address_removed(peer, address).server == Some(server)
            &&& s.polled().server == Some(server)
        },
        s.server == Some(server) ==> {
            let opened = HandlerEvent::InboundStream { inbound_id, stream };
            &&& s.forwarded(peer, id, opened) == Some(
                NegotiatedStreamWrapper { inner: stream, peer_id: peer, connection_id: id },
            )
            &&& s.after_handler_event(peer, id, opened) == s.reporting(
                Event::InboundSuccess { peer, inbound_id },
            )
        },
{
}

/// The swarm is told everything once, in the order in which it came up.
pub proof fn law_swarm_is_told_in_order<C, E, R, S>(
    s: State<C, E, R, S>,
    event: ToSwarm<C, E>,
)
    ensures
        s.pending_events.len() == 0 ==> head(s.telling(event).pending_events) == Some(event)
            && s.telling(event).polled() == s,
        s.pending_events.len() > 0 ==> head(s.telling(event).pending_events) == head(
            s.pending_events,
        ) && s.telling(event).polled() == s.polled().telling(event),
{
    if s.pending_events.len() == 0 {
        assert(s.telling(event).polled().pending_events =~= s.pending_events);
        assert(s.telling(event).polled() =~= s);
    } else {
        assert(s.telling(event).polled().pending_events
            =~= s.polled().telling(event).pending_events);
        assert(s.telling(event).polled() =~= s.polled().telling(event));
    }
}

/// That a stream took too long, or that its protocol is not spoken, is no reason to close the
/// connection; any other failure is.
pub proof fn law_only_fatal_errors_close<C, E, S, F>(
    h: HandlerState<C, E, S, F>,
    event: ConnectionEvent<C, E, S, F>,
)
    requires
        h.pending_error is None,
    ensures
        h.after(event).pending_error is Some <==> match event {
            ConnectionEvent::DialUpgradeError { info, error } => error is Apply || error is Io,
            ConnectionEvent::ListenUpgradeError { info, error } => error is Apply || error is Io,
            _ => false,
        },
        h.after(event).outbounds == h.outbounds,
        h.after(event).protocol_name == h.protocol_name,
{
}

/// Every event on a connection that is no fatal error and no change of address is reported, after
/// all that was to be reported before.
pub proof fn law_handler_reports_in_order<C, E, S, F>(
    h: HandlerState<C, E, S, F>,
    event: ConnectionEvent<C, E, S, F>,
)
    ensures
        h.after(event).pending_events.len() >= h.pending_events.len(),
        h.after(event).pending_events.take(h.pending_events.len() as int) == h.pending_events,
        h.after(event).pending_events.len() > h.pending_events.len() <==> match event {
            ConnectionEvent::AddressChange => false,
            ConnectionEvent::DialUpgradeError { info, error } => error is Timeout || error is NegotiationFailed,
            ConnectionEvent::ListenUpgradeError { info, error } => error is Timeout || error is NegotiationFailed,
            _ => true,
        },
{
    assert(h.after(event).pending_events.take(h.pending_events.len() as int)
        =~= h.pending_events);
}

/// A handler asks for a stream for every request, in the order of the requests, once it has
/// nothing else to tell.
pub proof fn law_handler_opens_requested_streams<C, E, S, F>(
    h: HandlerState<C, E, S, F>,
    request: OutboundRequest<C, E>,
    asked: Option<ConnectionHandlerEvent<C, E, HandlerEvent<C, E, S>, F>>,
)
    requires
        h.pending_error is None,
        h.pending_events.len() == 0,
        h.requested(request).asks_for(asked),
    ensures
        asked matches Some(ConnectionHandlerEvent::OutboundSubstreamRequest { protocol })
            && protocol.upgrade.protocol_name@ == h.protocol_name && protocol.info == (
        if h.outbounds.len() == 0 {
            request
        } else {
            h.outbounds[0]
        }),
        h.outbounds.len() == 0 ==> h.requested(request).polled() == h,
        h.outbounds.len() > 0 ==> h.requested(request).polled() == h.polled().requested(request),
{
    if h.outbounds.len() == 0 {
        assert(h.requested(request).polled().outbounds =~= h.outbounds);
        assert(h.requested(request).polled() =~= h);
    } else {
        assert(h.requested(request).polled().outbounds =~= h.polled().requested(request).outbounds);
        assert(h.requested(request).polled() =~= h.polled().requested(request));
    }
}

/// The number that a generator of inbound identifiers draws after `count` others, `start` being
/// its first.
pub open spec fn nth_draw(start: u64, count: nat) -> u64
    decreases count,
{
    if count == 0 {
        start
    } else {
        successor(nth_draw(start, (count - 1) as nat))
    }
}

/// Inbound streams are numbered one after the other, whichever connections they are on, in a
/// counter of 64 bits that starts over at its end.
pub proof fn law_inbound_identifiers_are_consecutive(start: u64, count: nat)
    ensures
        nth_draw(start, count) == (start + count) % 0x1_0000_0000_0000_0000,
    decreases count,
{
    if count > 0 {
        law_inbound_identifiers_are_consecutive(start, (count - 1) as nat);
    }
}

/// The numbers of the first `count` inbound streams, `start` being the first.
pub open spec fn draws(start: u64, count: nat) -> Seq<u64> {
    Seq::new(count, |i: int| nth_draw(start, i as nat))
}

/// The numbers that are drawn are exactly those from `start` on, each of them once, as long as
/// there are numbers left.
pub proof fn law_inbound_identifiers_are_drawn_once(start: u64, count: nat)
    requires
        count <= 0x1_0000_0000_0000_0000,
    ensures
        draws(start, count).len() == count,
        forall|i: int|
            0 <= i < count ==> #[trigger] draws(start, count)[i] == (start + i)
                % 0x1_0000_0000_0000_0000,
        draws(start, count).no_duplicates(),
{
    assert forall|i: int| 0 <= i < count implies #[trigger] draws(start, count)[i] == (start + i)
        % 0x1_0000_0000_0000_0000 by {
        law_inbound_identifiers_are_consecutive(start, i as nat);
    }
    assert forall|i: int, j: int| 0 <= i < j < count implies draws(start, count)[i] != draws(
        start,
        count,
    )[j] by {
        law_inbound_identifiers_differ(start, i as nat, j as nat);
    }
}

/// No two inbound streams get the same identifier, unless all others were given in between.
pub proof fn law_inbound_identifiers_differ(start: u64, i: nat, j: nat)
    requires
        i < j < i + 0x1_0000_0000_0000_0000,
    ensures
        nth_draw(start, i) != nth_draw(start, j),
{
    law_inbound_identifiers_are_consecutive(start, i);
    law_inbound_identifiers_are_consecutive(start, j);
}

} // verus!
