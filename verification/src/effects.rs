//! What each thing that happens to a node changes, and what it leaves as it was.

use crate::adapter::NegotiatedStreamWrapper;
use crate::error::{InboundError, OutboundError};
use crate::handler::Event as HandlerEvent;
use crate::net::{ConnectionId, PeerId, other_than};
use crate::protocol::{InboundId, OutboundId, OutboundRequest};
use crate::readings::{law_position_is_the_first, law_served_is_the_first_channel};
use crate::state::{State, has_id, position, served};
use crate::swarm::{
    ConnectedPoint, ConnectionClosed, ConnectionEstablished, DialFailure, Event, FromSwarm,
    ToSwarm,
};
use futures::channel::oneshot;
use tokio::sync::mpsc;
use vstd::prelude::*;

verus! {

/// A node starts with nothing: nobody is connected or known, nothing is asked for or to be told,
/// and there is no server.
pub proof fn law_node_starts_with_nothing<C, E, R, S>(
    local_peer_id: PeerId,
    protocol_name: Seq<char>,
    router: Option<R>,
    peer: PeerId,
)
    ensures
        ({
            let s = State::<C, E, R, S>::initial(local_peer_id, protocol_name, router);
            &&& s.local_peer_id == local_peer_id
            &&& s.protocol_name == protocol_name
            &&& s.grpc_service_router == router
            &&& s.server is None
            &&& s.next_outbound_id.0 == 1
            &&& s.pending_events.len() == 0
            &&& !s.connected.contains_key(peer)
            &&& !s.addresses.contains_key(peer)
            &&& !s.pending_outbounds.contains_key(peer)
        }),
{
}

/// A new request waits under its peer, with the next identifier and with where its answer goes. The
/// peer is to be dialed, after all that was to be told before. Nothing else changes.
pub proof fn law_request_waits_for_its_peer<C, E, R, S>(
    s: State<C, E, R, S>,
    peer: PeerId,
    sender: oneshot::Sender<Result<C, OutboundError<E>>>,
    other: PeerId,
)
    requires
        s.next_outbound_id.0 < u64::MAX,
    ensures
        ({
            let t = s.requested(peer, sender);
            &&& t.pending_outbounds.contains_key(peer)
            &&& t.pending_outbounds[peer].peer == peer
            &&& t.pending_outbounds[peer].outbound_id == s.next_outbound_id
            &&& t.pending_outbounds[peer].sender == sender
            &&& t.next_outbound_id.0 == s.next_outbound_id.0 + 1
            &&& t.pending_events.len() == s.pending_events.len() + 1
            &&& t.pending_events.drop_last() == s.pending_events
            &&& t.pending_events.last() == ToSwarm::<C, E>::Dial { peer_id: peer }
            &&& other != peer ==> {
                &&& t.pending_outbounds.contains_key(other) <==> s.pending_outbounds.contains_key(
                    other,
                )
                &&& s.pending_outbounds.contains_key(other) ==> t.pending_outbounds[other]
                    == s.pending_outbounds[other]
            }
            &&& t.connected == s.connected
            &&& t.addresses == s.addresses
            &&& t.server == s.server
            &&& t.grpc_service_router == s.grpc_service_router
            &&& t.local_peer_id == s.local_peer_id
            &&& t.protocol_name == s.protocol_name
        }),
{
    assert(s.requested(peer, sender).pending_events.drop_last() =~= s.pending_events);
}

/// To be told something takes the oldest of what is to be told, and changes nothing else.
pub proof fn law_telling_takes_the_oldest<C, E, R, S>(s: State<C, E, R, S>)
    ensures
        s.pending_events.len() == 0 ==> s.polled() == s,
        s.pending_events.len() > 0 ==> s.polled().pending_events.len() == s.pending_events.len()
            - 1,
        forall|i: int|
            0 <= i < s.pending_events.len() - 1 ==> #[trigger] s.polled().pending_events[i]
                == s.pending_events[i + 1],
        s.polled().connected == s.connected,
        s.polled().addresses == s.addresses,
        s.polled().pending_outbounds == s.pending_outbounds,
        s.polled().next_outbound_id == s.next_outbound_id,
        s.polled().server == s.server,
        s.polled().grpc_service_router == s.grpc_service_router,
        s.polled().local_peer_id == s.local_peer_id,
        s.polled().protocol_name == s.protocol_name,
{
}

/// A new connection comes behind those that its peer had, with its identifier and, where the local
/// node dialed, its address. All connections keep their places, identifiers and addresses, and what
/// they serve, but for one: where this is the peer's first connection, and a request waits for the
/// peer, the first connection with the new identifier serves exactly that request, as yet without a
/// channel, whatever else was requested meanwhile.
pub proof fn law_connection_is_established<C, E, R, S>(
    s: State<C, E, R, S>,
    event: ConnectionEstablished,
    started: Option<mpsc::UnboundedSender<NegotiatedStreamWrapper<S>>>,
    other: PeerId,
)
    ensures
        ({
            let t = s.after_swarm_event(FromSwarm::ConnectionEstablished(event), started);
            let peer = event.peer_id;
            let count: int = if s.connected.contains_key(peer) {
                s.connected[peer].len() as int
            } else {
                0
            };
            let takes = event.other_established == 0 && s.pending_outbounds.contains_key(peer);
            &&& t.connected.contains_key(peer)
            &&& t.connected[peer].len() == count + 1
            &&& forall|j: int|
                0 <= j < count ==> (#[trigger] t.connected[peer][j]).id == s.connected[peer][j].id
                    && t.connected[peer][j].target_address == s.connected[peer][j].target_address
            &&& t.connected[peer][count].id == event.connection_id
            &&& event.endpoint is Listener ==> t.connected[peer][count].target_address is None
            &&& event.endpoint matches ConnectedPoint::Dialer { address }
                ==> t.connected[peer][count].target_address == Some(address@)
            &&& forall|j: int|
                0 <= j <= count ==> {
                    let first = (#[trigger] t.connected[peer][j]).id == event.connection_id
                        && forall|k: int|
                        0 <= k < j ==> (#[trigger] t.connected[peer][k]).id != event.connection_id;
                    t.connected[peer][j].serving_channel == (if takes && first {
                        Some((s.pending_outbounds[peer].outbound_id, None::<C>))
                    } else if j < count {
                        s.connected[peer][j].serving_channel
                    } else {
                        None
                    })
                }
            &&& other != peer ==> {
                &&& t.connected.contains_key(other) <==> s.connected.contains_key(other)
                &&& s.connected.contains_key(other) ==> t.connected[other] == s.connected[other]
                &&& t.pending_outbounds.contains_key(other) <==> s.pending_outbounds.contains_key(
                    other,
                )
                &&& s.pending_outbounds.contains_key(other) ==> t.pending_outbounds[other]
                    == s.pending_outbounds[other]
            }
            &&& t.addresses == s.addresses
            &&& t.next_outbound_id == s.next_outbound_id
            &&& t.server == s.server
            &&& t.grpc_service_router == s.grpc_service_router
            &&& t.local_peer_id == s.local_peer_id
            &&& t.protocol_name == s.protocol_name
        }),
{
    let t = s.after_swarm_event(FromSwarm::ConnectionEstablished(event), started);
    let peer = event.peer_id;
    let joined = s.joined(peer, event.connection_id, event.endpoint.dialed());
    let connections = joined.connections_of(peer);
    let k = position(connections, event.connection_id);
    law_position_is_the_first(connections, event.connection_id);
    assert(connections.last().id == event.connection_id);
    assert(k < connections.len());
    assert(connections[k].id == event.connection_id);
    assert forall|j: int| 0 <= j < connections.len() implies (#[trigger] t.connected[peer][j]).id
        == connections[j].id && t.connected[peer][j].target_address
        == connections[j].target_address by {}
    let takes = event.other_established == 0 && s.pending_outbounds.contains_key(peer);
    assert forall|j: int| 0 <= j < connections.len() implies {
        let first = (#[trigger] t.connected[peer][j]).id == event.connection_id && forall|i: int|
            0 <= i < j ==> (#[trigger] t.connected[peer][i]).id != event.connection_id;
        t.connected[peer][j].serving_channel == (if takes && first {
            Some((s.pending_outbounds[peer].outbound_id, None::<C>))
        } else {
            connections[j].serving_channel
        })
    } by {
        let first = t.connected[peer][j].id == event.connection_id && forall|i: int|
            0 <= i < j ==> (#[trigger] t.connected[peer][i]).id != event.connection_id;
        if first {
            assert(j == k) by {
                if k < j {
                    assert(t.connected[peer][k].id != event.connection_id);
                }
                if j < k {
                    assert(connections[j].id != event.connection_id);
                }
            }
        } else if j == k {
            assert forall|i: int| 0 <= i < j implies (#[trigger] t.connected[peer][i]).id
                != event.connection_id by {
                assert(connections[i].id != event.connection_id);
            }
        }
    }
}

/// The request that waits for a peer goes to the peer's first connection, as it is, and waits no
/// more; without a request, or where there are other connections, nothing is told, and what waits
/// keeps waiting.
pub proof fn law_first_connection_gets_the_request<C, E, R, S>(
    s: State<C, E, R, S>,
    event: ConnectionEstablished,
    started: Option<mpsc::UnboundedSender<NegotiatedStreamWrapper<S>>>,
)
    ensures
        ({
            let t = s.after_swarm_event(FromSwarm::ConnectionEstablished(event), started);
            let peer = event.peer_id;
            if event.other_established == 0 && s.pending_outbounds.contains_key(peer) {
                &&& !t.pending_outbounds.contains_key(peer)
                &&& t.pending_events.len() == s.pending_events.len() + 1
                &&& t.pending_events.drop_last() == s.pending_events
                &&& t.pending_events.last() == ToSwarm::<C, E>::NotifyHandler {
                    peer_id: peer,
                    handler: event.connection_id,
                    event: s.pending_outbounds[peer],
                }
            } else {
                &&& t.pending_outbounds == s.pending_outbounds
                &&& t.pending_events == s.pending_events
            }
        }),
{
    let t = s.after_swarm_event(FromSwarm::ConnectionEstablished(event), started);
    if event.other_established == 0 && s.pending_outbounds.contains_key(event.peer_id) {
        assert(t.pending_events.drop_last() =~= s.pending_events);
    }
}

/// A request that waits for a peer, whatever other requests were made since, is served by the peer's
/// first connection once that is there, and the channel that is made for it is the one that later
/// requests to the peer get: they make no request of their own.
pub proof fn law_waiting_request_becomes_the_channel<C, E, R, S>(
    s: State<C, E, R, S>,
    event: ConnectionEstablished,
    started: Option<mpsc::UnboundedSender<NegotiatedStreamWrapper<S>>>,
    channel: C,
)
    requires
        s.inv(),
        s.pending_outbounds.contains_key(event.peer_id),
        event.other_established == 0,
        s.connected.contains_key(event.peer_id) ==> forall|j: int|
            0 <= j < s.connected[event.peer_id].len() && (
            #[trigger] s.connected[event.peer_id][j]).serving_channel is Some ==> (
            s.connected[event.peer_id][j].serving_channel->0).1 is None,
    ensures
        ({
            let peer = event.peer_id;
            let request = s.pending_outbounds[peer].outbound_id;
            let t = s.after_swarm_event(FromSwarm::ConnectionEstablished(event), started);
            let u = t.provided(peer, request, channel);
            &&& t.connection_serves(peer, event.connection_id, request)
            &&& served(u.connections_of(peer)) == Some((request, channel))
            &&& !u.makes_request(peer)
            &&& u.next_outbound_id == s.next_outbound_id
        }),
{
    let peer = event.peer_id;
    let id = event.connection_id;
    let request = s.pending_outbounds[peer].outbound_id;
    let t = s.after_swarm_event(FromSwarm::ConnectionEstablished(event), started);
    let u = t.provided(peer, request, channel);
    law_connection_is_established(s, event, started, peer);
    let after = t.connected[peer];
    let count = after.len() - 1;
    law_position_is_the_first(after, id);
    let k = position(after, id);
    assert(after[count].id == id);
    assert(k <= count);
    assert(t.connected[peer][k].id == id);
    assert(t.connected[peer][k].serving_channel == Some((request, None::<C>)));
    assert(has_id(t.connections_of(peer), id));
    assert forall|j: int|
        0 <= j < after.len() && j != k && (
        #[trigger] after[j]).serving_channel is Some implies (after[j].serving_channel->0).0
        != request && (after[j].serving_channel->0).1 is None by {
        assert(t.connected[peer][j] == after[j]);
        if j > k {
            assert(t.connected[peer][k].id == id);
        } else {
            assert(after[j].id != id);
        }
        assert(j < count);
        assert(after[j].serving_channel == s.connected[peer][j].serving_channel);
        assert(s.serves(peer, j, (after[j].serving_channel->0).0));
    }
    let final_list = u.connections_of(peer);
    law_served_is_the_first_channel(final_list);
    assert(final_list[k].serving_channel == Some((request, Some(channel))));
    assert forall|j: int| 0 <= j < final_list.len() && j != k implies final_list[j] == after[j] by {
        assert(!(after[j].serving_channel is Some) || (after[j].serving_channel->0).0 != request);
    }
}

/// Where a connection is closed, the peer keeps exactly its others, in their order, each with the
/// identifier, the address, the request and the channel that it had; a peer without any is not
/// connected any more. Nothing else changes.
pub proof fn law_connection_is_closed<C, E, R, S>(
    s: State<C, E, R, S>,
    event: ConnectionClosed,
    started: Option<mpsc::UnboundedSender<NegotiatedStreamWrapper<S>>>,
    k: int,
    other: PeerId,
)
    requires
        s.connected.contains_key(event.peer_id),
        0 <= k < s.connected[event.peer_id].len(),
        s.connected[event.peer_id][k].id == event.connection_id,
        forall|j: int|
            0 <= j < k ==> (#[trigger] s.connected[event.peer_id][j]).id != event.connection_id,
    ensures
        ({
            let t = s.after_swarm_event(FromSwarm::ConnectionClosed(event), started);
            let peer = event.peer_id;
            let before = s.connected[peer];
            &&& t.connected.contains_key(peer) <==> before.len() > 1
            &&& before.len() > 1 ==> t.connected[peer].len() == before.len() - 1
            &&& before.len() > 1 ==> forall|j: int|
                0 <= j < before.len() - 1 ==> #[trigger] t.connected[peer][j] == (if j < k {
                    before[j]
                } else {
                    before[j + 1]
                })
            &&& other != peer ==> {
                &&& t.connected.contains_key(other) <==> s.connected.contains_key(other)
                &&& s.connected.contains_key(other) ==> t.connected[other] == s.connected[other]
            }
            &&& t.pending_events == s.pending_events
            &&& t.pending_outbounds == s.pending_outbounds
            &&& t.addresses == s.addresses
            &&& t.next_outbound_id == s.next_outbound_id
            &&& t.server == s.server
            &&& t.grpc_service_router == s.grpc_service_router
            &&& t.local_peer_id == s.local_peer_id
            &&& t.protocol_name == s.protocol_name
        }),
{
    let connections = s.connections_of(event.peer_id);
    law_position_is_the_first(connections, event.connection_id);
    assert(position(connections, event.connection_id) == k);
}

/// What a closed connection served is served no more: its channel is not handed out again.
pub proof fn law_closed_connection_serves_nothing<C, E, R, S>(
    s: State<C, E, R, S>,
    event: ConnectionClosed,
    started: Option<mpsc::UnboundedSender<NegotiatedStreamWrapper<S>>>,
    k: int,
    request: OutboundId,
    peer: PeerId,
    i: int,
)
    requires
        s.inv(),
        s.connected.contains_key(event.peer_id),
        0 <= k < s.connected[event.peer_id].len(),
        s.connected[event.peer_id][k].id == event.connection_id,
        forall|j: int|
            0 <= j < k ==> (#[trigger] s.connected[event.peer_id][j]).id != event.connection_id,
        s.connected[event.peer_id][k].serving_channel is Some,
        (s.connected[event.peer_id][k].serving_channel->0).0 == request,
    ensures
        ({
            let t = s.after_swarm_event(FromSwarm::ConnectionClosed(event), started);
            &&& !t.serves(peer, i, request)
            &&& served(t.connections_of(peer)) is Some ==> (served(t.connections_of(peer))->0).0
                != request
        }),
{
    let t = s.after_swarm_event(FromSwarm::ConnectionClosed(event), started);
    law_connection_is_closed(s, event, started, k, peer);
    assert(s.serves(event.peer_id, k, request));
    assert forall|j: int| !#[trigger] t.serves(peer, j, request) by {
        if t.serves(peer, j, request) {
            if peer == event.peer_id {
                let from = if j < k { j } else { j + 1 };
                assert(t.connected[peer][j] == s.connected[peer][from]);
                assert(s.serves(peer, from, request));
            } else {
                assert(s.serves(peer, j, request));
            }
        }
    }
    law_served_is_the_first_channel(t.connections_of(peer));
    if served(t.connections_of(peer)) is Some {
        let (r, channel) = served(t.connections_of(peer))->0;
        let j = choose|j: int|
            0 <= j < t.connections_of(peer).len() && (
            #[trigger] t.connections_of(peer)[j]).serving_channel == Some((r, Some(channel)));
        assert(t.serves(peer, j, r));
    }
}

/// A peer that cannot be dialed is reported under the identifier of the request that waited for it,
/// whatever other requests were made since, after all that was to be told before. That request
/// waits no more, and its requester is owed the error. Nothing else changes.
pub proof fn law_failed_dial_is_reported_for_its_request<C, E, R, S>(
    s: State<C, E, R, S>,
    peer: PeerId,
    started: Option<mpsc::UnboundedSender<NegotiatedStreamWrapper<S>>>,
    other: PeerId,
)
    requires
        s.pending_outbounds.contains_key(peer),
    ensures
        ({
            let failure = DialFailure { peer_id: Some(peer) };
            let t = s.after_swarm_event(FromSwarm::DialFailure(failure), started);
            &&& t == s.dial_failed(Some(peer))
            &&& t.pending_events.len() == s.pending_events.len() + 1
            &&& t.pending_events.drop_last() == s.pending_events
            &&& t.pending_events.last() == ToSwarm::<C, E>::GenerateEvent(
                Event::OutboundFailure {
                    peer,
                    outbound_id: s.pending_outbounds[peer].outbound_id,
                    error: OutboundError::DialFailure,
                },
            )
            &&& !t.pending_outbounds.contains_key(peer)
            &&& other != peer ==> {
                &&& t.pending_outbounds.contains_key(other) <==> s.pending_outbounds.contains_key(
                    other,
                )
                &&& s.pending_outbounds.contains_key(other) ==> t.pending_outbounds[other]
                    == s.pending_outbounds[other]
            }
            &&& t.connected == s.connected
            &&& t.addresses == s.addresses
            &&& t.next_outbound_id == s.next_outbound_id
            &&& t.server == s.server
            &&& t.grpc_service_router == s.grpc_service_router
            &&& t.local_peer_id == s.local_peer_id
            &&& t.protocol_name == s.protocol_name
            &&& s.dial_failure_reply(Some(peer)) matches Some(reply)
            &&& reply.sender == s.pending_outbounds[peer].sender
            &&& reply.outcome == Err::<C, OutboundError<E>>(OutboundError::DialFailure)
        }),
{
    assert(s.dial_failed(Some(peer)).pending_events.drop_last() =~= s.pending_events);
}

/// A failure to dial that no request waits on changes nothing and owes nothing.
pub proof fn law_unasked_dial_failure_is_ignored<C, E, R, S>(
    s: State<C, E, R, S>,
    failure: DialFailure,
    started: Option<mpsc::UnboundedSender<NegotiatedStreamWrapper<S>>>,
)
    requires
        failure.peer_id is Some ==> !s.pending_outbounds.contains_key(failure.peer_id->0),
    ensures
        s.after_swarm_event(FromSwarm::DialFailure(failure), started) == s,
        s.dial_failed(failure.peer_id) == s,
        s.dial_failure_reply(failure.peer_id) is None,
{
}

/// A listener takes the services that are offered, if any, and puts the server that was started for
/// them in the place of the one before, which stays where none was started. Nothing else changes.
pub proof fn law_listener_starts_the_server<C, E, R, S>(
    s: State<C, E, R, S>,
    started: Option<mpsc::UnboundedSender<NegotiatedStreamWrapper<S>>>,
)
    ensures
        ({
            let t = s.after_swarm_event(FromSwarm::NewListener, started);
            &&& t == s.listening(started)
            &&& t.grpc_service_router is None
            &&& started is Some ==> t.server == started
            &&& started is None ==> t.server == s.server
            &&& t.pending_events == s.pending_events
            &&& t.pending_outbounds == s.pending_outbounds
            &&& t.connected == s.connected
            &&& t.addresses == s.addresses
            &&& t.next_outbound_id == s.next_outbound_id
            &&& t.local_peer_id == s.local_peer_id
            &&& t.protocol_name == s.protocol_name
        }),
{
}

/// All else that the swarm tells changes nothing.
pub proof fn law_other_swarm_events_change_nothing<C, E, R, S>(
    s: State<C, E, R, S>,
    event: FromSwarm,
    started: Option<mpsc::UnboundedSender<NegotiatedStreamWrapper<S>>>,
)
    requires
        !(event is ConnectionEstablished),
        !(event is ConnectionClosed),
        !(event is DialFailure),
        !(event is NewListener),
    ensures
        s.after_swarm_event(event, started) == s,
{
}

/// A stream that a peer opened and that was accepted is reported as such, where there is a server;
/// without one it is of no consequence. A requested stream changes nothing yet.
pub proof fn law_ready_streams_are_reported<C, E, R, S>(
    s: State<C, E, R, S>,
    peer: PeerId,
    id: ConnectionId,
    inbound_id: InboundId,
    outbound_request: OutboundRequest<C, E>,
    stream: S,
)
    ensures
        s.after_handler_event(peer, id, HandlerEvent::OutboundStream { outbound_request, stream })
            == s,
        ({
            let t = s.after_handler_event(
                peer,
                id,
                HandlerEvent::InboundStream { inbound_id, stream },
            );
            if s.server is Some {
                &&& t.pending_events.len() == s.pending_events.len() + 1
                &&& t.pending_events.drop_last() == s.pending_events
                &&& t.pending_events.last() == ToSwarm::<C, E>::GenerateEvent(
                    Event::InboundSuccess { peer, inbound_id },
                )
                &&& t.pending_outbounds == s.pending_outbounds
                &&& t.connected == s.connected
                &&& t.addresses == s.addresses
                &&& t.next_outbound_id == s.next_outbound_id
                &&& t.server == s.server
                &&& t.grpc_service_router == s.grpc_service_router
                &&& t.local_peer_id == s.local_peer_id
                &&& t.protocol_name == s.protocol_name
            } else {
                t == s
            }
        }),
{
    if s.server is Some {
        assert(s.after_handler_event(
            peer,
            id,
            HandlerEvent::InboundStream { inbound_id, stream },
        ).pending_events.drop_last() =~= s.pending_events);
    }
}

/// A stream that a peer opened and that came to nothing is reported as failed, for the reason that
/// it had, with or without a server, after all that was to be told before. Nothing else changes.
pub proof fn law_failed_inbound_streams_are_reported<C, E, R, S>(
    s: State<C, E, R, S>,
    peer: PeerId,
    id: ConnectionId,
    inbound_id: InboundId,
    event: HandlerEvent<C, E, S>,
)
    requires
        event == HandlerEvent::<C, E, S>::InboundTimeout(inbound_id) || event == HandlerEvent::<
            C,
            E,
            S,
        >::InboundUnsupportedProtocols(inbound_id),
    ensures
        ({
            let t = s.after_handler_event(peer, id, event);
            &&& t.pending_events.len() == s.pending_events.len() + 1
            &&& t.pending_events.drop_last() == s.pending_events
            &&& event is InboundTimeout ==> t.pending_events.last() == ToSwarm::<
                C,
                E,
            >::GenerateEvent(
                Event::InboundFailure { peer, inbound_id, error: InboundError::Timeout },
            )
            &&& event is InboundUnsupportedProtocols ==> t.pending_events.last() == ToSwarm::<
                C,
                E,
            >::GenerateEvent(
                Event::InboundFailure {
                    peer,
                    inbound_id,
                    error: InboundError::UnsupportedProtocol,
                },
            )
            &&& t.pending_outbounds == s.pending_outbounds
            &&& t.connected == s.connected
            &&& t.addresses == s.addresses
            &&& t.next_outbound_id == s.next_outbound_id
            &&& t.server == s.server
            &&& t.grpc_service_router == s.grpc_service_router
            &&& t.local_peer_id == s.local_peer_id
            &&& t.protocol_name == s.protocol_name
        }),
{
    assert(s.after_handler_event(peer, id, event).pending_events.drop_last()
        =~= s.pending_events);
}

/// A requested stream that came to nothing is reported as failed under its request's identifier, for
/// the reason that it had, after all that was to be told before. The first connection with the
/// identifier of the one that it failed on stops serving that request, if it did serve it; no
/// connection changes otherwise, and nothing else does.
pub proof fn law_failed_outbound_streams_are_reported<C, E, R, S>(
    s: State<C, E, R, S>,
    peer: PeerId,
    id: ConnectionId,
    request: OutboundRequest<C, E>,
    event: HandlerEvent<C, E, S>,
    p: PeerId,
)
    requires
        event == HandlerEvent::<C, E, S>::OutboundTimeout(request) || event == HandlerEvent::<
            C,
            E,
            S,
        >::OutboundUnsupportedProtocols(request),
    ensures
        ({
            let t = s.after_handler_event(peer, id, event);
            &&& t.pending_events.len() == s.pending_events.len() + 1
            &&& t.pending_events.drop_last() == s.pending_events
            &&& event is OutboundTimeout ==> t.pending_events.last() == ToSwarm::<
                C,
                E,
            >::GenerateEvent(
                Event::OutboundFailure {
                    peer,
                    outbound_id: request.outbound_id,
                    error: OutboundError::Timeout,
                },
            )
            &&& event is OutboundUnsupportedProtocols ==> t.pending_events.last() == ToSwarm::<
                C,
                E,
            >::GenerateEvent(
                Event::OutboundFailure {
                    peer,
                    outbound_id: request.outbound_id,
                    error: OutboundError::UnsupportedProtocol,
                },
            )
            &&& t.connected.contains_key(p) <==> s.connected.contains_key(p)
            &&& s.connected.contains_key(p) ==> t.connected[p].len() == s.connected[p].len()
            &&& s.connected.contains_key(p) ==> forall|j: int|
                0 <= j < s.connected[p].len() ==> (#[trigger] t.connected[p][j]).id
                    == s.connected[p][j].id && t.connected[p][j].target_address
                    == s.connected[p][j].target_address
            &&& s.connected.contains_key(p) && p != peer ==> t.connected[p] == s.connected[p]
            &&& s.connected.contains_key(p) && p == peer ==> forall|j: int|
                0 <= j < s.connected[p].len() ==> {
                    let first = s.connected[p][j].id == id && forall|k: int|
                        0 <= k < j ==> (#[trigger] s.connected[p][k]).id != id;
                    let serving = s.connected[p][j].serving_channel;
                    (#[trigger] t.connected[p][j]).serving_channel == (if first && serving is Some
                        && (serving->0).0 == request.outbound_id {
                        None
                    } else {
                        serving
                    })
                }
            &&& t.pending_outbounds == s.pending_outbounds
            &&& t.addresses == s.addresses
            &&& t.next_outbound_id == s.next_outbound_id
            &&& t.server == s.server
            &&& t.grpc_service_router == s.grpc_service_router
            &&& t.local_peer_id == s.local_peer_id
            &&& t.protocol_name == s.protocol_name
        }),
{
    let t = s.after_handler_event(peer, id, event);
    assert(t.pending_events.drop_last() =~= s.pending_events);
    let connections = s.connections_of(peer);
    law_position_is_the_first(connections, id);
    let k = position(connections, id);
    if s.connected.contains_key(peer) && k < connections.len() {
        assert(has_id(connections, id));
        assert(s.connected[peer][k].id == id);
    }
    if s.connected.contains_key(p) && p == peer {
        assert forall|j: int| 0 <= j < s.connected[p].len() implies {
            let first = s.connected[p][j].id == id && forall|i: int|
                0 <= i < j ==> (#[trigger] s.connected[p][i]).id != id;
            let serving = s.connected[p][j].serving_channel;
            (#[trigger] t.connected[p][j]).serving_channel == (if first && serving is Some && (
            serving->0).0 == request.outbound_id {
                None
            } else {
                serving
            })
        } by {
            let first = s.connected[p][j].id == id && forall|i: int|
                0 <= i < j ==> (#[trigger] s.connected[p][i]).id != id;
            if first {
                assert(j == k) by {
                    if k < j {
                        assert(s.connected[p][k].id != id);
                    }
                    if j < k {
                        assert(connections[j].id != id);
                    }
                }
            } else if j == k {
                assert forall|i: int| 0 <= i < j implies (#[trigger] s.connected[p][i]).id
                    != id by {
                    assert(connections[i].id != id);
                }
            }
        }
    }
}

/// A channel goes to the connections to its peer that serve its request, and to no others. No
/// connection changes otherwise, and nothing else does.
pub proof fn law_channel_goes_to_its_request<C, E, R, S>(
    s: State<C, E, R, S>,
    peer: PeerId,
    request: OutboundId,
    channel: C,
    p: PeerId,
)
    ensures
        ({
            let t = s.provided(peer, request, channel);
            &&& t.connected.contains_key(p) <==> s.connected.contains_key(p)
            &&& s.connected.contains_key(p) && p != peer ==> t.connected[p] == s.connected[p]
            &&& s.connected.contains_key(p) ==> t.connected[p].len() == s.connected[p].len()
            &&& s.connected.contains_key(p) && p == peer ==> forall|j: int|
                0 <= j < s.connected[p].len() ==> {
                    let serving = s.connected[p][j].serving_channel;
                    &&& (#[trigger] t.connected[p][j]).id == s.connected[p][j].id
                    &&& t.connected[p][j].target_address == s.connected[p][j].target_address
                    &&& t.connected[p][j].serving_channel == (if serving is Some && (
                    serving->0).0 == request {
                        Some((request, Some(channel)))
                    } else {
                        serving
                    })
                }
            &&& t.pending_events == s.pending_events
            &&& t.pending_outbounds == s.pending_outbounds
            &&& t.addresses == s.addresses
            &&& t.next_outbound_id == s.next_outbound_id
            &&& t.server == s.server
            &&& t.grpc_service_router == s.grpc_service_router
            &&& t.local_peer_id == s.local_peer_id
            &&& t.protocol_name == s.protocol_name
        }),
{
}

/// An address that is added comes behind those that were known of its peer. Nothing else changes.
pub proof fn law_address_is_added_last<C, E, R, S>(
    s: State<C, E, R, S>,
    peer: PeerId,
    address: Seq<u8>,
    other: PeerId,
)
    ensures
        ({
            let t = s.address_added(peer, address);
            &&& t.addresses.contains_key(peer)
            &&& t.addresses[peer].last() == address
            &&& s.addresses.contains_key(peer) ==> t.addresses[peer].drop_last()
                == s.addresses[peer]
            &&& s.addresses.contains_key(peer) ==> t.addresses[peer].len()
                == s.addresses[peer].len() + 1
            &&& !s.addresses.contains_key(peer) ==> t.addresses[peer].len() == 1
            &&& other != peer ==> {
                &&& t.addresses.contains_key(other) <==> s.addresses.contains_key(other)
                &&& s.addresses.contains_key(other) ==> t.addresses[other] == s.addresses[other]
            }
            &&& t.connected == s.connected
            &&& t.pending_events == s.pending_events
            &&& t.pending_outbounds == s.pending_outbounds
            &&& t.next_outbound_id == s.next_outbound_id
            &&& t.server == s.server
            &&& t.grpc_service_router == s.grpc_service_router
            &&& t.local_peer_id == s.local_peer_id
            &&& t.protocol_name == s.protocol_name
        }),
{
    let t = s.address_added(peer, address);
    if s.addresses.contains_key(peer) {
        assert(t.addresses[peer].drop_last() =~= s.addresses[peer]);
    }
}

/// An address that is removed leaves all other addresses of its peer, in their order; a peer that
/// has none left is known no more. Nothing else changes.
pub proof fn law_address_is_removed_everywhere<C, E, R, S>(
    s: State<C, E, R, S>,
    peer: PeerId,
    address: Seq<u8>,
    other: PeerId,
)
    ensures
        ({
            let t = s.address_removed(peer, address);
            let left = s.addresses[peer].filter(|kept: Seq<u8>| kept != address);
            &&& t.addresses.contains_key(peer) <==> s.addresses.contains_key(peer) && left.len() > 0
            &&& t.addresses.contains_key(peer) ==> t.addresses[peer] == left
            &&& other != peer ==> {
                &&& t.addresses.contains_key(other) <==> s.addresses.contains_key(other)
                &&& s.addresses.contains_key(other) ==> t.addresses[other] == s.addresses[other]
            }
            &&& t.connected == s.connected
            &&& t.pending_events == s.pending_events
            &&& t.pending_outbounds == s.pending_outbounds
            &&& t.next_outbound_id == s.next_outbound_id
            &&& t.server == s.server
            &&& t.grpc_service_router == s.grpc_service_router
            &&& t.local_peer_id == s.local_peer_id
            &&& t.protocol_name == s.protocol_name
        }),
{
    reveal(Seq::filter);
    assert(other_than(address) =~= (|kept: Seq<u8>| kept != address));
}

} // verus!
