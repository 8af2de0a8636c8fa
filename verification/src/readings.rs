//! What is read off a node, in terms of its connections, addresses and requests.

use crate::adapter::{is_forwarded, leads_to};
use crate::error::{GrpcOutboundMapError, InboundError, OutboundError};
use crate::handler::Event as HandlerEvent;
use crate::net::{ConnectionId, Multiaddr, PeerId, address_views};
use crate::outbound::received_as;
use crate::protocol::{
    DEFAULT_PROTOCOL_NAME, FIRST_INBOUND_ID, FIRST_OUTBOUND_ID, OutboundId, OutboundRequest,
    decimal, successor,
};
use crate::queue::{head, tail};
use crate::reply::{Reply, are_halves};
use crate::state::{ConnectionView, State, dialed_addresses, has_id, position, served};
use crate::swarm::ConnectedPoint;
use futures::channel::oneshot;
use tokio::sync::mpsc;
use vstd::prelude::*;
use vstd::std_specs::cmp::PartialEqSpec;

verus! {

/// The connections to a peer are those that were filed under it; a peer without any has none.
pub proof fn law_connections_are_filed_by_peer<C, E, R, S>(s: State<C, E, R, S>, peer: PeerId)
    ensures
        s.connected.contains_key(peer) ==> s.connections_of(peer) == s.connected[peer],
        !s.connected.contains_key(peer) ==> s.connections_of(peer).len() == 0,
        s.addresses.contains_key(peer) ==> s.addresses_of(peer) == s.addresses[peer],
        !s.addresses.contains_key(peer) ==> s.addresses_of(peer).len() == 0,
{
}

/// A peer is connected exactly when there is a connection to it, and a connection is known exactly
/// when one with its identifier is there.
pub proof fn law_connected_means_a_connection<C, E, R, S>(
    s: State<C, E, R, S>,
    peer: PeerId,
    id: ConnectionId,
)
    ensures
        s.is_connected(peer) <==> s.connected.contains_key(peer) && s.connected[peer].len() > 0,
        s.has_connection(peer, id) <==> s.connected.contains_key(peer) && exists|i: int|
            0 <= i < s.connected[peer].len() && (#[trigger] s.connected[peer][i]).id == id,
{
    if s.connected.contains_key(peer) {
        let connections = s.connected[peer];
        if s.has_connection(peer, id) {
            let i = choose|i: int| 0 <= i < connections.len() && connections[i].id == id;
            assert(s.connected[peer][i].id == id);
        }
        if exists|i: int| 0 <= i < connections.len() && (#[trigger] connections[i]).id == id {
            assert(has_id(s.connections_of(peer), id));
        }
    }
}

/// A connection serves a request exactly when it holds that request's identifier.
pub proof fn law_serving_means_the_identifier<C, E, R, S>(
    s: State<C, E, R, S>,
    peer: PeerId,
    i: int,
    request: OutboundId,
)
    ensures
        s.serves(peer, i, request) <==> s.connected.contains_key(peer) && 0 <= i
            < s.connected[peer].len() && s.connected[peer][i].serving_channel is Some && (
        s.connected[peer][i].serving_channel->0).0 == request,
{
}

/// The first connection with an identifier is the one that is meant by it.
pub proof fn law_connection_serves_by_its_first<C, E, R, S>(
    s: State<C, E, R, S>,
    peer: PeerId,
    id: ConnectionId,
    request: OutboundId,
)
    ensures
        s.connection_serves(peer, id, request) <==> exists|i: int|
            {
                &&& #[trigger] s.serves(peer, i, request)
                &&& s.connected[peer][i].id == id
                &&& forall|j: int| 0 <= j < i ==> (#[trigger] s.connected[peer][j]).id != id
            },
{
    let connections = s.connections_of(peer);
    let k = position(connections, id);
    law_position_is_the_first(connections, id);
    if s.connection_serves(peer, id, request) {
        let i = choose|i: int| 0 <= i < connections.len() && connections[i].id == id;
        assert(k < connections.len());
        assert(s.serves(peer, k, request));
        assert forall|j: int| 0 <= j < k implies (#[trigger] s.connected[peer][j]).id != id by {
            assert(connections[j].id != id);
        }
    }
    if exists|i: int|
        {
            &&& #[trigger] s.serves(peer, i, request)
            &&& s.connected[peer][i].id == id
            &&& forall|j: int| 0 <= j < i ==> (#[trigger] s.connected[peer][j]).id != id
        } {
        let i = choose|i: int|
            {
                &&& #[trigger] s.serves(peer, i, request)
                &&& s.connected[peer][i].id == id
                &&& forall|j: int| 0 <= j < i ==> (#[trigger] s.connected[peer][j]).id != id
            };
        assert(connections[i].id == id);
        assert(has_id(connections, id));
        assert(k == i) by {
            if k < i {
                assert(s.connected[peer][k].id != id);
            }
        }
    }
}

/// The position of an identifier is the first place at which a connection has it, and the number of
/// connections where none has.
pub proof fn law_position_is_the_first<C>(connections: Seq<ConnectionView<C>>, id: ConnectionId)
    ensures
        0 <= position(connections, id) <= connections.len(),
        position(connections, id) < connections.len() ==> connections[position(
            connections,
            id,
        )].id == id,
        forall|j: int|
            0 <= j < position(connections, id) ==> (#[trigger] connections[j]).id != id,
    decreases connections.len(),
{
    if connections.len() > 0 && connections[0].id != id {
        let rest = connections.drop_first();
        law_position_is_the_first(rest, id);
        assert forall|j: int| 0 <= j < position(connections, id) implies (
        #[trigger] connections[j]).id != id by {
            if j > 0 {
                assert(rest[j - 1].id != id);
            }
        }
    }
}

/// The channel that is handed out is that of the first connection that has one, with the request
/// that this connection serves; none is handed out exactly when no connection has one.
pub proof fn law_served_is_the_first_channel<C>(connections: Seq<ConnectionView<C>>)
    ensures
        match served(connections) {
            Some((request, channel)) => exists|i: int|
                {
                    &&& 0 <= i < connections.len()
                    &&& (#[trigger] connections[i]).serving_channel == Some(
                        (request, Some(channel)),
                    )
                    &&& forall|j: int|
                        0 <= j < i && (#[trigger] connections[j]).serving_channel is Some ==> (
                        connections[j].serving_channel->0).1 is None
                },
            None => forall|j: int|
                0 <= j < connections.len() && (#[trigger] connections[j]).serving_channel is Some
                    ==> (connections[j].serving_channel->0).1 is None,
        },
    decreases connections.len(),
{
    if connections.len() > 0 {
        let rest = connections.drop_first();
        law_served_is_the_first_channel(rest);
        if connections[0].serving_channel is Some && (connections[0].serving_channel->0).1 is Some {
            assert(served(connections) == Some(
                (
                    (connections[0].serving_channel->0).0,
                    (connections[0].serving_channel->0).1->0,
                ),
            ));
            let (request, channel) = served(connections)->0;
            assert(connections[0].serving_channel == Some((request, Some(channel))));
        } else {
            assert(served(connections) == served(rest));
            match served(rest) {
                Some((request, channel)) => {
                    let i = choose|i: int|
                        {
                            &&& 0 <= i < rest.len()
                            &&& (#[trigger] rest[i]).serving_channel == Some(
                                (request, Some(channel)),
                            )
                            &&& forall|j: int|
                                0 <= j < i && (#[trigger] rest[j]).serving_channel is Some ==> (
                                rest[j].serving_channel->0).1 is None
                        };
                    assert(connections[i + 1] == rest[i]);
                    assert forall|j: int|
                        0 <= j < i + 1 && (
                        #[trigger] connections[j]).serving_channel is Some implies (
                    connections[j].serving_channel->0).1 is None by {
                        if j > 0 {
                            assert(connections[j] == rest[j - 1]);
                        }
                    }
                },
                None => {
                    assert forall|j: int|
                        0 <= j < connections.len() && (
                        #[trigger] connections[j]).serving_channel is Some implies (
                    connections[j].serving_channel->0).1 is None by {
                        if j > 0 {
                            assert(connections[j] == rest[j - 1]);
                        }
                    }
                },
            }
        }
    }
}

/// A request to a peer is made exactly when no connection to the peer has a channel, and no request
/// to it is pending.
pub proof fn law_request_is_made_without_a_channel<C, E, R, S>(s: State<C, E, R, S>, peer: PeerId)
    ensures
        s.makes_request(peer) <==> {
            &&& !s.pending_outbounds.contains_key(peer)
            &&& s.connected.contains_key(peer) ==> forall|j: int|
                0 <= j < s.connected[peer].len() && (
                #[trigger] s.connected[peer][j]).serving_channel is Some ==> (
                s.connected[peer][j].serving_channel->0).1 is None
        },
{
    law_served_is_the_first_channel(s.connections_of(peer));
    if s.connected.contains_key(peer) {
        let connections = s.connected[peer];
        assert(s.connections_of(peer) == connections);
    }
}

/// The dialed addresses of a peer are those of its connections, in their order, whatever the
/// connections serve: another connection adds its address behind those before it, if it has one.
pub proof fn law_dialed_addresses_go_by_connection<C>(
    connections: Seq<ConnectionView<C>>,
    connection: ConnectionView<C>,
)
    ensures
        dialed_addresses(Seq::<ConnectionView<C>>::empty()).len() == 0,
        connection.target_address is None ==> dialed_addresses(connections.push(connection))
            == dialed_addresses(connections),
        connection.target_address is Some ==> {
            let more = dialed_addresses(connections.push(connection));
            &&& more.len() == dialed_addresses(connections).len() + 1
            &&& more.last() == connection.target_address->0
            &&& more.drop_last() == dialed_addresses(connections)
        },
{
    assert(connections.push(connection).drop_last() =~= connections);
    if connection.target_address is Some {
        assert(dialed_addresses(connections.push(connection)).drop_last() =~= dialed_addresses(
            connections,
        ));
    }
}

/// An address is among the dialed addresses of a peer exactly when one of its connections was
/// dialed at it.
pub proof fn law_dialed_address_is_of_a_connection<C>(
    connections: Seq<ConnectionView<C>>,
    address: Seq<u8>,
)
    ensures
        dialed_addresses(connections).contains(address) <==> exists|i: int|
            0 <= i < connections.len() && (#[trigger] connections[i]).target_address == Some(
                address,
            ),
    decreases connections.len(),
{
    if connections.len() > 0 {
        let shorter = connections.drop_last();
        let before = dialed_addresses(shorter);
        let all = dialed_addresses(connections);
        law_dialed_address_is_of_a_connection(shorter, address);
        assert(shorter.push(connections.last()) =~= connections);
        law_dialed_addresses_go_by_connection(shorter, connections.last());
        if all.contains(address) {
            let k = choose|k: int| 0 <= k < all.len() && all[k] == address;
            if connections.last().target_address is Some && k == all.len() - 1 {
                assert(connections[connections.len() - 1].target_address == Some(address));
            } else {
                if connections.last().target_address is Some {
                    assert(all.drop_last()[k] == all[k]);
                }
                assert(before[k] == address);
                assert(before.contains(address));
                let i = choose|i: int|
                    0 <= i < shorter.len() && (#[trigger] shorter[i]).target_address == Some(
                        address,
                    );
                assert(connections[i] == shorter[i]);
            }
        }
        if exists|i: int|
            0 <= i < connections.len() && (#[trigger] connections[i]).target_address == Some(
                address,
            ) {
            let i = choose|i: int|
                0 <= i < connections.len() && (#[trigger] connections[i]).target_address == Some(
                    address,
                );
            if i == connections.len() - 1 {
                assert(all[all.len() - 1] == address);
            } else {
                assert(shorter[i].target_address == Some(address));
                assert(before.contains(address));
                let k = choose|k: int| 0 <= k < before.len() && before[k] == address;
                if connections.last().target_address is Some {
                    assert(all.drop_last()[k] == all[k]);
                }
                assert(all[k] == address);
            }
        }
    } else {
        assert(dialed_addresses(connections).len() == 0);
    }
}

/// A peer can be dialed where one of its connections was dialed, and where an address was added,
/// and nowhere else; the addresses of connections come first, and both are in their order.
pub proof fn law_peer_can_be_dialed_where_it_is_known<C, E, R, S>(
    s: State<C, E, R, S>,
    peer: PeerId,
    address: Seq<u8>,
)
    ensures
        s.dial_addresses(peer).contains(address) <==> {
            ||| s.connected.contains_key(peer) && exists|i: int|
                0 <= i < s.connected[peer].len() && (
                #[trigger] s.connected[peer][i]).target_address == Some(address)
            ||| s.addresses.contains_key(peer) && s.addresses[peer].contains(address)
        },
        s.connected.contains_key(peer) && s.addresses.contains_key(peer) ==> s.dial_addresses(peer)
            == dialed_addresses(s.connected[peer]) + s.addresses[peer],
        s.connected.contains_key(peer) && !s.addresses.contains_key(peer) ==> s.dial_addresses(peer)
            == dialed_addresses(s.connected[peer]),
        !s.connected.contains_key(peer) && s.addresses.contains_key(peer) ==> s.dial_addresses(peer)
            == s.addresses[peer],
        !s.connected.contains_key(peer) && !s.addresses.contains_key(peer) ==> s.dial_addresses(
            peer,
        ).len() == 0,
{
    let dialed = dialed_addresses(s.connections_of(peer));
    let added = s.addresses_of(peer);
    let all = s.dial_addresses(peer);
    law_dialed_address_is_of_a_connection(s.connections_of(peer), address);
    assert(all =~= dialed + added);
    assert(added.len() == 0 ==> all =~= dialed);
    assert(dialed.len() == 0 ==> all =~= added);
    if all.contains(address) {
        let k = choose|k: int| 0 <= k < all.len() && all[k] == address;
        if k < dialed.len() {
            assert(dialed[k] == address);
        } else {
            assert(added[k - dialed.len()] == address);
        }
    }
    if dialed.contains(address) {
        let k = choose|k: int| 0 <= k < dialed.len() && dialed[k] == address;
        assert(all[k] == address);
    }
    if added.contains(address) {
        let k = choose|k: int| 0 <= k < added.len() && added[k] == address;
        assert(all[dialed.len() + k] == address);
    }
    if s.connected.contains_key(peer) {
        assert(s.connections_of(peer) == s.connected[peer]);
    }
}

/// What is taken from a queue is its first element, and the others move up; from an empty queue
/// nothing is taken.
pub proof fn law_queue_gives_its_first<T>(queue: Seq<T>)
    ensures
        queue.len() == 0 ==> head(queue) is None && tail(queue).len() == 0,
        queue.len() > 0 ==> {
            &&& head(queue) == Some(queue[0])
            &&& tail(queue).len() == queue.len() - 1
            &&& forall|i: int| 0 <= i < queue.len() - 1 ==> #[trigger] tail(queue)[i] == queue[i
                + 1]
        },
{
}

/// The address that was dialed is known exactly where the local node dialed.
pub proof fn law_only_dialers_have_an_address(endpoint: ConnectedPoint)
    ensures
        endpoint is Listener ==> endpoint.dialed() is None,
        endpoint matches ConnectedPoint::Dialer { address } ==> endpoint.dialed() == Some(address@),
{
}

/// A channel is made of a requested stream, with the request, the peer and the connection that it
/// came with, and of nothing else.
pub proof fn law_channels_are_made_of_requested_streams<C, E, S>(
    event: HandlerEvent<C, E, S>,
    peer: PeerId,
    id: ConnectionId,
)
    ensures
        event.job(peer, id) is Some <==> event is OutboundStream,
        event matches HandlerEvent::OutboundStream { outbound_request, stream } ==> {
            &&& event.job(peer, id) matches Some(job)
            &&& job.outbound_request == outbound_request
            &&& job.peer == peer
            &&& job.stream.inner == stream
            &&& job.stream.peer_id == peer
            &&& job.stream.connection_id == id
        },
        event matches HandlerEvent::OutboundTimeout(request) ==> event.dropped() == Some(request),
        event matches HandlerEvent::OutboundUnsupportedProtocols(request) ==> event.dropped()
            == Some(request),
        event is OutboundStream || event is InboundStream || event is InboundTimeout
            || event is InboundUnsupportedProtocols ==> event.dropped() is None,
{
}

/// A stream goes to the gRPC server exactly when a peer opened it and there is a server, and it
/// goes with its peer and its connection.
pub proof fn law_opened_streams_are_forwarded<C, E, R, S>(
    s: State<C, E, R, S>,
    peer: PeerId,
    id: ConnectionId,
    event: HandlerEvent<C, E, S>,
)
    ensures
        s.forwarded(peer, id, event) is Some <==> event is InboundStream && s.server is Some,
        event matches HandlerEvent::InboundStream { inbound_id, stream } ==> (s.forwarded(
            peer,
            id,
            event,
        ) matches Some(sent) ==> sent.inner == stream && sent.peer_id == peer && sent.connection_id
            == id),
{
}

/// A requester is answered where it waits: with a clone of the channel, or with the error of the
/// gRPC transport.
pub proof fn law_answer_is_the_result<C: Clone, E>(
    reply: Reply<C, E>,
    request: OutboundRequest<C, E>,
    chr: Result<C, E>,
)
    ensures
        reply.answers(request, chr) <==> {
            &&& reply.sender == request.sender
            &&& chr is Ok <==> reply.outcome is Ok
            &&& chr is Ok ==> cloned(chr->Ok_0, reply.outcome->Ok_0)
            &&& chr is Err ==> reply.outcome->Err_0 == OutboundError::GrpcChannel(chr->Err_0)
        },
{
}

/// A requester gets the channel that it was sent, under its own identifier; otherwise it gets the
/// error that it was sent, or that its request was dropped.
pub proof fn law_requester_gets_what_was_sent<C, E>(
    outbound_id: OutboundId,
    received: Result<Result<C, OutboundError<E>>, oneshot::Canceled>,
)
    ensures
        match received_as(outbound_id, received) {
            Ok((channel, id)) => id == outbound_id && received == Ok::<
                Result<C, OutboundError<E>>,
                oneshot::Canceled,
            >(Ok(channel)),
            Err(GrpcOutboundMapError::OutboundError(error)) => received == Ok::<
                Result<C, OutboundError<E>>,
                oneshot::Canceled,
            >(Err(error)),
            Err(GrpcOutboundMapError::SenderCanceled(canceled)) => received == Err::<
                Result<C, OutboundError<E>>,
                oneshot::Canceled,
            >(canceled),
            Err(GrpcOutboundMapError::PrevOutbondPending(_)) => false,
        },
{
}

/// Halves that belong together are those that one call of the outside crate hands out, and a value
/// counts as sent only where the outside crate's own `send` can return on it.
pub proof fn law_channels_are_the_outside_ones<C, E, T>(
    sender: oneshot::Sender<T>,
    receiver: oneshot::Receiver<T>,
    reply: Reply<C, E>,
    server: mpsc::UnboundedSender<T>,
    streams: mpsc::UnboundedReceiver<T>,
    stream: T,
)
    ensures
        are_halves(sender, receiver) ==> call_ensures(
            oneshot::channel::<T>,
            (),
            (sender, receiver),
        ),
        leads_to(server, streams) ==> call_ensures(
            mpsc::unbounded_channel::<T>,
            (),
            (server, streams),
        ),
        reply.is_sent() ==> exists|sent: Result<(), Result<C, OutboundError<E>>>| #[trigger]
            call_ensures(
                oneshot::Sender::<Result<C, OutboundError<E>>>::send,
                (reply.sender, reply.outcome),
                sent,
            ),
        is_forwarded(server, stream) ==> exists|sent: Result<(), mpsc::error::SendError<T>>|
            #[trigger] call_ensures(mpsc::UnboundedSender::<T>::send, (&server, stream), sent),
{
    if reply.is_sent() {
        let sent = choose|sent: Result<(), Result<C, OutboundError<E>>>| reply.sends(sent);
        assert(call_ensures(
            oneshot::Sender::<Result<C, OutboundError<E>>>::send,
            (reply.sender, reply.outcome),
            sent,
        ));
    }
}

/// A number and its digits determine each other: a further digit is written behind, in decimal.
pub proof fn law_decimal_digits_append(n: nat, digit: nat)
    requires
        digit < 10,
    ensures
        decimal(digit).len() == 1,
        decimal(digit)[0] as u32 == '0' as u32 + digit,
        n > 0 ==> decimal(10 * n + digit).len() == decimal(n).len() + 1,
        n > 0 ==> decimal(10 * n + digit).drop_last() == decimal(n),
        n > 0 ==> decimal(10 * n + digit).last() == decimal(digit)[0],
{
    if n > 0 {
        assert((10 * n + digit) / 10 == n);
        assert((10 * n + digit) % 10 == digit);
        assert(decimal(10 * n + digit).drop_last() =~= decimal(n));
    }
}

/// Counting goes up by one, and from the last number of 64 bits to zero.
pub proof fn law_counting_goes_up(n: u64)
    ensures
        successor(n) as int == (n + 1) % 0x1_0000_0000_0000_0000,
{
}

/// Both counts start at one, and streams speak the gRPC protocol unless told otherwise.
pub proof fn law_beginnings()
    ensures
        FIRST_INBOUND_ID == 1,
        FIRST_OUTBOUND_ID == 1,
        DEFAULT_PROTOCOL_NAME@ == "/libp2p/grpc/1.0.0"@,
{
}

/// Peers and addresses are the same exactly when they hold the same; a list of addresses is read
/// one by one.
pub proof fn law_names_are_what_they_hold(
    p: PeerId,
    q: PeerId,
    a: Multiaddr,
    b: Multiaddr,
    list: Seq<Multiaddr>,
)
    ensures
        PeerId::obeys_eq_spec(),
        Multiaddr::obeys_eq_spec(),
        p.eq_spec(&q) <==> p == q,
        a.eq_spec(&b) <==> a@ == b@,
        address_views(list).len() == list.len(),
        forall|i: int| 0 <= i < list.len() ==> #[trigger] address_views(list)[i] == list[i]@,
{
}

/// Every error has its own words.
pub proof fn law_errors_have_their_words<E: core::fmt::Display>(
    error: OutboundError<E>,
    text: String,
    id: OutboundId,
    canceled: oneshot::Canceled,
)
    ensures
        InboundError::Timeout.spec_message() == "reading the inbound request timed out"@,
        InboundError::ConnectionClosed.spec_message()
            == "the connection closed before a response could be send"@,
        InboundError::UnsupportedProtocol.spec_message()
            == "the local peer supports none of the protocol requested by the remote"@,
        error.described_by(text) ==> match error {
            OutboundError::DialFailure => text@ == "Failed to dial the requested peer"@,
            OutboundError::Timeout => text@
                == "the request timed out before a response was received"@,
            OutboundError::GrpcChannel(inner) => vstd::string::to_string_from_display_ensures::<E>(
                &inner,
                text,
            ),
            OutboundError::UnsupportedProtocol => text@
                == "the remote supports none of the requested protocol"@,
        },
        GrpcOutboundMapError::<E>::PrevOutbondPending(id).described_by(text) ==> text@
            == "the prev gRPC outbound request is pending"@,
        GrpcOutboundMapError::OutboundError(error).described_by(text) ==> error.described_by(text),
        GrpcOutboundMapError::<E>::SenderCanceled(canceled).described_by(text) ==> text@
            == "oneshot canceled"@,
{
}

} // verus!
