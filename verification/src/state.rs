//! What a node knows of its peers, its connections and its requests, and how that changes.

use crate::adapter::NegotiatedStreamWrapper;
use crate::error::{InboundError, OutboundError};
use crate::handler::Event as HandlerEvent;
use crate::net::{ConnectionId, PeerId, other_than};
use crate::protocol::{FIRST_OUTBOUND_ID, InboundId, OutboundId, OutboundRequest};
use crate::queue::tail;
use crate::reply::Reply;
use crate::swarm::{Event, FromSwarm, ToSwarm};
use futures::channel::oneshot;
use tokio::sync::mpsc;
use vstd::prelude::*;

verus! {

/// What is known of a connection.
#[verifier::ext_equal]
pub struct ConnectionView<C> {
    /// Identifies the connection.
    pub id: ConnectionId,
    /// The address that was dialed, where the local node did dial.
    pub target_address: Option<Seq<u8>>,
    /// The request that the connection serves, and the channel that it led to, once there is one.
    pub serving_channel: Option<(OutboundId, Option<C>)>,
}

impl<C> ConnectionView<C> {
    /// Whether the connection serves the request `id`.
    pub open spec fn serves(self, id: OutboundId) -> bool {
        self.serving_channel is Some && (self.serving_channel->0).0 == id
    }

    /// Serving `request` from now on, as yet without a channel.
    pub open spec fn assigned(self, request: OutboundId) -> Self {
        ConnectionView { serving_channel: Some((request, None)), ..self }
    }

    /// Serving nothing from now on.
    pub open spec fn released(self) -> Self {
        ConnectionView { serving_channel: None, ..self }
    }

    /// With `channel` for `request`, if it serves that.
    pub open spec fn provided(self, request: OutboundId, channel: C) -> Self {
        if self.serves(request) {
            ConnectionView { serving_channel: Some((request, Some(channel))), ..self }
        } else {
            self
        }
    }
}

/// Whether the connection `id` comes first at `i`.
pub open spec fn is_position<C>(
    connections: Seq<ConnectionView<C>>,
    id: ConnectionId,
    i: int,
) -> bool {
    &&& 0 <= i < connections.len()
    &&& connections[i].id == id
    &&& forall|j: int| 0 <= j < i ==> connections[j].id != id
}

/// Where the connection `id` comes first, if there is one; at the end otherwise.
pub open spec fn position<C>(connections: Seq<ConnectionView<C>>, id: ConnectionId) -> int
    decreases connections.len(),
{
    if connections.len() == 0 || connections[0].id == id {
        0
    } else {
        1 + position(connections.drop_first(), id)
    }
}

/// Whether there is a connection `id`.
pub open spec fn has_id<C>(connections: Seq<ConnectionView<C>>, id: ConnectionId) -> bool {
    exists|i: int| 0 <= i < connections.len() && connections[i].id == id
}

/// The request and the channel of the first connection that has a channel.
pub open spec fn served<C>(connections: Seq<ConnectionView<C>>) -> Option<(OutboundId, C)>
    decreases connections.len(),
{
    if connections.len() == 0 {
        None
    } else {
        match connections[0].serving_channel {
            Some((id, Some(channel))) => Some((id, channel)),
            _ => served(connections.drop_first()),
        }
    }
}

/// The addresses that were dialed, connection by connection.
pub open spec fn dialed_addresses<C>(connections: Seq<ConnectionView<C>>) -> Seq<Seq<u8>>
    decreases connections.len(),
{
    if connections.len() == 0 {
        Seq::empty()
    } else {
        let before = dialed_addresses(connections.drop_last());
        match connections.last().target_address {
            Some(address) => before.push(address),
            None => before,
        }
    }
}

/// What a node knows. `C` is a gRPC channel, `E` an error of the gRPC transport, `R` routes calls
/// to gRPC services, and `S` is a negotiated stream.
#[verifier::ext_equal]
#[verifier::reject_recursive_types(C)]
#[verifier::reject_recursive_types(E)]
#[verifier::reject_recursive_types(S)]
pub struct State<C, E, R, S> {
    /// The local peer.
    pub local_peer_id: PeerId,
    /// The protocol that streams speak.
    pub protocol_name: Seq<char>,
    /// The connections of each connected peer, in the order in which they were established.
    pub connected: Map<PeerId, Seq<ConnectionView<C>>>,
    /// What the swarm is yet to be told, oldest first.
    pub pending_events: Seq<ToSwarm<C, E>>,
    /// The gRPC services that are offered once there is a listener.
    pub grpc_service_router: Option<R>,
    /// Where the streams that peers open go, once there is a gRPC server that takes them.
    pub server: Option<mpsc::UnboundedSender<NegotiatedStreamWrapper<S>>>,
    /// The identifier of the next request.
    pub next_outbound_id: OutboundId,
    /// The known addresses of each peer, in the order in which they were added.
    pub addresses: Map<PeerId, Seq<Seq<u8>>>,
    /// The request to each peer that waits for a connection.
    pub pending_outbounds: Map<PeerId, OutboundRequest<C, E>>,
}

impl<C, E, R, S> State<C, E, R, S> {
    /// What a node knows at first.
    pub open spec fn initial(
        local_peer_id: PeerId,
        protocol_name: Seq<char>,
        grpc_service_router: Option<R>,
    ) -> Self {
        State {
            local_peer_id,
            protocol_name,
            connected: Map::empty(),
            pending_events: Seq::empty(),
            grpc_service_router,
            server: None,
            next_outbound_id: OutboundId(FIRST_OUTBOUND_ID),
            addresses: Map::empty(),
            pending_outbounds: Map::empty(),
        }
    }

    /// The connections to `peer`.
    pub open spec fn connections_of(self, peer: PeerId) -> Seq<ConnectionView<C>> {
        if self.connected.contains_key(peer) {
            self.connected[peer]
        } else {
            Seq::empty()
        }
    }

    /// The known addresses of `peer`.
    pub open spec fn addresses_of(self, peer: PeerId) -> Seq<Seq<u8>> {
        if self.addresses.contains_key(peer) {
            self.addresses[peer]
        } else {
            Seq::empty()
        }
    }

    /// Whether there is a connection to `peer`.
    pub open spec fn is_connected(self, peer: PeerId) -> bool {
        self.connections_of(peer).len() > 0
    }

    /// Whether the connection `id` to `peer` is established.
    pub open spec fn has_connection(self, peer: PeerId, id: ConnectionId) -> bool {
        has_id(self.connections_of(peer), id)
    }

    /// Whether the `i`th connection to `peer` serves the request `id`.
    pub open spec fn serves(self, peer: PeerId, i: int, id: OutboundId) -> bool {
        &&& self.connected.contains_key(peer)
        &&& 0 <= i < self.connected[peer].len()
        &&& self.connected[peer][i].serves(id)
    }

    /// Whether a request to `peer` is answered neither by a channel that is there nor by a request
    /// that is pending, so that a new one is made.
    pub open spec fn makes_request(self, peer: PeerId) -> bool {
        served(self.connections_of(peer)) is None && !self.pending_outbounds.contains_key(peer)
    }

    /// The addresses at which `peer` can be dialed: those at which it was dialed before, and those
    /// that were added.
    pub open spec fn dial_addresses(self, peer: PeerId) -> Seq<Seq<u8>> {
        dialed_addresses(self.connections_of(peer)) + self.addresses_of(peer)
    }

    /// What holds at all times: a peer with an entry has a connection or an address, a pending
    /// request is for the peer that it is filed under, and no identifier is given to two requests.
    pub open spec fn inv(self) -> bool {
        &&& forall|p: PeerId| #[trigger]
            self.connected.contains_key(p) ==> self.connected[p].len() > 0
        &&& forall|p: PeerId| #[trigger]
            self.addresses.contains_key(p) ==> self.addresses[p].len() > 0
        &&& forall|p: PeerId| #[trigger]
            self.pending_outbounds.contains_key(p) ==> {
                &&& self.pending_outbounds[p].peer == p
                &&& FIRST_OUTBOUND_ID <= self.pending_outbounds[p].outbound_id.0
                    < self.next_outbound_id.0
            }
        &&& forall|p: PeerId, i: int, id: OutboundId| #[trigger]
            self.serves(p, i, id) ==> FIRST_OUTBOUND_ID <= id.0 < self.next_outbound_id.0
        &&& FIRST_OUTBOUND_ID <= self.next_outbound_id.0
        &&& self.ids_unique()
    }

    /// No two requests, whether they are pending or served, have the same identifier.
    pub open spec fn ids_unique(self) -> bool {
        &&& forall|p: PeerId, q: PeerId|
            #![trigger self.pending_outbounds.contains_key(p), self.pending_outbounds.contains_key(q)]
            self.pending_outbounds.contains_key(p) && self.pending_outbounds.contains_key(q)
                && self.pending_outbounds[p].outbound_id == self.pending_outbounds[q].outbound_id
                ==> p == q
        &&& forall|p: PeerId, i: int, id: OutboundId, q: PeerId|
            #![trigger self.serves(p, i, id), self.pending_outbounds.contains_key(q)]
            self.serves(p, i, id) && self.pending_outbounds.contains_key(q)
                ==> self.pending_outbounds[q].outbound_id != id
        &&& forall|p: PeerId, i: int, q: PeerId, j: int, id: OutboundId|
            #![trigger self.serves(p, i, id), self.serves(q, j, id)]
            self.serves(p, i, id) && self.serves(q, j, id) ==> p == q && i == j
    }

    /// With `event` to be told to the swarm.
    pub open spec fn telling(self, event: ToSwarm<C, E>) -> Self {
        State { pending_events: self.pending_events.push(event), ..self }
    }

    /// With `event` to be reported to the user.
    pub open spec fn reporting(self, event: Event<C, E>) -> Self {
        self.telling(ToSwarm::GenerateEvent(event))
    }

    /// After the oldest of what the swarm is to be told was told.
    pub open spec fn polled(self) -> Self {
        State { pending_events: tail(self.pending_events), ..self }
    }

    /// With these connections to `peer`.
    pub open spec fn with_connections(
        self,
        peer: PeerId,
        connections: Seq<ConnectionView<C>>,
    ) -> Self {
        State { connected: self.connected.insert(peer, connections), ..self }
    }

    /// The request that is made next, to `peer`, with its answer going to `sender`.
    pub open spec fn next_request(
        self,
        peer: PeerId,
        sender: oneshot::Sender<Result<C, OutboundError<E>>>,
    ) -> OutboundRequest<C, E> {
        OutboundRequest { peer, outbound_id: self.next_outbound_id, sender }
    }

    /// After a new request to `peer` was made: it is pending, and the peer is to be dialed.
    pub open spec fn requested(
        self,
        peer: PeerId,
        sender: oneshot::Sender<Result<C, OutboundError<E>>>,
    ) -> Self {
        State {
            next_outbound_id: OutboundId((self.next_outbound_id.0 + 1) as u64),
            pending_outbounds: self.pending_outbounds.insert(
                peer,
                self.next_request(peer, sender),
            ),
            ..self.telling(ToSwarm::Dial { peer_id: peer })
        }
    }

    /// After the connection `id` to `peer` was established.
    pub open spec fn joined(self, peer: PeerId, id: ConnectionId, dialed: Option<Seq<u8>>) -> Self {
        self.with_connections(
            peer,
            self.connections_of(peer).push(
                ConnectionView { id, target_address: dialed, serving_channel: None },
            ),
        )
    }

    /// After the pending request to `peer` was given to the connection `id`.
    pub open spec fn assigned(self, peer: PeerId, id: ConnectionId) -> Self {
        let request = self.pending_outbounds[peer];
        let connections = self.connections_of(peer);
        let i = position(connections, id);
        State {
            pending_outbounds: self.pending_outbounds.remove(peer),
            ..self.with_connections(
                peer,
                connections.update(i, connections[i].assigned(request.outbound_id)),
            ).telling(ToSwarm::NotifyHandler { peer_id: peer, handler: id, event: request })
        }
    }

    /// After the swarm reported the connection `id` to `peer`. The first connection to a peer gets
    /// the request that waits for one.
    pub open spec fn established(
        self,
        peer: PeerId,
        id: ConnectionId,
        dialed: Option<Seq<u8>>,
        other_established: int,
    ) -> Self {
        if other_established == 0 && self.pending_outbounds.contains_key(peer) {
            self.joined(peer, id, dialed).assigned(peer, id)
        } else {
            self.joined(peer, id, dialed)
        }
    }

    /// After the connection `id` to `peer` was closed.
    pub open spec fn closed(self, peer: PeerId, id: ConnectionId) -> Self {
        let connections = self.connections_of(peer);
        let left = connections.remove(position(connections, id));
        if left.len() == 0 {
            State { connected: self.connected.remove(peer), ..self }
        } else {
            self.with_connections(peer, left)
        }
    }

    /// After an attempt to dial `peer` failed: the request that waited for it has failed.
    pub open spec fn dial_failed(self, peer: Option<PeerId>) -> Self {
        if peer is Some && self.pending_outbounds.contains_key(peer->0) {
            State {
                pending_outbounds: self.pending_outbounds.remove(peer->0),
                ..self.reporting(
                    Event::OutboundFailure {
                        peer: peer->0,
                        outbound_id: self.pending_outbounds[peer->0].outbound_id,
                        error: OutboundError::DialFailure,
                    },
                )
            }
        } else {
            self
        }
    }

    /// The reply that a failure to dial `peer` owes to the requester that waits for it.
    pub open spec fn dial_failure_reply(self, peer: Option<PeerId>) -> Option<Reply<C, E>> {
        if peer is Some && self.pending_outbounds.contains_key(peer->0) {
            Some(
                Reply {
                    sender: self.pending_outbounds[peer->0].sender,
                    outcome: Err(OutboundError::DialFailure),
                },
            )
        } else {
            None
        }
    }

    /// The stream that goes to the gRPC server where the handler of the connection `id` to `peer`
    /// reported `event`.
    pub open spec fn forwarded(
        self,
        peer: PeerId,
        id: ConnectionId,
        event: HandlerEvent<C, E, S>,
    ) -> Option<NegotiatedStreamWrapper<S>> {
        match event {
            HandlerEvent::InboundStream { inbound_id, stream } => if self.server is Some {
                Some(NegotiatedStreamWrapper { inner: stream, peer_id: peer, connection_id: id })
            } else {
                None
            },
            _ => None,
        }
    }

    /// Whether the connection `id` to `peer` serves `request`.
    pub open spec fn connection_serves(
        self,
        peer: PeerId,
        id: ConnectionId,
        request: OutboundId,
    ) -> bool {
        let connections = self.connections_of(peer);
        self.has_connection(peer, id) && connections[position(connections, id)].serves(request)
    }

    /// After the connection `id` to `peer` stopped to serve `request`, if it did serve that.
    pub open spec fn released(self, peer: PeerId, id: ConnectionId, request: OutboundId) -> Self {
        let connections = self.connections_of(peer);
        let i = position(connections, id);
        if self.connection_serves(peer, id, request) {
            self.with_connections(peer, connections.update(i, connections[i].released()))
        } else {
            self
        }
    }

    /// After `channel` was made for `request`, on a connection to `peer`.
    pub open spec fn provided(self, peer: PeerId, request: OutboundId, channel: C) -> Self {
        if self.connected.contains_key(peer) {
            self.with_connections(
                peer,
                self.connected[peer].map_values(
                    |c: ConnectionView<C>| c.provided(request, channel),
                ),
            )
        } else {
            self
        }
    }

    /// After `address` was added to the known addresses of `peer`.
    pub open spec fn address_added(self, peer: PeerId, address: Seq<u8>) -> Self {
        State {
            addresses: self.addresses.insert(peer, self.addresses_of(peer).push(address)),
            ..self
        }
    }

    /// After `address` was removed from the known addresses of `peer`.
    pub open spec fn address_removed(self, peer: PeerId, address: Seq<u8>) -> Self {
        let left = self.addresses_of(peer).filter(other_than(address));
        if left.len() == 0 {
            State { addresses: self.addresses.remove(peer), ..self }
        } else {
            State { addresses: self.addresses.insert(peer, left), ..self }
        }
    }

    /// After a listener was opened. The offered services, if any, have a server from now on, to
    /// which `started` leads; without any, the server that was there stays.
    pub open spec fn listening(
        self,
        started: Option<mpsc::UnboundedSender<NegotiatedStreamWrapper<S>>>,
    ) -> Self {
        State {
            grpc_service_router: None,
            server: if started is Some {
                started
            } else {
                self.server
            },
            ..self
        }
    }

    /// After a stream that `peer` opened went to the gRPC server, if there is one.
    pub open spec fn inbound_accepted(self, peer: PeerId, inbound_id: InboundId) -> Self {
        if self.server is Some {
            self.reporting(Event::InboundSuccess { peer, inbound_id })
        } else {
            self
        }
    }

    /// After a stream that `peer` opened came to nothing.
    pub open spec fn inbound_failed(
        self,
        peer: PeerId,
        inbound_id: InboundId,
        error: InboundError,
    ) -> Self {
        self.reporting(Event::InboundFailure { peer, inbound_id, error })
    }

    /// After the handler of the connection `id` to `peer` reported `event`.
    pub open spec fn after_handler_event(
        self,
        peer: PeerId,
        id: ConnectionId,
        event: HandlerEvent<C, E, S>,
    ) -> Self {
        match event {
            HandlerEvent::InboundStream { inbound_id, stream } => self.inbound_accepted(
                peer,
                inbound_id,
            ),
            HandlerEvent::OutboundStream { outbound_request, stream } => self,
            HandlerEvent::InboundTimeout(inbound_id) => self.inbound_failed(
                peer,
                inbound_id,
                InboundError::Timeout,
            ),
            HandlerEvent::InboundUnsupportedProtocols(inbound_id) => self.inbound_failed(
                peer,
                inbound_id,
                InboundError::UnsupportedProtocol,
            ),
            HandlerEvent::OutboundTimeout(request) => self.outbound_failed(
                peer,
                id,
                request.outbound_id,
                OutboundError::Timeout,
            ),
            HandlerEvent::OutboundUnsupportedProtocols(request) => self.outbound_failed(
                peer,
                id,
                request.outbound_id,
                OutboundError::UnsupportedProtocol,
            ),
        }
    }

    /// After the swarm told `event`. Where that starts a gRPC server, `started` leads to it.
    pub open spec fn after_swarm_event(
        self,
        event: FromSwarm,
        started: Option<mpsc::UnboundedSender<NegotiatedStreamWrapper<S>>>,
    ) -> Self {
        match event {
            FromSwarm::ConnectionEstablished(event) => self.established(
                event.peer_id,
                event.connection_id,
                event.endpoint.dialed(),
                event.other_established as int,
            ),
            FromSwarm::ConnectionClosed(event) => self.closed(event.peer_id, event.connection_id),
            FromSwarm::NewListener => self.listening(started),
            FromSwarm::DialFailure(event) => self.dial_failed(event.peer_id),
            _ => self,
        }
    }

    /// After the connection `id` to `peer` did not get the stream for `request`.
    pub open spec fn outbound_failed(
        self,
        peer: PeerId,
        id: ConnectionId,
        request: OutboundId,
        error: OutboundError<E>,
    ) -> Self {
        self.released(peer, id, request).reporting(
            Event::OutboundFailure { peer, outbound_id: request, error },
        )
    }
}

/// The invariant speaks only of connections, addresses and requests.
pub proof fn lemma_inv_frame<C, E, R, S>(s: State<C, E, R, S>, t: State<C, E, R, S>)
    requires
        s.inv(),
        t.connected == s.connected,
        t.addresses == s.addresses,
        t.pending_outbounds == s.pending_outbounds,
        t.next_outbound_id == s.next_outbound_id,
    ensures
        t.inv(),
{
    assert forall|p: PeerId, i: int, id: OutboundId| #[trigger] t.serves(p, i, id) == s.serves(
        p,
        i,
        id,
    ) by {}
}

/// A new request keeps the invariant.
pub proof fn lemma_requested_inv<C, E, R, S>(
    s: State<C, E, R, S>,
    peer: PeerId,
    sender: oneshot::Sender<Result<C, OutboundError<E>>>,
)
    requires
        s.inv(),
        s.next_outbound_id.0 < u64::MAX,
    ensures
        s.requested(peer, sender).inv(),
{
    let t = s.requested(peer, sender);
    assert forall|p: PeerId, i: int, id: OutboundId| #[trigger] t.serves(p, i, id) == s.serves(
        p,
        i,
        id,
    ) by {}
    assert(t.inv());
}

/// Where a connection comes first is its position.
pub proof fn lemma_position_is<C>(connections: Seq<ConnectionView<C>>, id: ConnectionId, i: int)
    requires
        is_position(connections, id, i),
    ensures
        position(connections, id) == i,
        has_id(connections, id),
    decreases connections.len(),
{
    if i > 0 {
        assert(connections[0].id != id);
        let rest = connections.drop_first();
        assert(is_position(rest, id, i - 1)) by {
            assert forall|j: int| 0 <= j < i - 1 implies rest[j].id != id by {
                assert(connections[j + 1].id != id);
            }
        }
        lemma_position_is(rest, id, i - 1);
    }
}

/// The position of a connection that exists is where it comes first.
pub proof fn lemma_position_exists<C>(connections: Seq<ConnectionView<C>>, id: ConnectionId)
    requires
        has_id(connections, id),
    ensures
        is_position(connections, id, position(connections, id)),
    decreases connections.len(),
{
    if connections[0].id != id {
        let rest = connections.drop_first();
        assert(has_id(rest, id)) by {
            let i = choose|i: int| 0 <= i < connections.len() && connections[i].id == id;
            assert(rest[i - 1].id == id);
        }
        lemma_position_exists(rest, id);
        let i = position(connections, id);
        assert forall|j: int| 0 <= j < i implies connections[j].id != id by {
            if j > 0 {
                assert(rest[j - 1].id != id);
            }
        }
        assert(connections[i] == rest[i - 1]);
    }
}

/// A new connection keeps the invariant.
pub proof fn lemma_joined_inv<C, E, R, S>(
    s: State<C, E, R, S>,
    peer: PeerId,
    id: ConnectionId,
    dialed: Option<Seq<u8>>,
)
    requires
        s.inv(),
    ensures
        s.joined(peer, id, dialed).inv(),
{
    let t = s.joined(peer, id, dialed);
    assert forall|p: PeerId, i: int, r: OutboundId| #[trigger] t.serves(p, i, r) == s.serves(
        p,
        i,
        r,
    ) by {}
}

/// To give a pending request to a connection keeps the invariant.
pub proof fn lemma_assigned_inv<C, E, R, S>(s: State<C, E, R, S>, peer: PeerId, id: ConnectionId)
    requires
        s.inv(),
        s.has_connection(peer, id),
        s.pending_outbounds.contains_key(peer),
    ensures
        s.assigned(peer, id).inv(),
{
    let t = s.assigned(peer, id);
    let k = position(s.connections_of(peer), id);
    let request = s.pending_outbounds[peer].outbound_id;
    lemma_position_exists(s.connections_of(peer), id);
    assert(t.serves(peer, k, request));
    assert forall|p: PeerId, i: int, r: OutboundId| #[trigger] t.serves(p, i, r) implies {
        if p == peer && i == k {
            r == request
        } else {
            s.serves(p, i, r)
        }
    } by {}
}

/// To close a connection keeps the invariant.
pub proof fn lemma_closed_inv<C, E, R, S>(s: State<C, E, R, S>, peer: PeerId, id: ConnectionId)
    requires
        s.inv(),
        s.has_connection(peer, id),
    ensures
        s.closed(peer, id).inv(),
{
    let t = s.closed(peer, id);
    let k = position(s.connections_of(peer), id);
    lemma_position_exists(s.connections_of(peer), id);
    assert forall|p: PeerId, i: int, r: OutboundId| #[trigger] t.serves(p, i, r) implies s.serves(
        p,
        if p == peer && i >= k {
            i + 1
        } else {
            i
        },
        r,
    ) by {}
}

/// A failure to dial keeps the invariant.
pub proof fn lemma_dial_failed_inv<C, E, R, S>(s: State<C, E, R, S>, peer: Option<PeerId>)
    requires
        s.inv(),
    ensures
        s.dial_failed(peer).inv(),
{
    let t = s.dial_failed(peer);
    assert forall|p: PeerId, i: int, r: OutboundId| #[trigger] t.serves(p, i, r) == s.serves(
        p,
        i,
        r,
    ) by {}
}

/// A connection that stops to serve a request keeps the invariant.
pub proof fn lemma_released_inv<C, E, R, S>(
    s: State<C, E, R, S>,
    peer: PeerId,
    id: ConnectionId,
    request: OutboundId,
)
    requires
        s.inv(),
    ensures
        s.released(peer, id, request).inv(),
{
    let t = s.released(peer, id, request);
    if s.has_connection(peer, id) {
        lemma_position_exists(s.connections_of(peer), id);
    }
    assert forall|p: PeerId, i: int, r: OutboundId| #[trigger] t.serves(p, i, r) implies s.serves(
        p,
        i,
        r,
    ) by {}
}

/// A channel for a request keeps the invariant.
pub proof fn lemma_provided_inv<C, E, R, S>(
    s: State<C, E, R, S>,
    peer: PeerId,
    request: OutboundId,
    channel: C,
)
    requires
        s.inv(),
    ensures
        s.provided(peer, request, channel).inv(),
{
    let t = s.provided(peer, request, channel);
    assert forall|p: PeerId, i: int, r: OutboundId| #[trigger] t.serves(p, i, r) implies s.serves(
        p,
        i,
        r,
    ) by {}
}

/// A new address keeps the invariant.
pub proof fn lemma_address_added_inv<C, E, R, S>(s: State<C, E, R, S>, peer: PeerId, address: Seq<u8>)
    requires
        s.inv(),
    ensures
        s.address_added(peer, address).inv(),
{
    let t = s.address_added(peer, address);
    assert forall|p: PeerId, i: int, r: OutboundId| #[trigger] t.serves(p, i, r) == s.serves(
        p,
        i,
        r,
    ) by {}
}

/// To remove an address keeps the invariant.
pub proof fn lemma_address_removed_inv<C, E, R, S>(s: State<C, E, R, S>, peer: PeerId, address: Seq<u8>)
    requires
        s.inv(),
    ensures
        s.address_removed(peer, address).inv(),
{
    let t = s.address_removed(peer, address);
    assert forall|p: PeerId, i: int, r: OutboundId| #[trigger] t.serves(p, i, r) == s.serves(
        p,
        i,
        r,
    ) by {}
}

} // verus!
