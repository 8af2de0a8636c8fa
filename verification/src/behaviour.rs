//! Which peer is asked for a channel, which connection serves which request, and what becomes of
//! both.

use crate::adapter::{ChannelJob, NegotiatedStreamWrapper, Serve, is_forwarded, leads_to};
use crate::error::{InboundError, OutboundError};
use crate::handler::{Event as HandlerEvent, Handler, HandlerState};
use crate::lists::{AddressList, Connection, ConnectionList};
use crate::net::{ConnectionId, Multiaddr, PeerId, address_views, lemma_filter_views};
use crate::outbound::GrpcOutbound;
use crate::peer_map::PeerMap;
use crate::protocol::{
    DEFAULT_PROTOCOL_NAME, FIRST_OUTBOUND_ID, OutboundId, OutboundRequest,
};
use crate::queue::{head, pop};
use crate::reply::{Reply, are_halves};
use crate::state::{
    ConnectionView, State, dialed_addresses, lemma_address_added_inv, lemma_address_removed_inv,
    lemma_assigned_inv, lemma_closed_inv, lemma_dial_failed_inv, lemma_inv_frame,
    lemma_joined_inv, lemma_position_exists, lemma_provided_inv, lemma_released_inv,
    lemma_requested_inv, position, served,
};
use crate::swarm::{
    ConnectedPoint, ConnectionClosed, ConnectionEstablished, DialFailure, Event, FromSwarm,
    ToSwarm,
};
use crate::views::{
    addresses_view, all_served, connected_view, connection_view, connections_view, lemma_channel_added,
    lemma_connected_insert, lemma_connected_remove, lemma_connection_removed, lemma_position,
    lemma_served_frame, lemma_served_kept, lemma_served_without, lemma_serving_changed,
};
use futures::channel::oneshot;
use std::collections::{HashMap, VecDeque};
use tokio::sync::mpsc;
use vstd::prelude::*;

verus! {

broadcast use vstd::std_specs::hash::group_hash_axioms;

/// How streams are negotiated.
#[derive(Debug)]
pub struct Config {
    protocol_name: String,
}

impl View for Config {
    type V = Seq<char>;

    /// The name of the protocol that streams speak.
    closed spec fn view(&self) -> Seq<char> {
        self.protocol_name@
    }
}

impl Default for Config {
    fn default() -> (config: Config)
        ensures
            config@ == DEFAULT_PROTOCOL_NAME@,
    {
        Config { protocol_name: DEFAULT_PROTOCOL_NAME.to_string() }
    }
}

impl Clone for Config {
    fn clone(&self) -> (config: Config)
        ensures
            config@ == self@,
    {
        Config { protocol_name: self.protocol_name.clone() }
    }
}

impl Config {
    /// Streams speak the protocol `name`.
    pub fn with_protocol_name(self, name: &str) -> (config: Config)
        ensures
            config@ == name@,
    {
        Config { protocol_name: name.to_string() }
    }
}

/// The protocol's part of a node.
///
/// `C` is a gRPC channel, `E` an error of the gRPC transport, `R` routes calls to gRPC services,
/// and `S` is a negotiated stream.
#[verifier::reject_recursive_types(C)]
#[verifier::reject_recursive_types(E)]
#[verifier::reject_recursive_types(S)]
pub struct Behaviour<C, E, R, S> {
    local_peer_id: PeerId,
    config: Config,
    connected: PeerMap<ConnectionList>,
    /// The channels of the requests that connections serve, by the number of the request.
    channels: HashMap<u64, C>,
    pending_events: VecDeque<ToSwarm<C, E>>,
    grpc_service_router: Option<R>,
    inbound_stream_tx: Option<mpsc::UnboundedSender<NegotiatedStreamWrapper<S>>>,
    next_outbound_id: OutboundId,
    addresses: PeerMap<AddressList>,
    pending_outbounds: PeerMap<OutboundRequest<C, E>>,
}

impl<C, E, R, S> View for Behaviour<C, E, R, S> {
    type V = State<C, E, R, S>;

    closed spec fn view(&self) -> State<C, E, R, S> {
        State {
            local_peer_id: self.local_peer_id,
            protocol_name: self.config@,
            connected: connected_view(self.connected@, self.channels@),
            pending_events: self.pending_events@,
            grpc_service_router: self.grpc_service_router,
            server: self.inbound_stream_tx,
            next_outbound_id: self.next_outbound_id,
            addresses: addresses_view(self.addresses@),
            pending_outbounds: self.pending_outbounds@,
        }
    }
}

impl<C, E, R, S> Behaviour<C, E, R, S> {
    /// What holds at all times.
    pub closed spec fn wf(&self) -> bool {
        &&& self.connected.wf()
        &&& self.addresses.wf()
        &&& self.pending_outbounds.wf()
        &&& self@.inv()
        &&& all_served(self.channels@, self@)
    }

    /// The channels that the node keeps, by the number of the request.
    pub closed spec fn kept_channels(&self) -> Map<u64, C> {
        self.channels@
    }

    /// The invariant holds of what a node knows.
    pub proof fn law_invariant_holds(&self)
        requires
            self.wf(),
        ensures
            self@.inv(),
    {
    }

    /// No channel outlives the connection that it runs on: each one that is kept belongs to an
    /// established connection, which serves the request that the channel was made for.
    pub proof fn law_no_channel_outlives_its_connection(&self, n: u64)
        requires
            self.wf(),
            self.kept_channels().contains_key(n),
        ensures
            exists|p: PeerId, i: int|
                {
                    &&& #[trigger] self@.serves(p, i, OutboundId(n))
                    &&& (self@.connected[p][i].serving_channel->0).1 == Some(
                        self.kept_channels()[n],
                    )
                },
    {
        let (p, i): (PeerId, int) = choose|p: PeerId, i: int|
            #[trigger] self@.serves(p, i, OutboundId(n));
        assert(self@.serves(p, i, OutboundId(n)));
    }

    /// A node that is connected to nobody. With a router it offers the router's services once it
    /// has a listener.
    pub fn new(local_peer_id: PeerId, grpc_service_router: Option<R>) -> (behaviour: Self)
        ensures
            behaviour.wf(),
            behaviour@ == State::<C, E, R, S>::initial(
                local_peer_id,
                DEFAULT_PROTOCOL_NAME@,
                grpc_service_router,
            ),
    {
        let behaviour = Behaviour {
            local_peer_id,
            config: Config::default(),
            connected: PeerMap::new(),
            channels: HashMap::new(),
            pending_events: VecDeque::new(),
            grpc_service_router,
            inbound_stream_tx: None,
            next_outbound_id: OutboundId::new(FIRST_OUTBOUND_ID),
            addresses: PeerMap::new(),
            pending_outbounds: PeerMap::new(),
        };
        assert(behaviour@ =~= State::<C, E, R, S>::initial(
            local_peer_id,
            DEFAULT_PROTOCOL_NAME@,
            grpc_service_router,
        ));
        behaviour
    }

    /// Streams speak the protocol `name`.
    pub fn with_protocol_name(self, name: &str) -> (behaviour: Self)
        requires
            self.wf(),
        ensures
            behaviour.wf(),
            behaviour@ == (State { protocol_name: name@, ..self@ }),
    {
        let behaviour = Behaviour { config: self.config.with_protocol_name(name), ..self };
        proof {
            lemma_inv_frame(self@, behaviour@);
            lemma_served_frame(self.channels@, self@, behaviour@);
        }
        behaviour
    }

    /// Streams are negotiated as `config` says.
    pub fn with_config(self, config: Config) -> (behaviour: Self)
        requires
            self.wf(),
        ensures
            behaviour.wf(),
            behaviour@ == (State { protocol_name: config@, ..self@ }),
    {
        let behaviour = Behaviour { config, ..self };
        proof {
            lemma_inv_frame(self@, behaviour@);
            lemma_served_frame(self.channels@, self@, behaviour@);
        }
        behaviour
    }
}

/// A served request is found behind connections that have no channel, too.
proof fn lemma_served_skip<C>(connections: Seq<ConnectionView<C>>, i: int)
    requires
        0 <= i < connections.len(),
    ensures
        connections.skip(i).drop_first() == connections.skip(i + 1),
        connections.skip(i)[0] == connections[i],
{
    assert(connections.skip(i).drop_first() =~= connections.skip(i + 1));
}

impl<C: Clone, E, R, S> Behaviour<C, E, R, S> {
    /// The channel of the first connection to `peer` that has one, with the request that it was
    /// made for.
    fn serving_channel(&self, peer: &PeerId) -> (found: Option<(OutboundId, C)>)
        requires
            self.wf(),
        ensures
            match served(self@.connections_of(*peer)) {
                Some((id, channel)) => found matches Some((found_id, found_channel)) && found_id
                    == id && cloned(channel, found_channel),
                None => found is None,
            },
    {
        match self.connected.get(peer) {
            Some(list) => {
                let connections = list.as_slice();
                let ghost view = self@.connections_of(*peer);
                assert(view =~= connections_view(connections@, self.channels@));
                assert(view.skip(0) =~= view);
                let mut i: usize = 0;
                while i < connections.len()
                    invariant
                        i <= connections@.len(),
                        view == connections_view(connections@, self.channels@),
                        view == self@.connections_of(*peer),
                        served(view) == served(view.skip(i as int)),
                    decreases connections@.len() - i,
                {
                    proof {
                        lemma_served_skip(view, i as int);
                    }
                    if let Some(id) = connections[i].serving_request {
                        if let Some(channel) = self.channels.get(&id.0) {
                            return Some((id, channel.clone()));
                        }
                    }
                    i += 1;
                }
                None
            },
            None => None,
        }
    }

    /// Whether a channel to `target_peer_id` can be asked for: where that makes a new request, an
    /// identifier has to be left for it.
    pub fn can_initiate_grpc_outbound(&self, target_peer_id: &PeerId) -> (can: bool)
        requires
            self.wf(),
        ensures
            can == (self@.makes_request(*target_peer_id) ==> self@.next_outbound_id.0 < u64::MAX),
    {
        self.next_outbound_id.0 < u64::MAX || self.pending_outbounds.contains_key(target_peer_id)
            || self.serving_channel(target_peer_id).is_some()
    }

    /// Asks for a channel to `target_peer_id`. A channel that is there is handed out. Otherwise
    /// the peer is dialed, unless an earlier request to it is still pending.
    ///
    /// A new request keeps the sending half of the channel whose receiving half is handed out.
    pub fn initiate_grpc_outbound(&mut self, target_peer_id: &PeerId) -> (outbound: GrpcOutbound<
        C,
        E,
    >)
        requires
            old(self).wf(),
            old(self)@.makes_request(*target_peer_id) ==> old(self)@.next_outbound_id.0 < u64::MAX,
        ensures
            final(self).wf(),
            match served(old(self)@.connections_of(*target_peer_id)) {
                Some((id, served_channel)) => {
                    &&& outbound matches GrpcOutbound::ServingChannel { outbound_id, channel }
                    &&& outbound_id == id
                    &&& cloned(served_channel, channel)
                    &&& final(self)@ == old(self)@
                },
                None => if old(self)@.pending_outbounds.contains_key(*target_peer_id) {
                    &&& outbound matches GrpcOutbound::PendingOutbound { outbound_id }
                    &&& outbound_id
                        == old(self)@.pending_outbounds[*target_peer_id].outbound_id
                    &&& final(self)@ == old(self)@
                } else {
                    &&& outbound matches GrpcOutbound::WaitingChannel { outbound_id, channel_rx }
                    &&& outbound_id == old(self)@.next_outbound_id
                    &&& exists|sender: oneshot::Sender<Result<C, OutboundError<E>>>|
                        {
                            &&& final(self)@ == #[trigger] old(self)@.requested(
                                *target_peer_id,
                                sender,
                            )
                            &&& are_halves(sender, channel_rx)
                        }
                },
            },
    {
        if let Some((outbound_id, channel)) = self.serving_channel(target_peer_id) {
            return GrpcOutbound::ServingChannel { outbound_id, channel };
        }
        if let Some(request) = self.pending_outbounds.get(target_peer_id) {
            return GrpcOutbound::PendingOutbound { outbound_id: request.outbound_id };
        }
        let (sender, channel_rx) = oneshot::channel::<Result<C, OutboundError<E>>>();
        let outbound_id = self.request_outbound(target_peer_id, sender);
        GrpcOutbound::WaitingChannel { outbound_id, channel_rx }
    }
}

impl<C, E, R, S> Behaviour<C, E, R, S> {
    /// Draws the identifier of a new request.
    fn next_outbound_id(&mut self) -> (id: OutboundId)
        requires
            old(self).next_outbound_id.0 < u64::MAX,
        ensures
            id == old(self).next_outbound_id,
            *final(self) == (Behaviour {
                next_outbound_id: OutboundId((id.0 + 1) as u64),
                ..*old(self)
            }),
    {
        let id = self.next_outbound_id;
        self.next_outbound_id.add_assign(1);
        id
    }

    /// Makes a new request to `target_peer_id`, whose outcome goes to `sender`, and has the peer
    /// dialed.
    pub fn request_outbound(
        &mut self,
        target_peer_id: &PeerId,
        sender: oneshot::Sender<Result<C, OutboundError<E>>>,
    ) -> (outbound_id: OutboundId)
        requires
            old(self).wf(),
            old(self)@.makes_request(*target_peer_id),
            old(self)@.next_outbound_id.0 < u64::MAX,
        ensures
            final(self).wf(),
            outbound_id == old(self)@.next_outbound_id,
            final(self)@ == old(self)@.requested(*target_peer_id, sender),
    {
        self.pending_events.push_back(ToSwarm::Dial { peer_id: *target_peer_id });
        let outbound_id = self.next_outbound_id();
        self.pending_outbounds.insert(
            *target_peer_id,
            OutboundRequest { peer: *target_peer_id, outbound_id, sender },
        );
        proof {
            lemma_requested_inv(old(self)@, *target_peer_id, sender);
            assert(self@ =~= old(self)@.requested(*target_peer_id, sender));
            lemma_served_frame(self.channels@, old(self)@, self@);
        }
        outbound_id
    }
}

/// The first of `connections` that is the connection `id`.
fn find_connection(connections: &[Connection], id: ConnectionId) -> (found: Option<usize>)
    ensures
        match found {
            Some(i) => {
                &&& i < connections@.len()
                &&& connections@[i as int].id == id
                &&& forall|j: int| 0 <= j < i ==> connections@[j].id != id
            },
            None => forall|j: int| 0 <= j < connections@.len() ==> connections@[j].id != id,
        },
{
    let mut i: usize = 0;
    while i < connections.len()
        invariant
            i <= connections@.len(),
            forall|j: int| 0 <= j < i ==> connections@[j].id != id,
        decreases connections@.len() - i,
    {
        if connections[i].id == id {
            return Some(i);
        }
        i += 1;
    }
    None
}

impl<C, E, R, S> Behaviour<C, E, R, S> {
    /// Adds a connection to those of `peer_id`.
    fn join(&mut self, peer_id: PeerId, connection: Connection)
        requires
            old(self).wf(),
            connection.serving_request is None,
        ensures
            final(self).wf(),
            final(self)@ == old(self)@.joined(
                peer_id,
                connection.id,
                connection_view(connection, old(self).channels@).target_address,
            ),
    {
        let ghost channels = self.channels@;
        let ghost added = connection_view(connection, channels);
        match self.connected.get_mut(&peer_id) {
            Some(list) => {
                list.push(connection);
            },
            None => {
                let mut list = ConnectionList::new();
                list.push(connection);
                self.connected.insert(peer_id, list);
            },
        }
        proof {
            let list = self.connected@[peer_id];
            assert(self.connected@ =~= old(self).connected@.insert(peer_id, list));
            lemma_connected_insert(old(self).connected@, channels, peer_id, list);
            assert(connections_view(list@, channels) =~= old(self)@.connections_of(peer_id).push(
                added,
            ));
            assert(self@ =~= old(self)@.joined(peer_id, added.id, added.target_address));
            lemma_joined_inv(old(self)@, peer_id, added.id, added.target_address);
            lemma_served_kept(channels, old(self)@, self@);
        }
    }

    /// Gives the request that waits for a connection to `peer_id` to the connection
    /// `connection_id`.
    fn assign_pending(&mut self, peer_id: PeerId, connection_id: ConnectionId)
        requires
            old(self).wf(),
            old(self)@.has_connection(peer_id, connection_id),
        ensures
            final(self).wf(),
            final(self)@ == (if old(self)@.pending_outbounds.contains_key(peer_id) {
                old(self)@.assigned(peer_id, connection_id)
            } else {
                old(self)@
            }),
            final(self)@.has_connection(peer_id, connection_id),
    {
        if let Some(request) = self.pending_outbounds.remove(&peer_id) {
            let ghost channels = self.channels@;
            let ghost gone = old(self).connected@[peer_id]@[position(
                old(self)@.connections_of(peer_id),
                connection_id,
            )].serving_request;
            if let Some(list) = self.connected.get_mut(&peer_id) {
                let ghost connections = list@;
                if let Some(i) = find_connection(list.as_slice(), connection_id) {
                    proof {
                        lemma_position(connections, channels, connection_id, i as int);
                    }
                    let slice = list.as_mut_slice();
                    let replaced = slice[i].serving_request;
                    slice[i].serving_request = Some(request.outbound_id);
                    if let Some(id) = replaced {
                        self.channels.remove(&id.0);
                    }
                    proof {
                        lemma_serving_changed(
                            old(self)@,
                            old(self).connected@,
                            channels,
                            peer_id,
                            self.connected@[peer_id],
                            i as int,
                            Some(request.outbound_id),
                        );
                    }
                }
            }
            self.pending_events.push_back(
                ToSwarm::NotifyHandler { peer_id, handler: connection_id, event: request },
            );
            proof {
                lemma_assigned_inv(old(self)@, peer_id, connection_id);
                assert(self@ =~= old(self)@.assigned(peer_id, connection_id));
                lemma_position_exists(old(self)@.connections_of(peer_id), connection_id);
                let i = position(old(self)@.connections_of(peer_id), connection_id);
                assert(self@.connections_of(peer_id)[i].id == connection_id);
                assert forall|p: PeerId, j: int, id: OutboundId|
                    #![trigger old(self)@.serves(p, j, id)]
                    old(self)@.serves(p, j, id) && gone != Some(id) implies exists|k: int|
                    self@.serves(p, k, id) by {
                    assert(self@.serves(p, j, id));
                }
                lemma_served_without(channels, old(self)@, self@, gone);
            }
        } else {
            assert(self@ =~= old(self)@);
        }
    }

    fn on_connection_established(&mut self, event: ConnectionEstablished)
        requires
            old(self).wf(),
        ensures
            final(self).wf(),
            final(self)@ == old(self)@.established(
                event.peer_id,
                event.connection_id,
                event.endpoint.dialed(),
                event.other_established as int,
            ),
            final(self)@.is_connected(event.peer_id),
            final(self)@.has_connection(event.peer_id, event.connection_id),
    {
        let address = match event.endpoint {
            ConnectedPoint::Dialer { address } => Some(address),
            ConnectedPoint::Listener => None,
        };
        self.join(event.peer_id, Connection::new(event.connection_id, address));
        proof {
            let connections = self@.connections_of(event.peer_id);
            assert(connections[connections.len() - 1].id == event.connection_id);
        }
        if event.other_established == 0 {
            self.assign_pending(event.peer_id, event.connection_id);
        }
    }
}

impl<C, E, R, S> Behaviour<C, E, R, S> {
    fn on_connection_closed(&mut self, event: ConnectionClosed)
        requires
            old(self).wf(),
            old(self)@.has_connection(event.peer_id, event.connection_id),
        ensures
            final(self).wf(),
            final(self)@ == old(self)@.closed(event.peer_id, event.connection_id),
    {
        let peer_id = event.peer_id;
        let connection_id = event.connection_id;
        let ghost channels = self.channels@;
        if let Some(list) = self.connected.get_mut(&peer_id) {
            let ghost connections = list@;
            if let Some(i) = find_connection(list.as_slice(), connection_id) {
                proof {
                    lemma_position(connections, channels, connection_id, i as int);
                }
                let closed = list.remove(i);
                let is_empty = list.as_slice().len() == 0;
                if let Some(id) = closed.serving_request {
                    self.channels.remove(&id.0);
                }
                let ghost list = self.connected@[peer_id];
                proof {
                    lemma_connection_removed(
                        old(self)@,
                        old(self).connected@,
                        channels,
                        peer_id,
                        list,
                        i as int,
                    );
                }
                if is_empty {
                    let _ = self.connected.remove(&peer_id);
                    proof {
                        lemma_connected_remove(
                            old(self).connected@.insert(peer_id, list),
                            self.channels@,
                            peer_id,
                        );
                        assert(self@.connected =~= old(self)@.connected.remove(peer_id));
                    }
                }
            }
        }
        proof {
            lemma_closed_inv(old(self)@, peer_id, connection_id);
            assert(self@ =~= old(self)@.closed(peer_id, connection_id));
            let connections = old(self)@.connections_of(peer_id);
            lemma_position_exists(connections, connection_id);
            let k = position(connections, connection_id);
            let gone = old(self).connected@[peer_id]@[k].serving_request;
            assert forall|p: PeerId, i: int, id: OutboundId|
                #![trigger old(self)@.serves(p, i, id)]
                old(self)@.serves(p, i, id) && gone != Some(id) implies exists|j: int|
                self@.serves(p, j, id) by {
                let j = if p == peer_id && i > k { i - 1 } else { i };
                assert(self@.serves(p, j, id));
            }
            lemma_served_without(channels, old(self)@, self@, gone);
        }
    }
}

/// What is left to do of an event that the handler of a connection reported.
#[verifier::reject_recursive_types(C)]
#[verifier::reject_recursive_types(E)]
pub struct HandlerStep<C, E, S> {
    /// The stream that goes to the gRPC server.
    pub forward: Option<NegotiatedStreamWrapper<S>>,
    /// The channel that is to be made.
    pub job: Option<ChannelJob<C, E, S>>,
    /// The request that is to be let go, with no answer to its requester.
    pub dropped: Option<OutboundRequest<C, E>>,
}

impl<C, E, R, S> Behaviour<C, E, R, S> {
    /// Takes note that a peer could not be dialed. The requester that waited for it is owed the
    /// reply that is handed back.
    pub fn fail_dial(&mut self, event: DialFailure) -> (reply: Option<Reply<C, E>>)
        requires
            old(self).wf(),
        ensures
            final(self).wf(),
            final(self)@ == old(self)@.dial_failed(event.peer_id),
            reply == old(self)@.dial_failure_reply(event.peer_id),
    {
        let mut reply: Option<Reply<C, E>> = None;
        if let Some(peer) = event.peer_id {
            if let Some(request) = self.pending_outbounds.remove(&peer) {
                self.pending_events.push_back(
                    ToSwarm::GenerateEvent(
                        Event::OutboundFailure {
                            peer,
                            outbound_id: request.outbound_id,
                            error: OutboundError::DialFailure,
                        },
                    ),
                );
                reply = Some(
                    Reply { sender: request.sender, outcome: Err(OutboundError::DialFailure) },
                );
            }
        }
        proof {
            lemma_dial_failed_inv(old(self)@, event.peer_id);
            assert(self@ =~= old(self)@.dial_failed(event.peer_id));
            lemma_served_frame(self.channels@, old(self)@, self@);
        }
        reply
    }

    fn on_dial_failure(&mut self, event: DialFailure)
        requires
            old(self).wf(),
        ensures
            final(self).wf(),
            final(self)@ == old(self)@.dial_failed(event.peer_id),
            old(self)@.dial_failure_reply(event.peer_id) matches Some(reply) ==> reply.is_sent(),
    {
        if let Some(reply) = self.fail_dial(event) {
            let _ = reply.send();
        }
    }

    /// The connection `connection_id` to `peer_id` is to serve `outbound_id` no more. The answer
    /// is whether it did.
    fn remove_pending_outbound(
        &mut self,
        peer_id: &PeerId,
        connection_id: ConnectionId,
        outbound_id: &OutboundId,
    ) -> (removed: bool)
        requires
            old(self).wf(),
        ensures
            final(self).wf(),
            removed == old(self)@.connection_serves(*peer_id, connection_id, *outbound_id),
            final(self)@ == old(self)@.released(*peer_id, connection_id, *outbound_id),
    {
        let ghost channels = self.channels@;
        let mut found: Option<usize> = None;
        if let Some(list) = self.connected.get(peer_id) {
            let connections = list.as_slice();
            if let Some(i) = find_connection(connections, connection_id) {
                proof {
                    lemma_position(connections@, channels, connection_id, i as int);
                }
                if let Some(id) = connections[i].serving_request {
                    if id == *outbound_id {
                        found = Some(i);
                    }
                }
            }
        }
        if let Some(i) = found {
            if let Some(list) = self.connected.get_mut(peer_id) {
                let slice = list.as_mut_slice();
                slice[i].serving_request = None;
                self.channels.remove(&outbound_id.0);
                proof {
                    lemma_serving_changed(
                        old(self)@,
                        old(self).connected@,
                        channels,
                        *peer_id,
                        self.connected@[*peer_id],
                        i as int,
                        None,
                    );
                }
            }
        }
        proof {
            lemma_released_inv(old(self)@, *peer_id, connection_id, *outbound_id);
            assert(self@ =~= old(self)@.released(*peer_id, connection_id, *outbound_id));
            let gone = if found is Some { Some(*outbound_id) } else { None };
            assert forall|p: PeerId, i: int, id: OutboundId|
                #![trigger old(self)@.serves(p, i, id)]
                old(self)@.serves(p, i, id) && gone != Some(id) implies exists|j: int|
                self@.serves(p, j, id) by {
                assert(self@.serves(p, i, id));
            }
            lemma_served_without(channels, old(self)@, self@, gone);
        }
        found.is_some()
    }
}

/// Whether one of `connections` serves `request`.
fn any_serves(connections: &[Connection], request: OutboundId) -> (any: bool)
    ensures
        any == exists|i: int|
            0 <= i < connections@.len() && #[trigger] connections@[i].serving_request == Some(
                request,
            ),
{
    let mut i: usize = 0;
    while i < connections.len()
        invariant
            i <= connections@.len(),
            forall|j: int|
                0 <= j < i ==> #[trigger] connections@[j].serving_request != Some(request),
        decreases connections@.len() - i,
    {
        if let Some(id) = connections[i].serving_request {
            if id == request {
                assert(connections@[i as int].serving_request == Some(request));
                return true;
            }
        }
        i += 1;
    }
    false
}

impl<C, E, R, S> Behaviour<C, E, R, S> {
    /// Keeps `channel` for the connection to `peer` that serves `request`, if there is one.
    fn provide(&mut self, peer: &PeerId, request: OutboundId, channel: C)
        requires
            old(self).wf(),
        ensures
            final(self).wf(),
            final(self)@ == old(self)@.provided(*peer, request, channel),
    {
        let serves = match self.connected.get(peer) {
            Some(list) => any_serves(list.as_slice(), request),
            None => false,
        };
        let ghost mut served_at: int = 0;
        if serves {
            proof {
                let connections = self.connected@[*peer]@;
                let i = choose|i: int|
                    0 <= i < connections.len() && #[trigger] connections[i].serving_request == Some(
                        request,
                    );
                served_at = i;
                assert(self@.serves(*peer, i, request));
                lemma_channel_added(
                    self@,
                    self.connected@,
                    self.channels@,
                    *peer,
                    request,
                    channel,
                    i,
                );
            }
            self.channels.insert(request.0, channel);
            assert(self@.serves(*peer, served_at, request));
        } else {
            assert(self@.connected =~= old(self)@.provided(*peer, request, channel).connected) by {
                if self@.connected.contains_key(*peer) {
                    assert(self@.provided(*peer, request, channel).connected[*peer]
                        =~= self@.connected[*peer]) by {
                        assert forall|j: int|
                            0 <= j < self@.connected[*peer].len() implies !(
                        #[trigger] self@.connected[*peer][j]).serves(request) by {
                            assert(self.connected@[*peer]@[j].serving_request != Some(request));
                        }
                    }
                }
            }
        }
        proof {
            lemma_provided_inv(old(self)@, *peer, request, channel);
            assert(self@ =~= old(self)@.provided(*peer, request, channel));
            lemma_served_kept(old(self).channels@, old(self)@, self@);
        }
    }
}

impl<C: Clone, E: core::fmt::Display, R, S> Behaviour<C, E, R, S> {
    /// Takes the result of making a channel for `request`, on a stream to `peer`. The swarm is to
    /// be told the event, and the requester is owed the reply, that are handed back.
    pub fn settle_outbound(
        &mut self,
        chr: Result<C, E>,
        request: OutboundRequest<C, E>,
        peer: PeerId,
    ) -> (settled: (ToSwarm<C, E>, Reply<C, E>))
        requires
            old(self).wf(),
        ensures
            final(self).wf(),
            settled.1.answers(request, chr),
            match chr {
                Ok(channel) => {
                    &&& exists|kept: C| #[trigger]
                        cloned(channel, kept) && final(self)@ == old(self)@.provided(
                            peer,
                            request.outbound_id,
                            kept,
                        )
                    &&& settled.0 == ToSwarm::<C, E>::GenerateEvent(
                        Event::OutboundSuccess {
                            peer: request.peer,
                            outbound_id: request.outbound_id,
                            channel,
                        },
                    )
                },
                Err(error) => {
                    &&& final(self)@ == old(self)@
                    &&& settled.0 matches ToSwarm::GenerateEvent(
                        Event::LiteralOutboundFailure { peer: failed, outbound_id, error: text },
                    )
                    &&& failed == request.peer
                    &&& outbound_id == request.outbound_id
                    &&& vstd::string::to_string_from_display_ensures::<E>(&error, text)
                },
            },
    {
        match chr {
            Ok(channel) => {
                let kept = channel.clone();
                let sent = channel.clone();
                self.provide(&peer, request.outbound_id, kept);
                assert(cloned(channel, kept));
                (
                    ToSwarm::GenerateEvent(
                        Event::OutboundSuccess {
                            peer: request.peer,
                            outbound_id: request.outbound_id,
                            channel,
                        },
                    ),
                    Reply { sender: request.sender, outcome: Ok(sent) },
                )
            },
            Err(error) => {
                let text = error.to_string();
                (
                    ToSwarm::GenerateEvent(
                        Event::LiteralOutboundFailure {
                            peer: request.peer,
                            outbound_id: request.outbound_id,
                            error: text,
                        },
                    ),
                    Reply {
                        sender: request.sender,
                        outcome: Err(OutboundError::GrpcChannel(error)),
                    },
                )
            },
        }
    }

    /// Takes the result of making a channel for `request`, on a stream to `peer`, and answers the
    /// requester. The swarm is to be told the event that is handed back.
    ///
    /// The answer is sent where the requester waits. That it arrives is not stated: whether the
    /// requester still waits is up to the requester.
    pub fn on_grpc_channel(
        &mut self,
        chr: Result<C, E>,
        request: OutboundRequest<C, E>,
        peer: PeerId,
    ) -> (event: ToSwarm<C, E>)
        requires
            old(self).wf(),
        ensures
            final(self).wf(),
            exists|reply: Reply<C, E>| reply.answers(request, chr) && #[trigger] reply.is_sent(),
            match chr {
                Ok(channel) => {
                    &&& exists|kept: C| #[trigger]
                        cloned(channel, kept) && final(self)@ == old(self)@.provided(
                            peer,
                            request.outbound_id,
                            kept,
                        )
                    &&& event == ToSwarm::<C, E>::GenerateEvent(
                        Event::OutboundSuccess {
                            peer: request.peer,
                            outbound_id: request.outbound_id,
                            channel,
                        },
                    )
                },
                Err(error) => {
                    &&& final(self)@ == old(self)@
                    &&& event matches ToSwarm::GenerateEvent(
                        Event::LiteralOutboundFailure { peer: failed, outbound_id, error: text },
                    )
                    &&& failed == request.peer
                    &&& outbound_id == request.outbound_id
                    &&& vstd::string::to_string_from_display_ensures::<E>(&error, text)
                },
            },
    {
        let (event, reply) = self.settle_outbound(chr, request, peer);
        let ghost owed = reply;
        let _ = reply.send();
        assert(owed.is_sent());
        event
    }
}

impl<C, E, R, S> Behaviour<C, E, R, S> {
    /// Has `event` reported to the user.
    fn report(&mut self, event: Event<C, E>)
        requires
            old(self).wf(),
        ensures
            final(self).wf(),
            final(self)@ == old(self)@.reporting(event),
    {
        self.pending_events.push_back(ToSwarm::GenerateEvent(event));
        proof {
            lemma_inv_frame(old(self)@, self@);
            lemma_served_frame(self.channels@, old(self)@, self@);
        }
    }

    /// Takes note of what the handler of a connection reported, and tells what is left to do.
    pub fn step_handler_event(
        &mut self,
        peer: PeerId,
        connection_id: ConnectionId,
        event: HandlerEvent<C, E, S>,
    ) -> (step: HandlerStep<C, E, S>)
        requires
            old(self).wf(),
        ensures
            final(self).wf(),
            final(self)@ == old(self)@.after_handler_event(peer, connection_id, event),
            step.forward == old(self)@.forwarded(peer, connection_id, event),
            step.job == event.job(peer, connection_id),
            step.dropped == event.dropped(),
    {
        match event {
            HandlerEvent::InboundStream { inbound_id, stream } => {
                if self.inbound_stream_tx.is_some() {
                    self.report(Event::InboundSuccess { peer, inbound_id });
                    let stream = NegotiatedStreamWrapper::new(stream, peer, connection_id);
                    HandlerStep { forward: Some(stream), job: None, dropped: None }
                } else {
                    HandlerStep { forward: None, job: None, dropped: None }
                }
            },
            HandlerEvent::OutboundStream { outbound_request, stream } => {
                let stream = NegotiatedStreamWrapper::new(stream, peer, connection_id);
                HandlerStep {
                    forward: None,
                    job: Some(ChannelJob { stream, outbound_request, peer }),
                    dropped: None,
                }
            },
            HandlerEvent::InboundTimeout(inbound_id) => {
                self.report(
                    Event::InboundFailure { peer, inbound_id, error: InboundError::Timeout },
                );
                HandlerStep { forward: None, job: None, dropped: None }
            },
            HandlerEvent::InboundUnsupportedProtocols(inbound_id) => {
                self.report(
                    Event::InboundFailure {
                        peer,
                        inbound_id,
                        error: InboundError::UnsupportedProtocol,
                    },
                );
                HandlerStep { forward: None, job: None, dropped: None }
            },
            HandlerEvent::OutboundTimeout(request) => {
                let _ = self.remove_pending_outbound(&peer, connection_id, &request.outbound_id);
                self.report(
                    Event::OutboundFailure {
                        peer,
                        outbound_id: request.outbound_id,
                        error: OutboundError::Timeout,
                    },
                );
                HandlerStep { forward: None, job: None, dropped: Some(request) }
            },
            HandlerEvent::OutboundUnsupportedProtocols(request) => {
                let _ = self.remove_pending_outbound(&peer, connection_id, &request.outbound_id);
                self.report(
                    Event::OutboundFailure {
                        peer,
                        outbound_id: request.outbound_id,
                        error: OutboundError::UnsupportedProtocol,
                    },
                );
                HandlerStep { forward: None, job: None, dropped: Some(request) }
            },
        }
    }

    /// Takes note of what the handler of a connection reported. A stream that the peer opened goes
    /// to the gRPC server, if there is one. A requested stream is handed back, for a channel to be
    /// made of it.
    ///
    /// A request whose stream took too long, or whose protocol the peer does not speak, is let go as
    /// [`Behaviour::step_handler_event`] hands it back, so its requester finds it canceled.
    ///
    /// That a stream which was sent to the server arrives is not stated: whether the server still
    /// takes streams is up to the server.
    pub fn on_connection_handler_event(
        &mut self,
        peer: PeerId,
        connection_id: ConnectionId,
        event: HandlerEvent<C, E, S>,
    ) -> (job: Option<ChannelJob<C, E, S>>)
        requires
            old(self).wf(),
        ensures
            final(self).wf(),
            final(self)@ == old(self)@.after_handler_event(peer, connection_id, event),
            old(self)@.forwarded(peer, connection_id, event) matches Some(stream) ==> is_forwarded(
                old(self)@.server->0,
                stream,
            ),
            job == event.job(peer, connection_id),
    {
        let step = self.step_handler_event(peer, connection_id, event);
        if let Some(stream) = step.forward {
            if let Some(server) = &self.inbound_stream_tx {
                let _ = server.send(stream);
            }
        }
        step.job
    }

    /// The oldest of what the swarm is to be told. Where there is nothing, the swarm is to be told
    /// of the next channel, as [`Behaviour::on_grpc_channel`] does.
    pub fn poll(&mut self) -> (event: Option<ToSwarm<C, E>>)
        requires
            old(self).wf(),
        ensures
            final(self).wf(),
            event == head(old(self)@.pending_events),
            final(self)@ == old(self)@.polled(),
    {
        let event = pop(&mut self.pending_events);
        proof {
            lemma_inv_frame(old(self)@, self@);
            lemma_served_frame(self.channels@, old(self)@, self@);
        }
        event
    }

    /// Takes note that a listener was opened. The services that are offered, if any, are due to be
    /// served.
    fn on_new_listener(&mut self) -> (serve: Option<Serve<R, S>>)
        requires
            old(self).wf(),
        ensures
            final(self).wf(),
            match old(self)@.grpc_service_router {
                Some(router) => {
                    &&& serve matches Some(due)
                    &&& due.router == router
                    &&& exists|server: mpsc::UnboundedSender<NegotiatedStreamWrapper<S>>|
                        {
                            &&& final(self)@ == #[trigger] old(self)@.listening(Some(server))
                            &&& leads_to(server, due.streams)
                        }
                },
                None => serve is None && final(self)@ == old(self)@,
            },
    {
        let mut serve: Option<Serve<R, S>> = None;
        if let Some(router) = self.grpc_service_router.take() {
            let (in_tx, in_rx) = mpsc::unbounded_channel::<NegotiatedStreamWrapper<S>>();
            self.inbound_stream_tx = Some(in_tx);
            serve = Some(Serve { router, streams: in_rx });
            assert(self@ =~= old(self)@.listening(Some(in_tx)));
        }
        proof {
            lemma_inv_frame(old(self)@, self@);
            lemma_served_frame(self.channels@, old(self)@, self@);
        }
        serve
    }

    /// Takes note of what the swarm tells. A gRPC server that is due to start is handed back.
    pub fn on_swarm_event(&mut self, event: FromSwarm) -> (serve: Option<Serve<R, S>>)
        requires
            old(self).wf(),
            event matches FromSwarm::ConnectionClosed(closed) ==> old(self)@.has_connection(
                closed.peer_id,
                closed.connection_id,
            ),
        ensures
            final(self).wf(),
            event matches FromSwarm::ConnectionEstablished(established) ==> {
                &&& final(self)@.is_connected(established.peer_id)
                &&& final(self)@.has_connection(
                    established.peer_id,
                    established.connection_id,
                )
            },
            event matches FromSwarm::DialFailure(failure) ==> (old(self)@.dial_failure_reply(
                failure.peer_id,
            ) matches Some(reply) ==> reply.is_sent()),
            if event is NewListener && old(self)@.grpc_service_router is Some {
                &&& serve matches Some(due)
                &&& due.router == old(self)@.grpc_service_router->0
                &&& exists|server: mpsc::UnboundedSender<NegotiatedStreamWrapper<S>>|
                    {
                        &&& final(self)@ == #[trigger] old(self)@.after_swarm_event(
                            event,
                            Some(server),
                        )
                        &&& leads_to(server, due.streams)
                    }
            } else {
                &&& serve is None
                &&& final(self)@ == old(self)@.after_swarm_event(event, None)
            },
    {
        match event {
            FromSwarm::ConnectionEstablished(established) => {
                self.on_connection_established(established);
                None
            },
            FromSwarm::ConnectionClosed(closed) => {
                self.on_connection_closed(closed);
                None
            },
            FromSwarm::NewListener => {
                let serve = self.on_new_listener();
                proof {
                    if serve is Some {
                        let server = choose|server: mpsc::UnboundedSender<
                            NegotiatedStreamWrapper<S>,
                        >|
                            {
                                &&& self@ == #[trigger] old(self)@.listening(Some(server))
                                &&& leads_to(server, serve->0.streams)
                            };
                        assert(self@ == old(self)@.after_swarm_event(event, Some(server)));
                    } else {
                        assert(self@ =~= old(self)@.after_swarm_event(event, None));
                    }
                }
                serve
            },
            FromSwarm::DialFailure(failure) => {
                self.on_dial_failure(failure);
                None
            },
            FromSwarm::NewListenAddr
            | FromSwarm::ListenFailure
            | FromSwarm::AddressChange
            | FromSwarm::ExpiredListenAddr
            | FromSwarm::ListenerError
            | FromSwarm::ListenerClosed
            | FromSwarm::NewExternalAddr
            | FromSwarm::ExpiredExternalAddr => None,
        }
    }

    /// Offers the services of `grpc_service_router`, from the next listener on.
    pub fn set_grpc_service_router(&mut self, grpc_service_router: R)
        requires
            old(self).wf(),
        ensures
            final(self).wf(),
            final(self)@ == (State { grpc_service_router: Some(grpc_service_router), ..old(self)@ }),
    {
        self.grpc_service_router = Some(grpc_service_router);
        proof {
            lemma_inv_frame(old(self)@, self@);
            lemma_served_frame(self.channels@, old(self)@, self@);
        }
    }

    /// The local peer.
    pub fn local_peer_id(&self) -> (peer: &PeerId)
        ensures
            *peer == self@.local_peer_id,
    {
        &self.local_peer_id
    }

    /// Adds a known address for a peer, at which it can be dialed.
    ///
    /// Addresses added in this way are only removed by [`Behaviour::remove_address`].
    pub fn add_address(&mut self, peer: &PeerId, address: Multiaddr)
        requires
            old(self).wf(),
        ensures
            final(self).wf(),
            final(self)@ == old(self)@.address_added(*peer, address@),
    {
        let ghost added = address@;
        match self.addresses.get_mut(peer) {
            Some(list) => {
                list.push(address);
            },
            None => {
                let mut list = AddressList::new();
                list.push(address);
                self.addresses.insert(*peer, list);
            },
        }
        proof {
            let list = self.addresses@[*peer];
            assert(address_views(list@) =~= old(self)@.addresses_of(*peer).push(added));
            assert(self@.addresses =~= old(self)@.address_added(*peer, added).addresses);
            assert(self@ =~= old(self)@.address_added(*peer, added));
            lemma_address_added_inv(old(self)@, *peer, added);
            lemma_served_frame(self.channels@, old(self)@, self@);
        }
    }

    /// Removes an address of a peer that was added by [`Behaviour::add_address`].
    pub fn remove_address(&mut self, peer: &PeerId, address: &Multiaddr)
        requires
            old(self).wf(),
        ensures
            final(self).wf(),
            final(self)@ == old(self)@.address_removed(*peer, address@),
    {
        let mut last = false;
        if let Some(list) = self.addresses.get_mut(peer) {
            proof {
                lemma_filter_views(list@, address@);
            }
            list.retain_others(address);
            last = list.as_slice().len() == 0;
        }
        if last {
            let _ = self.addresses.remove(peer);
        }
        proof {
            reveal(Seq::filter);
            assert(self@.addresses =~= old(self)@.address_removed(*peer, address@).addresses);
            assert(self@ =~= old(self)@.address_removed(*peer, address@));
            lemma_address_removed_inv(old(self)@, *peer, address@);
            lemma_served_frame(self.channels@, old(self)@, self@);
        }
    }

    /// Checks whether a peer is currently connected.
    pub fn is_connected(&self, peer: &PeerId) -> (connected: bool)
        requires
            self.wf(),
        ensures
            connected == self@.is_connected(*peer),
    {
        match self.connected.get(peer) {
            Some(list) => list.as_slice().len() != 0,
            None => false,
        }
    }
}

/// Puts `more` behind what `addresses` holds.
fn extend_with(addresses: &mut Vec<Multiaddr>, more: &[Multiaddr])
    ensures
        address_views(final(addresses)@) == address_views(old(addresses)@) + address_views(more@),
{
    let mut i: usize = 0;
    assert(address_views(addresses@) =~= address_views(old(addresses)@) + address_views(
        more@,
    ).take(0));
    while i < more.len()
        invariant
            i <= more@.len(),
            address_views(addresses@) == address_views(old(addresses)@) + address_views(
                more@,
            ).take(i as int),
        decreases more@.len() - i,
    {
        let ghost before = address_views(addresses@);
        addresses.push(more[i].clone());
        i += 1;
        assert(address_views(addresses@) =~= before.push(more@[i - 1]@));
        assert(address_views(more@).take(i as int) =~= address_views(more@).take(i - 1).push(
            more@[i - 1]@,
        ));
        assert(address_views(addresses@) =~= address_views(old(addresses)@) + address_views(
            more@,
        ).take(i as int));
    }
    assert(address_views(more@).take(i as int) =~= address_views(more@));
}

impl<C, E, R, S> Behaviour<C, E, R, S> {
    /// The addresses at which `peer` was dialed, connection by connection.
    fn dialed_addresses(&self, peer: &PeerId) -> (addresses: Vec<Multiaddr>)
        requires
            self.wf(),
        ensures
            address_views(addresses@) == dialed_addresses(self@.connections_of(*peer)),
    {
        let mut addresses: Vec<Multiaddr> = Vec::new();
        let ghost view = self@.connections_of(*peer);
        assert(address_views(addresses@) =~= dialed_addresses(view.take(0)));
        if let Some(list) = self.connected.get(peer) {
            let connections = list.as_slice();
            let mut i: usize = 0;
            while i < connections.len()
                invariant
                    i <= connections@.len(),
                    view == connections_view(connections@, self.channels@),
                    address_views(addresses@) == dialed_addresses(view.take(i as int)),
                decreases connections@.len() - i,
            {
                let ghost before = address_views(addresses@);
                assert(view.take(i + 1).drop_last() =~= view.take(i as int));
                if let Some(address) = &connections[i].target_address {
                    addresses.push(address.clone());
                    assert(address_views(addresses@) =~= before.push(address@));
                }
                i += 1;
            }
        }
        assert(view.take(view.len() as int) =~= view);
        addresses
    }

    /// The addresses at which a peer can be dialed: those at which it was dialed before, and those
    /// that were added. There are none where the peer is not known.
    pub fn handle_pending_outbound_connection(&self, maybe_peer: Option<PeerId>) -> (addresses: Vec<
        Multiaddr,
    >)
        requires
            self.wf(),
        ensures
            address_views(addresses@) == (match maybe_peer {
                Some(peer) => self@.dial_addresses(peer),
                None => Seq::empty(),
            }),
    {
        let peer = match maybe_peer {
            Some(peer) => peer,
            None => {
                let addresses: Vec<Multiaddr> = Vec::new();
                assert(address_views(addresses@) =~= Seq::empty());
                return addresses;
            },
        };
        let mut addresses: Vec<Multiaddr> = self.dialed_addresses(&peer);
        if let Some(list) = self.addresses.get(&peer) {
            extend_with(&mut addresses, list.as_slice());
        }
        assert(address_views(addresses@) =~= self@.dial_addresses(peer));
        addresses
    }

    /// The handler of a connection that a peer opened.
    pub fn handle_established_inbound_connection<F>(&self) -> (handler: Handler<C, E, S, F>)
        ensures
            handler@ == HandlerState::<C, E, S, F>::fresh(self@.protocol_name),
    {
        Handler::new(self.config.protocol_name.clone())
    }

    /// The handler of a connection that the local node opened.
    pub fn handle_established_outbound_connection<F>(&self) -> (handler: Handler<C, E, S, F>)
        ensures
            handler@ == HandlerState::<C, E, S, F>::fresh(self@.protocol_name),
    {
        Handler::new(self.config.protocol_name.clone())
    }

    /// Whether the connection `connection_id` to `peer` is established.
    pub fn has_connection(&self, peer: &PeerId, connection_id: ConnectionId) -> (established: bool)
        requires
            self.wf(),
        ensures
            established == self@.has_connection(*peer, connection_id),
    {
        match self.connected.get(peer) {
            Some(list) => {
                let connections = list.as_slice();
                match find_connection(connections, connection_id) {
                    Some(i) => {
                        proof {
                            lemma_position(
                                connections@,
                                self.channels@,
                                connection_id,
                                i as int,
                            );
                        }
                        true
                    },
                    None => false,
                }
            },
            None => false,
        }
    }
}

} // verus!
