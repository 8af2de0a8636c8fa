use libp2p_grpc_rs::Behaviour;
use libp2p_grpc_rs::behaviour::Config;
use libp2p_grpc_rs::handler::Handler;
use libp2p_grpc_rs::net::{ConnectionId, Multiaddr, PeerId};
use libp2p_grpc_rs::protocol::InboundIdGen;
use libp2p_grpc_rs::swarm::{
    ConnectedPoint, ConnectionClosed, ConnectionEstablished, FromSwarm, ToSwarm,
};

type Node = Behaviour<u64, String, &'static str, u32>;

fn peer(n: u8) -> PeerId {
    PeerId::from_multihash(0, &[n]).unwrap()
}

fn address(n: u8) -> Multiaddr {
    Multiaddr::from_bytes(vec![4, n])
}

fn node() -> Node {
    Behaviour::new(peer(0), None)
}

fn dialed(n: u8, connection: usize, at: u8, other_established: usize) -> FromSwarm {
    FromSwarm::ConnectionEstablished(ConnectionEstablished {
        peer_id: peer(n),
        connection_id: ConnectionId(connection),
        endpoint: ConnectedPoint::Dialer { address: address(at) },
        other_established,
    })
}

fn accepted(n: u8, connection: usize, other_established: usize) -> FromSwarm {
    FromSwarm::ConnectionEstablished(ConnectionEstablished {
        peer_id: peer(n),
        connection_id: ConnectionId(connection),
        endpoint: ConnectedPoint::Listener,
        other_established,
    })
}

fn closed(n: u8, connection: usize, remaining_established: usize) -> FromSwarm {
    FromSwarm::ConnectionClosed(ConnectionClosed {
        peer_id: peer(n),
        connection_id: ConnectionId(connection),
        remaining_established,
    })
}

#[test]
fn new_node_is_connected_to_nobody() {
    let mut node = node();
    assert_eq!(*node.local_peer_id(), peer(0));
    assert!(!node.is_connected(&peer(1)));
    assert!(!node.has_connection(&peer(1), ConnectionId(0)));
    assert!(node.handle_pending_outbound_connection(Some(peer(1))).is_empty());
    assert!(node.poll().is_none());
}

#[test]
fn peer_is_connected_until_its_last_connection_closes() {
    let mut node = node();
    node.on_swarm_event(dialed(1, 10, 1, 0));
    assert!(node.is_connected(&peer(1)));
    node.on_swarm_event(accepted(1, 11, 1));
    node.on_swarm_event(closed(1, 10, 1));
    assert!(node.is_connected(&peer(1)));
    assert!(!node.has_connection(&peer(1), ConnectionId(10)));
    assert!(node.has_connection(&peer(1), ConnectionId(11)));
    node.on_swarm_event(closed(1, 11, 0));
    assert!(!node.is_connected(&peer(1)));
    assert!(node.poll().is_none());
}

#[test]
fn peers_connect_independently() {
    let mut node = node();
    node.on_swarm_event(dialed(1, 10, 1, 0));
    node.on_swarm_event(dialed(2, 20, 2, 0));
    assert!(!node.has_connection(&peer(1), ConnectionId(20)));
    assert!(!node.has_connection(&peer(2), ConnectionId(10)));
    node.on_swarm_event(closed(1, 10, 0));
    assert!(!node.is_connected(&peer(1)));
    assert!(node.is_connected(&peer(2)));
}

#[test]
fn connections_keep_their_order_beyond_the_inline_two() {
    let mut node = node();
    for k in 0..6u8 {
        node.on_swarm_event(dialed(1, 10 + k as usize, k, k as usize));
    }
    let at: Vec<Multiaddr> = (0..6).map(address).collect();
    assert_eq!(node.handle_pending_outbound_connection(Some(peer(1))), at);

    node.on_swarm_event(closed(1, 12, 5));
    node.on_swarm_event(closed(1, 10, 4));
    node.on_swarm_event(closed(1, 15, 3));
    let left: Vec<Multiaddr> = [1, 3, 4].into_iter().map(address).collect();
    assert_eq!(node.handle_pending_outbound_connection(Some(peer(1))), left);
    assert!(node.has_connection(&peer(1), ConnectionId(13)));
    assert!(!node.has_connection(&peer(1), ConnectionId(12)));
}

#[test]
fn first_of_two_connections_with_one_id_closes_first() {
    let mut node = node();
    node.on_swarm_event(dialed(1, 10, 1, 0));
    node.on_swarm_event(dialed(1, 10, 2, 1));
    node.on_swarm_event(closed(1, 10, 1));
    assert_eq!(node.handle_pending_outbound_connection(Some(peer(1))), vec![address(2)]);
}

#[test]
fn accepted_connections_have_no_address_to_dial() {
    let mut node = node();
    node.on_swarm_event(accepted(1, 10, 0));
    node.on_swarm_event(dialed(1, 11, 7, 1));
    node.on_swarm_event(accepted(1, 12, 2));
    assert_eq!(node.handle_pending_outbound_connection(Some(peer(1))), vec![address(7)]);
}

#[test]
fn other_swarm_events_are_of_no_consequence() {
    let mut node = node();
    node.on_swarm_event(dialed(1, 10, 1, 0));
    for event in [
        FromSwarm::AddressChange,
        FromSwarm::ListenFailure,
        FromSwarm::NewListenAddr,
        FromSwarm::ExpiredListenAddr,
        FromSwarm::ListenerError,
        FromSwarm::ListenerClosed,
        FromSwarm::NewExternalAddr,
        FromSwarm::ExpiredExternalAddr,
    ] {
        assert!(node.on_swarm_event(event).is_none());
    }
    assert!(node.is_connected(&peer(1)));
    assert_eq!(node.handle_pending_outbound_connection(Some(peer(1))), vec![address(1)]);
    assert!(node.poll().is_none());
}

#[test]
fn pending_request_goes_to_the_first_connection_only() {
    let mut node = node();
    let _outbound = node.initiate_grpc_outbound(&peer(1));
    assert!(matches!(node.poll(), Some(ToSwarm::Dial { .. })));
    node.on_swarm_event(dialed(2, 20, 2, 0));
    assert!(node.poll().is_none());
    node.on_swarm_event(dialed(1, 10, 1, 0));
    match node.poll() {
        Some(ToSwarm::NotifyHandler { handler, .. }) => assert_eq!(handler, ConnectionId(10)),
        _ => panic!("the handler is to be notified"),
    }
    node.on_swarm_event(dialed(1, 11, 1, 1));
    assert!(node.poll().is_none());
}

fn negotiated_name(handler: Handler<u64, String, u32, ()>) -> String {
    handler.listen_protocol(&mut InboundIdGen::new(1)).upgrade.protocol_name
}

#[test]
fn handlers_speak_the_configured_protocol() {
    let plain = node();
    assert_eq!(
        negotiated_name(plain.handle_established_inbound_connection()),
        "/libp2p/grpc/1.0.0"
    );
    assert_eq!(
        negotiated_name(plain.handle_established_outbound_connection()),
        "/libp2p/grpc/1.0.0"
    );

    let named = node().with_protocol_name("/mine/1");
    assert_eq!(negotiated_name(named.handle_established_inbound_connection()), "/mine/1");

    let config = Config::default().with_protocol_name("/mine/2");
    let configured = node().with_config(config.clone());
    assert_eq!(negotiated_name(configured.handle_established_outbound_connection()), "/mine/2");
    let back = configured.with_config(Config::default());
    assert_eq!(
        negotiated_name(back.handle_established_outbound_connection()),
        "/libp2p/grpc/1.0.0"
    );
}
