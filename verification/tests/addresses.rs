use libp2p_grpc_rs::Behaviour;
use libp2p_grpc_rs::net::{ConnectionId, Multiaddr, PeerId};
use libp2p_grpc_rs::swarm::{ConnectedPoint, ConnectionEstablished, DialFailure, FromSwarm};

type Node = Behaviour<u64, String, &'static str, u32>;

fn peer(n: u8) -> PeerId {
    PeerId::from_multihash(0, &[n]).unwrap()
}

fn address(n: u8) -> Multiaddr {
    Multiaddr::from_bytes(vec![4, n])
}

fn addresses(numbers: &[u8]) -> Vec<Multiaddr> {
    numbers.iter().map(|n| address(*n)).collect()
}

fn node() -> Node {
    Behaviour::new(peer(0), None)
}

#[test]
fn added_addresses_can_be_dialed_in_order() {
    let mut node = node();
    // More than fit inline.
    for n in 0..9 {
        node.add_address(&peer(1), address(n));
    }
    assert_eq!(
        node.handle_pending_outbound_connection(Some(peer(1))),
        addresses(&[0, 1, 2, 3, 4, 5, 6, 7, 8])
    );
    assert!(node.handle_pending_outbound_connection(Some(peer(2))).is_empty());
}

#[test]
fn unknown_peer_has_no_addresses() {
    let mut node = node();
    node.add_address(&peer(1), address(1));
    assert!(node.handle_pending_outbound_connection(None).is_empty());
}

#[test]
fn removed_address_is_gone_however_often_it_was_added() {
    let mut node = node();
    for n in [1, 2, 1, 3, 1, 2, 4] {
        node.add_address(&peer(1), address(n));
    }
    node.remove_address(&peer(1), &address(1));
    assert_eq!(
        node.handle_pending_outbound_connection(Some(peer(1))),
        addresses(&[2, 3, 2, 4])
    );
}

#[test]
fn removal_undoes_addition() {
    let mut node = node();
    node.add_address(&peer(1), address(1));
    node.add_address(&peer(1), address(2));
    node.remove_address(&peer(1), &address(2));
    assert_eq!(node.handle_pending_outbound_connection(Some(peer(1))), addresses(&[1]));
    node.remove_address(&peer(1), &address(1));
    assert!(node.handle_pending_outbound_connection(Some(peer(1))).is_empty());
    node.add_address(&peer(1), address(3));
    assert_eq!(node.handle_pending_outbound_connection(Some(peer(1))), addresses(&[3]));
}

#[test]
fn removal_of_what_is_not_there_changes_nothing() {
    let mut node = node();
    node.remove_address(&peer(1), &address(1));
    node.add_address(&peer(1), address(1));
    node.remove_address(&peer(1), &address(2));
    node.remove_address(&peer(2), &address(1));
    assert_eq!(node.handle_pending_outbound_connection(Some(peer(1))), addresses(&[1]));
}

#[test]
fn dialed_addresses_come_before_added_ones() {
    let mut node = node();
    node.add_address(&peer(1), address(1));
    node.on_swarm_event(FromSwarm::ConnectionEstablished(ConnectionEstablished {
        peer_id: peer(1),
        connection_id: ConnectionId(10),
        endpoint: ConnectedPoint::Dialer { address: address(9) },
        other_established: 0,
    }));
    node.add_address(&peer(1), address(9));
    assert_eq!(
        node.handle_pending_outbound_connection(Some(peer(1))),
        addresses(&[9, 1, 9])
    );
    // Only what was added can be removed.
    node.remove_address(&peer(1), &address(9));
    assert_eq!(
        node.handle_pending_outbound_connection(Some(peer(1))),
        addresses(&[9, 1])
    );
}

#[test]
fn added_addresses_stay_whatever_happens() {
    let mut node = node();
    node.add_address(&peer(1), address(1));
    let _outbound = node.initiate_grpc_outbound(&peer(1));
    node.on_swarm_event(FromSwarm::DialFailure(DialFailure { peer_id: Some(peer(1)) }));
    node.on_swarm_event(FromSwarm::ListenerClosed);
    while node.poll().is_some() {}
    assert_eq!(node.handle_pending_outbound_connection(Some(peer(1))), addresses(&[1]));
}
