use libp2p_grpc_rs::error::InboundError;
use libp2p_grpc_rs::handler::Event as HandlerEvent;
use libp2p_grpc_rs::net::{ConnectionId, PeerId};
use libp2p_grpc_rs::protocol::InboundId;
use libp2p_grpc_rs::swarm::{FromSwarm, ToSwarm};
use libp2p_grpc_rs::{Behaviour, Event};

type Node = Behaviour<u64, String, &'static str, u32>;

fn peer(n: u8) -> PeerId {
    PeerId::from_multihash(0, &[n]).unwrap()
}

fn accept(node: &mut Node, n: u8, inbound: u64, stream: u32) {
    let job = node.on_connection_handler_event(
        peer(n),
        ConnectionId(n as usize),
        HandlerEvent::InboundStream { inbound_id: InboundId::new(inbound), stream },
    );
    assert!(job.is_none());
}

#[test]
fn streams_reach_the_server_in_order() {
    let mut node: Node = Behaviour::new(peer(0), Some("services"));
    let mut serve = node.on_swarm_event(FromSwarm::NewListener).unwrap();
    assert_eq!(serve.router, "services");
    assert!(serve.streams.try_recv().is_err());

    accept(&mut node, 1, 1, 100);
    accept(&mut node, 2, 2, 200);
    for (n, stream) in [(1, 100), (2, 200)] {
        let received = serve.streams.try_recv().unwrap();
        assert_eq!(received.inner, stream);
        assert_eq!(received.peer_id, peer(n));
        assert_eq!(received.connection_id, ConnectionId(n as usize));
    }
    for n in [1, 2] {
        match node.poll() {
            Some(ToSwarm::GenerateEvent(Event::InboundSuccess { peer: p, inbound_id })) => {
                assert_eq!(p, peer(n));
                assert_eq!(inbound_id, InboundId::new(n as u64));
            }
            _ => panic!("success is to be reported"),
        }
    }
    assert!(node.poll().is_none());
}

#[test]
fn streams_are_of_no_consequence_without_a_server() {
    let mut node: Node = Behaviour::new(peer(0), Some("services"));
    accept(&mut node, 1, 1, 100);
    assert!(node.poll().is_none());

    let mut plain: Node = Behaviour::new(peer(0), None);
    assert!(plain.on_swarm_event(FromSwarm::NewListener).is_none());
    accept(&mut plain, 1, 1, 100);
    assert!(plain.poll().is_none());
}

#[test]
fn services_are_served_once() {
    let mut node: Node = Behaviour::new(peer(0), Some("services"));
    let mut serve = node.on_swarm_event(FromSwarm::NewListener).unwrap();
    assert!(node.on_swarm_event(FromSwarm::NewListener).is_none());
    accept(&mut node, 1, 1, 100);
    assert_eq!(serve.streams.try_recv().unwrap().inner, 100);
}

#[test]
fn services_can_be_offered_later_and_replaced() {
    let mut node: Node = Behaviour::new(peer(0), None);
    assert!(node.on_swarm_event(FromSwarm::NewListener).is_none());
    node.set_grpc_service_router("one");
    node.set_grpc_service_router("two");
    let mut first = node.on_swarm_event(FromSwarm::NewListener).unwrap();
    assert_eq!(first.router, "two");
    node.set_grpc_service_router("three");
    accept(&mut node, 1, 1, 100);
    let mut second = node.on_swarm_event(FromSwarm::NewListener).unwrap();
    assert_eq!(second.router, "three");
    accept(&mut node, 1, 2, 200);
    assert_eq!(first.streams.try_recv().unwrap().inner, 100);
    assert!(first.streams.try_recv().is_err());
    assert_eq!(second.streams.try_recv().unwrap().inner, 200);
}

#[test]
fn stream_is_reported_though_the_server_is_gone() {
    let mut node: Node = Behaviour::new(peer(0), Some("services"));
    drop(node.on_swarm_event(FromSwarm::NewListener));
    accept(&mut node, 1, 1, 100);
    assert!(matches!(
        node.poll(),
        Some(ToSwarm::GenerateEvent(Event::InboundSuccess { inbound_id: InboundId(1), .. }))
    ));
}

#[test]
fn stream_is_due_to_be_forwarded_where_there_is_a_server() {
    let mut node: Node = Behaviour::new(peer(0), Some("services"));
    let event = HandlerEvent::InboundStream { inbound_id: InboundId::new(1), stream: 5 };
    let step = node.step_handler_event(peer(1), ConnectionId(3), event);
    assert!(step.forward.is_none() && step.job.is_none());

    let _serve = node.on_swarm_event(FromSwarm::NewListener);
    let event = HandlerEvent::InboundStream { inbound_id: InboundId::new(2), stream: 6 };
    let step = node.step_handler_event(peer(1), ConnectionId(3), event);
    let stream = step.forward.unwrap();
    assert_eq!(stream.inner, 6);
    assert_eq!(stream.peer_id, peer(1));
    assert_eq!(stream.connection_id, ConnectionId(3));
    assert!(step.job.is_none());
}

#[test]
fn inbound_failures_are_reported() {
    let mut node: Node = Behaviour::new(peer(0), None);
    node.on_connection_handler_event(
        peer(1),
        ConnectionId(1),
        HandlerEvent::InboundTimeout(InboundId::new(4)),
    );
    node.on_connection_handler_event(
        peer(2),
        ConnectionId(2),
        HandlerEvent::InboundUnsupportedProtocols(InboundId::new(5)),
    );
    for (n, id, expected) in [
        (1, 4, InboundError::Timeout),
        (2, 5, InboundError::UnsupportedProtocol),
    ] {
        match node.poll() {
            Some(ToSwarm::GenerateEvent(Event::InboundFailure { peer: p, inbound_id, error })) => {
                assert_eq!(p, peer(n));
                assert_eq!(inbound_id, InboundId::new(id));
                assert_eq!(error, expected);
            }
            _ => panic!("the failure is to be reported"),
        }
    }
    assert!(node.poll().is_none());
}
