use futures::channel::oneshot;
use futures::executor::block_on;
use libp2p_grpc_rs::error::GrpcOutboundMapError;
use libp2p_grpc_rs::handler::Event as HandlerEvent;
use libp2p_grpc_rs::net::{ConnectionId, Multiaddr, PeerId};
use libp2p_grpc_rs::outbound::{GrpcOutboundStep, map_received};
use libp2p_grpc_rs::protocol::{OutboundId, OutboundRequest};
use libp2p_grpc_rs::swarm::{
    ConnectedPoint, ConnectionClosed, ConnectionEstablished, DialFailure, FromSwarm, ToSwarm,
};
use libp2p_grpc_rs::{Behaviour, Event, GrpcOutbound, OutboundError};
use std::rc::Rc;

type Node = Behaviour<u64, String, &'static str, u32>;
type Mapped = Result<(u64, OutboundId), GrpcOutboundMapError<String>>;

fn peer(n: u8) -> PeerId {
    PeerId::from_multihash(0, &[n]).unwrap()
}

fn node() -> Node {
    Behaviour::new(peer(0), None)
}

fn established(n: u8, connection: usize, other_established: usize) -> FromSwarm {
    FromSwarm::ConnectionEstablished(ConnectionEstablished {
        peer_id: peer(n),
        connection_id: ConnectionId(connection),
        endpoint: ConnectedPoint::Dialer { address: Multiaddr::from_bytes(vec![n]) },
        other_established,
    })
}

fn closed(n: u8, connection: usize, remaining_established: usize) -> FromSwarm {
    FromSwarm::ConnectionClosed(ConnectionClosed {
        peer_id: peer(n),
        connection_id: ConnectionId(connection),
        remaining_established,
    })
}

/// The outcome of a request, waited for where that is needed.
fn wait(outbound: GrpcOutbound<u64, String>) -> Mapped {
    match outbound.map() {
        GrpcOutboundStep::Done(mapped) => mapped,
        GrpcOutboundStep::Waiting { outbound_id, channel_rx } => {
            map_received(outbound_id, block_on(channel_rx))
        }
    }
}

fn expect_dial(node: &mut Node, n: u8) {
    match node.poll() {
        Some(ToSwarm::Dial { peer_id }) => assert_eq!(peer_id, peer(n)),
        _ => panic!("the peer is to be dialed"),
    }
}

fn expect_request(node: &mut Node, n: u8, connection: usize) -> OutboundRequest<u64, String> {
    match node.poll() {
        Some(ToSwarm::NotifyHandler { peer_id, handler, event }) => {
            assert_eq!(peer_id, peer(n));
            assert_eq!(handler, ConnectionId(connection));
            assert_eq!(event.peer, peer(n));
            event
        }
        _ => panic!("the handler is to be notified"),
    }
}

/// Asks for a channel to `n`, has the peer connected, and hands out the request as its handler
/// gets it.
fn requested(
    node: &mut Node,
    n: u8,
    connection: usize,
) -> (GrpcOutbound<u64, String>, OutboundRequest<u64, String>) {
    let outbound = node.initiate_grpc_outbound(&peer(n));
    expect_dial(node, n);
    node.on_swarm_event(established(n, connection, 0));
    let request = expect_request(node, n, connection);
    (outbound, request)
}

#[test]
fn request_becomes_a_channel() {
    let mut node = node();
    let (outbound, request) = requested(&mut node, 1, 10);
    assert_eq!(request.outbound_id, OutboundId::new(1));
    assert!(node.poll().is_none());

    let job = node
        .on_connection_handler_event(
            peer(1),
            ConnectionId(10),
            HandlerEvent::OutboundStream { outbound_request: request, stream: 55 },
        )
        .unwrap();
    assert_eq!(job.stream.inner, 55);
    assert_eq!(*job.stream.peer_id(), peer(1));
    assert_eq!(*job.stream.connection_id(), ConnectionId(10));
    assert_eq!(job.peer, peer(1));
    assert_eq!(job.outbound_request.outbound_id, OutboundId::new(1));
    assert_eq!(job.stream.into_inner(), 55);

    match node.on_grpc_channel(Ok(4242), job.outbound_request, job.peer) {
        ToSwarm::GenerateEvent(Event::OutboundSuccess { peer: p, outbound_id, channel }) => {
            assert_eq!(p, peer(1));
            assert_eq!(outbound_id, OutboundId::new(1));
            assert_eq!(channel, 4242);
        }
        _ => panic!("success is to be reported"),
    }
    let (channel, id) = wait(outbound).unwrap();
    assert_eq!(channel, 4242);
    assert_eq!(id, OutboundId::new(1));

    match node.initiate_grpc_outbound(&peer(1)) {
        GrpcOutbound::ServingChannel { outbound_id, channel } => {
            assert_eq!(outbound_id, OutboundId::new(1));
            assert_eq!(channel, 4242);
        }
        _ => panic!("the channel is to be handed out"),
    }
    assert!(node.poll().is_none());
}

#[test]
fn second_request_waits_for_the_first() {
    let mut node = node();
    let first = node.initiate_grpc_outbound(&peer(1));
    assert!(matches!(
        first,
        GrpcOutbound::WaitingChannel { outbound_id: OutboundId(1), .. }
    ));
    let second = node.initiate_grpc_outbound(&peer(1));
    assert!(matches!(
        second,
        GrpcOutbound::PendingOutbound { outbound_id: OutboundId(1) }
    ));
    match wait(second) {
        Err(GrpcOutboundMapError::PrevOutbondPending(id)) => assert_eq!(id, OutboundId::new(1)),
        _ => panic!("the earlier request is pending"),
    }
    expect_dial(&mut node, 1);
    assert!(node.poll().is_none());
}

#[test]
fn request_ids_ascend_over_all_peers() {
    let mut node = node();
    for n in 1..6u8 {
        match node.initiate_grpc_outbound(&peer(n)) {
            GrpcOutbound::WaitingChannel { outbound_id, .. } => {
                assert_eq!(outbound_id, OutboundId::new(n as u64));
            }
            _ => panic!("a request is to be made"),
        }
    }
    for n in 1..6u8 {
        expect_dial(&mut node, n);
    }
    assert!(node.poll().is_none());
    assert!(node.can_initiate_grpc_outbound(&peer(1)));
    assert!(node.can_initiate_grpc_outbound(&peer(9)));
}

#[test]
fn failed_dial_ends_the_request() {
    let mut node = node();
    let outbound = node.initiate_grpc_outbound(&peer(1));
    expect_dial(&mut node, 1);
    node.on_swarm_event(FromSwarm::DialFailure(DialFailure { peer_id: Some(peer(1)) }));
    match node.poll() {
        Some(ToSwarm::GenerateEvent(Event::OutboundFailure { peer: p, outbound_id, error })) => {
            assert_eq!(p, peer(1));
            assert_eq!(outbound_id, OutboundId::new(1));
            assert!(matches!(error, OutboundError::DialFailure));
        }
        _ => panic!("the failure is to be reported"),
    }
    assert!(node.poll().is_none());
    assert!(matches!(
        wait(outbound),
        Err(GrpcOutboundMapError::OutboundError(OutboundError::DialFailure))
    ));
    assert!(matches!(
        node.initiate_grpc_outbound(&peer(1)),
        GrpcOutbound::WaitingChannel { outbound_id: OutboundId(2), .. }
    ));
}

#[test]
fn dial_failure_that_nobody_waits_on_changes_nothing() {
    let mut node = node();
    let _outbound = node.initiate_grpc_outbound(&peer(1));
    expect_dial(&mut node, 1);
    node.on_swarm_event(FromSwarm::DialFailure(DialFailure { peer_id: None }));
    node.on_swarm_event(FromSwarm::DialFailure(DialFailure { peer_id: Some(peer(2)) }));
    assert!(node.poll().is_none());
    assert!(matches!(
        node.initiate_grpc_outbound(&peer(1)),
        GrpcOutbound::PendingOutbound { outbound_id: OutboundId(1) }
    ));
}

#[test]
fn failed_dial_owes_the_requester_a_reply() {
    let mut node = node();
    assert!(node.fail_dial(DialFailure { peer_id: Some(peer(1)) }).is_none());
    let outbound = node.initiate_grpc_outbound(&peer(1));
    let reply = node.fail_dial(DialFailure { peer_id: Some(peer(1)) }).unwrap();
    assert!(matches!(reply.outcome, Err(OutboundError::DialFailure)));
    assert!(reply.send().is_ok());
    assert!(matches!(
        wait(outbound),
        Err(GrpcOutboundMapError::OutboundError(OutboundError::DialFailure))
    ));
}

#[test]
fn reply_that_nobody_waits_for_comes_back() {
    let mut node = node();
    drop(node.initiate_grpc_outbound(&peer(1)));
    let reply = node.fail_dial(DialFailure { peer_id: Some(peer(1)) }).unwrap();
    assert!(matches!(reply.send(), Err(Err(OutboundError::DialFailure))));
}

#[test]
fn transport_error_is_reported_and_replied() {
    let mut node = node();
    let (outbound, request) = requested(&mut node, 3, 7);
    match node.on_grpc_channel(Err("no route".to_string()), request, peer(3)) {
        ToSwarm::GenerateEvent(Event::LiteralOutboundFailure { peer: p, outbound_id, error }) => {
            assert_eq!(p, peer(3));
            assert_eq!(outbound_id, OutboundId::new(1));
            assert_eq!(error, "no route");
        }
        _ => panic!("the failure is to be reported"),
    }
    match wait(outbound) {
        Err(GrpcOutboundMapError::OutboundError(OutboundError::GrpcChannel(error))) => {
            assert_eq!(error, "no route");
        }
        _ => panic!("the requester is to be told"),
    }
    assert!(node.poll().is_none());
}

#[test]
fn connection_keeps_the_request_of_a_failed_channel() {
    let mut node = node();
    let (_outbound, request) = requested(&mut node, 3, 7);
    node.on_grpc_channel(Err("no route".to_string()), request, peer(3));
    // No channel is there and no request is pending, so the peer is asked again.
    assert!(matches!(
        node.initiate_grpc_outbound(&peer(3)),
        GrpcOutbound::WaitingChannel { outbound_id: OutboundId(2), .. }
    ));
}

#[test]
fn settling_pairs_the_reply_with_its_requester() {
    let mut node = node();
    let (outbound, request) = requested(&mut node, 3, 7);
    let (event, reply) = node.settle_outbound(Ok(8), request, peer(3));
    assert!(matches!(
        event,
        ToSwarm::GenerateEvent(Event::OutboundSuccess { channel: 8, .. })
    ));
    assert!(matches!(reply.outcome, Ok(8)));
    assert!(reply.send().is_ok());
    assert_eq!(wait(outbound).unwrap(), (8, OutboundId::new(1)));
}

#[test]
fn timed_out_request_is_reported_and_dropped() {
    let mut node = node();
    let (outbound, request) = requested(&mut node, 1, 10);
    assert!(
        node.on_connection_handler_event(
            peer(1),
            ConnectionId(10),
            HandlerEvent::OutboundTimeout(request),
        )
        .is_none()
    );
    match node.poll() {
        Some(ToSwarm::GenerateEvent(Event::OutboundFailure { peer: p, outbound_id, error })) => {
            assert_eq!(p, peer(1));
            assert_eq!(outbound_id, OutboundId::new(1));
            assert!(matches!(error, OutboundError::Timeout));
        }
        _ => panic!("the failure is to be reported"),
    }
    assert!(matches!(wait(outbound), Err(GrpcOutboundMapError::SenderCanceled(_))));
    assert!(node.is_connected(&peer(1)));
}

#[test]
fn unsupported_protocol_is_reported_and_the_request_dropped() {
    let mut node = node();
    let (outbound, request) = requested(&mut node, 1, 10);
    node.on_connection_handler_event(
        peer(1),
        ConnectionId(10),
        HandlerEvent::OutboundUnsupportedProtocols(request),
    );
    match node.poll() {
        Some(ToSwarm::GenerateEvent(Event::OutboundFailure { outbound_id, error, .. })) => {
            assert_eq!(outbound_id, OutboundId::new(1));
            assert!(matches!(error, OutboundError::UnsupportedProtocol));
        }
        _ => panic!("the failure is to be reported"),
    }
    assert!(matches!(wait(outbound), Err(GrpcOutboundMapError::SenderCanceled(_))));
}

#[test]
fn failed_request_is_handed_back_unanswered() {
    let mut node = node();
    let (first, one) = requested(&mut node, 1, 10);
    let (second, two) = requested(&mut node, 2, 20);
    let step =
        node.step_handler_event(peer(1), ConnectionId(10), HandlerEvent::OutboundTimeout(one));
    assert!(step.forward.is_none() && step.job.is_none());
    assert_eq!(step.dropped.as_ref().unwrap().outbound_id, OutboundId::new(1));
    assert!(!step.dropped.as_ref().unwrap().sender.is_canceled());
    drop(step);
    assert!(matches!(wait(first), Err(GrpcOutboundMapError::SenderCanceled(_))));

    let event = HandlerEvent::OutboundUnsupportedProtocols(two);
    let step = node.step_handler_event(peer(2), ConnectionId(20), event);
    assert_eq!(step.dropped.as_ref().unwrap().outbound_id, OutboundId::new(2));
    drop(step);
    assert!(matches!(wait(second), Err(GrpcOutboundMapError::SenderCanceled(_))));
}

#[test]
fn every_requester_gets_its_own_channel_whatever_the_order() {
    let mut node = node();
    let (one, first) = requested(&mut node, 1, 10);
    let (two, second) = requested(&mut node, 2, 20);
    let (three, third) = requested(&mut node, 3, 30);
    node.on_grpc_channel(Ok(300), third, peer(3));
    node.on_swarm_event(closed(1, 10, 0));
    node.on_grpc_channel(Ok(100), first, peer(1));
    node.on_grpc_channel(Err("reset".to_string()), second, peer(2));
    assert_eq!(wait(one).unwrap(), (100, OutboundId::new(1)));
    assert_eq!(wait(three).unwrap(), (300, OutboundId::new(3)));
    match wait(two) {
        Err(GrpcOutboundMapError::OutboundError(OutboundError::GrpcChannel(error))) => {
            assert_eq!(error, "reset");
        }
        _ => panic!("the requester is to be told"),
    }
}

#[test]
fn released_connection_takes_no_channel() {
    let mut node = node();
    let (_outbound, request) = requested(&mut node, 1, 10);
    let late = OutboundRequest {
        peer: peer(1),
        outbound_id: request.outbound_id,
        sender: oneshot::channel().0,
    };
    node.on_connection_handler_event(
        peer(1),
        ConnectionId(10),
        HandlerEvent::OutboundTimeout(request),
    );
    let _ = node.poll();
    node.on_grpc_channel(Ok(1), late, peer(1));
    assert!(matches!(
        node.initiate_grpc_outbound(&peer(1)),
        GrpcOutbound::WaitingChannel { outbound_id: OutboundId(2), .. }
    ));
}

#[test]
fn failure_on_another_connection_releases_nothing() {
    let mut node = node();
    let (_outbound, request) = requested(&mut node, 1, 10);
    node.on_swarm_event(established(1, 11, 1));
    let stray = OutboundRequest {
        peer: peer(1),
        outbound_id: request.outbound_id,
        sender: oneshot::channel().0,
    };
    node.on_connection_handler_event(
        peer(1),
        ConnectionId(11),
        HandlerEvent::OutboundTimeout(stray),
    );
    let _ = node.poll();
    node.on_grpc_channel(Ok(6), request, peer(1));
    assert!(matches!(
        node.initiate_grpc_outbound(&peer(1)),
        GrpcOutbound::ServingChannel { outbound_id: OutboundId(1), channel: 6 }
    ));
}

#[test]
fn channel_is_lost_with_its_connection() {
    let mut node = node();
    let (_outbound, request) = requested(&mut node, 1, 10);
    node.on_grpc_channel(Ok(6), request, peer(1));
    node.on_swarm_event(closed(1, 10, 0));
    assert!(!node.is_connected(&peer(1)));
    assert!(matches!(
        node.initiate_grpc_outbound(&peer(1)),
        GrpcOutbound::WaitingChannel { outbound_id: OutboundId(2), .. }
    ));
}

#[test]
fn no_channel_outlives_its_connection() {
    let mut node: Behaviour<Rc<u8>, String, &'static str, u32> = Behaviour::new(peer(0), None);
    let channel = Rc::new(6);
    let outbound = node.initiate_grpc_outbound(&peer(1));
    let _ = node.poll();
    node.on_swarm_event(established(1, 10, 0));
    node.on_swarm_event(established(1, 11, 1));
    match node.poll() {
        Some(ToSwarm::NotifyHandler { event, .. }) => {
            drop(node.on_grpc_channel(Ok(channel.clone()), event, peer(1)));
        }
        _ => panic!("the handler is to be notified"),
    }
    drop(outbound);
    assert_eq!(Rc::strong_count(&channel), 2);
    node.on_swarm_event(closed(1, 11, 1));
    assert_eq!(Rc::strong_count(&channel), 2);
    node.on_swarm_event(closed(1, 10, 0));
    assert_eq!(Rc::strong_count(&channel), 1);
}

#[test]
fn channel_for_a_closed_connection_is_not_kept() {
    let mut node: Behaviour<Rc<u8>, String, &'static str, u32> = Behaviour::new(peer(0), None);
    let channel = Rc::new(6);
    let outbound = node.initiate_grpc_outbound(&peer(1));
    let _ = node.poll();
    node.on_swarm_event(established(1, 10, 0));
    let request = match node.poll() {
        Some(ToSwarm::NotifyHandler { event, .. }) => event,
        _ => panic!("the handler is to be notified"),
    };
    node.on_swarm_event(closed(1, 10, 0));
    drop(node.on_grpc_channel(Ok(channel.clone()), request, peer(1)));
    // The requester gets it all the same.
    assert_eq!(Rc::strong_count(&channel), 2);
    drop(outbound);
    assert_eq!(Rc::strong_count(&channel), 1);
}

#[test]
fn pending_request_is_answered_whatever_happens_in_between() {
    let mut node = node();
    let outbound = node.initiate_grpc_outbound(&peer(1));
    expect_dial(&mut node, 1);
    let _other = node.initiate_grpc_outbound(&peer(2));
    expect_dial(&mut node, 2);
    node.on_swarm_event(FromSwarm::DialFailure(DialFailure { peer_id: Some(peer(2)) }));
    let _ = node.poll();
    node.add_address(&peer(1), Multiaddr::from_bytes(vec![1]));
    node.on_swarm_event(FromSwarm::NewListener);
    node.on_swarm_event(established(1, 10, 0));
    let request = expect_request(&mut node, 1, 10);
    node.on_grpc_channel(Ok(31), request, peer(1));
    assert_eq!(wait(outbound).unwrap(), (31, OutboundId::new(1)));
}

#[test]
fn channel_outlives_other_connections() {
    let mut node = node();
    let (_outbound, request) = requested(&mut node, 1, 10);
    node.on_swarm_event(established(1, 11, 1));
    node.on_grpc_channel(Ok(6), request, peer(1));
    node.on_swarm_event(closed(1, 11, 1));
    assert!(matches!(
        node.initiate_grpc_outbound(&peer(1)),
        GrpcOutbound::ServingChannel { outbound_id: OutboundId(1), channel: 6 }
    ));
}

#[test]
fn first_connection_with_a_channel_is_asked() {
    let mut node = node();
    let (_first, one) = requested(&mut node, 1, 10);
    // The peer is connected, so the second request waits for a connection that counts as first.
    let _second = node.initiate_grpc_outbound(&peer(1));
    expect_dial(&mut node, 1);
    node.on_swarm_event(established(1, 11, 1));
    assert!(node.poll().is_none());
    node.on_swarm_event(established(1, 12, 0));
    let two = expect_request(&mut node, 1, 12);
    assert_eq!(two.outbound_id, OutboundId::new(2));

    node.on_grpc_channel(Ok(22), two, peer(1));
    assert!(matches!(
        node.initiate_grpc_outbound(&peer(1)),
        GrpcOutbound::ServingChannel { outbound_id: OutboundId(2), channel: 22 }
    ));
    node.on_grpc_channel(Ok(11), one, peer(1));
    assert!(matches!(
        node.initiate_grpc_outbound(&peer(1)),
        GrpcOutbound::ServingChannel { outbound_id: OutboundId(1), channel: 11 }
    ));
}

#[test]
fn peers_do_not_share_channels() {
    let mut node = node();
    let (_one, first) = requested(&mut node, 1, 10);
    let (_two, second) = requested(&mut node, 2, 20);
    node.on_grpc_channel(Ok(100), first, peer(1));
    assert!(matches!(
        node.initiate_grpc_outbound(&peer(2)),
        GrpcOutbound::WaitingChannel { outbound_id: OutboundId(3), .. }
    ));
    node.on_grpc_channel(Ok(200), second, peer(2));
    assert!(matches!(
        node.initiate_grpc_outbound(&peer(1)),
        GrpcOutbound::ServingChannel { outbound_id: OutboundId(1), channel: 100 }
    ));
    assert!(matches!(
        node.initiate_grpc_outbound(&peer(2)),
        GrpcOutbound::ServingChannel { outbound_id: OutboundId(2), channel: 200 }
    ));
}

#[test]
fn request_with_its_own_sender_is_answered_there() {
    let mut node = node();
    let (sender, receiver) = oneshot::channel();
    assert_eq!(node.request_outbound(&peer(1), sender), OutboundId::new(1));
    expect_dial(&mut node, 1);
    node.on_swarm_event(established(1, 10, 0));
    let request = expect_request(&mut node, 1, 10);
    node.on_grpc_channel(Ok(5), request, peer(1));
    assert!(matches!(block_on(receiver), Ok(Ok(5))));
}

#[test]
fn received_outcomes_are_mapped() {
    let id = OutboundId::new(12);
    let ok: Mapped = map_received(id, Ok(Ok(3)));
    assert_eq!(ok.unwrap(), (3, id));
    let failed: Mapped = map_received(id, Ok(Err(OutboundError::Timeout)));
    assert!(matches!(
        failed,
        Err(GrpcOutboundMapError::OutboundError(OutboundError::Timeout))
    ));
    let canceled: Mapped = map_received(id, Err(oneshot::Canceled));
    assert!(matches!(canceled, Err(GrpcOutboundMapError::SenderCanceled(_))));
}

#[test]
fn swarm_is_told_in_order_while_the_queue_shrinks() {
    let mut node = node();
    for round in 0..2u16 {
        for n in 0..200u16 {
            let id = [(n >> 8) as u8, n as u8, round as u8];
            let target = PeerId::from_multihash(1, &id).unwrap();
            let _ = node.initiate_grpc_outbound(&target);
        }
        for n in 0..200u16 {
            let id = [(n >> 8) as u8, n as u8, round as u8];
            let target = PeerId::from_multihash(1, &id).unwrap();
            match node.poll() {
                Some(ToSwarm::Dial { peer_id }) => assert_eq!(peer_id, target),
                _ => panic!("the peers are to be dialed"),
            }
        }
        assert!(node.poll().is_none());
        assert!(node.poll().is_none());
    }
}
