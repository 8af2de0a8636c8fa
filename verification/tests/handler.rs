use futures::channel::oneshot;
use libp2p_grpc_rs::handler::{Event, Handler};
use libp2p_grpc_rs::net::PeerId;
use libp2p_grpc_rs::protocol::{InboundId, InboundIdGen, OutboundId, OutboundRequest};
use libp2p_grpc_rs::queue::EMPTY_QUEUE_SHRINK_THRESHOLD;
use libp2p_grpc_rs::swarm::{ConnectionEvent, ConnectionHandlerEvent, StreamUpgradeError};

type Subject = Handler<u64, String, u32, &'static str>;

fn request(n: u64) -> OutboundRequest<u64, String> {
    OutboundRequest {
        peer: PeerId::from_multihash(0, &[9]).unwrap(),
        outbound_id: OutboundId::new(n),
        sender: oneshot::channel().0,
    }
}

fn handler() -> Subject {
    Handler::new("/test/1".to_string())
}

#[test]
fn fresh_handler_has_nothing_to_ask_for() {
    assert!(handler().poll().is_none());
}

#[test]
fn handler_keeps_its_connection() {
    assert!(handler().connection_keep_alive());
}

#[test]
fn listening_draws_one_id_after_the_other() {
    let mut ids = InboundIdGen::new(1);
    let one = handler();
    let other: Subject = Handler::new("/test/2".to_string());

    let first = one.listen_protocol(&mut ids);
    assert_eq!(first.info, InboundId::new(1));
    assert_eq!(first.upgrade.protocol_name, "/test/1");
    let second = other.listen_protocol(&mut ids);
    assert_eq!(second.info, InboundId::new(2));
    assert_eq!(second.upgrade.protocol_name, "/test/2");
    assert_eq!(one.listen_protocol(&mut ids).info, InboundId::new(3));
}

#[test]
fn requested_streams_are_opened_in_order() {
    let mut h = handler();
    h.on_behaviour_event(request(5));
    h.on_behaviour_event(request(3));
    for expected in [5, 3] {
        match h.poll() {
            Some(ConnectionHandlerEvent::OutboundSubstreamRequest { protocol }) => {
                assert_eq!(protocol.upgrade.protocol_name, "/test/1");
                assert_eq!(protocol.info.outbound_id, OutboundId::new(expected));
            }
            _ => panic!("a stream is to be opened"),
        }
    }
    assert!(h.poll().is_none());
}

#[test]
fn inbound_stream_is_reported() {
    let mut h = handler();
    h.on_connection_event(ConnectionEvent::FullyNegotiatedInbound {
        protocol: 77,
        info: InboundId::new(4),
    });
    match h.poll() {
        Some(ConnectionHandlerEvent::Custom(Event::InboundStream { inbound_id, stream })) => {
            assert_eq!(inbound_id, InboundId::new(4));
            assert_eq!(stream, 77);
        }
        _ => panic!("the stream is to be reported"),
    }
    assert!(h.poll().is_none());
}

#[test]
fn outbound_stream_is_reported_with_its_request() {
    let mut h = handler();
    h.on_connection_event(ConnectionEvent::FullyNegotiatedOutbound {
        protocol: 78,
        info: request(6),
    });
    match h.poll() {
        Some(ConnectionHandlerEvent::Custom(Event::OutboundStream {
            outbound_request,
            stream,
        })) => {
            assert_eq!(outbound_request.outbound_id, OutboundId::new(6));
            assert_eq!(stream, 78);
        }
        _ => panic!("the stream is to be reported"),
    }
}

#[test]
fn address_change_is_of_no_consequence() {
    let mut h = handler();
    h.on_connection_event(ConnectionEvent::AddressChange);
    assert!(h.poll().is_none());
}

#[test]
fn timeouts_are_reported() {
    let mut h = handler();
    h.on_connection_event(ConnectionEvent::DialUpgradeError {
        info: request(1),
        error: StreamUpgradeError::Timeout,
    });
    h.on_connection_event(ConnectionEvent::ListenUpgradeError {
        info: InboundId::new(2),
        error: StreamUpgradeError::Timeout,
    });
    match h.poll() {
        Some(ConnectionHandlerEvent::Custom(Event::OutboundTimeout(req))) => {
            assert_eq!(req.outbound_id, OutboundId::new(1));
        }
        _ => panic!("the outbound timeout comes first"),
    }
    match h.poll() {
        Some(ConnectionHandlerEvent::Custom(Event::InboundTimeout(id))) => {
            assert_eq!(id, InboundId::new(2));
        }
        _ => panic!("the inbound timeout comes second"),
    }
    assert!(h.poll().is_none());
}

#[test]
fn unsupported_protocols_are_reported() {
    let mut h = handler();
    h.on_connection_event(ConnectionEvent::ListenUpgradeError {
        info: InboundId::new(2),
        error: StreamUpgradeError::NegotiationFailed,
    });
    h.on_connection_event(ConnectionEvent::DialUpgradeError {
        info: request(1),
        error: StreamUpgradeError::NegotiationFailed,
    });
    match h.poll() {
        Some(ConnectionHandlerEvent::Custom(Event::InboundUnsupportedProtocols(id))) => {
            assert_eq!(id, InboundId::new(2));
        }
        _ => panic!("the inbound failure comes first"),
    }
    match h.poll() {
        Some(ConnectionHandlerEvent::Custom(Event::OutboundUnsupportedProtocols(req))) => {
            assert_eq!(req.outbound_id, OutboundId::new(1));
        }
        _ => panic!("the outbound failure comes second"),
    }
}

#[test]
fn other_errors_close_the_connection() {
    let mut h = handler();
    h.on_connection_event(ConnectionEvent::DialUpgradeError {
        info: request(1),
        error: StreamUpgradeError::Apply("broken"),
    });
    match h.poll() {
        Some(ConnectionHandlerEvent::Close(StreamUpgradeError::Apply(error))) => {
            assert_eq!(error, "broken");
        }
        _ => panic!("the connection is to be closed"),
    }

    h.on_connection_event(ConnectionEvent::ListenUpgradeError {
        info: InboundId::new(1),
        error: StreamUpgradeError::Io("reset"),
    });
    match h.poll() {
        Some(ConnectionHandlerEvent::Close(StreamUpgradeError::Io(error))) => {
            assert_eq!(error, "reset");
        }
        _ => panic!("the connection is to be closed"),
    }
    assert!(h.poll().is_none());
}

#[test]
fn fatal_error_lets_the_request_go_unanswered() {
    let mut h = handler();
    let (sender, mut receiver) = oneshot::channel();
    let info = OutboundRequest {
        peer: PeerId::from_multihash(0, &[9]).unwrap(),
        outbound_id: OutboundId::new(1),
        sender,
    };
    h.on_connection_event(ConnectionEvent::DialUpgradeError {
        info,
        error: StreamUpgradeError::Io("reset"),
    });
    assert!(receiver.try_recv().is_err());
    assert!(matches!(h.poll(), Some(ConnectionHandlerEvent::Close(_))));
    assert!(h.poll().is_none());
}

#[test]
fn later_fatal_error_replaces_the_earlier() {
    let mut h = handler();
    for text in ["one", "two"] {
        h.on_connection_event(ConnectionEvent::ListenUpgradeError {
            info: InboundId::new(1),
            error: StreamUpgradeError::Io(text),
        });
    }
    assert!(matches!(
        h.poll(),
        Some(ConnectionHandlerEvent::Close(StreamUpgradeError::Io("two")))
    ));
    assert!(h.poll().is_none());
}

#[test]
fn errors_come_before_events_and_events_before_requests() {
    let mut h = handler();
    h.on_behaviour_event(request(9));
    h.on_connection_event(ConnectionEvent::FullyNegotiatedInbound {
        protocol: 1,
        info: InboundId::new(1),
    });
    h.on_connection_event(ConnectionEvent::ListenUpgradeError {
        info: InboundId::new(2),
        error: StreamUpgradeError::Io("reset"),
    });
    assert!(matches!(h.poll(), Some(ConnectionHandlerEvent::Close(_))));
    assert!(matches!(
        h.poll(),
        Some(ConnectionHandlerEvent::Custom(Event::InboundStream { .. }))
    ));
    assert!(matches!(
        h.poll(),
        Some(ConnectionHandlerEvent::OutboundSubstreamRequest { .. })
    ));
    assert!(h.poll().is_none());
}

#[test]
fn many_events_stay_in_order_while_the_queue_shrinks() {
    assert_eq!(EMPTY_QUEUE_SHRINK_THRESHOLD, 100);
    let mut h = handler();
    for round in 0..2u64 {
        for n in 0..500u64 {
            h.on_connection_event(ConnectionEvent::FullyNegotiatedInbound {
                protocol: n as u32,
                info: InboundId::new(round * 1000 + n),
            });
        }
        for n in 0..500u64 {
            match h.poll() {
                Some(ConnectionHandlerEvent::Custom(Event::InboundStream {
                    inbound_id,
                    stream,
                })) => {
                    assert_eq!(inbound_id, InboundId::new(round * 1000 + n));
                    assert_eq!(stream, n as u32);
                }
                _ => panic!("the streams are to be reported"),
            }
        }
        assert!(h.poll().is_none());
        assert!(h.poll().is_none());
    }
}
