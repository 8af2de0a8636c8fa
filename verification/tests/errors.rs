use futures::channel::oneshot;
use libp2p_grpc_rs::OutboundError;
use libp2p_grpc_rs::error::{GrpcOutboundMapError, InboundError};
use libp2p_grpc_rs::protocol::OutboundId;

#[test]
fn inbound_errors_describe_themselves() {
    assert_eq!(InboundError::Timeout.message(), "reading the inbound request timed out");
    assert_eq!(
        InboundError::ConnectionClosed.message(),
        "the connection closed before a response could be send"
    );
    assert_eq!(
        InboundError::UnsupportedProtocol.message(),
        "the local peer supports none of the protocol requested by the remote"
    );
}

#[test]
fn outbound_errors_describe_themselves() {
    let errors: Vec<(OutboundError<String>, &str)> = vec![
        (OutboundError::DialFailure, "Failed to dial the requested peer"),
        (OutboundError::Timeout, "the request timed out before a response was received"),
        (
            OutboundError::UnsupportedProtocol,
            "the remote supports none of the requested protocol",
        ),
    ];
    for (error, text) in errors {
        assert_eq!(error.message(), text);
    }
}

#[test]
fn transport_error_speaks_for_itself() {
    let error: OutboundError<u32> = OutboundError::GrpcChannel(404);
    assert_eq!(error.message(), "404");
}

#[test]
fn map_errors_describe_themselves() {
    let pending: GrpcOutboundMapError<String> =
        GrpcOutboundMapError::PrevOutbondPending(OutboundId::new(3));
    assert_eq!(pending.message(), "the prev gRPC outbound request is pending");

    let failed: GrpcOutboundMapError<String> =
        GrpcOutboundMapError::OutboundError(OutboundError::Timeout);
    assert_eq!(failed.message(), "the request timed out before a response was received");

    let transport: GrpcOutboundMapError<String> =
        GrpcOutboundMapError::OutboundError(OutboundError::GrpcChannel("refused".to_string()));
    assert_eq!(transport.message(), "refused");

    let canceled: GrpcOutboundMapError<String> =
        GrpcOutboundMapError::SenderCanceled(oneshot::Canceled);
    assert_eq!(canceled.message(), "oneshot canceled");
}
