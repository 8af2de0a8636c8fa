//! What can go wrong, on either side of a stream.

use crate::protocol::OutboundId;
use futures::channel::oneshot;
use vstd::prelude::*;
use vstd::string::to_string_from_display_ensures;

verus! {

/// Why an inbound stream came to nothing.
#[derive(Copy, Clone, Debug, PartialEq, Eq, Structural)]
pub enum InboundError {
    /// Reading the inbound request timed out.
    Timeout,
    /// The connection closed before a response could be sent.
    ConnectionClosed,
    /// The local peer supports none of the protocols that the remote requested.
    UnsupportedProtocol,
}

impl InboundError {
    /// The text that describes this error.
    pub open spec fn spec_message(self) -> Seq<char> {
        match self {
            InboundError::Timeout => "reading the inbound request timed out"@,
            InboundError::ConnectionClosed =>
                "the connection closed before a response could be send"@,
            InboundError::UnsupportedProtocol =>
                "the local peer supports none of the protocol requested by the remote"@,
        }
    }

    /// The text that describes this error.
    pub fn message(&self) -> (text: String)
        ensures
            text@ == self.spec_message(),
    {
        match self {
            InboundError::Timeout => "reading the inbound request timed out".to_string(),
            InboundError::ConnectionClosed =>
                "the connection closed before a response could be send".to_string(),
            InboundError::UnsupportedProtocol =>
                "the local peer supports none of the protocol requested by the remote".to_string(),
        }
    }
}

/// Why an outbound request got no channel. `E` is the error of the gRPC transport.
#[derive(Debug)]
pub enum OutboundError<E> {
    /// The requested peer could not be dialed.
    DialFailure,
    /// The request timed out before a response was received.
    Timeout,
    /// The gRPC transport could not make a channel of the stream.
    GrpcChannel(E),
    /// The remote supports none of the requested protocols.
    UnsupportedProtocol,
}

impl<E: core::fmt::Display> OutboundError<E> {
    /// Whether `text` describes this error. A failure of the gRPC transport is described by the
    /// transport's own text.
    pub open spec fn described_by(self, text: String) -> bool {
        match self {
            OutboundError::DialFailure => text@ == "Failed to dial the requested peer"@,
            OutboundError::Timeout =>
                text@ == "the request timed out before a response was received"@,
            OutboundError::GrpcChannel(error) => to_string_from_display_ensures::<E>(
                &error,
                text,
            ),
            OutboundError::UnsupportedProtocol =>
                text@ == "the remote supports none of the requested protocol"@,
        }
    }

    /// The text that describes this error.
    pub fn message(&self) -> (text: String)
        ensures
            self.described_by(text),
    {
        match self {
            OutboundError::DialFailure => "Failed to dial the requested peer".to_string(),
            OutboundError::Timeout =>
                "the request timed out before a response was received".to_string(),
            OutboundError::GrpcChannel(error) => error.to_string(),
            OutboundError::UnsupportedProtocol =>
                "the remote supports none of the requested protocol".to_string(),
        }
    }
}

/// Why a requested channel could not be handed out.
#[derive(Debug)]
pub enum GrpcOutboundMapError<E> {
    /// An earlier request to the same peer is still pending, under this identifier.
    PrevOutbondPending(OutboundId),
    /// The request failed.
    OutboundError(OutboundError<E>),
    /// The request was dropped without an answer.
    SenderCanceled(oneshot::Canceled),
}

impl<E: core::fmt::Display> GrpcOutboundMapError<E> {
    /// Whether `text` describes this error. Failures that come from elsewhere are described by
    /// their own text.
    pub open spec fn described_by(self, text: String) -> bool {
        match self {
            GrpcOutboundMapError::PrevOutbondPending(_) =>
                text@ == "the prev gRPC outbound request is pending"@,
            GrpcOutboundMapError::OutboundError(error) => error.described_by(text),
            GrpcOutboundMapError::SenderCanceled(_) => text@ == "oneshot canceled"@,
        }
    }

    /// The text that describes this error.
    pub fn message(&self) -> (text: String)
        ensures
            self.described_by(text),
    {
        match self {
            GrpcOutboundMapError::PrevOutbondPending(_) =>
                "the prev gRPC outbound request is pending".to_string(),
            GrpcOutboundMapError::OutboundError(error) => error.message(),
            GrpcOutboundMapError::SenderCanceled(canceled) => canceled_text(canceled),
        }
    }
}

/// `futures::channel::oneshot::Canceled` as text, by its `Display`: always the same words.
#[verifier::external_body]
fn canceled_text(canceled: &oneshot::Canceled) -> (text: String)
    ensures
        text@ == "oneshot canceled"@,
{
    canceled.to_string()
}

} // verus!
