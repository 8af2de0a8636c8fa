//! What each thing that happens on a connection changes in its handler, and what the handler asks
//! for.

use crate::handler::{Event, HandlerState};
use crate::protocol::{InboundId, OutboundRequest};
use crate::swarm::{ConnectionEvent, ConnectionHandlerEvent, StreamUpgradeError};
use vstd::prelude::*;

verus! {

/// A handler starts with nothing but the protocol that its streams speak.
pub proof fn law_handler_starts_with_nothing<C, E, S, F>(protocol_name: Seq<char>)
    ensures
        ({
            let h = HandlerState::<C, E, S, F>::fresh(protocol_name);
            &&& h.protocol_name == protocol_name
            &&& h.outbounds.len() == 0
            &&& h.pending_error is None
            &&& h.pending_events.len() == 0
        }),
{
}

/// A request comes behind those that wait for their streams. Nothing else changes.
pub proof fn law_handler_queues_requests<C, E, S, F>(
    h: HandlerState<C, E, S, F>,
    request: OutboundRequest<C, E>,
)
    ensures
        h.requested(request).outbounds.len() == h.outbounds.len() + 1,
        h.requested(request).outbounds.last() == request,
        h.requested(request).outbounds.drop_last() == h.outbounds,
        h.requested(request).pending_error == h.pending_error,
        h.requested(request).pending_events == h.pending_events,
        h.requested(request).protocol_name == h.protocol_name,
{
    assert(h.requested(request).outbounds.drop_last() =~= h.outbounds);
}

/// A stream that is ready is reported with its identifier or its request, after all that was to be
/// reported before. Nothing else changes.
pub proof fn law_handler_reports_ready_streams<C, E, S, F>(
    h: HandlerState<C, E, S, F>,
    stream: S,
    inbound_id: InboundId,
    request: OutboundRequest<C, E>,
)
    ensures
        ({
            let t = h.after(
                ConnectionEvent::FullyNegotiatedInbound { protocol: stream, info: inbound_id },
            );
            &&& t.pending_events.len() == h.pending_events.len() + 1
            &&& t.pending_events.drop_last() == h.pending_events
            &&& t.pending_events.last() == Event::<C, E, S>::InboundStream { inbound_id, stream }
            &&& t.outbounds == h.outbounds
            &&& t.pending_error == h.pending_error
            &&& t.protocol_name == h.protocol_name
        }),
        ({
            let t = h.after(
                ConnectionEvent::FullyNegotiatedOutbound { protocol: stream, info: request },
            );
            &&& t.pending_events.len() == h.pending_events.len() + 1
            &&& t.pending_events.drop_last() == h.pending_events
            &&& t.pending_events.last() == Event::<C, E, S>::OutboundStream {
                outbound_request: request,
                stream,
            }
            &&& t.outbounds == h.outbounds
            &&& t.pending_error == h.pending_error
            &&& t.protocol_name == h.protocol_name
        }),
        h.after(ConnectionEvent::AddressChange) == h,
{
    assert(h.after(
        ConnectionEvent::FullyNegotiatedInbound { protocol: stream, info: inbound_id },
    ).pending_events.drop_last() =~= h.pending_events);
    assert(h.after(
        ConnectionEvent::FullyNegotiatedOutbound { protocol: stream, info: request },
    ).pending_events.drop_last() =~= h.pending_events);
}

/// A requested stream that took too long, or whose protocol the peer does not speak, is reported
/// with its request, after all that was to be reported before, and closes nothing. On any other
/// error the connection is to be closed for that error, and nothing is reported. Nothing else
/// changes.
pub proof fn law_handler_sorts_outbound_failures<C, E, S, F>(
    h: HandlerState<C, E, S, F>,
    request: OutboundRequest<C, E>,
    error: StreamUpgradeError<F>,
)
    ensures
        ({
            let t = h.after(ConnectionEvent::DialUpgradeError { info: request, error });
            &&& error is Timeout || error is NegotiationFailed ==> {
                &&& t.pending_events.len() == h.pending_events.len() + 1
                &&& t.pending_events.drop_last() == h.pending_events
                &&& t.pending_error == h.pending_error
            }
            &&& error is Timeout ==> t.pending_events.last() == Event::<
                C,
                E,
                S,
            >::OutboundTimeout(request)
            &&& error is NegotiationFailed ==> t.pending_events.last() == Event::<
                C,
                E,
                S,
            >::OutboundUnsupportedProtocols(request)
            &&& error is Apply || error is Io ==> {
                &&& t.pending_error == Some(error)
                &&& t.pending_events == h.pending_events
            }
            &&& t.outbounds == h.outbounds
            &&& t.protocol_name == h.protocol_name
        }),
{
    let t = h.after(ConnectionEvent::DialUpgradeError { info: request, error });
    if error is Timeout || error is NegotiationFailed {
        assert(t.pending_events.drop_last() =~= h.pending_events);
    }
}

/// A stream that the peer opened and that took too long, or whose protocol is not spoken here, is
/// reported with its identifier, after all that was to be reported before, and closes nothing. On
/// any other error the connection is to be closed for that error, and nothing is reported. Nothing
/// else changes.
pub proof fn law_handler_sorts_inbound_failures<C, E, S, F>(
    h: HandlerState<C, E, S, F>,
    inbound_id: InboundId,
    error: StreamUpgradeError<F>,
)
    ensures
        ({
            let t = h.after(ConnectionEvent::ListenUpgradeError { info: inbound_id, error });
            &&& error is Timeout || error is NegotiationFailed ==> {
                &&& t.pending_events.len() == h.pending_events.len() + 1
                &&& t.pending_events.drop_last() == h.pending_events
                &&& t.pending_error == h.pending_error
            }
            &&& error is Timeout ==> t.pending_events.last() == Event::<C, E, S>::InboundTimeout(
                inbound_id,
            )
            &&& error is NegotiationFailed ==> t.pending_events.last() == Event::<
                C,
                E,
                S,
            >::InboundUnsupportedProtocols(inbound_id)
            &&& error is Apply || error is Io ==> {
                &&& t.pending_error == Some(error)
                &&& t.pending_events == h.pending_events
            }
            &&& t.outbounds == h.outbounds
            &&& t.protocol_name == h.protocol_name
        }),
{
    let t = h.after(ConnectionEvent::ListenUpgradeError { info: inbound_id, error });
    if error is Timeout || error is NegotiationFailed {
        assert(t.pending_events.drop_last() =~= h.pending_events);
    }
}

/// A handler asks to close the connection exactly when an error is pending; else it passes on its
/// oldest event, if any; else it asks for a stream, in its protocol, for its oldest request, if any;
/// else for nothing.
pub proof fn law_handler_asks_in_turn<C, E, S, F>(
    h: HandlerState<C, E, S, F>,
    asked: Option<ConnectionHandlerEvent<C, E, Event<C, E, S>, F>>,
)
    requires
        h.asks_for(asked),
    ensures
        asked is None <==> h.pending_error is None && h.pending_events.len() == 0
            && h.outbounds.len() == 0,
        asked is Some ==> match asked->0 {
            ConnectionHandlerEvent::Close(error) => h.pending_error == Some(error),
            ConnectionHandlerEvent::Custom(event) => h.pending_error is None
                && h.pending_events.len() > 0 && event == h.pending_events[0],
            ConnectionHandlerEvent::OutboundSubstreamRequest { protocol } => h.pending_error is None
                && h.pending_events.len() == 0 && h.outbounds.len() > 0 && protocol.info
                == h.outbounds[0] && protocol.upgrade.protocol_name@ == h.protocol_name,
        },
{
}

/// What a handler asked for is taken from what it has, once, and the rest moves up. Nothing else
/// changes.
pub proof fn law_handler_asks_once<C, E, S, F>(h: HandlerState<C, E, S, F>)
    ensures
        ({
            let t = h.polled();
            let events = h.pending_error is None && h.pending_events.len() > 0;
            let requests = h.pending_error is None && h.pending_events.len() == 0
                && h.outbounds.len() > 0;
            &&& t.protocol_name == h.protocol_name
            &&& t.pending_error is None
            &&& !events ==> t.pending_events == h.pending_events
            &&& events ==> t.pending_events.len() == h.pending_events.len() - 1
            &&& events ==> forall|i: int|
                0 <= i < h.pending_events.len() - 1 ==> #[trigger] t.pending_events[i]
                    == h.pending_events[i + 1]
            &&& !requests ==> t.outbounds == h.outbounds
            &&& requests ==> t.outbounds.len() == h.outbounds.len() - 1
            &&& requests ==> forall|i: int|
                0 <= i < h.outbounds.len() - 1 ==> #[trigger] t.outbounds[i] == h.outbounds[i + 1]
        }),
{
}

} // verus!
