//! Identifiers of streams, requests for outbound streams, and the protocol that they speak.

use crate::error::OutboundError;
use crate::net::PeerId;
use futures::channel::oneshot;
use vstd::prelude::*;
use vstd::string::StringExecFns;

verus! {

/// The protocol that streams speak unless another one is configured.
pub const DEFAULT_PROTOCOL_NAME: &'static str = "/libp2p/grpc/1.0.0";

/// The identifier that the first inbound stream of a node gets.
pub const FIRST_INBOUND_ID: u64 = 1;

/// The identifier that the first outbound request of a node gets.
pub const FIRST_OUTBOUND_ID: u64 = 1;

/// The decimal digits of `n`, most significant first.
pub open spec fn decimal(n: nat) -> Seq<char>
    decreases n,
{
    if n < 10 {
        seq![decimal_digit(n)]
    } else {
        decimal(n / 10).push(decimal_digit(n % 10))
    }
}

/// The digit for `n`, which is below ten.
pub open spec fn decimal_digit(n: nat) -> char {
    ('0' as u32 + n) as char
}

fn digit_text(n: u64) -> (text: &'static str)
    requires
        n < 10,
    ensures
        text@ == seq![decimal_digit(n as nat)],
{
    proof {
        reveal_strlit("0");
        reveal_strlit("1");
        reveal_strlit("2");
        reveal_strlit("3");
        reveal_strlit("4");
        reveal_strlit("5");
        reveal_strlit("6");
        reveal_strlit("7");
        reveal_strlit("8");
        reveal_strlit("9");
    }
    let text: &'static str = match n {
        0 => "0",
        1 => "1",
        2 => "2",
        3 => "3",
        4 => "4",
        5 => "5",
        6 => "6",
        7 => "7",
        8 => "8",
        _ => "9",
    };
    assert(text@ =~= seq![decimal_digit(n as nat)]);
    text
}

fn decimal_text(n: u64) -> (text: String)
    ensures
        text@ == decimal(n as nat),
    decreases n,
{
    if n < 10 {
        digit_text(n).to_string()
    } else {
        let mut text: String = decimal_text(n / 10);
        text.append(digit_text(n % 10));
        assert(text@ =~= decimal((n / 10) as nat).push(decimal_digit((n % 10) as nat)));
        text
    }
}

/// Identifier of a request for an outbound stream.
#[derive(Copy, Clone, Debug, PartialEq, Eq, Hash, Structural)]
pub struct OutboundId(pub u64);

impl OutboundId {
    /// The identifier with the number `n`.
    pub fn new(n: u64) -> (id: OutboundId)
        ensures
            id == OutboundId(n),
    {
        OutboundId(n)
    }

    /// Moves on by `rhs`.
    pub fn add_assign(&mut self, rhs: u64)
        requires
            old(self).0 + rhs <= u64::MAX,
        ensures
            final(self).0 == old(self).0 + rhs,
    {
        self.0 = self.0 + rhs;
    }

    /// The number in decimal digits.
    pub fn to_string(&self) -> (text: String)
        ensures
            text@ == decimal(self.0 as nat),
    {
        decimal_text(self.0)
    }
}

impl Default for OutboundId {
    fn default() -> (id: OutboundId)
        ensures
            id == OutboundId(0),
    {
        OutboundId(0)
    }
}

/// Identifier of an inbound stream.
#[derive(Copy, Clone, Debug, PartialEq, Eq, Hash, Structural)]
pub struct InboundId(pub u64);

impl InboundId {
    /// The identifier with the number `n`.
    pub fn new(n: u64) -> (id: InboundId)
        ensures
            id == InboundId(n),
    {
        InboundId(n)
    }

    /// Moves on by `rhs`.
    pub fn add_assign(&mut self, rhs: u64)
        requires
            old(self).0 + rhs <= u64::MAX,
        ensures
            final(self).0 == old(self).0 + rhs,
    {
        self.0 = self.0 + rhs;
    }

    /// The number in decimal digits.
    pub fn to_string(&self) -> (text: String)
        ensures
            text@ == decimal(self.0 as nat),
    {
        decimal_text(self.0)
    }
}

impl Default for InboundId {
    fn default() -> (id: InboundId)
        ensures
            id == InboundId(0),
    {
        InboundId(0)
    }
}

/// The number that follows `n` in a counter of 64 bits, which starts over at its end.
pub open spec fn successor(n: u64) -> u64 {
    if n == u64::MAX {
        0
    } else {
        (n + 1) as u64
    }
}

/// Draws the identifiers of inbound streams, in ascending order.
///
/// All connections of a node draw from one generator, each in its turn.
#[derive(Debug)]
pub struct InboundIdGen {
    n: u64,
}

impl View for InboundIdGen {
    type V = u64;

    /// The number that is drawn next.
    closed spec fn view(&self) -> u64 {
        self.n
    }
}

impl InboundIdGen {
    /// A generator that draws `start` first.
    pub fn new(start: u64) -> (ids: InboundIdGen)
        ensures
            ids@ == start,
    {
        InboundIdGen { n: start }
    }

    /// The generator of a node, which draws [`FIRST_INBOUND_ID`] first.
    pub fn for_node() -> (ids: InboundIdGen)
        ensures
            ids@ == FIRST_INBOUND_ID,
    {
        InboundIdGen::new(FIRST_INBOUND_ID)
    }

    /// Draws an identifier.
    pub fn next(&mut self) -> (id: InboundId)
        ensures
            id == InboundId(old(self)@),
            final(self)@ == successor(old(self)@),
    {
        let n: u64 = self.n;
        self.n = n.wrapping_add(1);
        InboundId::new(n)
    }
}

impl Default for InboundIdGen {
    fn default() -> (ids: InboundIdGen)
        ensures
            ids@ == 0,
    {
        InboundIdGen::new(0)
    }
}

/// A request for a stream to a peer, on which a gRPC channel is to run.
#[derive(Debug)]
#[verifier::reject_recursive_types(C)]
#[verifier::reject_recursive_types(E)]
pub struct OutboundRequest<C, E> {
    /// The peer that the stream is to reach.
    pub peer: PeerId,
    /// Identifies the request.
    pub outbound_id: OutboundId,
    /// Where the requester waits for the channel.
    pub sender: oneshot::Sender<Result<C, OutboundError<E>>>,
}

/// The upgrade of a stream to the gRPC protocol: the stream is used as it is.
#[derive(Debug)]
pub struct DirectGrpcUpgradeProtocol {
    /// The name under which the protocol is negotiated.
    pub protocol_name: String,
}

impl DirectGrpcUpgradeProtocol {
    /// The names to negotiate: only the one.
    pub fn protocol_info(&self) -> (name: String)
        ensures
            name == self.protocol_name,
    {
        self.protocol_name.clone()
    }

    /// Upgrades an outbound stream.
    pub fn upgrade_outbound<S>(self, stream: S) -> (upgraded: S)
        ensures
            upgraded == stream,
    {
        stream
    }

    /// Upgrades an inbound stream.
    pub fn upgrade_inbound<S>(self, stream: S) -> (upgraded: S)
        ensures
            upgraded == stream,
    {
        stream
    }
}

} // verus!
