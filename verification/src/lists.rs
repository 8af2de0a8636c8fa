//! Short lists, kept in place as long as they are short: the connections of a peer, and its known
//! addresses.

use crate::net::{ConnectionId, Multiaddr, address_other_than};
use crate::protocol::OutboundId;
use smallvec::SmallVec;
use vstd::prelude::*;

verus! {

/// An established connection to a peer.
#[derive(Debug)]
pub struct Connection {
    /// Identifies the connection.
    pub id: ConnectionId,
    /// The address that was dialed, where the local node did dial.
    pub target_address: Option<Multiaddr>,
    /// The request that the connection serves. The channel that it led to, once there is one, is
    /// kept under the request's identifier.
    pub serving_request: Option<OutboundId>,
}

impl Connection {
    /// A connection that serves no request yet.
    pub fn new(id: ConnectionId, address: Option<Multiaddr>) -> (connection: Connection)
        ensures
            connection == (Connection { id, target_address: address, serving_request: None }),
    {
        Connection { id, target_address: address, serving_request: None }
    }
}

/// The connections of a peer, in the order in which they were established.
#[verifier::external_body]
pub struct ConnectionList {
    inner: SmallVec<[Connection; 2]>,
}

/// What the list holds, first to last.
pub uninterp spec fn connections_in(list: ConnectionList) -> Seq<Connection>;

impl View for ConnectionList {
    type V = Seq<Connection>;

    open spec fn view(&self) -> Seq<Connection> {
        connections_in(*self)
    }
}

impl ConnectionList {
    /// `SmallVec::new`: a list that holds nothing.
    #[verifier::external_body]
    pub(crate) fn new() -> (list: ConnectionList)
        ensures
            connections_in(list) == Seq::<Connection>::empty(),
    {
        ConnectionList { inner: SmallVec::new() }
    }

    /// `SmallVec::push`: puts `connection` behind what the list holds.
    #[verifier::external_body]
    pub(crate) fn push(&mut self, connection: Connection)
        ensures
            connections_in(*final(self)) == connections_in(*old(self)).push(connection),
    {
        self.inner.push(connection)
    }

    /// `SmallVec::as_slice`: all that the list holds, in its order.
    #[verifier::external_body]
    pub(crate) fn as_slice(&self) -> (slice: &[Connection])
        ensures
            slice@ == connections_in(*self),
    {
        self.inner.as_slice()
    }

    /// `SmallVec::as_mut_slice`: all that the list holds, in its order. What is written to the
    /// slice is in the list afterwards.
    #[verifier::external_body]
    pub(crate) fn as_mut_slice(&mut self) -> (slice: &mut [Connection])
        ensures
            slice@ == connections_in(*old(self)),
            connections_in(*final(self)) == final(slice)@,
    {
        self.inner.as_mut_slice()
    }

    /// `SmallVec::remove`: takes out what is at `index`, and closes the gap.
    #[verifier::external_body]
    pub(crate) fn remove(&mut self, index: usize) -> (removed: Connection)
        requires
            index < connections_in(*old(self)).len(),
        ensures
            removed == connections_in(*old(self))[index as int],
            connections_in(*final(self)) == connections_in(*old(self)).remove(index as int),
    {
        self.inner.remove(index)
    }
}

/// The known addresses of a peer, in the order in which they were added.
#[verifier::external_body]
pub struct AddressList {
    inner: SmallVec<[Multiaddr; 6]>,
}

/// What the list holds, first to last.
pub uninterp spec fn addresses_in(list: AddressList) -> Seq<Multiaddr>;

impl View for AddressList {
    type V = Seq<Multiaddr>;

    open spec fn view(&self) -> Seq<Multiaddr> {
        addresses_in(*self)
    }
}

impl AddressList {
    /// `SmallVec::new`: a list that holds nothing.
    #[verifier::external_body]
    pub(crate) fn new() -> (list: AddressList)
        ensures
            addresses_in(list) == Seq::<Multiaddr>::empty(),
    {
        AddressList { inner: SmallVec::new() }
    }

    /// `SmallVec::push`: puts `address` behind what the list holds.
    #[verifier::external_body]
    pub(crate) fn push(&mut self, address: Multiaddr)
        ensures
            addresses_in(*final(self)) == addresses_in(*old(self)).push(address),
    {
        self.inner.push(address)
    }

    /// `SmallVec::as_slice`: all that the list holds, in its order.
    #[verifier::external_body]
    pub(crate) fn as_slice(&self) -> (slice: &[Multiaddr])
        ensures
            slice@ == addresses_in(*self),
    {
        self.inner.as_slice()
    }

    /// `SmallVec::retain`: keeps, in their order, the addresses of which
    /// [`Multiaddr::differs`] holds against `address`.
    #[verifier::external_body]
    pub(crate) fn retain_others(&mut self, address: &Multiaddr)
        ensures
            addresses_in(*final(self)) == addresses_in(*old(self)).filter(
                address_other_than(address@),
            ),
    {
        self.inner.retain(|kept| kept.differs(address))
    }
}

} // verus!
