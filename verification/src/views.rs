//! What the lists of connections and addresses, together with the table of channels, amount to.

use crate::lists::{AddressList, Connection, ConnectionList};
use crate::net::{ConnectionId, PeerId, address_views};
use crate::protocol::OutboundId;
use crate::state::{ConnectionView, State, has_id, is_position, lemma_position_is, position};
use vstd::prelude::*;

verus! {

/// What is known of `connection`, whose channel is kept among `channels`.
pub open spec fn connection_view<C>(connection: Connection, channels: Map<u64, C>) -> ConnectionView<C> {
    ConnectionView {
        id: connection.id,
        target_address: match connection.target_address {
            Some(address) => Some(address@),
            None => None,
        },
        serving_channel: match connection.serving_request {
            Some(id) => Some(
                (
                    id,
                    if channels.contains_key(id.0) {
                        Some(channels[id.0])
                    } else {
                        None
                    },
                ),
            ),
            None => None,
        },
    }
}

/// What is known of the connections in `list`.
pub open spec fn connections_view<C>(list: Seq<Connection>, channels: Map<u64, C>) -> Seq<
    ConnectionView<C>,
> {
    Seq::new(list.len(), |i: int| connection_view(list[i], channels))
}

/// What is known of the connections of all peers.
pub open spec fn connected_view<C>(connected: Map<PeerId, ConnectionList>, channels: Map<u64, C>) -> Map<
    PeerId,
    Seq<ConnectionView<C>>,
> {
    Map::new(
        |peer: PeerId| connected.contains_key(peer),
        |peer: PeerId| connections_view(connected[peer]@, channels),
    )
}

/// Whether each of `channels` belongs to a connection, by the request that it serves.
pub open spec fn all_served<C, E, R, S>(channels: Map<u64, C>, s: State<C, E, R, S>) -> bool {
    forall|n: u64| #[trigger]
        channels.contains_key(n) ==> exists|p: PeerId, i: int|
            #[trigger] s.serves(p, i, OutboundId(n))
}

/// The binary forms of the known addresses of all peers.
pub open spec fn addresses_view(addresses: Map<PeerId, AddressList>) -> Map<PeerId, Seq<Seq<u8>>> {
    Map::new(
        |peer: PeerId| addresses.contains_key(peer),
        |peer: PeerId| address_views(addresses[peer]@),
    )
}

/// A connection is known where it comes first in the list.
pub proof fn lemma_position<C>(list: Seq<Connection>, channels: Map<u64, C>, id: ConnectionId, i: int)
    requires
        0 <= i < list.len(),
        list[i].id == id,
        forall|j: int| 0 <= j < i ==> list[j].id != id,
    ensures
        position(connections_view(list, channels), id) == i,
        has_id(connections_view(list, channels), id),
{
    let view = connections_view(list, channels);
    assert(is_position(view, id, i));
    lemma_position_is(view, id, i);
}

/// Another list for a peer is what is known of that list, for that peer.
pub proof fn lemma_connected_insert<C>(
    connected: Map<PeerId, ConnectionList>,
    channels: Map<u64, C>,
    peer: PeerId,
    list: ConnectionList,
)
    ensures
        connected_view(connected.insert(peer, list), channels) == connected_view(
            connected,
            channels,
        ).insert(peer, connections_view(list@, channels)),
{
    assert(connected_view(connected.insert(peer, list), channels) =~= connected_view(
        connected,
        channels,
    ).insert(peer, connections_view(list@, channels)));
}

/// Without its list, nothing is known of the connections of a peer.
pub proof fn lemma_connected_remove<C>(
    connected: Map<PeerId, ConnectionList>,
    channels: Map<u64, C>,
    peer: PeerId,
)
    ensures
        connected_view(connected.remove(peer), channels) == connected_view(
            connected,
            channels,
        ).remove(peer),
{
    assert(connected_view(connected.remove(peer), channels) =~= connected_view(
        connected,
        channels,
    ).remove(peer));
}

/// The channels, without that of the request `n` where there is one.
pub open spec fn without<C>(channels: Map<u64, C>, n: Option<OutboundId>) -> Map<u64, C> {
    match n {
        Some(id) => channels.remove(id.0),
        None => channels,
    }
}

/// One connection serves another request from now on, and the channel of the one that it served is
/// forgotten: nothing changes for the other connections, because none of them served that request.
pub proof fn lemma_serving_changed<C, E, R, S>(
    s: State<C, E, R, S>,
    connected: Map<PeerId, ConnectionList>,
    channels: Map<u64, C>,
    peer: PeerId,
    list: ConnectionList,
    i: int,
    request: Option<OutboundId>,
)
    requires
        s.ids_unique(),
        s.connected == connected_view(connected, channels),
        connected.contains_key(peer),
        0 <= i < connected[peer]@.len(),
        list@ == connected[peer]@.update(
            i,
            Connection { serving_request: request, ..connected[peer]@[i] },
        ),
        request is Some ==> !channels.contains_key((request->0).0),
    ensures
        connected_view(
            connected.insert(peer, list),
            without(channels, connected[peer]@[i].serving_request),
        ) == s.connected.insert(
            peer,
            s.connected[peer].update(
                i,
                ConnectionView {
                    serving_channel: match request {
                        Some(id) => Some((id, None)),
                        None => None,
                    },
                    ..s.connected[peer][i]
                },
            ),
        ),
{
    let replaced = connected[peer]@[i].serving_request;
    let left = without(channels, replaced);
    let after = connected_view(connected.insert(peer, list), left);
    let expected = s.connected.insert(
        peer,
        s.connected[peer].update(
            i,
            ConnectionView {
                serving_channel: match request {
                    Some(id) => Some((id, None)),
                    None => None,
                },
                ..s.connected[peer][i]
            },
        ),
    );
    assert forall|p: PeerId, j: int|
        connected.contains_key(p) && 0 <= j < connected[p]@.len() && !(p == peer && j
            == i) implies #[trigger] connection_view(connected[p]@[j], left) == connection_view(
        connected[p]@[j],
        channels,
    ) by {
        if replaced is Some && connected[p]@[j].serving_request == replaced {
            assert(s.serves(peer, i, replaced->0));
            assert(s.serves(p, j, replaced->0));
        }
    }
    assert(connections_view(list@, left) =~= expected[peer]) by {
        assert forall|j: int| 0 <= j < list@.len() implies connection_view(list@[j], left)
            == #[trigger] expected[peer][j] by {
            if j != i {
                assert(list@[j] == connected[peer]@[j]);
            }
        }
    }
    assert forall|p: PeerId| connected.contains_key(p) && p != peer implies #[trigger] after[p]
        == s.connected[p] by {
        assert(connections_view(connected[p]@, left) =~= connections_view(connected[p]@, channels));
    }
    assert(after =~= expected);
}

/// One connection is gone, and the channel of the request that it served is forgotten: nothing
/// changes for the other connections, because none of them served that request.
pub proof fn lemma_connection_removed<C, E, R, S>(
    s: State<C, E, R, S>,
    connected: Map<PeerId, ConnectionList>,
    channels: Map<u64, C>,
    peer: PeerId,
    list: ConnectionList,
    i: int,
)
    requires
        s.ids_unique(),
        s.connected == connected_view(connected, channels),
        connected.contains_key(peer),
        0 <= i < connected[peer]@.len(),
        list@ == connected[peer]@.remove(i),
    ensures
        connected_view(
            connected.insert(peer, list),
            without(channels, connected[peer]@[i].serving_request),
        ) == s.connected.insert(peer, s.connected[peer].remove(i)),
{
    let removed = connected[peer]@[i].serving_request;
    let left = without(channels, removed);
    let after = connected_view(connected.insert(peer, list), left);
    let expected = s.connected.insert(peer, s.connected[peer].remove(i));
    assert forall|p: PeerId, j: int|
        connected.contains_key(p) && 0 <= j < connected[p]@.len() && !(p == peer && j
            == i) implies #[trigger] connection_view(connected[p]@[j], left) == connection_view(
        connected[p]@[j],
        channels,
    ) by {
        if removed is Some && connected[p]@[j].serving_request == removed {
            assert(s.serves(peer, i, removed->0));
            assert(s.serves(p, j, removed->0));
        }
    }
    assert(connections_view(list@, left) =~= expected[peer]) by {
        assert forall|j: int| 0 <= j < list@.len() implies connection_view(list@[j], left)
            == #[trigger] expected[peer][j] by {
            let k = if j < i { j } else { j + 1 };
            assert(list@[j] == connected[peer]@[k]);
            assert(connection_view(connected[peer]@[k], left) == connection_view(
                connected[peer]@[k],
                channels,
            ));
        }
    }
    assert forall|p: PeerId| connected.contains_key(p) && p != peer implies #[trigger] after[p]
        == s.connected[p] by {
        assert(connections_view(connected[p]@, left) =~= connections_view(connected[p]@, channels));
    }
    assert(after =~= expected);
}

/// A request that a connection of `peer` serves gets its channel: nothing changes for the
/// connections that do not serve it, and no connection of another peer does.
pub proof fn lemma_channel_added<C, E, R, S>(
    s: State<C, E, R, S>,
    connected: Map<PeerId, ConnectionList>,
    channels: Map<u64, C>,
    peer: PeerId,
    request: OutboundId,
    channel: C,
    i: int,
)
    requires
        s.ids_unique(),
        s.connected == connected_view(connected, channels),
        s.serves(peer, i, request),
    ensures
        connected_view(connected, channels.insert(request.0, channel)) == s.provided(
            peer,
            request,
            channel,
        ).connected,
{
    let more = channels.insert(request.0, channel);
    let after = connected_view(connected, more);
    let expected = s.provided(peer, request, channel).connected;
    assert forall|p: PeerId| connected.contains_key(p) implies #[trigger] after[p]
        == expected[p] by {
        if p == peer {
            assert(after[p] =~= expected[p]);
        } else {
            assert forall|j: int| 0 <= j < connected[p]@.len() implies connection_view(
                #[trigger] connected[p]@[j],
                more,
            ) == connection_view(connected[p]@[j], channels) by {
                if connected[p]@[j].serving_request == Some(request) {
                    assert(s.serves(p, j, request));
                }
            }
            assert(after[p] =~= s.connected[p]);
        }
    }
    assert(after =~= expected);
}

/// Where all that is served is still served, each channel still belongs to a connection.
pub proof fn lemma_served_kept<C, E, R, S>(
    channels: Map<u64, C>,
    s: State<C, E, R, S>,
    t: State<C, E, R, S>,
)
    requires
        all_served(channels, s),
        forall|p: PeerId, i: int, id: OutboundId| #[trigger]
            s.serves(p, i, id) ==> t.serves(p, i, id),
    ensures
        all_served(channels, t),
{
    assert forall|n: u64| #[trigger] channels.contains_key(n) implies exists|p: PeerId, i: int|
        #[trigger] t.serves(p, i, OutboundId(n)) by {
        let (p, i): (PeerId, int) = choose|p: PeerId, i: int|
            #[trigger] s.serves(p, i, OutboundId(n));
        assert(t.serves(p, i, OutboundId(n)));
    }
}

/// Where the connections stay, each channel still belongs to one.
pub proof fn lemma_served_frame<C, E, R, S>(
    channels: Map<u64, C>,
    s: State<C, E, R, S>,
    t: State<C, E, R, S>,
)
    requires
        all_served(channels, s),
        t.connected == s.connected,
    ensures
        all_served(channels, t),
{
    assert forall|p: PeerId, i: int, id: OutboundId| #[trigger] s.serves(p, i, id) implies t.serves(
        p,
        i,
        id,
    ) by {}
    lemma_served_kept(channels, s, t);
}

/// Where one request is served no more, and its channel is forgotten, each other channel still
/// belongs to a connection.
pub proof fn lemma_served_without<C, E, R, S>(
    channels: Map<u64, C>,
    s: State<C, E, R, S>,
    t: State<C, E, R, S>,
    gone: Option<OutboundId>,
)
    requires
        all_served(channels, s),
        forall|p: PeerId, i: int, id: OutboundId|
            #![trigger s.serves(p, i, id)]
            s.serves(p, i, id) && gone != Some(id) ==> exists|j: int| t.serves(p, j, id),
    ensures
        all_served(without(channels, gone), t),
{
    let left = without(channels, gone);
    assert forall|n: u64| #[trigger] left.contains_key(n) implies exists|p: PeerId, i: int|
        #[trigger] t.serves(p, i, OutboundId(n)) by {
        assert(channels.contains_key(n));
        let (p, i): (PeerId, int) = choose|p: PeerId, i: int|
            #[trigger] s.serves(p, i, OutboundId(n));
        assert(gone != Some(OutboundId(n)));
        let j = choose|j: int| t.serves(p, j, OutboundId(n));
        assert(t.serves(p, j, OutboundId(n)));
    }
}

} // verus!
