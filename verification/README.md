# libp2p-grpc-rs

gRPC over libp2p. A node asks for a gRPC channel to a peer; the peer is dialed, a stream is opened on
its first connection, and a channel is made of the stream. Streams that peers open go to the node's
own gRPC server.

The decisions are a library that Verus verifies, under `src/`:

- `state`: what a node knows, and how that changes, as mathematical functions.
- `behaviour`: the node itself, each method proved to make the change that `state` names.
- `handler`: what happens on one connection.
- `outbound`, `reply`, `error`: what a requester gets.
- `protocol`, `net`, `swarm`, `adapter`: identifiers, addresses, streams, and what is told to and by
  the swarm.
- `lists`, `peer_map`, `queue`, `views`: the data structures, and what they stand for.
- `laws`: what can be relied on, over several steps and in every state.
- `run`: a node and its connections at work together, and what a requester gets in every run.

`app/` joins the library to libp2p and tonic: it polls, awaits, spawns, and converts values.

```rust
let outbound = swarm.behaviour_mut().initiate_grpc_outbound(&target_peer_id);
let (channel, outbound_id) = outbound.map().await?;
```
