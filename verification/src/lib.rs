//! gRPC over libp2p: which peer gets which stream, which request gets which channel, and what
//! is reported of it.

pub mod adapter;
pub mod behaviour;
pub mod effects;
pub mod error;
pub mod handler;
pub mod handler_effects;
pub mod laws;
mod lists;
pub mod net;
pub mod outbound;
mod peer_map;
pub mod protocol;
pub mod queue;
pub mod readings;
pub mod reply;
pub mod run;
pub mod state;
pub mod swarm;
mod views;

pub use crate::behaviour::Behaviour;
pub use crate::error::OutboundError;
pub use crate::outbound::GrpcOutbound;
pub use crate::swarm::Event;
