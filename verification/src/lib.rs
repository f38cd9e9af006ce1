//! The election core of a small Raft-style protocol: one peer's reaction to
//! protocol messages and to the passage of logical time, the mathematical
//! model of that reaction, and the safety argument for a whole cluster.

pub mod message;
pub mod state;
pub mod transport;
pub mod clock;
pub mod model;
pub mod peer;
pub mod laws;
pub mod cluster;
pub mod safety;
pub mod tree_model;

pub use crate::clock::Clock;
pub use crate::cluster::{Cluster, Packet};
pub use crate::message::ElectionMessage;
pub use crate::model::{Event, PeerView, Step, LEADER_PING_INTERVAL};
pub use crate::peer::{ElectionPeer, Reactor};
pub use crate::state::{PeerState, Role};
pub use crate::transport::Transport;
pub use crate::tree_model::Tree;
