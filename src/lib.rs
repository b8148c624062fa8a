//! Peer-to-peer entity replication: a binary wire codec, a master/slave
//! authority model keyed by static entity ids, and the per-frame tick pipeline
//! that moves component state between peers.

pub mod codec;
pub mod replication;
pub mod state;
pub mod laws;
pub mod text;
pub mod registry;
pub mod rng;
pub mod rpg;

