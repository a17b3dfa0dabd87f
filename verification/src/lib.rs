use vstd::prelude::*;

pub mod assoc;
pub mod awareness;
pub mod band_mon;
pub mod capabilities;
pub mod data;
pub mod gnome;
pub mod key_registry;
pub mod message;
pub mod multicast;
pub mod neighbor;
pub mod path_text;
pub mod next_state;
pub mod policy;
pub mod proposal;
pub mod requirement;
pub mod swarm;

pub use crate::capabilities::{CapabiLeaf, CapabiliTree, Capabilities};
pub use crate::data::{CastData, SyncData};
pub use crate::gnome::GnomeId;
pub use crate::key_registry::KeyRegistry;
pub use crate::message::{BlockID, Configuration, Header, Message, Payload, Signature};
pub use crate::neighbor::Neighborhood;
pub use crate::policy::Policy;
pub use crate::requirement::Requirement;
pub use crate::swarm::{ByteSet, SwarmID, SwarmName, SwarmTime, SwarmType};

verus! {

/// Identifier of a unicast, multicast or broadcast within a swarm.
#[derive(Debug, Clone, Copy, PartialEq, Eq, PartialOrd, Ord, Hash, Structural)]
pub struct CastID(pub u8);

} // verus!
