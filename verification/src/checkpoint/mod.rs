//! Epochs, and the checkpoints that close them.
pub mod primary;
pub mod proxy;
pub mod state_collector;

use vstd::prelude::*;

use crate::base_types::{Object, ObjectID, SequenceNumber};
use crate::ordered_map::OrderedMap;

verus! {

/// The number of an epoch.
#[derive(Clone, Copy, Debug, Default, PartialEq, Eq, PartialOrd, Ord, Hash, Structural)]
pub struct EpochId(pub u64);

/// The version of each object that an epoch touched.
pub type EpochObjectVersions = OrderedMap<ObjectID, SequenceNumber>;

/// The state of each object that an epoch touched.
pub type EpochObjectStates = OrderedMap<ObjectID, Object>;

} // verus!
