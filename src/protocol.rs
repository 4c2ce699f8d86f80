//! What the replication layer registers with the core: the component types
//! it replicates, each known on the wire by a numeric id.
use vstd::prelude::*;

verus! {

/// A component value that can be copied into replication messages.
pub trait Replicable: Clone {}

/// The kinds of a protocol's components.
pub trait ComponentProtocolKind: Copy {
    /// The id that stands for this kind on the wire.
    fn net_id(&self) -> u16;
}

} // verus!
