//! Messages as they cross the channel engine boundary.
use vstd::prelude::*;

verus! {

/// A complete, addressable message.
pub struct SingleData {
    /// Sequence number assigned by the sending channel.
    pub id: u16,
    /// The simulation tick the message describes, for tick-aligned channels.
    pub tick: Option<u16>,
    /// The payload.
    pub bytes: Vec<u8>,
}

/// One chunk of a message too large for a single packet.
pub struct FragmentData {
    /// Sequence number of the message the chunk belongs to.
    pub message_id: u16,
    /// Position of this chunk among the message's chunks.
    pub fragment_index: u16,
    /// How many chunks the message was split into.
    pub num_fragments: u16,
    /// The simulation tick the message describes, if any.
    pub tick: Option<u16>,
    /// The chunk's bytes.
    pub bytes: Vec<u8>,
}

/// What a channel engine takes in: a whole message or one fragment of one.
pub enum MessageContainer {
    Single(SingleData),
    Fragment(FragmentData),
}

} // verus!
