//! The channel engine's receiving side: one reliability/ordering state
//! machine per channel kind, behind one closed enum.
use vstd::prelude::*;

use crate::fragment::{
    all_present, join_slots, receive_rel, slots_after, swept, tick_after, fragment_fits, FragmentReceiver,
};
use crate::message::{MessageContainer, SingleData};
use crate::sequence::{SEQ_SPACE, seq_add, distance, is_newer, next, seq_distance, seq_newer, seq_next, seq_older};

verus! {

broadcast use vstd::std_specs::hash::group_hash_axioms;

/// How long (ms) an unreliable channel waits for the rest of a fragmented message.
pub const FRAGMENT_TIMEOUT_MS: u64 = 5000;

/// `f` is the last missing fragment of its message.
pub open spec fn completes(m: Map<u16, crate::fragment::Reassembly>, f: crate::message::FragmentData) -> bool {
    fragment_fits(m, f) && all_present(slots_after(m, f))
}

/// `d` is the message that fragment `f` completes.
pub open spec fn is_reassembly_of(
    d: SingleData,
    m: Map<u16, crate::fragment::Reassembly>,
    f: crate::message::FragmentData,
) -> bool {
    &&& d.id == f.message_id
    &&& d.tick == tick_after(m, f)
    &&& d.bytes@ == join_slots(slots_after(m, f))
}

/// Turns an arriving container into a whole message once one is complete.
pub fn unwrap_container(fragments: &mut FragmentReceiver, now_ms: u64, message: MessageContainer) -> (r: Option<SingleData>)
    requires
        old(fragments).wf(),
    ensures
        final(fragments).wf(),
        match message {
            MessageContainer::Single(d) => r == Some(d) && *final(fragments) == *old(fragments),
            MessageContainer::Fragment(f) => {
                &&& receive_rel(old(fragments).in_flight@, final(fragments).in_flight@, f, now_ms)
                &&& r.is_some() == completes(old(fragments).in_flight@, f)
                &&& r.is_some() ==> is_reassembly_of(r.unwrap(), old(fragments).in_flight@, f)
            },
        },
{
    match message {
        MessageContainer::Single(d) => Some(d),
        MessageContainer::Fragment(f) => fragments.receive(f, now_ms),
    }
}

/// How an arrival changes a channel's reassembly buffer `m`.
pub open spec fn fragments_after(
    m: Map<u16, crate::fragment::Reassembly>,
    next: Map<u16, crate::fragment::Reassembly>,
    message: MessageContainer,
    now_ms: u64,
) -> bool {
    match message {
        MessageContainer::Single(_) => next == m,
        MessageContainer::Fragment(f) => receive_rel(m, next, f, now_ms),
    }
}

/// Best effort, no ordering: every arrival is delivered, duplicates included.
pub struct UnorderedUnreliableReceiver {
    pub queue: std::collections::VecDeque<SingleData>,
    pub fragments: FragmentReceiver,
    pub now_ms: u64,
}

impl UnorderedUnreliableReceiver {
    pub open spec fn inv(self) -> bool {
        self.fragments.wf()
    }

    pub open spec fn accept_rel(self, next: Self, d: SingleData) -> bool {
        next.queue@ == self.queue@.push(d)
    }

    pub open spec fn same_delivery(self, next: Self) -> bool {
        next.queue@ == self.queue@
    }

    pub open spec fn recv_rel(self, next: Self, message: MessageContainer) -> bool {
        &&& next.now_ms == self.now_ms
        &&& fragments_after(self.fragments.in_flight@, next.fragments.in_flight@, message, self.now_ms)
        &&& match message {
            MessageContainer::Single(d) => self.accept_rel(next, d),
            MessageContainer::Fragment(f) => if completes(self.fragments.in_flight@, f) {
                exists|d: SingleData| is_reassembly_of(d, self.fragments.in_flight@, f) && self.accept_rel(next, d)
            } else {
                self.same_delivery(next)
            },
        }
    }

    pub open spec fn read_rel(self, next: Self, r: Option<SingleData>) -> bool {
        &&& next.fragments == self.fragments
        &&& next.now_ms == self.now_ms
        &&& if self.queue@.len() == 0 {
            r.is_none() && next.queue@ == self.queue@
        } else {
            r == Some(self.queue@[0]) && next.queue@ == self.queue@.drop_first()
        }
    }

    pub open spec fn update_rel(self, next: Self, now_ms: u64, tick: u16) -> bool {
        swept(self.fragments.in_flight@, next.fragments.in_flight@, now_ms, Some(FRAGMENT_TIMEOUT_MS)) &&
        self.same_delivery(next) && next.now_ms == now_ms
    }

    /// An empty receiver.
    pub fn new() -> (r: Self)
        ensures
            r.inv(),
            r.queue@.len() == 0,
            r.fragments.in_flight@.is_empty(),
    {
        UnorderedUnreliableReceiver {
            queue: std::collections::VecDeque::new(),
            fragments: FragmentReceiver::new(),
            now_ms: 0,
        }
    }

    /// Queues a whole message for delivery.
    pub fn accept(&mut self, d: SingleData)
        ensures
            old(self).accept_rel(*final(self), d),
            final(self).fragments == old(self).fragments,
            final(self).now_ms == old(self).now_ms,
    {
        self.queue.push_back(d);
    }

    /// Records the time and drops fragmented messages that waited too long.
    pub fn update(&mut self, now_ms: u64, tick: u16)
        requires
            old(self).inv(),
        ensures
            final(self).inv(),
            old(self).update_rel(*final(self), now_ms, tick),
    {
        self.now_ms = now_ms;
        self.fragments.drop_stale(now_ms, Some(FRAGMENT_TIMEOUT_MS));
    }

    /// Takes in an arrived message or fragment.
    pub fn buffer_recv(&mut self, message: MessageContainer)
        requires
            old(self).inv(),
        ensures
            final(self).inv(),
            old(self).recv_rel(*final(self), message),
    {
        let ghost m = self.fragments.in_flight@;
        let ghost msg = message;
        match unwrap_container(&mut self.fragments, self.now_ms, message) {
            Some(d) => {
                self.accept(d);
                assert(old(self).accept_rel(*self, d));
                assert(msg is Fragment ==> is_reassembly_of(d, m, msg->Fragment_0));
            },
            None => {},
        }
    }

    /// The oldest undelivered message.
    pub fn read_message(&mut self) -> (r: Option<SingleData>)
        ensures
            old(self).read_rel(*final(self), r),
    {
        let r = self.queue.pop_front();
        proof {
            if r.is_some() {
                assert(self.queue@ =~= old(self).queue@.drop_first());
            }
        }
        r
    }
}

/// A message id that is newer than `most_recent`, when there is one.
pub open spec fn newer_than(id: u16, most_recent: Option<u16>) -> bool {
    match most_recent {
        None => true,
        Some(m) => seq_newer(id, m),
    }
}

fn is_newer_than(id: u16, most_recent: Option<u16>) -> (r: bool)
    ensures
        r == newer_than(id, most_recent),
{
    match most_recent {
        None => true,
        Some(m) => is_newer(id, m),
    }
}

/// Best effort, latest wins: only the newest message is kept for delivery,
/// and an arrival that is not newer than every id accepted or handed out so
/// far is discarded.
pub struct SequencedUnreliableReceiver {
    /// The newest id accepted so far.
    pub most_recent: Option<u16>,
    /// The id of the last message handed out.
    pub last_read: Option<u16>,
    /// The newest accepted message, until it is read.
    pub latest: Option<SingleData>,
    pub fragments: FragmentReceiver,
    pub now_ms: u64,
}

impl SequencedUnreliableReceiver {
    pub open spec fn inv(self) -> bool {
        &&& self.fragments.wf()
        &&& self.latest.is_some() ==> newer_than(self.latest.unwrap().id, self.last_read) && self.most_recent == Some(
            self.latest.unwrap().id,
        )
    }

    /// Whether an arrival with id `id` is taken: it must be newer than both
    /// the newest id accepted and the last id handed out.
    pub open spec fn takes(self, id: u16) -> bool {
        newer_than(id, self.most_recent) && newer_than(id, self.last_read)
    }

    pub open spec fn accept_rel(self, next: Self, d: SingleData) -> bool {
        if self.takes(d.id) {
            &&& next.most_recent == Some(d.id)
            &&& next.latest == Some(d)
            &&& next.last_read == self.last_read
        } else {
            self.same_delivery(next)
        }
    }

    pub open spec fn same_delivery(self, next: Self) -> bool {
        &&& next.latest == self.latest
        &&& next.most_recent == self.most_recent
        &&& next.last_read == self.last_read
    }

    pub open spec fn recv_rel(self, next: Self, message: MessageContainer) -> bool {
        &&& next.now_ms == self.now_ms
        &&& fragments_after(self.fragments.in_flight@, next.fragments.in_flight@, message, self.now_ms)
        &&& match message {
            MessageContainer::Single(d) => self.accept_rel(next, d),
            MessageContainer::Fragment(f) => if completes(self.fragments.in_flight@, f) {
                exists|d: SingleData| is_reassembly_of(d, self.fragments.in_flight@, f) && self.accept_rel(next, d)
            } else {
                self.same_delivery(next)
            },
        }
    }

    pub open spec fn read_rel(self, next: Self, r: Option<SingleData>) -> bool {
        &&& next.fragments == self.fragments
        &&& next.now_ms == self.now_ms
        &&& next.most_recent == self.most_recent
        &&& r == self.latest
        &&& next.latest.is_none()
        &&& next.last_read == match self.latest {
            Some(d) => Some(d.id),
            None => self.last_read,
        }
    }

    pub open spec fn update_rel(self, next: Self, now_ms: u64, tick: u16) -> bool {
        &&& swept(self.fragments.in_flight@, next.fragments.in_flight@, now_ms, Some(FRAGMENT_TIMEOUT_MS))
        &&& self.same_delivery(next)
        &&& next.now_ms == now_ms
    }

    /// An empty receiver that has accepted nothing yet.
    pub fn new() -> (r: Self)
        ensures
            r.inv(),
            r.latest.is_none(),
            r.most_recent.is_none(),
            r.last_read.is_none(),
            r.fragments.in_flight@.is_empty(),
    {
        SequencedUnreliableReceiver {
            most_recent: None,
            last_read: None,
            latest: None,
            fragments: FragmentReceiver::new(),
            now_ms: 0,
        }
    }

    /// Keeps a whole message, in place of any unread one, if it is newer
    /// than every id accepted or handed out before.
    pub fn accept(&mut self, d: SingleData)
        ensures
            old(self).accept_rel(*final(self), d),
            final(self).fragments == old(self).fragments,
            final(self).now_ms == old(self).now_ms,
    {
        if is_newer_than(d.id, self.most_recent) && is_newer_than(d.id, self.last_read) {
            self.most_recent = Some(d.id);
            self.latest = Some(d);
        }
    }

    /// Records the time and drops fragmented messages that waited too long.
    pub fn update(&mut self, now_ms: u64, tick: u16)
        requires
            old(self).inv(),
        ensures
            final(self).inv(),
            old(self).update_rel(*final(self), now_ms, tick),
    {
        self.now_ms = now_ms;
        self.fragments.drop_stale(now_ms, Some(FRAGMENT_TIMEOUT_MS));
    }

    /// Takes in an arrived message or fragment.
    pub fn buffer_recv(&mut self, message: MessageContainer)
        requires
            old(self).inv(),
        ensures
            final(self).inv(),
            old(self).recv_rel(*final(self), message),
    {
        let ghost m = self.fragments.in_flight@;
        let ghost msg = message;
        match unwrap_container(&mut self.fragments, self.now_ms, message) {
            Some(d) => {
                self.accept(d);
                assert(old(self).accept_rel(*self, d));
                assert(msg is Fragment ==> is_reassembly_of(d, m, msg->Fragment_0));
            },
            None => {},
        }
    }

    /// The newest value, if it has not been read yet.
    pub fn read_message(&mut self) -> (r: Option<SingleData>)
        ensures
            old(self).read_rel(*final(self), r),
    {
        let r = self.latest.take();
        match &r {
            Some(d) => {
                self.last_read = Some(d.id);
            },
            None => {},
        }
        r
    }
}

/// Reliable, latest value: a newer message replaces an older one that has
/// not been read yet, and an arrival that is not newer than every id accepted
/// or handed out so far is discarded.
pub struct SequencedReliableReceiver {
    /// The newest id accepted so far.
    pub most_recent: Option<u16>,
    /// The id of the last message handed out.
    pub last_read: Option<u16>,
    /// The newest accepted message, until it is read.
    pub latest: Option<SingleData>,
    pub fragments: FragmentReceiver,
    pub now_ms: u64,
}

impl SequencedReliableReceiver {
    pub open spec fn inv(self) -> bool {
        &&& self.fragments.wf()
        &&& self.latest.is_some() ==> newer_than(self.latest.unwrap().id, self.last_read) && self.most_recent == Some(
            self.latest.unwrap().id,
        )
    }

    /// Whether an arrival with id `id` is taken: it must be newer than both
    /// the newest id accepted and the last id handed out.
    pub open spec fn takes(self, id: u16) -> bool {
        newer_than(id, self.most_recent) && newer_than(id, self.last_read)
    }

    pub open spec fn accept_rel(self, next: Self, d: SingleData) -> bool {
        if self.takes(d.id) {
            &&& next.most_recent == Some(d.id)
            &&& next.latest == Some(d)
            &&& next.last_read == self.last_read
        } else {
            self.same_delivery(next)
        }
    }

    pub open spec fn same_delivery(self, next: Self) -> bool {
        &&& next.latest == self.latest
        &&& next.most_recent == self.most_recent
        &&& next.last_read == self.last_read
    }

    pub open spec fn recv_rel(self, next: Self, message: MessageContainer) -> bool {
        &&& next.now_ms == self.now_ms
        &&& fragments_after(self.fragments.in_flight@, next.fragments.in_flight@, message, self.now_ms)
        &&& match message {
            MessageContainer::Single(d) => self.accept_rel(next, d),
            MessageContainer::Fragment(f) => if completes(self.fragments.in_flight@, f) {
                exists|d: SingleData| is_reassembly_of(d, self.fragments.in_flight@, f) && self.accept_rel(next, d)
            } else {
                self.same_delivery(next)
            },
        }
    }

    pub open spec fn read_rel(self, next: Self, r: Option<SingleData>) -> bool {
        &&& next.fragments == self.fragments
        &&& next.now_ms == self.now_ms
        &&& next.most_recent == self.most_recent
        &&& r == self.latest
        &&& next.latest.is_none()
        &&& next.last_read == match self.latest {
            Some(d) => Some(d.id),
            None => self.last_read,
        }
    }

    pub open spec fn update_rel(self, next: Self, now_ms: u64, tick: u16) -> bool {
        &&& swept(self.fragments.in_flight@, next.fragments.in_flight@, now_ms, None)
        &&& self.same_delivery(next)
        &&& next.now_ms == now_ms
    }

    /// An empty receiver that has accepted nothing yet.
    pub fn new() -> (r: Self)
        ensures
            r.inv(),
            r.latest.is_none(),
            r.most_recent.is_none(),
            r.last_read.is_none(),
            r.fragments.in_flight@.is_empty(),
    {
        SequencedReliableReceiver {
            most_recent: None,
            last_read: None,
            latest: None,
            fragments: FragmentReceiver::new(),
            now_ms: 0,
        }
    }

    /// Keeps a whole message, in place of any unread one, if it is newer
    /// than every id accepted or handed out before.
    pub fn accept(&mut self, d: SingleData)
        ensures
            old(self).accept_rel(*final(self), d),
            final(self).fragments == old(self).fragments,
            final(self).now_ms == old(self).now_ms,
    {
        if is_newer_than(d.id, self.most_recent) && is_newer_than(d.id, self.last_read) {
            self.most_recent = Some(d.id);
            self.latest = Some(d);
        }
    }

    /// Records the time. Reliable messages are never dropped half-assembled;
    /// only the bookkeeping of completed ones is pruned.
    pub fn update(&mut self, now_ms: u64, tick: u16)
        requires
            old(self).inv(),
        ensures
            final(self).inv(),
            old(self).update_rel(*final(self), now_ms, tick),
    {
        self.now_ms = now_ms;
        self.fragments.drop_stale(now_ms, None);
    }

    /// Takes in an arrived message or fragment.
    pub fn buffer_recv(&mut self, message: MessageContainer)
        requires
            old(self).inv(),
        ensures
            final(self).inv(),
            old(self).recv_rel(*final(self), message),
    {
        let ghost m = self.fragments.in_flight@;
        let ghost msg = message;
        match unwrap_container(&mut self.fragments, self.now_ms, message) {
            Some(d) => {
                self.accept(d);
                assert(old(self).accept_rel(*self, d));
                assert(msg is Fragment ==> is_reassembly_of(d, m, msg->Fragment_0));
            },
            None => {},
        }
    }

    /// The newest value, if it has not been read yet.
    pub fn read_message(&mut self) -> (r: Option<SingleData>)
        ensures
            old(self).read_rel(*final(self), r),
    {
        let r = self.latest.take();
        match &r {
            Some(d) => {
                self.last_read = Some(d.id);
            },
            None => {},
        }
        r
    }
}

/// Reliable, strict send order: a missing id blocks delivery, and later ids
/// wait in a reorder buffer until the gap is filled.
pub struct OrderedReliableReceiver {
    /// The next id to deliver.
    pub pending_id: u16,
    /// Arrived messages that wait for their turn, by id.
    pub buffer: std::collections::HashMap<u16, SingleData>,
    pub fragments: FragmentReceiver,
    pub now_ms: u64,
}

/// The first id an ordered channel delivers.
pub const FIRST_MESSAGE_ID: u16 = 1;

/// The reorder buffer of an ordered channel after message `d` arrives while
/// `pending` is the next id to deliver.
pub open spec fn ordered_insert(pending: u16, buffer: Map<u16, SingleData>, d: SingleData) -> Map<u16, SingleData> {
    if !seq_older(d.id, pending) && !buffer.contains_key(d.id) {
        buffer.insert(d.id, d)
    } else {
        buffer
    }
}

impl OrderedReliableReceiver {
    pub open spec fn inv(self) -> bool {
        &&& self.fragments.wf()
        &&& forall|k: u16| #[trigger] self.buffer@.contains_key(k) ==> self.buffer@[k].id == k
    }

    pub open spec fn accept_rel(self, next: Self, d: SingleData) -> bool {
        next.pending_id == self.pending_id && next.buffer@ == ordered_insert(self.pending_id, self.buffer@, d)
    }

    pub open spec fn same_delivery(self, next: Self) -> bool {
        next.buffer@ == self.buffer@ && next.pending_id == self.pending_id
    }

    pub open spec fn recv_rel(self, next: Self, message: MessageContainer) -> bool {
        &&& next.now_ms == self.now_ms
        &&& fragments_after(self.fragments.in_flight@, next.fragments.in_flight@, message, self.now_ms)
        &&& match message {
            MessageContainer::Single(d) => self.accept_rel(next, d),
            MessageContainer::Fragment(f) => if completes(self.fragments.in_flight@, f) {
                exists|d: SingleData| is_reassembly_of(d, self.fragments.in_flight@, f) && self.accept_rel(next, d)
            } else {
                self.same_delivery(next)
            },
        }
    }

    pub open spec fn read_rel(self, next: Self, r: Option<SingleData>) -> bool {
        &&& next.fragments == self.fragments
        &&& next.now_ms == self.now_ms
        &&& if self.buffer@.contains_key(self.pending_id) {
            &&& r == Some(self.buffer@[self.pending_id])
            &&& next.buffer@ == self.buffer@.remove(self.pending_id)
            &&& next.pending_id == seq_next(self.pending_id)
        } else {
            r.is_none() && self.same_delivery(next)
        }
    }

    pub open spec fn update_rel(self, next: Self, now_ms: u64, tick: u16) -> bool {
        swept(self.fragments.in_flight@, next.fragments.in_flight@, now_ms, None) &&
        self.same_delivery(next) && next.now_ms == now_ms
    }

    /// An empty receiver that waits for the first message id.
    pub fn new() -> (r: Self)
        ensures
            r.inv(),
            r.pending_id == FIRST_MESSAGE_ID,
            r.buffer@.is_empty(),
            r.fragments.in_flight@.is_empty(),
    {
        OrderedReliableReceiver {
            pending_id: FIRST_MESSAGE_ID,
            buffer: std::collections::HashMap::new(),
            fragments: FragmentReceiver::new(),
            now_ms: 0,
        }
    }

    /// Buffers a whole message unless it was delivered or buffered already.
    pub fn accept(&mut self, d: SingleData)
        ensures
            old(self).accept_rel(*final(self), d),
            final(self).fragments == old(self).fragments,
            final(self).now_ms == old(self).now_ms,
    {
        let id = d.id;
        if !is_newer(self.pending_id, id) && !self.buffer.contains_key(&id) {
            self.buffer.insert(id, d);
        }
    }

    /// Records the time. Reliable messages are never dropped half-assembled;
    /// only the bookkeeping of completed ones is pruned.
    pub fn update(&mut self, now_ms: u64, tick: u16)
        requires
            old(self).inv(),
        ensures
            final(self).inv(),
            old(self).update_rel(*final(self), now_ms, tick),
    {
        self.now_ms = now_ms;
        self.fragments.drop_stale(now_ms, None);
    }

    /// Takes in an arrived message or fragment.
    pub fn buffer_recv(&mut self, message: MessageContainer)
        requires
            old(self).inv(),
        ensures
            final(self).inv(),
            old(self).recv_rel(*final(self), message),
    {
        let ghost m = self.fragments.in_flight@;
        let ghost msg = message;
        match unwrap_container(&mut self.fragments, self.now_ms, message) {
            Some(d) => {
                self.accept(d);
                assert(old(self).accept_rel(*self, d));
                assert(msg is Fragment ==> is_reassembly_of(d, m, msg->Fragment_0));
            },
            None => {},
        }
    }
    /// The message with the next id in send order, once it has arrived.
    pub fn read_message(&mut self) -> (r: Option<SingleData>)
        ensures
            old(self).read_rel(*final(self), r),
    {
        let ghost b = self.buffer@;
        let r = self.buffer.remove(&self.pending_id);
        if r.is_some() {
            self.pending_id = next(self.pending_id);
        } else {
            assert(self.buffer@ =~= b);
        }
        r
    }
}

/// The id half the sequence space away from `id`: once `id` is delivered,
/// that id counts as a new message again when it next arrives.
pub open spec fn opposite(id: u16) -> u16 {
    ((id as int + 32768) % 65536) as u16
}

/// Reliable, no ordering: every id is delivered once, as it arrives. An id
/// is forgotten when the id half the sequence space after it is delivered,
/// so that ids can be reused once the counter wraps.
pub struct UnorderedReliableReceiver {
    /// The ids delivered so far.
    pub delivered: std::collections::HashSet<u16>,
    pub queue: std::collections::VecDeque<SingleData>,
    pub fragments: FragmentReceiver,
    pub now_ms: u64,
}

impl UnorderedReliableReceiver {
    /// Whether id `x` counts as delivered already.
    pub open spec fn seen(self, x: u16) -> bool {
        self.delivered@.contains(x)
    }

    pub open spec fn inv(self) -> bool {
        self.fragments.wf()
    }

    pub open spec fn accept_rel(self, next: Self, d: SingleData) -> bool {
        if !self.seen(d.id) {
            &&& next.queue@ == self.queue@.push(d)
            &&& next.delivered@ == self.delivered@.insert(d.id).remove(opposite(d.id))
        } else {
            self.same_delivery(next)
        }
    }

    pub open spec fn same_delivery(self, next: Self) -> bool {
        &&& next.queue@ == self.queue@
        &&& next.delivered@ == self.delivered@
    }

    pub open spec fn recv_rel(self, next: Self, message: MessageContainer) -> bool {
        &&& next.now_ms == self.now_ms
        &&& fragments_after(self.fragments.in_flight@, next.fragments.in_flight@, message, self.now_ms)
        &&& match message {
            MessageContainer::Single(d) => self.accept_rel(next, d),
            MessageContainer::Fragment(f) => if completes(self.fragments.in_flight@, f) {
                exists|d: SingleData| is_reassembly_of(d, self.fragments.in_flight@, f) && self.accept_rel(next, d)
            } else {
                self.same_delivery(next)
            },
        }
    }

    pub open spec fn read_rel(self, next: Self, r: Option<SingleData>) -> bool {
        &&& next.fragments == self.fragments
        &&& next.now_ms == self.now_ms
        &&& next.delivered@ == self.delivered@
        &&& if self.queue@.len() == 0 {
            r.is_none() && next.queue@ == self.queue@
        } else {
            r == Some(self.queue@[0]) && next.queue@ == self.queue@.drop_first()
        }
    }

    pub open spec fn update_rel(self, next: Self, now_ms: u64, tick: u16) -> bool {
        swept(self.fragments.in_flight@, next.fragments.in_flight@, now_ms, None) &&
        self.same_delivery(next) && next.now_ms == now_ms
    }

    /// An empty receiver that has delivered nothing yet.
    pub fn new() -> (r: Self)
        ensures
            r.inv(),
            r.delivered@.is_empty(),
            r.queue@.len() == 0,
            r.fragments.in_flight@.is_empty(),
    {
        UnorderedReliableReceiver {
            delivered: std::collections::HashSet::new(),
            queue: std::collections::VecDeque::new(),
            fragments: FragmentReceiver::new(),
            now_ms: 0,
        }
    }

    /// Queues a whole message unless its id was delivered before.
    pub fn accept(&mut self, d: SingleData)
        ensures
            old(self).accept_rel(*final(self), d),
            final(self).fragments == old(self).fragments,
            final(self).now_ms == old(self).now_ms,
    {
        let id = d.id;
        if self.delivered.contains(&id) {
            return;
        }
        self.delivered.insert(id);
        let far = ((id as u32 + 32768) % 65536) as u16;
        self.delivered.remove(&far);
        self.queue.push_back(d);
    }

    /// Records the time. Reliable messages are never dropped half-assembled;
    /// only the bookkeeping of completed ones is pruned.
    pub fn update(&mut self, now_ms: u64, tick: u16)
        requires
            old(self).inv(),
        ensures
            final(self).inv(),
            old(self).update_rel(*final(self), now_ms, tick),
    {
        self.now_ms = now_ms;
        self.fragments.drop_stale(now_ms, None);
    }

    /// Takes in an arrived message or fragment.
    pub fn buffer_recv(&mut self, message: MessageContainer)
        requires
            old(self).inv(),
        ensures
            final(self).inv(),
            old(self).recv_rel(*final(self), message),
    {
        let ghost m = self.fragments.in_flight@;
        let ghost msg = message;
        match unwrap_container(&mut self.fragments, self.now_ms, message) {
            Some(d) => {
                self.accept(d);
                assert(old(self).accept_rel(*self, d));
                assert(msg is Fragment ==> is_reassembly_of(d, m, msg->Fragment_0));
            },
            None => {},
        }
    }
    /// The oldest undelivered message.
    pub fn read_message(&mut self) -> (r: Option<SingleData>)
        ensures
            old(self).read_rel(*final(self), r),
    {
        let r = self.queue.pop_front();
        proof {
            if r.is_some() {
                assert(self.queue@ =~= old(self).queue@.drop_first());
            }
        }
        r
    }
}

/// Best effort, tick aligned: each message describes one tick, and the
/// message for the current tick is handed out once it is there.
pub struct TickUnreliableReceiver {
    /// The local simulation tick.
    pub current_tick: u16,
    /// Arrived messages, by the tick they describe.
    pub buffer: std::collections::HashMap<u16, SingleData>,
    pub fragments: FragmentReceiver,
    pub now_ms: u64,
}

impl TickUnreliableReceiver {
    pub open spec fn inv(self) -> bool {
        self.fragments.wf()
    }

    pub open spec fn accept_rel(self, next: Self, d: SingleData) -> bool {
        &&& next.current_tick == self.current_tick
        &&& match d.tick {
            Some(t) => if !seq_older(t, self.current_tick) && !self.buffer@.contains_key(t) {
                next.buffer@ == self.buffer@.insert(t, d)
            } else {
                next.buffer@ == self.buffer@
            },
            None => next.buffer@ == self.buffer@,
        }
    }

    pub open spec fn same_delivery(self, next: Self) -> bool {
        next.buffer@ == self.buffer@ && next.current_tick == self.current_tick
    }

    pub open spec fn recv_rel(self, next: Self, message: MessageContainer) -> bool {
        &&& next.now_ms == self.now_ms
        &&& fragments_after(self.fragments.in_flight@, next.fragments.in_flight@, message, self.now_ms)
        &&& match message {
            MessageContainer::Single(d) => self.accept_rel(next, d),
            MessageContainer::Fragment(f) => if completes(self.fragments.in_flight@, f) {
                exists|d: SingleData| is_reassembly_of(d, self.fragments.in_flight@, f) && self.accept_rel(next, d)
            } else {
                self.same_delivery(next)
            },
        }
    }

    pub open spec fn read_rel(self, next: Self, r: Option<SingleData>) -> bool {
        &&& next.fragments == self.fragments
        &&& next.now_ms == self.now_ms
        &&& next.current_tick == self.current_tick
        &&& if self.buffer@.contains_key(self.current_tick) {
            r == Some(self.buffer@[self.current_tick]) && next.buffer@ == self.buffer@.remove(self.current_tick)
        } else {
            r.is_none() && next.buffer@ == self.buffer@
        }
    }

    /// Moving to a newer tick forgets the messages of every tick passed over.
    pub open spec fn update_rel(self, next: Self, now_ms: u64, tick: u16) -> bool {
        &&& swept(self.fragments.in_flight@, next.fragments.in_flight@, now_ms, Some(FRAGMENT_TIMEOUT_MS))
        &&& next.now_ms == now_ms
        &&& if seq_newer(tick, self.current_tick) {
            &&& next.current_tick == tick
            &&& forall|k: u16|
                #[trigger] next.buffer@.contains_key(k) <==> self.buffer@.contains_key(k) && seq_distance(k, self.current_tick)
                    >= seq_distance(tick, self.current_tick)
            &&& forall|k: u16| #[trigger] next.buffer@.contains_key(k) ==> next.buffer@[k] == self.buffer@[k]
        } else {
            self.same_delivery(next)
        }
    }

    /// An empty receiver at tick zero.
    pub fn new() -> (r: Self)
        ensures
            r.inv(),
            r.current_tick == 0,
            r.buffer@.is_empty(),
            r.fragments.in_flight@.is_empty(),
    {
        TickUnreliableReceiver {
            current_tick: 0,
            buffer: std::collections::HashMap::new(),
            fragments: FragmentReceiver::new(),
            now_ms: 0,
        }
    }

    /// Buffers a whole message for its tick, unless that tick has passed or
    /// already has a message.
    pub fn accept(&mut self, d: SingleData)
        ensures
            old(self).accept_rel(*final(self), d),
            final(self).fragments == old(self).fragments,
            final(self).now_ms == old(self).now_ms,
    {
        match d.tick {
            Some(t) => {
                if !is_newer(self.current_tick, t) && !self.buffer.contains_key(&t) {
                    self.buffer.insert(t, d);
                }
            },
            None => {},
        }
    }

    /// Records the time and the tick, and drops what is now out of date.
    pub fn update(&mut self, now_ms: u64, tick: u16)
        requires
            old(self).inv(),
        ensures
            final(self).inv(),
            old(self).update_rel(*final(self), now_ms, tick),
    {
        self.now_ms = now_ms;
        self.fragments.drop_stale(now_ms, Some(FRAGMENT_TIMEOUT_MS));
        let ghost fr = self.fragments;
        if is_newer(tick, self.current_tick) {
            let c = self.current_tick;
            let gap = distance(tick, c);
            let ghost b = self.buffer@;
            let mut j: u16 = 0;
            while j < gap
                invariant
                    j <= gap,
                    gap == seq_distance(tick, c),
                    self.fragments.wf(),
                    self.fragments == fr,
                    self.now_ms == now_ms,
                    self.current_tick == c,
                    forall|k: u16| #[trigger] self.buffer@.contains_key(k) <==> b.contains_key(k) && seq_distance(k, c) >= j,
                    forall|k: u16| #[trigger] self.buffer@.contains_key(k) ==> self.buffer@[k] == b[k],
                decreases gap - j,
            {
                let t = ((c as u32 + j as u32) % SEQ_SPACE) as u16;
                assert(seq_distance(t, c) == j);
                assert forall|k: u16| seq_distance(k, c) == j implies k == t by {}
                self.buffer.remove(&t);
                j = j + 1;
            }
            self.current_tick = tick;
        }
    }

    /// Takes in an arrived message or fragment.
    pub fn buffer_recv(&mut self, message: MessageContainer)
        requires
            old(self).inv(),
        ensures
            final(self).inv(),
            old(self).recv_rel(*final(self), message),
    {
        let ghost m = self.fragments.in_flight@;
        let ghost msg = message;
        match unwrap_container(&mut self.fragments, self.now_ms, message) {
            Some(d) => {
                self.accept(d);
                assert(old(self).accept_rel(*self, d));
                assert(msg is Fragment ==> is_reassembly_of(d, m, msg->Fragment_0));
            },
            None => {},
        }
    }
    /// The message for the current tick, once it has arrived.
    pub fn read_message(&mut self) -> (r: Option<SingleData>)
        ensures
            old(self).read_rel(*final(self), r),
    {
        let ghost b = self.buffer@;
        let r = self.buffer.remove(&self.current_tick);
        if r.is_none() {
            assert(self.buffer@ =~= b);
        }
        r
    }
}

/// The six reliability and ordering contracts a channel can have.
#[derive(Clone, Copy, Debug, PartialEq, Eq, Structural)]
pub enum ChannelKind {
    UnorderedUnreliable,
    SequencedUnreliable,
    OrderedReliable,
    SequencedReliable,
    UnorderedReliable,
    TickUnreliable,
}

impl ChannelKind {
    pub open spec fn reliable(self) -> bool {
        match self {
            ChannelKind::OrderedReliable | ChannelKind::SequencedReliable | ChannelKind::UnorderedReliable => true,
            _ => false,
        }
    }

    /// Whether messages of this kind are acknowledged and resent.
    pub fn is_reliable(&self) -> (r: bool)
        ensures
            r == self.reliable(),
    {
        match self {
            ChannelKind::OrderedReliable | ChannelKind::SequencedReliable | ChannelKind::UnorderedReliable => true,
            _ => false,
        }
    }
}

/// What every channel receiver offers: bookkeeping, intake and delivery.
pub trait ChannelReceive: Sized {
    /// The receiver's invariant.
    spec fn receiver_wf(&self) -> bool;

    /// How bookkeeping at `now_ms` and `tick` changes the receiver.
    spec fn update_relation(&self, next: &Self, now_ms: u64, tick: u16) -> bool;

    /// How an arrival changes the receiver.
    spec fn recv_relation(&self, next: &Self, message: MessageContainer) -> bool;

    /// What a read returns and how it changes the receiver.
    spec fn read_relation(&self, next: &Self, r: Option<SingleData>) -> bool;

    /// Bookkeeping on the channel.
    fn update(&mut self, now_ms: u64, tick: u16)
        requires
            old(self).receiver_wf(),
        ensures
            final(self).receiver_wf(),
            old(self).update_relation(final(self), now_ms, tick),
    ;

    /// Queues a received message in an internal buffer.
    fn buffer_recv(&mut self, message: MessageContainer)
        requires
            old(self).receiver_wf(),
        ensures
            final(self).receiver_wf(),
            old(self).recv_relation(final(self), message),
    ;

    /// Reads the next message that is ready for delivery.
    fn read_message(&mut self) -> (r: Option<SingleData>)
        requires
            old(self).receiver_wf(),
        ensures
            final(self).receiver_wf(),
            old(self).read_relation(final(self), r),
    ;
}

/// One receiver of each kind, chosen when the channel is registered.
pub enum ChannelReceiver {
    UnorderedUnreliable(UnorderedUnreliableReceiver),
    SequencedUnreliable(SequencedUnreliableReceiver),
    OrderedReliable(OrderedReliableReceiver),
    SequencedReliable(SequencedReliableReceiver),
    UnorderedReliable(UnorderedReliableReceiver),
    TickUnreliable(TickUnreliableReceiver),
}

impl ChannelReceiver {
    pub open spec fn kind(self) -> ChannelKind {
        match self {
            ChannelReceiver::UnorderedUnreliable(_) => ChannelKind::UnorderedUnreliable,
            ChannelReceiver::SequencedUnreliable(_) => ChannelKind::SequencedUnreliable,
            ChannelReceiver::OrderedReliable(_) => ChannelKind::OrderedReliable,
            ChannelReceiver::SequencedReliable(_) => ChannelKind::SequencedReliable,
            ChannelReceiver::UnorderedReliable(_) => ChannelKind::UnorderedReliable,
            ChannelReceiver::TickUnreliable(_) => ChannelKind::TickUnreliable,
        }
    }

    pub open spec fn inv(self) -> bool {
        match self {
            ChannelReceiver::UnorderedUnreliable(a) => a.inv(),
            ChannelReceiver::SequencedUnreliable(a) => a.inv(),
            ChannelReceiver::OrderedReliable(a) => a.inv(),
            ChannelReceiver::SequencedReliable(a) => a.inv(),
            ChannelReceiver::UnorderedReliable(a) => a.inv(),
            ChannelReceiver::TickUnreliable(a) => a.inv(),
        }
    }

    pub open spec fn update_rel(self, next: Self, now_ms: u64, tick: u16) -> bool {
        match (self, next) {
            (ChannelReceiver::UnorderedUnreliable(a), ChannelReceiver::UnorderedUnreliable(b)) => a.update_rel(b, now_ms, tick),
            (ChannelReceiver::SequencedUnreliable(a), ChannelReceiver::SequencedUnreliable(b)) => a.update_rel(b, now_ms, tick),
            (ChannelReceiver::OrderedReliable(a), ChannelReceiver::OrderedReliable(b)) => a.update_rel(b, now_ms, tick),
            (ChannelReceiver::SequencedReliable(a), ChannelReceiver::SequencedReliable(b)) => a.update_rel(b, now_ms, tick),
            (ChannelReceiver::UnorderedReliable(a), ChannelReceiver::UnorderedReliable(b)) => a.update_rel(b, now_ms, tick),
            (ChannelReceiver::TickUnreliable(a), ChannelReceiver::TickUnreliable(b)) => a.update_rel(b, now_ms, tick),
            _ => false,
        }
    }

    pub open spec fn recv_rel(self, next: Self, message: MessageContainer) -> bool {
        match (self, next) {
            (ChannelReceiver::UnorderedUnreliable(a), ChannelReceiver::UnorderedUnreliable(b)) => a.recv_rel(b, message),
            (ChannelReceiver::SequencedUnreliable(a), ChannelReceiver::SequencedUnreliable(b)) => a.recv_rel(b, message),
            (ChannelReceiver::OrderedReliable(a), ChannelReceiver::OrderedReliable(b)) => a.recv_rel(b, message),
            (ChannelReceiver::SequencedReliable(a), ChannelReceiver::SequencedReliable(b)) => a.recv_rel(b, message),
            (ChannelReceiver::UnorderedReliable(a), ChannelReceiver::UnorderedReliable(b)) => a.recv_rel(b, message),
            (ChannelReceiver::TickUnreliable(a), ChannelReceiver::TickUnreliable(b)) => a.recv_rel(b, message),
            _ => false,
        }
    }

    pub open spec fn read_rel(self, next: Self, r: Option<SingleData>) -> bool {
        match (self, next) {
            (ChannelReceiver::UnorderedUnreliable(a), ChannelReceiver::UnorderedUnreliable(b)) => a.read_rel(b, r),
            (ChannelReceiver::SequencedUnreliable(a), ChannelReceiver::SequencedUnreliable(b)) => a.read_rel(b, r),
            (ChannelReceiver::OrderedReliable(a), ChannelReceiver::OrderedReliable(b)) => a.read_rel(b, r),
            (ChannelReceiver::SequencedReliable(a), ChannelReceiver::SequencedReliable(b)) => a.read_rel(b, r),
            (ChannelReceiver::UnorderedReliable(a), ChannelReceiver::UnorderedReliable(b)) => a.read_rel(b, r),
            (ChannelReceiver::TickUnreliable(a), ChannelReceiver::TickUnreliable(b)) => a.read_rel(b, r),
            _ => false,
        }
    }

    /// A receiver that has taken nothing in yet.
    pub open spec fn fresh(self) -> bool {
        match self {
            ChannelReceiver::UnorderedUnreliable(a) => a.queue@.len() == 0 && a.fragments.in_flight@.is_empty(),
            ChannelReceiver::SequencedUnreliable(a) => a.latest.is_none() && a.most_recent.is_none()
                && a.last_read.is_none() && a.fragments.in_flight@.is_empty(),
            ChannelReceiver::OrderedReliable(a) => a.pending_id == FIRST_MESSAGE_ID && a.buffer@.is_empty()
                && a.fragments.in_flight@.is_empty(),
            ChannelReceiver::SequencedReliable(a) => a.latest.is_none() && a.most_recent.is_none()
                && a.last_read.is_none() && a.fragments.in_flight@.is_empty(),
            ChannelReceiver::UnorderedReliable(a) => a.delivered@.is_empty()
                && a.queue@.len() == 0 && a.fragments.in_flight@.is_empty(),
            ChannelReceiver::TickUnreliable(a) => a.current_tick == 0 && a.buffer@.is_empty()
                && a.fragments.in_flight@.is_empty(),
        }
    }

    /// A fresh receiver of the given kind.
    pub fn new(kind: ChannelKind) -> (r: Self)
        ensures
            r.kind() == kind,
            r.inv(),
            r.fresh(),
    {
        match kind {
            ChannelKind::UnorderedUnreliable => ChannelReceiver::UnorderedUnreliable(UnorderedUnreliableReceiver::new()),
            ChannelKind::SequencedUnreliable => ChannelReceiver::SequencedUnreliable(SequencedUnreliableReceiver::new()),
            ChannelKind::OrderedReliable => ChannelReceiver::OrderedReliable(OrderedReliableReceiver::new()),
            ChannelKind::SequencedReliable => ChannelReceiver::SequencedReliable(SequencedReliableReceiver::new()),
            ChannelKind::UnorderedReliable => ChannelReceiver::UnorderedReliable(UnorderedReliableReceiver::new()),
            ChannelKind::TickUnreliable => ChannelReceiver::TickUnreliable(TickUnreliableReceiver::new()),
        }
    }
}

impl ChannelReceive for ChannelReceiver {
    open spec fn receiver_wf(&self) -> bool {
        self.inv()
    }

    open spec fn update_relation(&self, next: &Self, now_ms: u64, tick: u16) -> bool {
        self.update_rel(*next, now_ms, tick)
    }

    open spec fn recv_relation(&self, next: &Self, message: MessageContainer) -> bool {
        self.recv_rel(*next, message)
    }

    open spec fn read_relation(&self, next: &Self, r: Option<SingleData>) -> bool {
        self.read_rel(*next, r)
    }

    fn update(&mut self, now_ms: u64, tick: u16) {
        match self {
            ChannelReceiver::UnorderedUnreliable(a) => a.update(now_ms, tick),
            ChannelReceiver::SequencedUnreliable(a) => a.update(now_ms, tick),
            ChannelReceiver::OrderedReliable(a) => a.update(now_ms, tick),
            ChannelReceiver::SequencedReliable(a) => a.update(now_ms, tick),
            ChannelReceiver::UnorderedReliable(a) => a.update(now_ms, tick),
            ChannelReceiver::TickUnreliable(a) => a.update(now_ms, tick),
        }
    }

    fn buffer_recv(&mut self, message: MessageContainer) {
        match self {
            ChannelReceiver::UnorderedUnreliable(a) => a.buffer_recv(message),
            ChannelReceiver::SequencedUnreliable(a) => a.buffer_recv(message),
            ChannelReceiver::OrderedReliable(a) => a.buffer_recv(message),
            ChannelReceiver::SequencedReliable(a) => a.buffer_recv(message),
            ChannelReceiver::UnorderedReliable(a) => a.buffer_recv(message),
            ChannelReceiver::TickUnreliable(a) => a.buffer_recv(message),
        }
    }

    fn read_message(&mut self) -> (r: Option<SingleData>) {
        match self {
            ChannelReceiver::UnorderedUnreliable(a) => a.read_message(),
            ChannelReceiver::SequencedUnreliable(a) => a.read_message(),
            ChannelReceiver::OrderedReliable(a) => a.read_message(),
            ChannelReceiver::SequencedReliable(a) => a.read_message(),
            ChannelReceiver::UnorderedReliable(a) => a.read_message(),
            ChannelReceiver::TickUnreliable(a) => a.read_message(),
        }
    }
}

} // verus!

verus! {

/// The reorder buffer of an ordered channel after `msgs` arrive in turn.
pub open spec fn ordered_feed(pending: u16, buffer: Map<u16, SingleData>, msgs: Seq<SingleData>) -> Map<u16, SingleData>
    decreases msgs.len(),
{
    if msgs.len() == 0 {
        buffer
    } else {
        ordered_insert(pending, ordered_feed(pending, buffer, msgs.drop_last()), msgs.last())
    }
}

/// What `n` reads from an ordered channel return, as long as each finds its message.
pub open spec fn ordered_drain(pending: u16, buffer: Map<u16, SingleData>, n: nat) -> Seq<SingleData>
    decreases n,
{
    if n == 0 || !buffer.contains_key(pending) {
        Seq::empty()
    } else {
        seq![buffer[pending]] + ordered_drain(seq_next(pending), buffer.remove(pending), (n - 1) as nat)
    }
}

proof fn lemma_seq_add_step(p: u16, k: int)
    requires
        0 <= k < 65536,
    ensures
        seq_add(seq_next(p), k) == seq_add(p, k + 1),
        0 < k + 1 < 65536 ==> seq_add(p, k + 1) != p,
        seq_add(p, 0) == p,
        seq_distance(seq_add(p, k), p) == k,
{
}

proof fn lemma_ordered_feed(p: u16, msgs: Seq<SingleData>)
    requires
        forall|i: int, j: int| 0 <= i < j < msgs.len() ==> msgs[i].id != msgs[j].id,
        forall|i: int| 0 <= i < msgs.len() ==> seq_distance(#[trigger] msgs[i].id, p) < 32768,
    ensures
        forall|i: int| 0 <= i < msgs.len() ==> {
            &&& ordered_feed(p, Map::empty(), msgs).contains_key(#[trigger] msgs[i].id)
            &&& ordered_feed(p, Map::empty(), msgs)[msgs[i].id] == msgs[i]
        },
        forall|x: u16| #[trigger] ordered_feed(p, Map::empty(), msgs).contains_key(x) ==> exists|i: int|
            0 <= i < msgs.len() && msgs[i].id == x,
    decreases msgs.len(),
{
    if msgs.len() > 0 {
        let init = msgs.drop_last();
        lemma_ordered_feed(p, init);
        let b = ordered_feed(p, Map::empty(), init);
        let d = msgs.last();
        assert(seq_distance(d.id, p) < 32768);
        assert(!seq_older(d.id, p));
        if b.contains_key(d.id) {
            let i = choose|i: int| 0 <= i < init.len() && init[i].id == d.id;
            assert(msgs[i].id == msgs[msgs.len() - 1].id);
        }
        let f = ordered_feed(p, Map::empty(), msgs);
        assert(f == b.insert(d.id, d));
        assert forall|i: int| 0 <= i < msgs.len() implies {
            &&& f.contains_key(#[trigger] msgs[i].id)
            &&& f[msgs[i].id] == msgs[i]
        } by {
            if i < msgs.len() - 1 {
                assert(init[i] == msgs[i]);
            }
        }
        assert forall|x: u16| #[trigger] f.contains_key(x) implies exists|i: int| 0 <= i < msgs.len() && msgs[i].id == x by {
            if x != d.id {
                let i = choose|i: int| 0 <= i < init.len() && init[i].id == x;
                assert(msgs[i].id == x);
            } else {
                assert(msgs[msgs.len() - 1].id == x);
            }
        }
    }
}

proof fn lemma_ordered_drain(p: u16, b: Map<u16, SingleData>, n: nat)
    requires
        n <= 65536,
        forall|k: int| 0 <= k < n ==> b.contains_key(#[trigger] seq_add(p, k)),
    ensures
        ordered_drain(p, b, n).len() == n,
        forall|k: int| 0 <= k < n ==> #[trigger] ordered_drain(p, b, n)[k] == b[seq_add(p, k)],
    decreases n,
{
    if n > 0 {
        lemma_seq_add_step(p, 0);
        assert(b.contains_key(seq_add(p, 0)));
        let q = seq_next(p);
        let rest = b.remove(p);
        assert forall|k: int| 0 <= k < n - 1 implies rest.contains_key(#[trigger] seq_add(q, k)) by {
            lemma_seq_add_step(p, k);
            assert(b.contains_key(seq_add(p, k + 1)));
        }
        lemma_ordered_drain(q, rest, (n - 1) as nat);
        let out = ordered_drain(p, b, n);
        assert(out == seq![b[p]] + ordered_drain(q, rest, (n - 1) as nat));
        assert forall|k: int| 0 <= k < n implies #[trigger] out[k] == b[seq_add(p, k)] by {
            if k > 0 {
                lemma_seq_add_step(p, k - 1);
                assert(out[k] == ordered_drain(q, rest, (n - 1) as nat)[k - 1]);
            }
        }
    }
}

/// An ordered reliable channel that waits for id `p` and receives the ids
/// `p, p+1, ..., p+n-1` in any order hands them out, read after read, in
/// exactly that order: each once, none left out.
pub proof fn lemma_ordered_delivery(p: u16, msgs: Seq<SingleData>)
    requires
        msgs.len() <= 32768,
        forall|i: int, j: int| 0 <= i < j < msgs.len() ==> msgs[i].id != msgs[j].id,
        forall|i: int| 0 <= i < msgs.len() ==> seq_distance(#[trigger] msgs[i].id, p) < msgs.len(),
        forall|k: int|
            #![trigger seq_add(p, k)]
            0 <= k < msgs.len() ==> exists|i: int| #![trigger msgs[i]] 0 <= i < msgs.len() && msgs[i].id == seq_add(p, k),
    ensures
        ordered_drain(p, ordered_feed(p, Map::empty(), msgs), msgs.len()).len() == msgs.len(),
        forall|k: int| 0 <= k < msgs.len() ==> {
            let out = #[trigger] ordered_drain(p, ordered_feed(p, Map::empty(), msgs), msgs.len())[k];
            &&& out.id == seq_add(p, k)
            &&& exists|i: int| 0 <= i < msgs.len() && msgs[i] == out
        },
{
    lemma_ordered_feed(p, msgs);
    let b = ordered_feed(p, Map::empty(), msgs);
    assert forall|k: int| 0 <= k < msgs.len() implies b.contains_key(#[trigger] seq_add(p, k)) by {
        let i = choose|i: int| #![trigger msgs[i]] 0 <= i < msgs.len() && msgs[i].id == seq_add(p, k);
        assert(b.contains_key(msgs[i].id));
    }
    lemma_ordered_drain(p, b, msgs.len());
    assert forall|k: int| 0 <= k < msgs.len() implies {
        let out = #[trigger] ordered_drain(p, b, msgs.len())[k];
        &&& out.id == seq_add(p, k)
        &&& exists|i: int| 0 <= i < msgs.len() && msgs[i] == out
    } by {
        let i = choose|i: int| #![trigger msgs[i]] 0 <= i < msgs.len() && msgs[i].id == seq_add(p, k);
        assert(b.contains_key(msgs[i].id));
        assert(b[msgs[i].id] == msgs[i]);
    }
}

} // verus!

verus! {

/// Whatever the order of arrivals and reads, every message an ordered
/// reliable channel hands out carries exactly the id it was waiting for, and
/// the channel then waits for the next id: the ids handed out are
/// consecutive, so none is repeated and none skipped.
pub proof fn lemma_ordered_read_in_sequence(a: OrderedReliableReceiver, b: OrderedReliableReceiver, d: SingleData)
    requires
        a.inv(),
        a.read_rel(b, Some(d)),
    ensures
        d.id == a.pending_id,
        b.pending_id == seq_next(a.pending_id),
        b.inv(),
{
    assert forall|k: u16| #[trigger] b.buffer@.contains_key(k) implies b.buffer@[k].id == k by {
        assert(a.buffer@.contains_key(k));
    }
}

/// A sequenced unreliable channel hands out only ids newer than the last one
/// it handed out, so the ids it delivers strictly increase.
pub proof fn lemma_sequenced_unreliable_reads_increase(
    a: SequencedUnreliableReceiver,
    b: SequencedUnreliableReceiver,
    d: SingleData,
)
    requires
        a.inv(),
        a.read_rel(b, Some(d)),
    ensures
        newer_than(d.id, a.last_read),
        b.last_read == Some(d.id),
        b.inv(),
{
}

/// A sequenced reliable channel hands out only ids newer than the last one
/// it handed out, so the ids it delivers strictly increase.
pub proof fn lemma_sequenced_reliable_reads_increase(a: SequencedReliableReceiver, b: SequencedReliableReceiver, d: SingleData)
    requires
        a.inv(),
        a.read_rel(b, Some(d)),
    ensures
        newer_than(d.id, a.last_read),
        b.last_read == Some(d.id),
        b.inv(),
{
}

/// An unordered reliable channel delivers a message, and the same id
/// arriving right after it is not delivered again.
pub proof fn lemma_unordered_reliable_no_duplicate(
    a: UnorderedReliableReceiver,
    b: UnorderedReliableReceiver,
    c: UnorderedReliableReceiver,
    d: SingleData,
    e: SingleData,
)
    requires
        a.accept_rel(b, d),
        b.accept_rel(c, e),
        e.id == d.id,
    ensures
        c.queue@ == b.queue@,
{
}

} // verus!

verus! {

/// How many of the first `k` reads in `outs` handed out a message.
pub open spec fn handed_out(outs: Seq<Option<SingleData>>, k: int) -> nat
    decreases k,
{
    if k <= 0 {
        0
    } else {
        handed_out(outs, k - 1) + if outs[k - 1].is_some() { 1nat } else { 0nat }
    }
}

/// One step of a run of an ordered channel: an arrival, a bookkeeping
/// update, or a read that returned `out` (arrivals and updates return nothing).
pub open spec fn ordered_step(a: OrderedReliableReceiver, b: OrderedReliableReceiver, out: Option<SingleData>) -> bool {
    ||| a.read_rel(b, out)
    ||| out.is_none() && exists|m: MessageContainer| #[trigger] a.recv_rel(b, m)
    ||| out.is_none() && exists|now_ms: u64, tick: u16| #[trigger] a.update_rel(b, now_ms, tick)
}

/// Over any run of arrivals (in any order, with losses and duplicates),
/// updates and reads, an ordered reliable channel that starts out waiting
/// for id `p` hands out, as its `j`-th message, the one with id `p + j`:
/// the messages read so far are always a prefix of the send order, and none
/// is handed out twice.
pub proof fn lemma_ordered_run(rs: Seq<OrderedReliableReceiver>, outs: Seq<Option<SingleData>>)
    requires
        rs.len() == outs.len() + 1,
        forall|k: int| 0 <= k < rs.len() ==> (#[trigger] rs[k]).inv(),
        forall|k: int| 0 <= k < outs.len() ==> ordered_step(rs[k], rs[k + 1], #[trigger] outs[k]),
    ensures
        forall|k: int| 0 <= k < rs.len() ==> (#[trigger] rs[k]).pending_id == seq_add(rs[0].pending_id, handed_out(outs, k) as int),
        forall|k: int|
            0 <= k < outs.len() && (#[trigger] outs[k]).is_some() ==> outs[k].unwrap().id == seq_add(
                rs[0].pending_id,
                handed_out(outs, k) as int,
            ),
{
    let p = rs[0].pending_id;
    assert forall|k: int| 0 <= k < rs.len() implies (#[trigger] rs[k]).pending_id == seq_add(p, handed_out(outs, k) as int) by {
        lemma_ordered_run_prefix(rs, outs, k);
    }
    assert forall|k: int| 0 <= k < outs.len() && (#[trigger] outs[k]).is_some() implies outs[k].unwrap().id == seq_add(
        p,
        handed_out(outs, k) as int,
    ) by {
        lemma_ordered_run_prefix(rs, outs, k);
        lemma_ordered_step_pending(rs[k], rs[k + 1], outs[k]);
    }
}

proof fn lemma_ordered_step_pending(a: OrderedReliableReceiver, b: OrderedReliableReceiver, out: Option<SingleData>)
    requires
        a.inv(),
        ordered_step(a, b, out),
    ensures
        out.is_some() ==> out.unwrap().id == a.pending_id && b.pending_id == seq_next(a.pending_id),
        out.is_none() ==> b.pending_id == a.pending_id,
{
    if a.read_rel(b, out) {
        if out.is_some() {
            lemma_ordered_read_in_sequence(a, b, out.unwrap());
        }
    } else if exists|m: MessageContainer| #[trigger] a.recv_rel(b, m) {
        let m = choose|m: MessageContainer| #[trigger] a.recv_rel(b, m);
        match m {
            MessageContainer::Single(d) => {},
            MessageContainer::Fragment(f) => {
                if completes(a.fragments.in_flight@, f) {
                    let d = choose|d: SingleData| is_reassembly_of(d, a.fragments.in_flight@, f) && a.accept_rel(b, d);
                }
            },
        }
    } else {
        let (now_ms, tick) = choose|now_ms: u64, tick: u16| #[trigger] a.update_rel(b, now_ms, tick);
    }
}

proof fn lemma_ordered_run_prefix(rs: Seq<OrderedReliableReceiver>, outs: Seq<Option<SingleData>>, k: int)
    requires
        rs.len() == outs.len() + 1,
        forall|j: int| 0 <= j < rs.len() ==> (#[trigger] rs[j]).inv(),
        forall|j: int| 0 <= j < outs.len() ==> ordered_step(rs[j], rs[j + 1], #[trigger] outs[j]),
        0 <= k < rs.len(),
    ensures
        rs[k].pending_id == seq_add(rs[0].pending_id, handed_out(outs, k) as int),
    decreases k,
{
    let p = rs[0].pending_id;
    if k == 0 {
        assert(seq_add(p, 0) == p);
    } else {
        lemma_ordered_run_prefix(rs, outs, k - 1);
        lemma_ordered_step_pending(rs[k - 1], rs[k], outs[k - 1]);
        let h = handed_out(outs, k - 1) as int;
        assert(seq_next(seq_add(p, h)) == seq_add(p, h + 1));
    }
}

} // verus!
