//! The sending side of a reliable channel: ids, and resending until acknowledged.
use vstd::prelude::*;

use crate::ack::{acked_by, is_acked_by};
use crate::channel::FIRST_MESSAGE_ID;
use crate::message::SingleData;
use crate::sequence::{next, seq_next};

verus! {

/// A message that has not been acknowledged yet.
pub struct PendingMessage {
    pub id: u16,
    pub bytes: Vec<u8>,
    /// When (ms) it was last sent; `None` before the first send.
    pub last_sent_ms: Option<u64>,
}

/// Assigns ids to outgoing messages and resends each one on a timer until
/// the receiver acknowledges it.
pub struct ReliableSender {
    pub next_id: u16,
    pub unacked: std::collections::VecDeque<PendingMessage>,
    pub resend_after_ms: u64,
}

/// A pending message is due: never sent, or sent `resend` ms ago or more.
pub open spec fn is_due(p: PendingMessage, now_ms: u64, resend_ms: u64) -> bool {
    match p.last_sent_ms {
        None => true,
        Some(t) => now_ms as int >= t as int + resend_ms as int,
    }
}

/// The id and bytes of each due message, in queue order.
pub open spec fn due_messages(s: Seq<PendingMessage>, now_ms: u64, resend_ms: u64) -> Seq<(u16, Seq<u8>)>
    decreases s.len(),
{
    if s.len() == 0 {
        Seq::empty()
    } else {
        let rest = due_messages(s.drop_last(), now_ms, resend_ms);
        if is_due(s.last(), now_ms, resend_ms) {
            rest.push((s.last().id, s.last().bytes@))
        } else {
            rest
        }
    }
}

/// The pending messages other than those with id `id`.
pub open spec fn without_id(s: Seq<PendingMessage>, id: u16) -> Seq<PendingMessage>
    decreases s.len(),
{
    if s.len() == 0 {
        s
    } else {
        let rest = without_id(s.drop_last(), id);
        if s.last().id == id {
            rest
        } else {
            rest.push(s.last())
        }
    }
}

/// The pending messages that (`ack`, `bits`) does not acknowledge.
pub open spec fn without_acked(s: Seq<PendingMessage>, ack: u16, bits: u32) -> Seq<PendingMessage>
    decreases s.len(),
{
    if s.len() == 0 {
        s
    } else {
        let rest = without_acked(s.drop_last(), ack, bits);
        if acked_by(ack, bits, s.last().id) {
            rest
        } else {
            rest.push(s.last())
        }
    }
}

fn copy_bytes(b: &Vec<u8>) -> (r: Vec<u8>)
    ensures
        r@ == b@,
{
    let mut r: Vec<u8> = Vec::new();
    let mut i: usize = 0;
    while i < b.len()
        invariant
            i <= b@.len(),
            r@ == b@.subrange(0, i as int),
        decreases b@.len() - i,
    {
        r.push(b[i]);
        i = i + 1;
        assert(r@ =~= b@.subrange(0, i as int));
    }
    assert(b@.subrange(0, i as int) =~= b@);
    r
}

impl ReliableSender {
    /// `next` is this sender once `bytes` is queued under id `r`.
    pub open spec fn send_rel(self, next: Self, bytes: Vec<u8>, r: u16) -> bool {
        &&& r == self.next_id
        &&& next.next_id == seq_next(self.next_id)
        &&& next.resend_after_ms == self.resend_after_ms
        &&& next.unacked@.len() == self.unacked@.len() + 1
        &&& next.unacked@.drop_last() == self.unacked@
        &&& next.unacked@.last().id == r
        &&& next.unacked@.last().bytes == bytes
        &&& next.unacked@.last().last_sent_ms.is_none()
    }

    /// `next` is this sender after handing out `r` at `now_ms`.
    pub open spec fn collect_rel(self, next: Self, now_ms: u64, r: Seq<SingleData>) -> bool {
        &&& next.next_id == self.next_id
        &&& next.resend_after_ms == self.resend_after_ms
        &&& r.len() == due_messages(self.unacked@, now_ms, self.resend_after_ms).len()
        &&& forall|k: int|
                0 <= k < r.len() ==> {
                    &&& (#[trigger] r[k]).id == due_messages(self.unacked@, now_ms, self.resend_after_ms)[k].0
                    &&& r[k].bytes@ == due_messages(self.unacked@, now_ms, self.resend_after_ms)[k].1
                    &&& r[k].tick.is_none()
                }
        &&& next.unacked@.len() == self.unacked@.len()
        &&& forall|i: int|
                0 <= i < self.unacked@.len() ==> {
                    &&& (#[trigger] next.unacked@[i]).id == self.unacked@[i].id
                    &&& next.unacked@[i].bytes == self.unacked@[i].bytes
                    &&& next.unacked@[i].last_sent_ms == if is_due(self.unacked@[i], now_ms, self.resend_after_ms) {
                        Some(now_ms)
                    } else {
                        self.unacked@[i].last_sent_ms
                    }
                }
    }

    /// `next` is this sender after the acknowledgment (`ack`, `bits`).
    pub open spec fn ack_bits_rel(self, next: Self, ack: u16, bits: u32) -> bool {
        &&& next.next_id == self.next_id
        &&& next.resend_after_ms == self.resend_after_ms
        &&& next.unacked@ == without_acked(self.unacked@, ack, bits)
    }

    pub fn new(resend_after_ms: u64) -> (r: Self)
        ensures
            r.next_id == FIRST_MESSAGE_ID,
            r.unacked@.len() == 0,
            r.resend_after_ms == resend_after_ms,
    {
        ReliableSender { next_id: FIRST_MESSAGE_ID, unacked: std::collections::VecDeque::new(), resend_after_ms }
    }

    /// Queues a message and returns the id it was given.
    pub fn buffer_send(&mut self, bytes: Vec<u8>) -> (r: u16)
        ensures
            old(self).send_rel(*final(self), bytes, r),
    {
        let id = self.next_id;
        self.unacked.push_back(PendingMessage { id, bytes, last_sent_ms: None });
        self.next_id = next(id);
        assert(self.unacked@.drop_last() =~= old(self).unacked@);
        id
    }

    /// The messages to put on the wire at `now_ms`: each one never sent, or
    /// not acknowledged within the resend delay. They are marked sent now.
    pub fn collect_messages_to_send(&mut self, now_ms: u64) -> (r: Vec<SingleData>)
        ensures
            old(self).collect_rel(*final(self), now_ms, r@),
    {
        let ghost s = self.unacked@;
        let resend = self.resend_after_ms;
        let n = self.unacked.len();
        let mut out: Vec<SingleData> = Vec::new();
        let mut done: std::collections::VecDeque<PendingMessage> = std::collections::VecDeque::new();
        let mut i: usize = 0;
        while i < n
            invariant
                i <= n == s.len(),
                resend == old(self).resend_after_ms,
                self.next_id == old(self).next_id,
                self.resend_after_ms == old(self).resend_after_ms,
                self.unacked@ == s.subrange(i as int, n as int),
                done@.len() == i,
                out@.len() == due_messages(s.subrange(0, i as int), now_ms, resend).len(),
                forall|k: int|
                    0 <= k < out@.len() ==> {
                        &&& (#[trigger] out@[k]).id == due_messages(s.subrange(0, i as int), now_ms, resend)[k].0
                        &&& out@[k].bytes@ == due_messages(s.subrange(0, i as int), now_ms, resend)[k].1
                        &&& out@[k].tick.is_none()
                    },
                forall|j: int|
                    0 <= j < i ==> {
                        &&& (#[trigger] done@[j]).id == s[j].id
                        &&& done@[j].bytes == s[j].bytes
                        &&& done@[j].last_sent_ms == if is_due(s[j], now_ms, resend) {
                            Some(now_ms)
                        } else {
                            s[j].last_sent_ms
                        }
                    },
            decreases n - i,
        {
            let ghost prev = due_messages(s.subrange(0, i as int), now_ms, resend);
            let ghost out_before = out@;
            assert(s.subrange(0, i + 1).drop_last() =~= s.subrange(0, i as int));
            let popped = self.unacked.pop_front();
            let mut p = match popped {
                Some(p) => p,
                None => {
                    assert(false);
                    return out;
                },
            };
            assert(p == s[i as int]);
            let due = match p.last_sent_ms {
                None => true,
                Some(t) => now_ms >= t && now_ms - t >= resend,
            };
            if due {
                let bytes = copy_bytes(&p.bytes);
                out.push(SingleData { id: p.id, tick: None, bytes });
                p.last_sent_ms = Some(now_ms);
            }
            done.push_back(p);
            assert(self.unacked@ =~= s.subrange(i + 1, n as int));
            i = i + 1;
        }
        assert(s.subrange(0, n as int) =~= s);
        self.unacked = done;
        out
    }

    /// Forgets every pending message with the acknowledged id.
    pub fn process_ack(&mut self, id: u16)
        ensures
            final(self).next_id == old(self).next_id,
            final(self).resend_after_ms == old(self).resend_after_ms,
            final(self).unacked@ == without_id(old(self).unacked@, id),
    {
        let ghost s = self.unacked@;
        let n = self.unacked.len();
        let mut kept: std::collections::VecDeque<PendingMessage> = std::collections::VecDeque::new();
        let mut i: usize = 0;
        while i < n
            invariant
                i <= n == s.len(),
                self.next_id == old(self).next_id,
                self.resend_after_ms == old(self).resend_after_ms,
                self.unacked@ == s.subrange(i as int, n as int),
                kept@ == without_id(s.subrange(0, i as int), id),
            decreases n - i,
        {
            assert(s.subrange(0, i + 1).drop_last() =~= s.subrange(0, i as int));
            match self.unacked.pop_front() {
                Some(p) => {
                    assert(p == s[i as int]);
                    if p.id != id {
                        kept.push_back(p);
                    }
                },
                None => {},
            }
            assert(self.unacked@ =~= s.subrange(i + 1, n as int));
            i = i + 1;
        }
        assert(s.subrange(0, n as int) =~= s);
        self.unacked = kept;
    }

    /// Forgets every pending message that an acknowledgment bitfield reports
    /// as received: `ack` itself and each of the 32 before it whose bit is set.
    pub fn process_ack_bits(&mut self, ack: u16, bits: u32)
        ensures
            old(self).ack_bits_rel(*final(self), ack, bits),
    {
        let ghost s = self.unacked@;
        let n = self.unacked.len();
        let mut kept: std::collections::VecDeque<PendingMessage> = std::collections::VecDeque::new();
        let mut i: usize = 0;
        while i < n
            invariant
                i <= n == s.len(),
                self.next_id == old(self).next_id,
                self.resend_after_ms == old(self).resend_after_ms,
                self.unacked@ == s.subrange(i as int, n as int),
                kept@ == without_acked(s.subrange(0, i as int), ack, bits),
            decreases n - i,
        {
            assert(s.subrange(0, i + 1).drop_last() =~= s.subrange(0, i as int));
            match self.unacked.pop_front() {
                Some(p) => {
                    assert(p == s[i as int]);
                    if !is_acked_by(ack, bits, p.id) {
                        kept.push_back(p);
                    }
                },
                None => {},
            }
            assert(self.unacked@ =~= s.subrange(i + 1, n as int));
            i = i + 1;
        }
        assert(s.subrange(0, n as int) =~= s);
        self.unacked = kept;
    }
}

} // verus!

verus! {

proof fn lemma_due_listed(s: Seq<PendingMessage>, now_ms: u64, resend_ms: u64, i: int)
    requires
        0 <= i < s.len(),
        is_due(s[i], now_ms, resend_ms),
    ensures
        due_messages(s, now_ms, resend_ms).contains((s[i].id, s[i].bytes@)),
    decreases s.len(),
{
    let rest = due_messages(s.drop_last(), now_ms, resend_ms);
    if i == s.len() - 1 {
        assert(due_messages(s, now_ms, resend_ms) == rest.push((s[i].id, s[i].bytes@)));
        assert(rest.push((s[i].id, s[i].bytes@))[rest.len() as int] == (s[i].id, s[i].bytes@));
    } else {
        assert(s.drop_last()[i] == s[i]);
        lemma_due_listed(s.drop_last(), now_ms, resend_ms, i);
        let k = choose|k: int| 0 <= k < rest.len() && rest[k] == (s[i].id, s[i].bytes@);
        if is_due(s.last(), now_ms, resend_ms) {
            assert(rest.push((s.last().id, s.last().bytes@))[k] == rest[k]);
        }
    }
}

proof fn lemma_unacked_kept(s: Seq<PendingMessage>, ack: u16, bits: u32, i: int)
    requires
        0 <= i < s.len(),
        !acked_by(ack, bits, s[i].id),
    ensures
        without_acked(s, ack, bits).contains(s[i]),
    decreases s.len(),
{
    let rest = without_acked(s.drop_last(), ack, bits);
    if i == s.len() - 1 {
        assert(rest.push(s[i])[rest.len() as int] == s[i]);
    } else {
        assert(s.drop_last()[i] == s[i]);
        lemma_unacked_kept(s.drop_last(), ack, bits, i);
        let k = choose|k: int| 0 <= k < rest.len() && rest[k] == s[i];
        if !acked_by(ack, bits, s.last().id) {
            assert(rest.push(s.last())[k] == rest[k]);
        }
    }
}

/// A reliable sender loses nothing to a lossy link: a pending message stays
/// pending through any acknowledgment that does not name it, and it is
/// handed out again whenever its resend delay has passed.
pub proof fn lemma_unacked_resent(s: Seq<PendingMessage>, i: int, ack: u16, bits: u32, now_ms: u64, resend_ms: u64)
    requires
        0 <= i < s.len(),
    ensures
        !acked_by(ack, bits, s[i].id) ==> without_acked(s, ack, bits).contains(s[i]),
        is_due(s[i], now_ms, resend_ms) ==> due_messages(s, now_ms, resend_ms).contains((s[i].id, s[i].bytes@)),
{
    if !acked_by(ack, bits, s[i].id) {
        lemma_unacked_kept(s, ack, bits, i);
    }
    if is_due(s[i], now_ms, resend_ms) {
        lemma_due_listed(s, now_ms, resend_ms, i);
    }
}

} // verus!
