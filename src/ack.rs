//! Acknowledgment bitfields: the newest sequence number received, and one
//! bit for each of the 32 before it.
use vstd::prelude::*;

use crate::sequence::{distance, is_newer, seq_distance, seq_newer};

verus! {

/// Bit `k` of `bits`.
pub open spec fn bit(bits: u32, k: u32) -> bool {
    (bits >> k) & 1u32 == 1u32
}

/// The pair (`ack`, `bits`) acknowledges `x`: it is `ack` itself, or lies
/// `d` behind it, 1 <= d <= 32, with bit `d - 1` set.
pub open spec fn acked_by(ack: u16, bits: u32, x: u16) -> bool {
    x == ack || {
        let d = seq_distance(ack, x);
        1 <= d <= 32 && bit(bits, (d - 1) as u32)
    }
}

/// `x` lies at most 32 sequence numbers behind `latest`.
pub open spec fn in_window(latest: u16, x: u16) -> bool {
    seq_distance(latest, x) <= 32
}

/// Whether the pair (`ack`, `bits`) acknowledges `x`.
pub fn is_acked_by(ack: u16, bits: u32, x: u16) -> (r: bool)
    ensures
        r == acked_by(ack, bits, x),
{
    if x == ack {
        return true;
    }
    let d = distance(ack, x);
    if d < 1 || d > 32 {
        return false;
    }
    let k = (d - 1) as u32;
    (bits >> k) & 1 == 1
}

/// The sequence numbers a receiver has seen, as it reports them back.
pub struct AckTracker {
    /// The newest sequence number received.
    pub latest: Option<u16>,
    /// Bit `i` set: `latest - 1 - i` was received too.
    pub bits: u32,
}

proof fn lemma_shift_in(b: u32, d: u32, k: u32)
    requires
        1 <= d < 32,
        k < 32,
    ensures
        bit((b << d) | (1u32 << (d - 1) as u32), k) == if k == d - 1 {
            true
        } else if k >= d {
            bit(b, (k - d) as u32)
        } else {
            false
        },
{
    let e = (d - 1) as u32;
    if k == e {
        assert(((((b << d) | (1u32 << e)) >> k) & 1u32 == 1u32)) by (bit_vector)
            requires
                1 <= d < 32,
                k == e,
                e == d - 1,
        ;
    } else if k >= d {
        let j = (k - d) as u32;
        assert(((((b << d) | (1u32 << e)) >> k) & 1u32) == ((b >> j) & 1u32)) by (bit_vector)
            requires
                1 <= d < 32,
                k < 32,
                k >= d,
                j == k - d,
                e == d - 1,
        ;
    } else {
        assert(((((b << d) | (1u32 << e)) >> k) & 1u32) == 0u32) by (bit_vector)
            requires
                1 <= d < 32,
                k < d - 1,
                e == d - 1,
        ;
    }
}

proof fn lemma_top_bit(k: u32)
    requires
        k < 32,
    ensures
        bit(1u32 << 31u32, k) == (k == 31),
{
    assert(((1u32 << 31u32) >> k) & 1u32 == (if k == 31 { 1u32 } else { 0u32 })) by (bit_vector)
        requires
            k < 32,
    ;
}

proof fn lemma_set_bit(b: u32, e: u32, k: u32)
    requires
        e < 32,
        k < 32,
    ensures
        bit(b | (1u32 << e), k) == (k == e || bit(b, k)),
{
    assert((((b | (1u32 << e)) >> k) & 1u32 == 1u32) == (k == e || ((b >> k) & 1u32 == 1u32))) by (bit_vector)
        requires
            e < 32,
            k < 32,
    ;
}

impl AckTracker {
    /// Whether `x` is reported as received.
    pub open spec fn acks(&self, x: u16) -> bool {
        match self.latest {
            None => false,
            Some(l) => acked_by(l, self.bits, x),
        }
    }

    pub fn new() -> (r: Self)
        ensures
            forall|x: u16| !r.acks(x),
            r.latest.is_none(),
    {
        AckTracker { latest: None, bits: 0 }
    }

    /// Records that `seq` was received. A number newer than every one before
    /// becomes the newest; numbers that then lie more than 32 behind it are
    /// no longer reported.
    pub fn record(&mut self, seq: u16)
        ensures
            final(self).latest == match old(self).latest {
                None => Some(seq),
                Some(l) => if seq_newer(seq, l) { Some(seq) } else { Some(l) },
            },
            forall|x: u16|
                #[trigger] final(self).acks(x) == (in_window(final(self).latest.unwrap(), x) && (x == seq || old(self).acks(x))),
    {
        match self.latest {
            None => {
                self.latest = Some(seq);
                self.bits = 0;
                assert forall|x: u16| #[trigger] self.acks(x) == (in_window(seq, x) && (x == seq || old(self).acks(x))) by {
                    if x != seq {
                        let d = seq_distance(seq, x);
                        if 1 <= d <= 32 {
                            assert(!bit(0u32, (d - 1) as u32)) by {
                                let k = (d - 1) as u32;
                                assert((0u32 >> k) & 1u32 == 0u32) by (bit_vector);
                            }
                        }
                    }
                }
            },
            Some(l) => {
                if is_newer(seq, l) {
                    let d = distance(seq, l) as u32;
                    let old_bits = self.bits;
                    let new_bits: u32 = if d > 32 {
                        0
                    } else if d == 32 {
                        1u32 << 31u32
                    } else {
                        (old_bits << d) | (1u32 << (d - 1))
                    };
                    self.bits = new_bits;
                    self.latest = Some(seq);
                    assert forall|x: u16| #[trigger] self.acks(x) == (in_window(seq, x) && (x == seq || old(self).acks(x))) by {
                        let dn = seq_distance(seq, x);
                        let dl = seq_distance(l, x);
                        assert(dn == (d + dl) % 65536);
                        assert(dl == (dn + 65536 - d) % 65536);
                        if x != seq && 1 <= dn <= 32 {
                            let k = (dn - 1) as u32;
                            if d > 32 {
                                assert(!bit(0u32, k)) by {
                                    assert((0u32 >> k) & 1u32 == 0u32) by (bit_vector);
                                }
                            } else if d == 32 {
                                lemma_top_bit(k);
                            } else {
                                lemma_shift_in(old_bits, d, k);
                            }
                        }
                    }
                } else if seq != l {
                    let d = distance(l, seq);
                    if d <= 32 {
                        let e = (d - 1) as u32;
                        let old_bits = self.bits;
                        self.bits = old_bits | (1u32 << e);
                        assert forall|x: u16| #[trigger] self.acks(x) == (in_window(l, x) && (x == seq || old(self).acks(x))) by {
                            let dx = seq_distance(l, x);
                            if x != l && 1 <= dx <= 32 {
                                lemma_set_bit(old_bits, e, (dx - 1) as u32);
                            }
                        }
                    } else {
                        assert forall|x: u16| #[trigger] self.acks(x) == (in_window(l, x) && (x == seq || old(self).acks(x))) by {
                        }
                    }
                } else {
                    assert forall|x: u16| #[trigger] self.acks(x) == (in_window(l, x) && (x == seq || old(self).acks(x))) by {
                    }
                }
            },
        }
    }
}

} // verus!
