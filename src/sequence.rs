//! Wrapping 16-bit sequence numbers and their ordering.
use vstd::prelude::*;

verus! {

/// Number of distinct sequence numbers.
pub const SEQ_SPACE: u32 = 65536;

/// Half of the sequence space: the farthest a newer number may lie ahead.
pub const SEQ_HALF: u32 = 32768;

/// How far `a` lies ahead of `b`, modulo the sequence space.
pub open spec fn seq_distance(a: u16, b: u16) -> int {
    (a as int - b as int + 65536) % 65536
}

/// `a` is strictly newer than `b` under wrap-around.
pub open spec fn seq_newer(a: u16, b: u16) -> bool {
    0 < seq_distance(a, b) < 32768
}

/// `a` is strictly older than `b` under wrap-around.
pub open spec fn seq_older(a: u16, b: u16) -> bool {
    seq_newer(b, a)
}

/// The sequence number that follows `a`.
pub open spec fn seq_next(a: u16) -> u16 {
    ((a as int + 1) % 65536) as u16
}

/// The sequence number `k` steps after `a`.
pub open spec fn seq_add(a: u16, k: int) -> u16 {
    ((a as int + k) % 65536) as u16
}

/// Distance from `b` forward to `a`.
pub fn distance(a: u16, b: u16) -> (r: u16)
    ensures
        r as int == seq_distance(a, b),
{
    ((a as u32 + SEQ_SPACE - b as u32) % SEQ_SPACE) as u16
}

/// Whether `a` is strictly newer than `b` under wrap-around.
pub fn is_newer(a: u16, b: u16) -> (r: bool)
    ensures
        r == seq_newer(a, b),
{
    let d = distance(a, b);
    d != 0 && (d as u32) < SEQ_HALF
}

/// The sequence number after `a`, wrapping to zero.
pub fn next(a: u16) -> (r: u16)
    ensures
        r == seq_next(a),
{
    ((a as u32 + 1) % SEQ_SPACE) as u16
}

} // verus!
