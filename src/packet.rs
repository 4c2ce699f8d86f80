//! The wire format of a packet: a fixed header, a few optional fields, then
//! the payload.
//!
//! Layout, big endian:
//! channel id (1), sequence (2), ack (2), ack bitfield (4), tick (2),
//! flags (1: bit 0 fragment, bit 1 message tick present),
//! message tick (2, if present), fragment index and count (2 + 2, if a
//! fragment), payload (rest).
use vstd::prelude::*;

use crate::message::{FragmentData, MessageContainer, SingleData};

verus! {

/// Length of the fixed header.
pub const HEADER_LEN: usize = 12;

/// Maximum packet size on an ordinary link.
pub const MTU: usize = 1472;

/// Safe packet size when the link may be QUIC-constrained.
pub const MIN_MTU: usize = 1300;

/// The fixed part of a packet.
#[derive(Clone, Copy, Debug, PartialEq, Eq, Structural)]
pub struct PacketHeader {
    pub channel_id: u8,
    /// Sequence number of the message carried, per channel.
    pub sequence: u16,
    /// The newest sequence number the sender has received on this channel.
    pub ack: u16,
    /// Bit `i` set: sequence number `ack - 1 - i` was received too.
    pub ack_bits: u32,
    /// The sender's tick when the packet was written.
    pub tick: u16,
}

/// A decoded packet.
pub struct Packet {
    pub header: PacketHeader,
    pub message: MessageContainer,
}

/// Why a packet could not be decoded.
#[derive(Clone, Copy, Debug, PartialEq, Eq, Structural)]
pub enum PacketError {
    /// The packet ends before its header or optional fields do.
    Truncated,
    /// The flags byte has unknown bits set.
    BadFlags,
    /// A fragment claims an index outside its count.
    BadFragment,
    /// The packet names a channel that was not registered.
    UnknownChannel,
}

pub open spec fn be16(s: Seq<u8>, i: int) -> u16 {
    (s[i] as int * 256 + s[i + 1] as int) as u16
}

pub open spec fn be32(s: Seq<u8>, i: int) -> u32 {
    (((s[i] as int * 256 + s[i + 1] as int) * 256 + s[i + 2] as int) * 256 + s[i + 3] as int) as u32
}

pub open spec fn bytes16(v: u16) -> Seq<u8> {
    seq![(v / 256) as u8, (v % 256) as u8]
}

pub open spec fn bytes32(v: u32) -> Seq<u8> {
    seq![(v / 16777216) as u8, (v / 65536 % 256) as u8, (v / 256 % 256) as u8, (v % 256) as u8]
}

pub open spec fn header_bytes(h: PacketHeader, flags: u8) -> Seq<u8> {
    seq![h.channel_id] + bytes16(h.sequence) + bytes16(h.ack) + bytes32(h.ack_bits) + bytes16(h.tick) + seq![flags]
}

/// The header that the first bytes of `s` spell.
pub open spec fn header_of(s: Seq<u8>) -> PacketHeader {
    PacketHeader { channel_id: s[0], sequence: be16(s, 1), ack: be16(s, 3), ack_bits: be32(s, 5), tick: be16(s, 9) }
}

pub open spec fn flags_of(s: Seq<u8>) -> u8 {
    s[11]
}

/// Length of header and optional fields, given the flags.
pub open spec fn fields_len(flags: u8) -> int {
    12 + (if flags & 2 != 0 { 2int } else { 0 }) + (if flags & 1 != 0 { 4int } else { 0 })
}

/// Where the fragment fields start, given the flags.
pub open spec fn fragment_at(flags: u8) -> int {
    if flags & 2 != 0 { 14 } else { 12 }
}

/// The bytes decode to a packet.
pub open spec fn well_formed(s: Seq<u8>) -> bool {
    &&& s.len() >= 12
    &&& flags_of(s) < 4
    &&& s.len() >= fields_len(flags_of(s))
    &&& flags_of(s) & 1 != 0 ==> be16(s, fragment_at(flags_of(s))) < be16(s, fragment_at(flags_of(s)) + 2)
}

/// Why bytes that are not well formed fail to decode.
pub open spec fn decode_error(s: Seq<u8>) -> PacketError {
    if s.len() < 12 {
        PacketError::Truncated
    } else if flags_of(s) >= 4 {
        PacketError::BadFlags
    } else if s.len() < fields_len(flags_of(s)) {
        PacketError::Truncated
    } else {
        PacketError::BadFragment
    }
}

/// The bytes of a packet, as `encode` writes them.
pub open spec fn encoding(h: PacketHeader, m: MessageContainer) -> Seq<u8> {
    match m {
        MessageContainer::Single(d) => {
            let flags: u8 = if d.tick.is_some() { 2 } else { 0 };
            header_bytes(h, flags) + (if d.tick.is_some() { bytes16(d.tick.unwrap()) } else { Seq::empty() }) + d.bytes@
        },
        MessageContainer::Fragment(f) => {
            let flags: u8 = if f.tick.is_some() { 3 } else { 1 };
            header_bytes(h, flags) + (if f.tick.is_some() { bytes16(f.tick.unwrap()) } else { Seq::empty() })
                + bytes16(f.fragment_index) + bytes16(f.num_fragments) + f.bytes@
        },
    }
}

fn read16(s: &Vec<u8>, i: usize) -> (r: u16)
    requires
        i + 1 < s.len(),
    ensures
        r == be16(s@, i as int),
{
    let a = s[i] as u32;
    let b = s[i + 1] as u32;
    assert(a * 256 + b <= 65535);
    (a * 256 + b) as u16
}

fn read32(s: &Vec<u8>, i: usize) -> (r: u32)
    requires
        i + 3 < s.len(),
    ensures
        r == be32(s@, i as int),
{
    let a = s[i] as u64;
    let b = s[i + 1] as u64;
    let c = s[i + 2] as u64;
    let d = s[i + 3] as u64;
    assert(((a * 256 + b) * 256 + c) * 256 + d <= 0xffff_ffff);
    (((a * 256 + b) * 256 + c) * 256 + d) as u32
}

fn push16(out: &mut Vec<u8>, v: u16)
    ensures
        final(out)@ == old(out)@ + bytes16(v),
{
    out.push((v / 256) as u8);
    out.push((v % 256) as u8);
    assert(final(out)@ =~= old(out)@ + bytes16(v));
}

fn push32(out: &mut Vec<u8>, v: u32)
    ensures
        final(out)@ == old(out)@ + bytes32(v),
{
    out.push((v / 16777216) as u8);
    out.push((v / 65536 % 256) as u8);
    out.push((v / 256 % 256) as u8);
    out.push((v % 256) as u8);
    assert(final(out)@ =~= old(out)@ + bytes32(v));
}

fn push_all(out: &mut Vec<u8>, b: &Vec<u8>)
    ensures
        final(out)@ == old(out)@ + b@,
{
    let mut i: usize = 0;
    while i < b.len()
        invariant
            i <= b@.len(),
            out@ == old(out)@ + b@.subrange(0, i as int),
        decreases b@.len() - i,
    {
        out.push(b[i]);
        i = i + 1;
        assert(out@ =~= old(out)@ + b@.subrange(0, i as int));
    }
    assert(b@.subrange(0, i as int) =~= b@);
}

fn copy_from(s: &Vec<u8>, start: usize) -> (r: Vec<u8>)
    requires
        start <= s@.len(),
    ensures
        r@ == s@.subrange(start as int, s@.len() as int),
{
    let mut r: Vec<u8> = Vec::new();
    let mut i: usize = start;
    while i < s.len()
        invariant
            start <= i <= s@.len(),
            r@ == s@.subrange(start as int, i as int),
        decreases s@.len() - i,
    {
        r.push(s[i]);
        i = i + 1;
        assert(r@ =~= s@.subrange(start as int, i as int));
    }
    r
}

/// Writes a packet to bytes.
pub fn encode(header: &PacketHeader, message: &MessageContainer) -> (r: Vec<u8>)
    ensures
        r@ == encoding(*header, *message),
{
    let mut out: Vec<u8> = Vec::new();
    let (tick, fragment) = match message {
        MessageContainer::Single(d) => (d.tick, false),
        MessageContainer::Fragment(f) => (f.tick, true),
    };
    let flags: u8 = (if tick.is_some() { 2u8 } else { 0u8 }) + (if fragment { 1u8 } else { 0u8 });
    out.push(header.channel_id);
    push16(&mut out, header.sequence);
    push16(&mut out, header.ack);
    push32(&mut out, header.ack_bits);
    push16(&mut out, header.tick);
    out.push(flags);
    assert(out@ =~= header_bytes(*header, flags));
    match tick {
        Some(t) => push16(&mut out, t),
        None => {},
    }
    match message {
        MessageContainer::Single(d) => {
            push_all(&mut out, &d.bytes);
        },
        MessageContainer::Fragment(f) => {
            push16(&mut out, f.fragment_index);
            push16(&mut out, f.num_fragments);
            push_all(&mut out, &f.bytes);
        },
    }
    assert(out@ =~= encoding(*header, *message));
    out
}

/// `p` is what decoding the bytes `s` yields; the message takes the
/// header's sequence number as its id.
pub open spec fn decodes_to(s: Seq<u8>, p: Packet) -> bool {
    &&& well_formed(s)
    &&& p.header == header_of(s)
    &&& match p.message {
        MessageContainer::Single(d) => {
            &&& flags_of(s) & 1 == 0
            &&& d.id == p.header.sequence
            &&& d.tick == if flags_of(s) & 2 != 0 { Some(be16(s, 12)) } else { None }
            &&& d.bytes@ == s.subrange(fields_len(flags_of(s)), s.len() as int)
        },
        MessageContainer::Fragment(f) => {
            &&& flags_of(s) & 1 != 0
            &&& f.message_id == p.header.sequence
            &&& f.tick == if flags_of(s) & 2 != 0 { Some(be16(s, 12)) } else { None }
            &&& f.fragment_index == be16(s, fragment_at(flags_of(s)))
            &&& f.num_fragments == be16(s, fragment_at(flags_of(s)) + 2)
            &&& f.bytes@ == s.subrange(fields_len(flags_of(s)), s.len() as int)
        },
    }
}

/// Reads a packet from bytes.
pub fn decode(s: &Vec<u8>) -> (r: Result<Packet, PacketError>)
    ensures
        match r {
            Ok(p) => decodes_to(s@, p),
            Err(e) => !well_formed(s@) && e == decode_error(s@),
        },
{
    if s.len() < HEADER_LEN {
        return Err(PacketError::Truncated);
    }
    let flags = s[11];
    if flags >= 4 {
        return Err(PacketError::BadFlags);
    }
    let has_tick = flags & 2 != 0;
    let is_fragment = flags & 1 != 0;
    let need: usize = 12 + (if has_tick { 2usize } else { 0usize }) + (if is_fragment { 4usize } else { 0usize });
    if s.len() < need {
        return Err(PacketError::Truncated);
    }
    let header = PacketHeader {
        channel_id: s[0],
        sequence: read16(s, 1),
        ack: read16(s, 3),
        ack_bits: read32(s, 5),
        tick: read16(s, 9),
    };
    let tick = if has_tick { Some(read16(s, 12)) } else { None };
    let at: usize = if has_tick { 14 } else { 12 };
    if is_fragment {
        let index = read16(s, at);
        let count = read16(s, at + 2);
        if index >= count {
            return Err(PacketError::BadFragment);
        }
        let bytes = copy_from(s, need);
        Ok(Packet {
            header,
            message: MessageContainer::Fragment(
                FragmentData { message_id: header.sequence, fragment_index: index, num_fragments: count, tick, bytes },
            ),
        })
    } else {
        let bytes = copy_from(s, need);
        Ok(Packet { header, message: MessageContainer::Single(SingleData { id: header.sequence, tick, bytes }) })
    }
}

} // verus!

verus! {

proof fn lemma_bytes16(s: Seq<u8>, i: int, v: u16)
    requires
        0 <= i,
        i + 2 <= s.len(),
        s.subrange(i, i + 2) == bytes16(v),
    ensures
        be16(s, i) == v,
{
    assert(s[i] == s.subrange(i, i + 2)[0]);
    assert(s[i + 1] == s.subrange(i, i + 2)[1]);
}

proof fn lemma_bytes32(s: Seq<u8>, i: int, v: u32)
    requires
        0 <= i,
        i + 4 <= s.len(),
        s.subrange(i, i + 4) == bytes32(v),
    ensures
        be32(s, i) == v,
{
    assert(s[i] == s.subrange(i, i + 4)[0]);
    assert(s[i + 1] == s.subrange(i, i + 4)[1]);
    assert(s[i + 2] == s.subrange(i, i + 4)[2]);
    assert(s[i + 3] == s.subrange(i, i + 4)[3]);
}

proof fn lemma_flag_bits()
    ensures
        0u8 & 1 == 0 && 0u8 & 2 == 0,
        1u8 & 1 != 0 && 1u8 & 2 == 0,
        2u8 & 1 == 0 && 2u8 & 2 != 0,
        3u8 & 1 != 0 && 3u8 & 2 != 0,
{
    assert(0u8 & 1 == 0 && 0u8 & 2 == 0) by (bit_vector);
    assert(1u8 & 1 != 0 && 1u8 & 2 == 0) by (bit_vector);
    assert(2u8 & 1 == 0 && 2u8 & 2 != 0) by (bit_vector);
    assert(3u8 & 1 != 0 && 3u8 & 2 != 0) by (bit_vector);
}

/// Decoding what `encode` wrote gives back the same header, the same kind of
/// message, and the same message fields and payload.
pub proof fn lemma_packet_round_trip(h: PacketHeader, m: MessageContainer)
    requires
        m is Fragment ==> m->Fragment_0.fragment_index < m->Fragment_0.num_fragments,
    ensures
        well_formed(encoding(h, m)),
        header_of(encoding(h, m)) == h,
        ({
            let s = encoding(h, m);
            let tick = if flags_of(s) & 2 != 0 { Some(be16(s, 12)) } else { None };
            let body = s.subrange(fields_len(flags_of(s)), s.len() as int);
            match m {
                MessageContainer::Single(d) => flags_of(s) & 1 == 0 && tick == d.tick && body == d.bytes@,
                MessageContainer::Fragment(f) => {
                    &&& flags_of(s) & 1 != 0
                    &&& tick == f.tick
                    &&& be16(s, fragment_at(flags_of(s))) == f.fragment_index
                    &&& be16(s, fragment_at(flags_of(s)) + 2) == f.num_fragments
                    &&& body == f.bytes@
                },
            }
        }),
{
    lemma_flag_bits();
    let s = encoding(h, m);
    let (tick, flags) = match m {
        MessageContainer::Single(d) => (d.tick, if d.tick.is_some() { 2u8 } else { 0u8 }),
        MessageContainer::Fragment(f) => (f.tick, if f.tick.is_some() { 3u8 } else { 1u8 }),
    };
    let hb = header_bytes(h, flags);
    assert(hb.len() == 12);
    assert(s.subrange(0, 12) =~= hb);
    assert(s[0] == h.channel_id);
    assert(s[11] == flags);
        assert(s.subrange(1, 3) =~= bytes16(h.sequence));
    lemma_bytes16(s, 1, h.sequence);
        assert(s.subrange(3, 5) =~= bytes16(h.ack));
    lemma_bytes16(s, 3, h.ack);
        assert(s.subrange(5, 9) =~= bytes32(h.ack_bits));
    lemma_bytes32(s, 5, h.ack_bits);
        assert(s.subrange(9, 11) =~= bytes16(h.tick));
    lemma_bytes16(s, 9, h.tick);
    if tick.is_some() {
        assert(s.subrange(12, 14) =~= bytes16(tick.unwrap()));
        lemma_bytes16(s, 12, tick.unwrap());
    }
    let at = fragment_at(flags);
    match m {
        MessageContainer::Single(d) => {
            assert(s.subrange(fields_len(flags), s.len() as int) =~= d.bytes@);
        },
        MessageContainer::Fragment(f) => {
                assert(s.subrange(at, at + 2) =~= bytes16(f.fragment_index));
            lemma_bytes16(s, at, f.fragment_index);
                assert(s.subrange(at + 2, at + 4) =~= bytes16(f.num_fragments));
            lemma_bytes16(s, at + 2, f.num_fragments);
            assert(s.subrange(fields_len(flags), s.len() as int) =~= f.bytes@);
        },
    }
}

} // verus!
