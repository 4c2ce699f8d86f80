//! Transport configuration and the middleware around a transport: the link
//! conditioner on the receive path and the compression codec.
use vstd::prelude::*;

verus! {

/// The receiving end of an in-process channel.
#[verifier::external_type_specification]
#[verifier::external_body]
#[verifier::reject_recursive_types(T)]
pub struct ExReceiver<T>(crossbeam_channel::Receiver<T>);

/// The sending end of an in-process channel.
#[verifier::external_type_specification]
#[verifier::external_body]
#[verifier::reject_recursive_types(T)]
pub struct ExSender<T>(crossbeam_channel::Sender<T>);

/// A socket address; the IP address as a number, most significant octet first.
#[derive(Clone, Copy, Debug, PartialEq, Eq, Structural)]
#[allow(inconsistent_fields)]
pub enum SocketAddress {
    V4 { ip: u32, port: u16 },
    V6 { ip: u128, port: u16 },
}

/// The loopback address with a port picked by the system.
pub open spec fn local_socket_spec() -> SocketAddress {
    SocketAddress::V4 { ip: 0x7f00_0001, port: 0 }
}

/// The loopback address with a port picked by the system.
pub fn local_socket() -> (r: SocketAddress)
    ensures
        r == local_socket_spec(),
{
    SocketAddress::V4 { ip: 0x7f00_0001, port: 0 }
}

/// Which transport a client connects through.
pub enum ClientTransport {
    /// A UDP socket bound to the given local address.
    UdpSocket(SocketAddress),
    /// A pair of in-process channels; useful for tests.
    LocalChannel { recv: crossbeam_channel::Receiver<Vec<u8>>, send: crossbeam_channel::Sender<Vec<u8>> },
    /// The embedding application owns an already connected transport.
    Dummy,
}

impl Default for ClientTransport {
    fn default() -> (r: Self)
        ensures
            r == ClientTransport::UdpSocket(local_socket_spec()),
    {
        ClientTransport::UdpSocket(local_socket())
    }
}

/// Simulated network conditions on incoming packets.
#[derive(Clone, Copy, Debug, PartialEq, Eq, Structural)]
pub struct LinkConditionerConfig {
    /// Base delay (ms) of every packet.
    pub incoming_latency_ms: u64,
    /// Largest deviation (ms) from the base delay, either way.
    pub incoming_jitter_ms: u64,
    /// Chance, in thousandths, that a packet is lost.
    pub incoming_loss_per_mille: u16,
}

/// Compression of packet payloads.
#[derive(Clone, Copy, Debug, PartialEq, Eq, Structural)]
pub enum CompressionConfig {
    /// Payloads travel as they are.
    Off,
}

/// One stage wrapped around a transport's sender or receiver.
#[derive(Clone, Copy, Debug, PartialEq, Eq, Structural)]
pub enum Middleware {
    Conditioner(LinkConditionerConfig),
    Compressor(CompressionConfig),
    Decompressor(CompressionConfig),
}

/// How a client's I/O is put together.
pub struct SharedIoConfig {
    pub transport: ClientTransport,
    pub conditioner: Option<LinkConditionerConfig>,
    pub compression: CompressionConfig,
}

/// A transport with the stages its packets pass through, in order: a
/// received packet from the transport outward, a sent one inward to it.
pub struct Io {
    pub transport: ClientTransport,
    pub receive_path: Vec<Middleware>,
    pub send_path: Vec<Middleware>,
}

/// The receive path for a configuration: the conditioner, if any, right
/// after the transport, then the decompressor when compression is on.
pub open spec fn receive_path_of(conditioner: Option<LinkConditionerConfig>, compression: CompressionConfig) -> Seq<Middleware> {
    let c = match conditioner {
        Some(cfg) => seq![Middleware::Conditioner(cfg)],
        None => Seq::empty(),
    };
    match compression {
        CompressionConfig::Off => c,
    }
}

/// The send path for a configuration: the compressor when compression is on.
pub open spec fn send_path_of(compression: CompressionConfig) -> Seq<Middleware> {
    match compression {
        CompressionConfig::Off => Seq::empty(),
    }
}

impl SharedIoConfig {
    /// Composes the middleware around the transport.
    pub fn connect(self) -> (r: Io)
        ensures
            r.transport == self.transport,
            r.receive_path@ == receive_path_of(self.conditioner, self.compression),
            r.send_path@ == send_path_of(self.compression),
    {
        let mut receive_path: Vec<Middleware> = Vec::new();
        let mut send_path: Vec<Middleware> = Vec::new();
        match self.conditioner {
            Some(cfg) => receive_path.push(Middleware::Conditioner(cfg)),
            None => {},
        }
        match self.compression {
            CompressionConfig::Off => {},
        }
        assert(receive_path@ =~= receive_path_of(self.conditioner, self.compression));
        assert(send_path@ =~= send_path_of(self.compression));
        Io { transport: self.transport, receive_path, send_path }
    }
}

/// The payload as the compressor writes it.
pub open spec fn compressed(c: CompressionConfig, payload: Seq<u8>) -> Seq<u8> {
    match c {
        CompressionConfig::Off => payload,
    }
}

/// Why a payload could not be decompressed.
#[derive(Clone, Copy, Debug, PartialEq, Eq, Structural)]
pub enum CodecError {
    Malformed,
}

fn copy_all(b: &Vec<u8>) -> (r: Vec<u8>)
    ensures
        r@ == b@,
{
    let mut r: Vec<u8> = Vec::new();
    let mut i: usize = 0;
    while i < b.len()
        invariant
            i <= b@.len(),
            r@ == b@.subrange(0, i as int),
        decreases b@.len() - i,
    {
        r.push(b[i]);
        i = i + 1;
        assert(r@ =~= b@.subrange(0, i as int));
    }
    assert(b@.subrange(0, i as int) =~= b@);
    r
}

/// Compresses a payload before it is sent.
pub fn compress(c: CompressionConfig, payload: &Vec<u8>) -> (r: Vec<u8>)
    ensures
        r@ == compressed(c, payload@),
{
    match c {
        CompressionConfig::Off => copy_all(payload),
    }
}

/// Restores a received payload.
pub fn decompress(c: CompressionConfig, bytes: &Vec<u8>) -> (r: Result<Vec<u8>, CodecError>)
    ensures
        match c {
            CompressionConfig::Off => r is Ok && r->Ok_0@ == bytes@,
        },
{
    match c {
        CompressionConfig::Off => Ok(copy_all(bytes)),
    }
}

/// Decompressing what the compressor wrote gives back the payload.
pub proof fn lemma_codec_round_trip(c: CompressionConfig, payload: Seq<u8>)
    ensures
        match c {
            CompressionConfig::Off => compressed(c, payload) == payload,
        },
{
}

/// A packet held back by the conditioner.
pub struct DelayedPacket {
    pub deliver_at_ms: u64,
    pub bytes: Vec<u8>,
    /// Where the packet came from.
    pub from: SocketAddress,
}

/// Simulates latency, jitter and loss on incoming packets. The random draws
/// are made by the caller and handed in.
pub struct LinkConditioner {
    pub config: LinkConditionerConfig,
    pub queue: Vec<DelayedPacket>,
}

/// The delay a packet gets, given a uniform draw: the base latency moved by
/// up to the jitter either way, never below zero.
pub open spec fn delay_of(c: LinkConditionerConfig, jitter_roll: u64) -> int {
    let r = jitter_roll as int % (2 * c.incoming_jitter_ms + 1);
    if c.incoming_latency_ms + r >= c.incoming_jitter_ms {
        c.incoming_latency_ms + r - c.incoming_jitter_ms
    } else {
        0
    }
}

/// Index of the packet that is due first at `now_ms`, the earliest queued among
/// those with the smallest delivery time.
pub open spec fn first_due(q: Seq<DelayedPacket>, now_ms: u64, i: int) -> bool {
    &&& 0 <= i < q.len()
    &&& q[i].deliver_at_ms <= now_ms
    &&& forall|j: int| 0 <= j < q.len() ==> q[i].deliver_at_ms <= (#[trigger] q[j]).deliver_at_ms
    &&& forall|j: int| 0 <= j < i ==> q[i].deliver_at_ms < (#[trigger] q[j]).deliver_at_ms
}

impl LinkConditioner {
    pub fn new(config: LinkConditionerConfig) -> (r: Self)
        ensures
            r.config == config,
            r.queue@.len() == 0,
    {
        LinkConditioner { config, queue: Vec::new() }
    }

    /// Takes in a packet from `from` that arrived at `now_ms`. `loss_roll` is
    /// a uniform draw from 0..1000, `jitter_roll` any uniform draw. Returns
    /// whether the packet was kept.
    pub fn condition(&mut self, bytes: Vec<u8>, from: SocketAddress, now_ms: u64, loss_roll: u16, jitter_roll: u64) -> (kept: bool)
        ensures
            final(self).config == old(self).config,
            kept == (loss_roll >= old(self).config.incoming_loss_per_mille),
            !kept ==> final(self).queue@ == old(self).queue@,
            kept ==> final(self).queue@.len() == old(self).queue@.len() + 1
                && final(self).queue@.drop_last() == old(self).queue@
                && final(self).queue@.last().bytes == bytes
                && final(self).queue@.last().from == from
                && final(self).queue@.last().deliver_at_ms == if now_ms + delay_of(old(self).config, jitter_roll) > u64::MAX {
                    u64::MAX as int
                } else {
                    now_ms + delay_of(old(self).config, jitter_roll)
                },
    {
        if loss_roll < self.config.incoming_loss_per_mille {
            return false;
        }
        let jitter = self.config.incoming_jitter_ms as u128;
        let latency = self.config.incoming_latency_ms as u128;
        let r = (jitter_roll as u128) % (2 * jitter + 1);
        let delay: u128 = if latency + r >= jitter { latency + r - jitter } else { 0 };
        let at: u128 = now_ms as u128 + delay;
        let deliver_at_ms: u64 = if at > u64::MAX as u128 { u64::MAX } else { at as u64 };
        self.queue.push(DelayedPacket { deliver_at_ms, bytes, from });
        assert(self.queue@.drop_last() =~= old(self).queue@);
        true
    }

    /// The packet due first by `now_ms`, with its source, if any is due.
    pub fn pop_ready(&mut self, now_ms: u64) -> (r: Option<(Vec<u8>, SocketAddress)>)
        ensures
            final(self).config == old(self).config,
            (exists|j: int| 0 <= j < old(self).queue@.len() && (#[trigger] old(self).queue@[j]).deliver_at_ms <= now_ms)
                ==> r.is_some(),
            r.is_some() ==> exists|i: int|
                first_due(old(self).queue@, now_ms, i) && r == Some((old(self).queue@[i].bytes, old(self).queue@[i].from))
                    && final(self).queue@ == old(self).queue@.remove(i),
            r.is_none() ==> final(self).queue@ == old(self).queue@,
    {
        let n = self.queue.len();
        if n == 0 {
            return None;
        }
        let mut best: usize = 0;
        let mut i: usize = 1;
        while i < n
            invariant
                n == self.queue@.len(),
                1 <= i <= n,
                best < i,
                self.queue@ == old(self).queue@,
                forall|j: int| 0 <= j < i ==> self.queue@[best as int].deliver_at_ms <= (#[trigger] self.queue@[j]).deliver_at_ms,
                forall|j: int| 0 <= j < best ==> self.queue@[best as int].deliver_at_ms < (#[trigger] self.queue@[j]).deliver_at_ms,
            decreases n - i,
        {
            if self.queue[i].deliver_at_ms < self.queue[best].deliver_at_ms {
                best = i;
            }
            i = i + 1;
        }
        if self.queue[best].deliver_at_ms > now_ms {
            return None;
        }
        let p = self.queue.remove(best);
        assert(first_due(old(self).queue@, now_ms, best as int));
        Some((p.bytes, p.from))
    }
}

} // verus!

verus! {

/// Why a transport failed. Such a failure ends the transport; it is never
/// retried here.
#[derive(Clone, Copy, Debug, PartialEq, Eq, Structural)]
pub enum TransportError {
    /// The socket or channel reported an error.
    Io,
    /// The other end of an in-process channel is gone.
    Disconnected,
}

/// Sends raw packets.
pub trait PacketSender {
    /// Sends `payload` to `address`.
    fn send(&mut self, payload: &[u8], address: &SocketAddress) -> Result<(), TransportError>;
}

/// Receives raw packets without blocking.
pub trait PacketReceiver {
    /// The next packet and where it came from; `None` when nothing is waiting.
    fn recv(&mut self) -> Result<Option<(Vec<u8>, SocketAddress)>, TransportError>;
}

} // verus!
