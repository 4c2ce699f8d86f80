//! Per-peer state on the client: one receiver per registered channel, the
//! sync manager and the input history.
use vstd::prelude::*;

use crate::ack::AckTracker;
use crate::channel::{ChannelKind, ChannelReceive, ChannelReceiver};
use crate::ack::in_window;
use crate::message::SingleData;
use crate::sender::ReliableSender;
use crate::input::{InputBuffer, DEFAULT_INPUT_DEPTH};
use crate::packet::{decode, decode_error, decodes_to, well_formed, Packet, PacketError};
use crate::sequence::{is_newer, seq_newer};
use crate::sync::{SyncConfig, SyncManager, SyncState, TimeSyncPing, TimeSyncPong};

verus! {

/// The channel kinds of a protocol; a channel's id is its position.
/// Built once before traffic starts.
pub struct ChannelRegistry {
    pub kinds: Vec<ChannelKind>,
    /// How long (ms) a reliable channel waits for an acknowledgment before it resends.
    pub resend_after_ms: u64,
}

/// Default delay (ms) before an unacknowledged reliable message is resent.
pub const DEFAULT_RESEND_MS: u64 = 100;

impl ChannelRegistry {
    pub fn new() -> (r: Self)
        ensures
            r.kinds@.len() == 0,
            r.resend_after_ms == DEFAULT_RESEND_MS,
    {
        ChannelRegistry { kinds: Vec::new(), resend_after_ms: DEFAULT_RESEND_MS }
    }

    /// Registers a channel and returns its id.
    pub fn add(&mut self, kind: ChannelKind) -> (r: u8)
        requires
            old(self).kinds@.len() < 256,
        ensures
            r == old(self).kinds@.len(),
            final(self).kinds@ == old(self).kinds@.push(kind),
            final(self).resend_after_ms == old(self).resend_after_ms,
    {
        let id = self.kinds.len() as u8;
        self.kinds.push(kind);
        id
    }
}

/// Settings of the clock synchronisation.
pub struct PingConfig {
    pub sync_num_pings: u16,
    pub sync_ping_interval_ms: u64,
    pub tick_duration_ms: u64,
    pub max_rtt_spread_ms: u64,
    pub resync_threshold_ms: u64,
}

impl PingConfig {
    pub open spec fn sync_config(&self) -> SyncConfig {
        SyncConfig {
            num_pings: self.sync_num_pings,
            ping_interval_ms: self.sync_ping_interval_ms,
            tick_duration_ms: self.tick_duration_ms,
            max_rtt_spread_ms: self.max_rtt_spread_ms,
            resync_threshold_ms: self.resync_threshold_ms,
        }
    }
}

/// A client's connection to the server.
pub struct Connection<I> {
    /// One receiver per registered channel, by channel id.
    pub receivers: Vec<ChannelReceiver>,
    /// What each channel has received, as reported back to the sender.
    pub acks: Vec<AckTracker>,
    /// The sending side of each reliable channel; `None` for the others.
    pub senders: Vec<Option<ReliableSender>>,
    /// Messages collected by `update` for each channel, to be put on the wire.
    pub outgoing: Vec<Vec<SingleData>>,
    pub input_buffer: InputBuffer<I>,
    pub sync_manager: SyncManager,
    /// Sync probes waiting to be sent.
    pub outgoing_pings: Vec<TimeSyncPing>,
}

impl<I> Connection<I> {
    pub open spec fn wf(&self) -> bool {
        &&& self.input_buffer.wf()
        &&& self.sync_manager.wf()
        &&& forall|i: int| 0 <= i < self.receivers@.len() ==> (#[trigger] self.receivers@[i]).inv()
        &&& self.acks@.len() == self.receivers@.len()
        &&& self.senders@.len() == self.receivers@.len()
        &&& self.outgoing@.len() == self.receivers@.len()
    }

    pub fn new(channel_registry: &ChannelRegistry, ping_config: &PingConfig) -> (r: Self)
        requires
            ping_config.sync_config().valid(),
        ensures
            r.wf(),
            r.receivers@.len() == channel_registry.kinds@.len(),
            forall|i: int| 0 <= i < r.acks@.len() ==> (#[trigger] r.acks@[i]).latest.is_none(),
            forall|i: int| 0 <= i < r.receivers@.len() ==> (#[trigger] r.receivers@[i]).kind() == channel_registry.kinds@[i],
            forall|i: int| 0 <= i < r.receivers@.len() ==> (#[trigger] r.receivers@[i]).fresh(),
            forall|i: int| 0 <= i < r.outgoing@.len() ==> (#[trigger] r.outgoing@[i])@.len() == 0,
            forall|i: int|
                0 <= i < r.senders@.len() ==> match #[trigger] r.senders@[i] {
                    Some(snd) => channel_registry.kinds@[i].reliable() && snd.unacked@.len() == 0
                        && snd.next_id == crate::channel::FIRST_MESSAGE_ID
                        && snd.resend_after_ms == channel_registry.resend_after_ms,
                    None => !channel_registry.kinds@[i].reliable(),
                },
            r.input_buffer.depth == DEFAULT_INPUT_DEPTH,
            r.input_buffer.entries@.len() == 0,
            r.input_buffer.latest.is_none(),
            r.sync_manager.config == ping_config.sync_config(),
            r.sync_manager.samples@.len() == 0,
            r.sync_manager.state == SyncState::Unsynced,
            r.sync_manager.since_last_ping_ms == ping_config.sync_ping_interval_ms,
            r.sync_manager.next_ping_id == 0,
            r.sync_manager.latest_received_server_tick == 0,
            r.outgoing_pings@.len() == 0,
    {
        let mut receivers: Vec<ChannelReceiver> = Vec::new();
        let mut acks: Vec<AckTracker> = Vec::new();
        let mut senders: Vec<Option<ReliableSender>> = Vec::new();
        let mut outgoing: Vec<Vec<SingleData>> = Vec::new();
        let mut i: usize = 0;
        while i < channel_registry.kinds.len()
            invariant
                i <= channel_registry.kinds@.len(),
                receivers@.len() == i,
                acks@.len() == i,
                senders@.len() == i,
                outgoing@.len() == i,
                forall|j: int| 0 <= j < i ==> (#[trigger] outgoing@[j])@.len() == 0,
                forall|j: int|
                    0 <= j < i ==> match #[trigger] senders@[j] {
                        Some(snd) => channel_registry.kinds@[j].reliable() && snd.unacked@.len() == 0
                            && snd.next_id == crate::channel::FIRST_MESSAGE_ID
                            && snd.resend_after_ms == channel_registry.resend_after_ms,
                        None => !channel_registry.kinds@[j].reliable(),
                    },
                forall|j: int| 0 <= j < i ==> (#[trigger] acks@[j]).latest.is_none(),
                forall|j: int| 0 <= j < i ==> (#[trigger] receivers@[j]).kind() == channel_registry.kinds@[j],
                forall|j: int| 0 <= j < i ==> (#[trigger] receivers@[j]).inv(),
                forall|j: int| 0 <= j < i ==> (#[trigger] receivers@[j]).fresh(),
            decreases channel_registry.kinds@.len() - i,
        {
            receivers.push(ChannelReceiver::new(channel_registry.kinds[i]));
            acks.push(AckTracker::new());
            outgoing.push(Vec::new());
            if channel_registry.kinds[i].is_reliable() {
                senders.push(Some(ReliableSender::new(channel_registry.resend_after_ms)));
            } else {
                senders.push(None);
            }
            i = i + 1;
        }
        let config = SyncConfig {
            num_pings: ping_config.sync_num_pings,
            ping_interval_ms: ping_config.sync_ping_interval_ms,
            tick_duration_ms: ping_config.tick_duration_ms,
            max_rtt_spread_ms: ping_config.max_rtt_spread_ms,
            resync_threshold_ms: ping_config.resync_threshold_ms,
        };
        Connection {
            receivers,
            acks,
            senders,
            outgoing,
            input_buffer: InputBuffer::new(DEFAULT_INPUT_DEPTH),
            sync_manager: SyncManager::new(config),
            outgoing_pings: Vec::new(),
        }
    }

    /// Adds an input for the given tick, replacing any earlier one for it.
    pub fn add_input(&mut self, input: I, tick: u16)
        requires
            old(self).wf(),
        ensures
            final(self).wf(),
            final(self).receivers@ == old(self).receivers@,
            final(self).acks@ == old(self).acks@,
            final(self).senders@ == old(self).senders@,
            final(self).outgoing@ == old(self).outgoing@,
            final(self).sync_manager == old(self).sync_manager,
            final(self).outgoing_pings@ == old(self).outgoing_pings@,
            old(self).input_buffer.pushed(&final(self).input_buffer, tick, input),
    {
        self.input_buffer.push(tick, input);
    }

    /// Periodic bookkeeping: every channel's, the probe timer, and a new sync
    /// probe while the clocks are not synced.
    pub fn update(&mut self, delta_ms: u64, now_ms: u64, tick: u16)
        requires
            old(self).wf(),
        ensures
            final(self).wf(),
            final(self).receivers@.len() == old(self).receivers@.len(),
            forall|i: int|
                0 <= i < old(self).receivers@.len() ==> (#[trigger] old(self).receivers@[i]).update_rel(
                    final(self).receivers@[i],
                    now_ms,
                    tick,
                ),
            final(self).input_buffer == old(self).input_buffer,
            final(self).acks == old(self).acks,
            final(self).senders@.len() == old(self).senders@.len(),
            final(self).outgoing@.len() == old(self).outgoing@.len(),
            forall|i: int|
                0 <= i < old(self).senders@.len() ==> match #[trigger] old(self).senders@[i] {
                    Some(snd) => final(self).senders@[i] is Some && exists|batch: Seq<SingleData>|
                        snd.collect_rel(final(self).senders@[i]->Some_0, now_ms, batch)
                        && final(self).outgoing@[i]@ == old(self).outgoing@[i]@ + batch,
                    None => final(self).senders@[i] is None && final(self).outgoing@[i] == old(self).outgoing@[i],
                },
            final(self).sync_manager.samples@ == old(self).sync_manager.samples@,
            final(self).sync_manager.config == old(self).sync_manager.config,
            final(self).sync_manager.latest_received_server_tick == old(self).sync_manager.latest_received_server_tick,
            ({
                let timer = if old(self).sync_manager.since_last_ping_ms as int + delta_ms as int > u64::MAX {
                    u64::MAX as int
                } else {
                    old(self).sync_manager.since_last_ping_ms as int + delta_ms as int
                };
                if !old(self).sync_manager.synced() && timer >= old(self).sync_manager.config.ping_interval_ms {
                    &&& final(self).outgoing_pings@ == old(self).outgoing_pings@.push(
                        TimeSyncPing { id: old(self).sync_manager.next_ping_id, ping_sent_ms: now_ms },
                    )
                    &&& final(self).sync_manager.since_last_ping_ms == 0
                    &&& final(self).sync_manager.next_ping_id == (old(self).sync_manager.next_ping_id + 1) % 65536
                    &&& final(self).sync_manager.state == SyncState::Syncing
                } else {
                    &&& final(self).outgoing_pings@ == old(self).outgoing_pings@
                    &&& final(self).sync_manager.since_last_ping_ms == timer
                    &&& final(self).sync_manager.next_ping_id == old(self).sync_manager.next_ping_id
                    &&& final(self).sync_manager.state == old(self).sync_manager.state
                }
            }),
    {
        let n = self.receivers.len();
        let mut i: usize = 0;
        while i < n
            invariant
                i <= n == self.receivers@.len() == old(self).receivers@.len(),
                self.input_buffer == old(self).input_buffer,
                self.sync_manager == old(self).sync_manager,
                self.outgoing_pings == old(self).outgoing_pings,
                self.acks == old(self).acks,
                self.senders == old(self).senders,
                self.outgoing == old(self).outgoing,
                forall|j: int| 0 <= j < n ==> (#[trigger] self.receivers@[j]).inv(),
                forall|j: int|
                    0 <= j < i ==> (#[trigger] old(self).receivers@[j]).update_rel(self.receivers@[j], now_ms, tick),
                forall|j: int| i <= j < n ==> #[trigger] self.receivers@[j] == old(self).receivers@[j],
            decreases n - i,
        {
            self.receivers[i].update(now_ms, tick);
            i = i + 1;
        }
        // resend timers: collect what each reliable channel puts on the wire
        let ghost rs = self.receivers;
        let mut i: usize = 0;
        while i < n
            invariant
                i <= n == self.senders@.len() == old(self).senders@.len() == self.outgoing@.len() == old(self).outgoing@.len(),
                self.receivers == rs,
                self.input_buffer == old(self).input_buffer,
                self.sync_manager == old(self).sync_manager,
                self.outgoing_pings == old(self).outgoing_pings,
                self.acks == old(self).acks,
                forall|j: int|
                    0 <= j < i ==> match #[trigger] old(self).senders@[j] {
                        Some(snd) => self.senders@[j] is Some && exists|batch: Seq<SingleData>|
                            snd.collect_rel(self.senders@[j]->Some_0, now_ms, batch)
                            && self.outgoing@[j]@ == old(self).outgoing@[j]@ + batch,
                        None => self.senders@[j] is None && self.outgoing@[j] == old(self).outgoing@[j],
                    },
                forall|j: int| i <= j < n ==> #[trigger] self.senders@[j] == old(self).senders@[j],
                forall|j: int| i <= j < n ==> #[trigger] self.outgoing@[j] == old(self).outgoing@[j],
            decreases n - i,
        {
            if self.senders[i].is_some() {
                let mut snd = self.senders[i].take().unwrap();
                let mut batch = snd.collect_messages_to_send(now_ms);
                let ghost b = batch@;
                self.senders[i] = Some(snd);
                self.outgoing[i].append(&mut batch);
                assert(self.outgoing@[i as int]@ == old(self).outgoing@[i as int]@ + b);
            }
            i = i + 1;
        }
        self.sync_manager.update(delta_ms);
        if !self.sync_manager.is_synced() {
            if let Some(ping) = self.sync_manager.maybe_prepare_ping(now_ms) {
                self.outgoing_pings.push(ping);
            }
        }
    }

    /// Decodes a packet and hands its message to the channel it names; a
    /// packet's tick newer than the newest seen so far becomes the newest.
    pub fn recv_packet(&mut self, bytes: &Vec<u8>) -> (r: Result<(), PacketError>)
        requires
            old(self).wf(),
        ensures
            final(self).wf(),
            final(self).receivers@.len() == old(self).receivers@.len(),
            final(self).input_buffer == old(self).input_buffer,
            final(self).outgoing_pings == old(self).outgoing_pings,
            final(self).outgoing == old(self).outgoing,
            !well_formed(bytes@) ==> r == Err::<(), PacketError>(decode_error(bytes@)) && *final(self) == *old(self),
            well_formed(bytes@) && crate::packet::header_of(bytes@).channel_id >= old(self).receivers@.len() ==> r
                == Err::<(), PacketError>(PacketError::UnknownChannel) && *final(self) == *old(self),
            well_formed(bytes@) && crate::packet::header_of(bytes@).channel_id < old(self).receivers@.len() ==> {
                let id = crate::packet::header_of(bytes@).channel_id as int;
                let tick = crate::packet::header_of(bytes@).tick;
                &&& r is Ok
                &&& exists|p: Packet|
                    decodes_to(bytes@, p) && #[trigger] old(self).receivers@[id].recv_rel(final(self).receivers@[id], p.message)
                &&& forall|j: int| 0 <= j < old(self).receivers@.len() && j != id ==> #[trigger] final(self).receivers@[j] == old(self).receivers@[j]
                &&& final(self).acks@.len() == old(self).acks@.len()
                &&& final(self).senders@.len() == old(self).senders@.len()
                &&& forall|j: int| 0 <= j < old(self).senders@.len() && j != id ==> #[trigger] final(self).senders@[j] == old(self).senders@[j]
                &&& match old(self).senders@[id] {
                    Some(snd) => final(self).senders@[id] is Some && snd.ack_bits_rel(
                        final(self).senders@[id]->Some_0,
                        crate::packet::header_of(bytes@).ack,
                        crate::packet::header_of(bytes@).ack_bits,
                    ),
                    None => final(self).senders@[id] is None,
                }
                &&& forall|j: int| 0 <= j < old(self).acks@.len() && j != id ==> #[trigger] final(self).acks@[j] == old(self).acks@[j]
                &&& forall|x: u16| #[trigger] final(self).acks@[id].acks(x) == (in_window(final(self).acks@[id].latest.unwrap(), x)
                    && (x == crate::packet::header_of(bytes@).sequence || old(self).acks@[id].acks(x)))
                &&& final(self).sync_manager.latest_received_server_tick == if seq_newer(tick, old(self).sync_manager.latest_received_server_tick) {
                    tick
                } else {
                    old(self).sync_manager.latest_received_server_tick
                }
                &&& final(self).sync_manager.samples@ == old(self).sync_manager.samples@
                &&& final(self).sync_manager.state == old(self).sync_manager.state
                &&& final(self).sync_manager.config == old(self).sync_manager.config
                &&& final(self).sync_manager.since_last_ping_ms == old(self).sync_manager.since_last_ping_ms
                &&& final(self).sync_manager.next_ping_id == old(self).sync_manager.next_ping_id
            },
    {
        let packet = match decode(bytes) {
            Ok(p) => p,
            Err(e) => {
                return Err(e);
            },
        };
        let ghost p = packet;
        let id = packet.header.channel_id as usize;
        if id >= self.receivers.len() {
            return Err(PacketError::UnknownChannel);
        }
        let tick = packet.header.tick;
        let sequence = packet.header.sequence;
        self.receivers[id].buffer_recv(packet.message);
        self.acks[id].record(sequence);
        let ack = packet.header.ack;
        let ack_bits = packet.header.ack_bits;
        if self.senders[id].is_some() {
            let mut snd = self.senders[id].take().unwrap();
            snd.process_ack_bits(ack, ack_bits);
            self.senders[id] = Some(snd);
        }
        assert(old(self).receivers@[id as int].recv_rel(self.receivers@[id as int], p.message));
        if is_newer(tick, self.sync_manager.latest_received_server_tick) {
            self.sync_manager.latest_received_server_tick = tick;
        }
        Ok(())
    }

    /// Takes in the server's answer to a sync probe, received at `now_ms`.
    pub fn handle_pong(&mut self, pong: TimeSyncPong, now_ms: u64)
        requires
            old(self).wf(),
        ensures
            final(self).wf(),
            final(self).receivers@ == old(self).receivers@,
            final(self).acks@ == old(self).acks@,
            final(self).senders@ == old(self).senders@,
            final(self).outgoing@ == old(self).outgoing@,
            final(self).input_buffer == old(self).input_buffer,
            final(self).outgoing_pings@ == old(self).outgoing_pings@,
            old(self).sync_manager.pong_rel(final(self).sync_manager, pong, now_ms),
    {
        self.sync_manager.process_pong(pong, now_ms);
    }

    /// Queues a message on a reliable channel; returns its id, or `None`
    /// when the channel is unknown or not reliable.
    pub fn buffer_send(&mut self, channel: u8, bytes: Vec<u8>) -> (r: Option<u16>)
        requires
            old(self).wf(),
        ensures
            final(self).wf(),
            final(self).receivers@ == old(self).receivers@,
            final(self).acks@ == old(self).acks@,
            final(self).sync_manager == old(self).sync_manager,
            final(self).input_buffer == old(self).input_buffer,
            final(self).outgoing_pings@ == old(self).outgoing_pings@,
            final(self).outgoing@ == old(self).outgoing@,
            final(self).senders@.len() == old(self).senders@.len(),
            forall|j: int| 0 <= j < old(self).senders@.len() && j != channel ==> #[trigger] final(self).senders@[j] == old(self).senders@[j],
            channel >= old(self).senders@.len() || old(self).senders@[channel as int] is None ==> r.is_none()
                && final(self).senders@ == old(self).senders@,
            channel < old(self).senders@.len() && old(self).senders@[channel as int] is Some ==> r.is_some()
                && final(self).senders@[channel as int] is Some
                && old(self).senders@[channel as int]->Some_0.send_rel(final(self).senders@[channel as int]->Some_0, bytes, r.unwrap()),
    {
        let c = channel as usize;
        if c >= self.senders.len() || self.senders[c].is_none() {
            return None;
        }
        let mut snd = self.senders[c].take().unwrap();
        let id = snd.buffer_send(bytes);
        self.senders[c] = Some(snd);
        Some(id)
    }

    /// Takes the messages that `update` collected for a channel.
    pub fn take_outgoing(&mut self, channel: u8) -> (r: Vec<SingleData>)
        requires
            old(self).wf(),
        ensures
            final(self).wf(),
            final(self).receivers@ == old(self).receivers@,
            final(self).acks@ == old(self).acks@,
            final(self).senders@ == old(self).senders@,
            final(self).sync_manager == old(self).sync_manager,
            final(self).input_buffer == old(self).input_buffer,
            final(self).outgoing_pings@ == old(self).outgoing_pings@,
            final(self).outgoing@.len() == old(self).outgoing@.len(),
            forall|j: int| 0 <= j < old(self).outgoing@.len() && j != channel ==> #[trigger] final(self).outgoing@[j] == old(self).outgoing@[j],
            channel < old(self).outgoing@.len() ==> r@ == old(self).outgoing@[channel as int]@ && final(self).outgoing@[channel as int]@.len() == 0,
            channel >= old(self).outgoing@.len() ==> r@.len() == 0,
    {
        let c = channel as usize;
        if c >= self.outgoing.len() {
            return Vec::new();
        }
        let mut out: Vec<SingleData> = Vec::new();
        std::mem::swap(&mut out, &mut self.outgoing[c]);
        out
    }
}

} // verus!
