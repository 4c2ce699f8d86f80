use lightyear::ack::{is_acked_by, AckTracker};
use lightyear::channel::{
    ChannelKind, ChannelReceive, ChannelReceiver, OrderedReliableReceiver, SequencedReliableReceiver,
    SequencedUnreliableReceiver, TickUnreliableReceiver, UnorderedReliableReceiver, UnorderedUnreliableReceiver,
};
use lightyear::connection::{ChannelRegistry, Connection, PingConfig};
use lightyear::fragment::{fragment, FragmentReceiver};
use lightyear::input::InputBuffer;
use lightyear::io::{
    compress, decompress, ClientTransport, CompressionConfig, LinkConditioner, LinkConditionerConfig, Middleware,
    SharedIoConfig, SocketAddress,
};
use lightyear::message::{MessageContainer, SingleData};
use lightyear::packet::{decode, encode, PacketError, PacketHeader, MTU};
use lightyear::sender::ReliableSender;
use lightyear::sequence::{is_newer, next};
use lightyear::sync::{SyncConfig, SyncManager, SyncState, TimeSyncPong};

fn msg(id: u16, bytes: Vec<u8>) -> MessageContainer {
    MessageContainer::Single(SingleData { id, tick: None, bytes })
}

fn payload(len: usize) -> Vec<u8> {
    (0..len).map(|i| (i * 7 % 251) as u8).collect()
}

/// A small deterministic pseudo-random sequence for the simulations.
struct Lcg(u64);

impl Lcg {
    fn next(&mut self) -> u64 {
        self.0 = self.0.wrapping_mul(6364136223846793005).wrapping_add(1442695040888963407);
        self.0 >> 33
    }
}

#[test]
fn sequence_numbers_wrap() {
    assert!(is_newer(1, 0));
    assert!(is_newer(0, 65535));
    assert!(!is_newer(65535, 0));
    assert!(!is_newer(5, 5));
    assert_eq!(next(65535), 0);
}

#[test]
fn fragment_then_reassemble_returns_original() {
    let chunk = 100usize;
    for len in [0usize, 1, 99, 100, 101, 250, 300, 305, 1000] {
        let p = payload(len);
        let frags = fragment(9, Some(4), &p, chunk);
        let expected = if len == 0 { 1 } else { (len + chunk - 1) / chunk };
        assert_eq!(frags.len(), expected);
        let mut rx = FragmentReceiver::new();
        let n = frags.len();
        let mut out = None;
        // deliver in reverse order
        for (k, f) in frags.into_iter().rev().enumerate() {
            let r = rx.receive(f, 0);
            if k + 1 < n {
                assert!(r.is_none());
            } else {
                out = r;
            }
        }
        let d = out.expect("complete message");
        assert_eq!(d.id, 9);
        assert_eq!(d.tick, Some(4));
        assert_eq!(d.bytes, p);
    }
}

#[test]
fn duplicate_fragment_does_not_complete_early() {
    let p = payload(250);
    let frags = fragment(3, None, &p, 100);
    let mut rx = FragmentReceiver::new();
    let copy = lightyear::message::FragmentData {
        message_id: 3,
        fragment_index: 0,
        num_fragments: 3,
        tick: None,
        bytes: frags[0].bytes.clone(),
    };
    let mut it = frags.into_iter();
    assert!(rx.receive(it.next().unwrap(), 0).is_none());
    assert!(rx.receive(copy, 0).is_none());
    assert!(rx.receive(it.next().unwrap(), 0).is_none());
    assert_eq!(rx.receive(it.next().unwrap(), 0).unwrap().bytes, p);
}

#[test]
fn stale_reassembly_is_dropped() {
    let p = payload(250);
    let frags = fragment(3, None, &p, 100);
    let mut rx = FragmentReceiver::new();
    let mut it = frags.into_iter();
    assert!(rx.receive(it.next().unwrap(), 10).is_none());
    rx.drop_stale(100, Some(100));
    assert_eq!(rx.in_flight.len(), 1);
    rx.drop_stale(110, Some(100));
    assert_eq!(rx.in_flight.len(), 0);
    // the remaining fragments alone never complete the message
    assert!(rx.receive(it.next().unwrap(), 120).is_none());
    assert!(rx.receive(it.next().unwrap(), 120).is_none());
}

#[test]
fn malformed_fragment_is_ignored() {
    let mut rx = FragmentReceiver::new();
    let f = lightyear::message::FragmentData { message_id: 1, fragment_index: 2, num_fragments: 2, tick: None, bytes: vec![1] };
    assert!(rx.receive(f, 0).is_none());
    assert_eq!(rx.in_flight.len(), 0);
}

fn ordered_run(order: &[u16]) -> Vec<u16> {
    let mut r = OrderedReliableReceiver::new();
    for &id in order {
        r.buffer_recv(msg(id, vec![id as u8]));
    }
    let mut out = Vec::new();
    while let Some(d) = r.read_message() {
        assert_eq!(d.bytes, vec![d.id as u8]);
        out.push(d.id);
    }
    out
}

#[test]
fn ordered_reliable_delivers_any_permutation_in_order() {
    let perms: [[u16; 5]; 6] =
        [[1, 2, 3, 4, 5], [5, 4, 3, 2, 1], [3, 1, 5, 2, 4], [2, 1, 4, 3, 5], [4, 5, 1, 3, 2], [1, 5, 2, 4, 3]];
    for p in perms.iter() {
        assert_eq!(ordered_run(p), vec![1, 2, 3, 4, 5]);
    }
}

#[test]
fn ordered_reliable_blocks_on_gap_and_drops_duplicates() {
    let mut r = OrderedReliableReceiver::new();
    r.buffer_recv(msg(2, vec![2]));
    r.buffer_recv(msg(3, vec![3]));
    assert!(r.read_message().is_none());
    r.buffer_recv(msg(1, vec![1]));
    r.buffer_recv(msg(1, vec![9]));
    assert_eq!(r.read_message().unwrap().bytes, vec![1]);
    r.buffer_recv(msg(1, vec![9]));
    assert_eq!(r.read_message().unwrap().id, 2);
    assert_eq!(r.read_message().unwrap().id, 3);
    assert!(r.read_message().is_none());
}

#[test]
fn sequenced_unreliable_keeps_only_newer() {
    let mut r = SequencedUnreliableReceiver::new();
    let mut delivered = Vec::new();
    for id in [5u16, 3, 7, 2] {
        r.buffer_recv(msg(id, vec![]));
        if let Some(d) = r.read_message() {
            delivered.push(d.id);
        }
    }
    assert_eq!(delivered, vec![5, 7]);
    assert!(r.read_message().is_none());
}

#[test]
fn sequenced_unreliable_delivers_only_the_newest() {
    let mut r = SequencedUnreliableReceiver::new();
    for id in [5u16, 3, 7, 2] {
        r.buffer_recv(msg(id, vec![]));
    }
    assert_eq!(r.read_message().unwrap().id, 7);
    assert!(r.read_message().is_none());
}

#[test]
fn sequenced_discards_what_is_older_than_the_last_read() {
    for kind in [ChannelKind::SequencedUnreliable, ChannelKind::SequencedReliable] {
        let mut r = ChannelReceiver::new(kind);
        r.buffer_recv(msg(0, vec![]));
        assert_eq!(r.read_message().unwrap().id, 0);
        r.buffer_recv(msg(30000, vec![]));
        // newer than 30000, but older than 0 under wrap-around
        r.buffer_recv(msg(40000, vec![]));
        assert_eq!(r.read_message().unwrap().id, 30000);
        assert!(r.read_message().is_none());
    }
}

#[test]
fn sequenced_reliable_supersedes_unread_value() {
    let mut r = SequencedReliableReceiver::new();
    r.buffer_recv(msg(4, vec![4]));
    r.buffer_recv(msg(6, vec![6]));
    r.buffer_recv(msg(5, vec![5]));
    assert_eq!(r.read_message().unwrap().id, 6);
    assert!(r.read_message().is_none());
    r.buffer_recv(msg(6, vec![6]));
    assert!(r.read_message().is_none());
}

#[test]
fn unordered_reliable_delivers_each_id_once() {
    let mut r = UnorderedReliableReceiver::new();
    for id in [3u16, 1, 3, 2, 1, 5, 2] {
        r.buffer_recv(msg(id, vec![]));
    }
    let mut out = Vec::new();
    while let Some(d) = r.read_message() {
        out.push(d.id);
    }
    assert_eq!(out, vec![3, 1, 2, 5]);
    // delivering the id half the sequence space away forgets id 3
    r.buffer_recv(msg(3 + 32768, vec![]));
    r.buffer_recv(msg(3, vec![]));
    r.buffer_recv(msg(1, vec![]));
    let again: Vec<u16> = std::iter::from_fn(|| r.read_message()).map(|d| d.id).collect();
    assert_eq!(again, vec![3 + 32768, 3]);
}

#[test]
fn unordered_unreliable_accepts_duplicates() {
    let mut r = UnorderedUnreliableReceiver::new();
    for id in [2u16, 2, 1] {
        r.buffer_recv(msg(id, vec![]));
    }
    let ids: Vec<u16> = std::iter::from_fn(|| r.read_message()).map(|d| d.id).collect();
    assert_eq!(ids, vec![2, 2, 1]);
}

#[test]
fn tick_unreliable_aligns_to_tick() {
    let mut r = TickUnreliableReceiver::new();
    r.update(0, 10);
    let tagged = |tick: u16, b: u8| MessageContainer::Single(SingleData { id: 0, tick: Some(tick), bytes: vec![b] });
    r.buffer_recv(tagged(9, 1)); // already passed
    r.buffer_recv(tagged(11, 2));
    r.buffer_recv(tagged(11, 3)); // already filled
    r.buffer_recv(tagged(12, 4));
    r.buffer_recv(MessageContainer::Single(SingleData { id: 0, tick: None, bytes: vec![5] }));
    assert!(r.read_message().is_none());
    r.update(16, 11);
    assert_eq!(r.read_message().unwrap().bytes, vec![2]);
    assert!(r.read_message().is_none());
    r.update(48, 13);
    assert!(r.read_message().is_none());
    assert_eq!(r.buffer.len(), 0);
}

#[test]
fn channel_receiver_dispatches_by_kind() {
    let mut r = ChannelReceiver::new(ChannelKind::SequencedUnreliable);
    r.update(0, 0);
    r.buffer_recv(msg(4, vec![]));
    r.buffer_recv(msg(2, vec![]));
    assert_eq!(r.read_message().unwrap().id, 4);
    assert!(r.read_message().is_none());
    let mut o = ChannelReceiver::new(ChannelKind::OrderedReliable);
    o.buffer_recv(msg(2, vec![]));
    assert!(o.read_message().is_none());
}

#[test]
fn fragments_pass_through_a_channel() {
    let p = payload(2500);
    let mut r = OrderedReliableReceiver::new();
    for f in fragment(1, None, &p, MTU - 32) {
        r.buffer_recv(MessageContainer::Fragment(f));
    }
    let d = r.read_message().unwrap();
    assert_eq!(d.id, 1);
    assert_eq!(d.bytes, p);
}

#[test]
fn codec_round_trip() {
    for len in [0usize, 1, MTU - 1, MTU] {
        let p = payload(len);
        let c = compress(CompressionConfig::Off, &p);
        assert_eq!(decompress(CompressionConfig::Off, &c), Ok(p));
    }
}

fn sync_config() -> SyncConfig {
    SyncConfig { num_pings: 5, ping_interval_ms: 100, tick_duration_ms: 20, max_rtt_spread_ms: 5, resync_threshold_ms: 50 }
}

#[test]
fn sync_converges_on_fixed_rtt() {
    let mut sm = SyncManager::new(sync_config());
    assert_eq!(sm.state, SyncState::Unsynced);
    let remote_ahead_ms = 1000u64;
    let mut in_flight: Vec<(u64, TimeSyncPong)> = Vec::new();
    let mut pongs = 0;
    let mut t = 0u64;
    while t <= 1000 {
        sm.update(10);
        if let Some(ping) = sm.maybe_prepare_ping(t) {
            // the server answers 20 ms later, the answer arrives 20 ms after that
            let server_ms = t + 20 + remote_ahead_ms;
            let pong = TimeSyncPong { id: ping.id, ping_sent_ms: ping.ping_sent_ms, remote_tick: (server_ms / 20 % 65536) as u16 };
            in_flight.push((t + 40, pong));
        }
        let due: Vec<TimeSyncPong> = in_flight.iter().filter(|(at, _)| *at == t).map(|(_, p)| *p).collect();
        for p in due {
            sm.process_pong(p, t);
            pongs += 1;
        }
        if pongs < 5 {
            assert!(!sm.is_synced());
        }
        t += 10;
    }
    assert_eq!(pongs, 5);
    assert!(sm.is_synced());
    let now = 2000u64;
    let truth = ((now + remote_ahead_ms) / 20 % 65536) as u16;
    assert_eq!(sm.estimated_remote_tick(now), Some(truth));
}

#[test]
fn sync_resyncs_on_drift() {
    let mut sm = SyncManager::new(SyncConfig { num_pings: 1, ..sync_config() });
    sm.update(0);
    let ping = sm.maybe_prepare_ping(0).unwrap();
    sm.process_pong(TimeSyncPong { id: ping.id, ping_sent_ms: 0, remote_tick: 50 }, 40);
    assert!(sm.is_synced());
    // offset jumps by 200 ms: back to syncing, from the new sample
    sm.process_pong(TimeSyncPong { id: 9, ping_sent_ms: 100, remote_tick: 65 }, 140);
    assert_eq!(sm.samples.len(), 1);
    assert_eq!(sm.state, SyncState::Syncing);
    sm.update(100);
    let again = sm.maybe_prepare_ping(240).unwrap();
    sm.process_pong(TimeSyncPong { id: again.id, ping_sent_ms: 240, remote_tick: 79 }, 280);
    assert!(sm.is_synced());
}

#[test]
fn sync_ignores_pong_from_the_future() {
    let mut sm = SyncManager::new(sync_config());
    sm.process_pong(TimeSyncPong { id: 0, ping_sent_ms: 500, remote_tick: 1 }, 100);
    assert_eq!(sm.samples.len(), 0);
    assert_eq!(sm.estimated_remote_tick(100), None);
}

#[test]
fn input_buffer_evicts_old_ticks() {
    let mut b: InputBuffer<u32> = InputBuffer::new(32);
    for tick in 1u16..=100 {
        b.push(tick, tick as u32 * 10);
    }
    assert_eq!(b.entries.len(), 32);
    for tick in 69u16..=100 {
        assert_eq!(b.get(tick), Some(&(tick as u32 * 10)));
    }
    assert_eq!(b.get(68), None);
    assert_eq!(b.get(50), None);
    // a later input for a retained tick replaces the earlier one
    b.push(90, 0);
    assert_eq!(b.get(90), Some(&0));
    assert_eq!(b.entries.len(), 32);
    // a tick that lies a whole depth behind the newest is ignored
    b.push(68, 7);
    assert_eq!(b.get(68), None);
}

#[test]
fn packet_round_trip() {
    let h = PacketHeader { channel_id: 2, sequence: 513, ack: 700, ack_bits: 0xdead_beef, tick: 65535 };
    let m = MessageContainer::Single(SingleData { id: 513, tick: Some(77), bytes: vec![1, 2, 3] });
    let bytes = encode(&h, &m);
    assert_eq!(bytes.len(), 12 + 2 + 3);
    let p = decode(&bytes).unwrap();
    assert_eq!(p.header, h);
    match p.message {
        MessageContainer::Single(d) => {
            assert_eq!(d.id, 513);
            assert_eq!(d.tick, Some(77));
            assert_eq!(d.bytes, vec![1, 2, 3]);
        }
        _ => panic!("expected a whole message"),
    }
    let f = MessageContainer::Fragment(lightyear::message::FragmentData {
        message_id: 4,
        fragment_index: 1,
        num_fragments: 3,
        tick: None,
        bytes: vec![9; 10],
    });
    let h2 = PacketHeader { sequence: 4, ..h };
    let p2 = decode(&encode(&h2, &f)).unwrap();
    match p2.message {
        MessageContainer::Fragment(g) => {
            assert_eq!((g.message_id, g.fragment_index, g.num_fragments), (4, 1, 3));
            assert_eq!(g.bytes, vec![9; 10]);
        }
        _ => panic!("expected a fragment"),
    }
}

#[test]
fn packet_decode_errors() {
    assert_eq!(decode(&vec![0; 11]).err(), Some(PacketError::Truncated));
    let mut b = vec![0u8; 12];
    b[11] = 4;
    assert_eq!(decode(&b).err(), Some(PacketError::BadFlags));
    b[11] = 1;
    assert_eq!(decode(&b).err(), Some(PacketError::Truncated));
    let mut f = vec![0u8; 16];
    f[11] = 1;
    f[13] = 3; // index 3
    f[15] = 3; // of 3
    assert_eq!(decode(&f).err(), Some(PacketError::BadFragment));
}

fn ping_config() -> PingConfig {
    PingConfig { sync_num_pings: 3, sync_ping_interval_ms: 100, tick_duration_ms: 16, max_rtt_spread_ms: 10, resync_threshold_ms: 50 }
}

#[test]
fn connection_routes_packets_and_tracks_tick() {
    let mut reg = ChannelRegistry::new();
    assert_eq!(reg.add(ChannelKind::UnorderedUnreliable), 0);
    assert_eq!(reg.add(ChannelKind::OrderedReliable), 1);
    let mut c: Connection<u8> = Connection::new(&reg, &ping_config());
    assert_eq!(c.receivers.len(), 2);
    let h = PacketHeader { channel_id: 1, sequence: 1, ack: 0, ack_bits: 0, tick: 40 };
    let bytes = encode(&h, &msg(1, vec![7]));
    assert_eq!(c.recv_packet(&bytes), Ok(()));
    assert_eq!(c.sync_manager.latest_received_server_tick, 40);
    let older = encode(&PacketHeader { tick: 30, channel_id: 0, ..h }, &msg(1, vec![8]));
    assert_eq!(c.recv_packet(&older), Ok(()));
    assert_eq!(c.sync_manager.latest_received_server_tick, 40);
    assert_eq!(c.receivers[1].read_message().unwrap().bytes, vec![7]);
    assert_eq!(c.receivers[0].read_message().unwrap().bytes, vec![8]);
    let unknown = encode(&PacketHeader { channel_id: 5, ..h }, &msg(1, vec![]));
    assert_eq!(c.recv_packet(&unknown), Err(PacketError::UnknownChannel));
    assert_eq!(c.recv_packet(&vec![1, 2]), Err(PacketError::Truncated));
}

#[test]
fn connection_update_sends_sync_pings() {
    let reg = ChannelRegistry::new();
    let mut c: Connection<u8> = Connection::new(&reg, &ping_config());
    c.update(16, 0, 0);
    assert_eq!(c.outgoing_pings.len(), 1);
    assert_eq!(c.outgoing_pings[0].ping_sent_ms, 0);
    c.update(16, 16, 1);
    assert_eq!(c.outgoing_pings.len(), 1);
    for k in 2..8u64 {
        c.update(16, 16 * k, k as u16);
    }
    assert_eq!(c.outgoing_pings.len(), 2);
    c.add_input(5, 1);
    assert_eq!(c.input_buffer.get(1), Some(&5));
}

#[test]
fn connect_composes_middleware() {
    let cond = LinkConditionerConfig { incoming_latency_ms: 10, incoming_jitter_ms: 2, incoming_loss_per_mille: 50 };
    let io = SharedIoConfig { transport: ClientTransport::Dummy, conditioner: Some(cond), compression: CompressionConfig::Off }
        .connect();
    assert!(matches!(io.transport, ClientTransport::Dummy));
    assert_eq!(io.receive_path, vec![Middleware::Conditioner(cond)]);
    assert!(io.send_path.is_empty());
    let plain = SharedIoConfig { transport: ClientTransport::default(), conditioner: None, compression: CompressionConfig::Off }
        .connect();
    assert!(plain.receive_path.is_empty());
    match plain.transport {
        ClientTransport::UdpSocket(a) => {
            assert_eq!(a, SocketAddress::V4 { ip: 0x7f00_0001, port: 0 });
        }
        _ => panic!("expected the UDP default"),
    }
}

#[test]
fn conditioner_delays_and_drops() {
    let cfg = LinkConditionerConfig { incoming_latency_ms: 50, incoming_jitter_ms: 10, incoming_loss_per_mille: 200 };
    let mut c = LinkConditioner::new(cfg);
    let a = SocketAddress::V4 { ip: 1, port: 2 };
    let b = SocketAddress::V6 { ip: 3, port: 4 };
    assert!(!c.condition(vec![1], a, 0, 199, 0));
    assert!(c.condition(vec![2], a, 0, 200, 0)); // delay 40
    assert!(c.condition(vec![3], b, 0, 999, 20)); // delay 60
    assert!(c.condition(vec![4], b, 5, 500, 5)); // delay 45, at 50
    assert_eq!(c.pop_ready(39), None);
    assert_eq!(c.pop_ready(40), Some((vec![2], a)));
    assert_eq!(c.pop_ready(55), Some((vec![4], b)));
    assert_eq!(c.pop_ready(59), None);
    assert_eq!(c.pop_ready(60), Some((vec![3], b)));
    assert_eq!(c.pop_ready(1000), None);
    // large latency and jitter saturate instead of overflowing
    let far = LinkConditionerConfig { incoming_latency_ms: u64::MAX, incoming_jitter_ms: u64::MAX, incoming_loss_per_mille: 0 };
    let mut f = LinkConditioner::new(far);
    assert!(f.condition(vec![5], a, 10, 0, u64::MAX));
    assert_eq!(f.pop_ready(u64::MAX - 1), None);
    assert_eq!(f.pop_ready(u64::MAX), Some((vec![5], a)));
}

#[test]
fn reliable_delivery_under_loss() {
    let total = 40u16;
    let mut sender = ReliableSender::new(50);
    for i in 0..total {
        sender.buffer_send(vec![i as u8, 1, 2]);
    }
    let cfg = LinkConditionerConfig { incoming_latency_ms: 0, incoming_jitter_ms: 0, incoming_loss_per_mille: 200 };
    let mut link = LinkConditioner::new(cfg);
    let mut ack_link = LinkConditioner::new(cfg);
    let peer = SocketAddress::V4 { ip: 1, port: 1 };
    let mut rx = OrderedReliableReceiver::new();
    let mut tracker = AckTracker::new();
    let mut rng = Lcg(42);
    let mut delivered: Vec<SingleData> = Vec::new();
    let mut now = 0u64;
    while now < 100_000 && delivered.len() < total as usize {
        for m in sender.collect_messages_to_send(now) {
            let h = PacketHeader { channel_id: 0, sequence: m.id, ack: 0, ack_bits: 0, tick: 0 };
            let bytes = encode(&h, &MessageContainer::Single(m));
            link.condition(bytes, peer, now, (rng.next() % 1000) as u16, 0);
        }
        while let Some((bytes, _)) = link.pop_ready(now) {
            let p = decode(&bytes).unwrap();
            tracker.record(p.header.sequence);
            rx.buffer_recv(p.message);
            let h = PacketHeader {
                channel_id: 0,
                sequence: 0,
                ack: tracker.latest.unwrap(),
                ack_bits: tracker.bits,
                tick: 0,
            };
            let reply = encode(&h, &MessageContainer::Single(SingleData { id: 0, tick: None, bytes: vec![] }));
            ack_link.condition(reply, peer, now, (rng.next() % 1000) as u16, 0);
        }
        while let Some((a, _)) = ack_link.pop_ready(now) {
            let h = decode(&a).unwrap().header;
            sender.process_ack_bits(h.ack, h.ack_bits);
        }
        rx.update(now, 0);
        while let Some(d) = rx.read_message() {
            delivered.push(d);
        }
        now += 10;
    }
    assert_eq!(delivered.len(), total as usize);
    for (k, d) in delivered.iter().enumerate() {
        assert_eq!(d.id, k as u16 + 1);
        assert_eq!(d.bytes, vec![k as u8, 1, 2]);
    }
    assert!(rx.read_message().is_none());
}

#[test]
fn ack_tracker_reports_recent_sequences() {
    let mut t = AckTracker::new();
    t.record(10);
    assert_eq!((t.latest, t.bits), (Some(10), 0));
    t.record(8);
    assert_eq!(t.bits, 0b10);
    t.record(12);
    assert_eq!(t.latest, Some(12));
    assert_eq!(t.bits, 0b1010);
    assert!(is_acked_by(12, t.bits, 10));
    assert!(is_acked_by(12, t.bits, 8));
    assert!(!is_acked_by(12, t.bits, 9));
    t.record(44);
    assert_eq!(t.bits, 1 << 31);
    t.record(100);
    assert_eq!(t.bits, 0);
    t.record(40); // too far behind to report
    assert_eq!((t.latest, t.bits), (Some(100), 0));
}

#[test]
fn ack_bits_stop_resends() {
    let mut s = ReliableSender::new(30);
    for i in 0..4u8 {
        s.buffer_send(vec![i]);
    }
    assert_eq!(s.collect_messages_to_send(0).len(), 4);
    assert_eq!(s.collect_messages_to_send(10).len(), 0);
    // ids 1..=4; acknowledge 4 and 2 (2 lies two behind 4: bit 1)
    s.process_ack_bits(4, 0b10);
    let again: Vec<u16> = s.collect_messages_to_send(30).iter().map(|m| m.id).collect();
    assert_eq!(again, vec![1, 3]);
    s.process_ack(1);
    let last: Vec<u16> = s.collect_messages_to_send(60).iter().map(|m| m.id).collect();
    assert_eq!(last, vec![3]);
}

#[test]
fn connection_records_acks() {
    let mut reg = ChannelRegistry::new();
    reg.add(ChannelKind::UnorderedReliable);
    let mut c: Connection<u8> = Connection::new(&reg, &ping_config());
    for seq in [3u16, 1, 2] {
        let h = PacketHeader { channel_id: 0, sequence: seq, ack: 0, ack_bits: 0, tick: 0 };
        assert_eq!(c.recv_packet(&encode(&h, &msg(seq, vec![]))), Ok(()));
    }
    assert_eq!(c.acks[0].latest, Some(3));
    assert_eq!(c.acks[0].bits, 0b11);
}

#[test]
fn input_buffer_keeps_one_value_per_tick() {
    let mut b: InputBuffer<u8> = InputBuffer::new(8);
    b.push(5, 1);
    b.push(5, 2);
    assert_eq!(b.get(5), Some(&2));
    assert_eq!(b.entries.len(), 1);
    b.push(10, 3);
    b.push(7, 4); // older, still inside the window
    assert_eq!(b.get(7), Some(&4));
    assert_eq!(b.get(5), Some(&2));
    assert_eq!(b.latest, Some(10));
    b.push(13, 5); // 5 now lies 8 behind
    assert_eq!(b.get(5), None);
    assert_eq!(b.get(7), Some(&4));
}

#[test]
fn reliable_receivers_keep_partial_fragments() {
    let p = payload(250);
    let frags = fragment(1, None, &p, 100);
    let mut r = OrderedReliableReceiver::new();
    let mut u = UnorderedUnreliableReceiver::new();
    let mut it = frags.into_iter();
    let first = it.next().unwrap();
    let copy = lightyear::message::FragmentData { bytes: first.bytes.clone(), ..first };
    r.buffer_recv(MessageContainer::Fragment(first));
    u.buffer_recv(MessageContainer::Fragment(copy));
    r.update(1_000_000, 0);
    u.update(1_000_000, 0);
    assert_eq!(r.fragments.in_flight.len(), 1);
    assert_eq!(u.fragments.in_flight.len(), 0);
    for f in it {
        r.buffer_recv(MessageContainer::Fragment(f));
    }
    assert_eq!(r.read_message().unwrap().bytes, p);
    r.update(1_000_001, 0);
    assert!(r.fragments.opened.is_empty());
}

#[test]
fn connection_resends_until_acknowledged() {
    let mut reg = ChannelRegistry::new();
    reg.add(ChannelKind::UnorderedUnreliable);
    reg.add(ChannelKind::OrderedReliable);
    reg.resend_after_ms = 50;
    let mut c: Connection<u8> = Connection::new(&reg, &ping_config());
    assert_eq!(c.buffer_send(0, vec![1]), None);
    assert_eq!(c.buffer_send(7, vec![1]), None);
    assert_eq!(c.buffer_send(1, vec![10]), Some(1));
    assert_eq!(c.buffer_send(1, vec![20]), Some(2));
    c.update(0, 0, 0);
    let first: Vec<u16> = c.take_outgoing(1).iter().map(|m| m.id).collect();
    assert_eq!(first, vec![1, 2]);
    assert!(c.take_outgoing(1).is_empty());
    c.update(49, 49, 1);
    assert!(c.take_outgoing(1).is_empty());
    // the peer acknowledges message 2 on channel 1
    let h = PacketHeader { channel_id: 1, sequence: 1, ack: 2, ack_bits: 0, tick: 0 };
    assert_eq!(c.recv_packet(&encode(&h, &msg(1, vec![]))), Ok(()));
    c.update(1, 50, 2);
    let again: Vec<u16> = c.take_outgoing(1).iter().map(|m| m.id).collect();
    assert_eq!(again, vec![1]);
    assert!(c.take_outgoing(0).is_empty());
    assert!(c.take_outgoing(9).is_empty());
}

#[test]
fn connection_handles_pongs() {
    let reg = ChannelRegistry::new();
    let cfg = PingConfig { sync_num_pings: 2, sync_ping_interval_ms: 100, tick_duration_ms: 10, max_rtt_spread_ms: 5, resync_threshold_ms: 50 };
    let mut c: Connection<u8> = Connection::new(&reg, &cfg);
    assert_eq!(c.sync_manager.next_ping_id, 0);
    c.update(10, 0, 0);
    assert_eq!(c.sync_manager.since_last_ping_ms, 0);
    assert_eq!(c.sync_manager.state, SyncState::Syncing);
    c.handle_pong(TimeSyncPong { id: 0, ping_sent_ms: 0, remote_tick: 100 }, 20);
    assert!(!c.sync_manager.is_synced());
    c.handle_pong(TimeSyncPong { id: 1, ping_sent_ms: 100, remote_tick: 110 }, 120);
    assert!(c.sync_manager.is_synced());
    c.update(200, 200, 20);
    assert_eq!(c.outgoing_pings.len(), 1);
    // a sample far from the estimate sends the manager back to syncing
    c.handle_pong(TimeSyncPong { id: 2, ping_sent_ms: 300, remote_tick: 500 }, 320);
    assert_eq!(c.sync_manager.state, SyncState::Syncing);
    assert_eq!(c.sync_manager.samples.len(), 1);
}

#[test]
fn connections_deliver_under_loss() {
    let mut reg = ChannelRegistry::new();
    reg.add(ChannelKind::OrderedReliable);
    reg.resend_after_ms = 40;
    let mut a: Connection<u8> = Connection::new(&reg, &ping_config());
    let mut b: Connection<u8> = Connection::new(&reg, &ping_config());
    let cfg = LinkConditionerConfig { incoming_latency_ms: 5, incoming_jitter_ms: 5, incoming_loss_per_mille: 200 };
    let mut to_b = LinkConditioner::new(cfg);
    let mut to_a = LinkConditioner::new(cfg);
    let peer = SocketAddress::V4 { ip: 7, port: 7 };
    let total = 30u16;
    for i in 0..total {
        assert_eq!(a.buffer_send(0, vec![i as u8; 3]), Some(i + 1));
    }
    let mut rng = Lcg(7);
    let mut got: Vec<SingleData> = Vec::new();
    let mut now = 0u64;
    while now < 60_000 && got.len() < total as usize {
        a.update(10, now, 0);
        b.update(10, now, 0);
        for m in a.take_outgoing(0) {
            let h = PacketHeader { channel_id: 0, sequence: m.id, ack: 0, ack_bits: 0, tick: 0 };
            to_b.condition(encode(&h, &MessageContainer::Single(m)), peer, now, (rng.next() % 1000) as u16, rng.next());
        }
        while let Some((bytes, _)) = to_b.pop_ready(now) {
            assert_eq!(b.recv_packet(&bytes), Ok(()));
            let t = &b.acks[0];
            let h = PacketHeader { channel_id: 0, sequence: 0, ack: t.latest.unwrap(), ack_bits: t.bits, tick: 0 };
            to_a.condition(encode(&h, &msg(0, vec![])), peer, now, (rng.next() % 1000) as u16, rng.next());
        }
        while let Some((bytes, _)) = to_a.pop_ready(now) {
            assert_eq!(a.recv_packet(&bytes), Ok(()));
        }
        while let Some(d) = b.receivers[0].read_message() {
            got.push(d);
        }
        now += 10;
    }
    assert_eq!(got.len(), total as usize);
    for (k, d) in got.iter().enumerate() {
        assert_eq!(d.id, k as u16 + 1);
        assert_eq!(d.bytes, vec![k as u8; 3]);
    }
    assert!(a.receivers[0].read_message().is_none());
}

#[test]
fn connection_reassembles_fragment_packets() {
    let mut reg = ChannelRegistry::new();
    reg.add(ChannelKind::UnorderedUnreliable);
    reg.add(ChannelKind::OrderedReliable);
    let mut c: Connection<u8> = Connection::new(&reg, &ping_config());
    for (channel, len) in [(0u8, 0usize), (1, 1), (0, MTU), (1, 4 * MTU + 3)] {
        let p = payload(len);
        let frags = fragment(1, None, &p, MTU - 32);
        let n = frags.len();
        let mut packets: Vec<Vec<u8>> = frags
            .into_iter()
            .map(|f| {
                let h = PacketHeader { channel_id: channel, sequence: 1, ack: 0, ack_bits: 0, tick: 0 };
                encode(&h, &MessageContainer::Fragment(f))
            })
            .collect();
        packets.reverse();
        for (k, bytes) in packets.iter().enumerate() {
            assert_eq!(c.recv_packet(bytes), Ok(()));
            if k + 1 < n {
                assert!(c.receivers[channel as usize].read_message().is_none());
            }
        }
        let d = c.receivers[channel as usize].read_message().unwrap();
        assert_eq!(d.bytes, p);
        assert!(c.receivers[channel as usize].read_message().is_none());
        // the ordered channel now waits for id 2
        if channel == 1 {
            let mut fresh = ChannelRegistry::new();
            fresh.add(ChannelKind::UnorderedUnreliable);
            fresh.add(ChannelKind::OrderedReliable);
            c = Connection::new(&fresh, &ping_config());
        }
    }
}
