//! Clock synchronisation with the remote peer through ping/pong probes.
//!
//! Clock offsets are kept modulo the tick period, the time it takes the
//! 16-bit tick counter to wrap, so that they stay bounded.
use vstd::prelude::*;

verus! {

/// Settings of the synchronisation probes.
pub struct SyncConfig {
    /// How many samples must be collected before the clocks count as synced;
    /// also the size of the sliding window of samples.
    pub num_pings: u16,
    /// Time (ms) between two probes while syncing.
    pub ping_interval_ms: u64,
    /// Length (ms) of one simulation tick.
    pub tick_duration_ms: u64,
    /// Largest spread (ms) between the window's round-trip times that still
    /// counts as stable.
    pub max_rtt_spread_ms: u64,
    /// Largest drift (ms) of a new sample from the estimate before a resync.
    pub resync_threshold_ms: u64,
}

/// A probe sent to the remote peer.
#[derive(Clone, Copy, Debug, PartialEq, Eq, Structural)]
pub struct TimeSyncPing {
    pub id: u16,
    /// Local time (ms) at which the probe was sent.
    pub ping_sent_ms: u64,
}

/// The remote peer's answer to a probe.
#[derive(Clone, Copy, Debug, PartialEq, Eq, Structural)]
pub struct TimeSyncPong {
    pub id: u16,
    /// The local send time echoed back.
    pub ping_sent_ms: u64,
    /// The remote tick when the answer was sent.
    pub remote_tick: u16,
}

/// One probe round trip.
#[derive(Clone, Copy, Debug, PartialEq, Eq, Structural)]
pub struct SyncSample {
    pub rtt_ms: u64,
    /// Remote clock minus local clock (ms), modulo the tick period.
    pub offset_ms: u64,
}

#[derive(Clone, Copy, Debug, PartialEq, Eq, Structural)]
pub enum SyncState {
    /// No probe sent yet.
    Unsynced,
    /// Collecting samples.
    Syncing,
    /// Enough stable samples collected.
    Synced,
}

/// Time (ms) for the tick counter to wrap once.
pub open spec fn tick_period(tick_ms: u64) -> int {
    65536 * (tick_ms as int)
}

/// The clock offset that one round trip measures: the remote time at
/// receipt is taken as the remote tick plus half the round trip.
pub open spec fn sample_offset(remote_tick: u16, rtt_ms: u64, now_ms: u64, tick_ms: u64) -> int {
    let p = tick_period(tick_ms);
    (remote_tick as int * tick_ms as int + rtt_ms as int / 2 + p - (now_ms as int) % p) % p
}

/// `off` relative to `base`, shifted by half a period so that it is never negative.
pub open spec fn shifted(off: int, base: int, p: int) -> int {
    (off + p - base + p / 2) % p
}

pub open spec fn sum_shifted(s: Seq<SyncSample>, base: int, p: int) -> int
    decreases s.len(),
{
    if s.len() == 0 {
        0
    } else {
        sum_shifted(s.drop_last(), base, p) + shifted(s.last().offset_ms as int, base, p)
    }
}

/// The window's average clock offset, taken around its first sample so that
/// wrap-around does not disturb it.
pub open spec fn mean_offset(s: Seq<SyncSample>, p: int) -> int
    recommends
        s.len() > 0,
{
    let base = s[0].offset_ms as int;
    (base + sum_shifted(s, base, p) / (s.len() as int) + p - p / 2) % p
}

pub open spec fn max_rtt(s: Seq<SyncSample>) -> int
    decreases s.len(),
{
    if s.len() == 0 {
        0
    } else {
        let m = max_rtt(s.drop_last());
        if s.last().rtt_ms > m { s.last().rtt_ms as int } else { m }
    }
}

pub open spec fn min_rtt(s: Seq<SyncSample>) -> int
    decreases s.len(),
{
    if s.len() == 0 {
        0
    } else if s.len() == 1 {
        s[0].rtt_ms as int
    } else {
        let m = min_rtt(s.drop_last());
        if (s.last().rtt_ms as int) < m { s.last().rtt_ms as int } else { m }
    }
}

/// Circular distance between two offsets modulo `p`.
pub open spec fn circular_gap(a: int, b: int, p: int) -> int {
    let d = (a - b + p) % p;
    if d <= p / 2 { d } else { p - d }
}

/// The remote tick estimated at local time `now_ms` from a clock offset.
pub open spec fn tick_at(now_ms: u64, offset: int, tick_ms: u64) -> int {
    let p = tick_period(tick_ms);
    (((now_ms as int) % p + offset) % p) / (tick_ms as int)
}

/// Estimates the remote peer's clock from probe round trips.
pub struct SyncManager {
    pub config: SyncConfig,
    pub state: SyncState,
    /// Time (ms) since the last probe.
    pub since_last_ping_ms: u64,
    pub next_ping_id: u16,
    /// The sliding window of samples, oldest first.
    pub samples: std::collections::VecDeque<SyncSample>,
    /// The newest remote tick seen in any packet.
    pub latest_received_server_tick: u16,
}

impl SyncConfig {
    pub open spec fn valid(&self) -> bool {
        &&& self.num_pings > 0
        &&& 0 < self.tick_duration_ms <= 0x7fff_ffff
    }
}

impl SyncManager {
    pub open spec fn wf(&self) -> bool {
        &&& self.config.valid()
        &&& self.samples@.len() <= self.config.num_pings
        &&& forall|i: int|
            0 <= i < self.samples@.len() ==> (#[trigger] self.samples@[i]).offset_ms < tick_period(
                self.config.tick_duration_ms,
            )
        &&& self.state == SyncState::Synced ==> self.samples@.len() > 0
    }

    pub open spec fn synced(&self) -> bool {
        self.state == SyncState::Synced
    }

    /// A window that is full and whose round-trip times are stable.
    pub open spec fn stable(&self, s: Seq<SyncSample>) -> bool {
        s.len() >= self.config.num_pings && max_rtt(s) - min_rtt(s) <= self.config.max_rtt_spread_ms
    }

    pub fn new(config: SyncConfig) -> (r: Self)
        requires
            config.valid(),
        ensures
            r.wf(),
            r.config == config,
            r.state == SyncState::Unsynced,
            r.samples@.len() == 0,
            r.since_last_ping_ms == config.ping_interval_ms,
            r.next_ping_id == 0,
            r.latest_received_server_tick == 0,
    {
        let interval = config.ping_interval_ms;
        SyncManager {
            config,
            state: SyncState::Unsynced,
            // the first probe may go out at once
            since_last_ping_ms: interval,
            next_ping_id: 0,
            samples: std::collections::VecDeque::new(),
            latest_received_server_tick: 0,
        }
    }

    pub fn is_synced(&self) -> (r: bool)
        ensures
            r == self.synced(),
    {
        self.state == SyncState::Synced
    }

    /// Advances the probe timer.
    pub fn update(&mut self, delta_ms: u64)
        requires
            old(self).wf(),
        ensures
            final(self).wf(),
            final(self).since_last_ping_ms == if old(self).since_last_ping_ms as int + delta_ms as int > u64::MAX {
                u64::MAX as int
            } else {
                old(self).since_last_ping_ms as int + delta_ms as int
            },
            final(self).state == old(self).state,
            final(self).samples@ == old(self).samples@,
            final(self).config == old(self).config,
            final(self).next_ping_id == old(self).next_ping_id,
            final(self).latest_received_server_tick == old(self).latest_received_server_tick,
    {
        self.since_last_ping_ms = self.since_last_ping_ms.saturating_add(delta_ms);
    }

    /// A probe, when the clocks are not synced yet and the probe interval has passed.
    pub fn maybe_prepare_ping(&mut self, now_ms: u64) -> (r: Option<TimeSyncPing>)
        requires
            old(self).wf(),
        ensures
            final(self).wf(),
            final(self).samples@ == old(self).samples@,
            final(self).config == old(self).config,
            final(self).latest_received_server_tick == old(self).latest_received_server_tick,
            if !old(self).synced() && old(self).since_last_ping_ms >= old(self).config.ping_interval_ms {
                &&& r == Some(TimeSyncPing { id: old(self).next_ping_id, ping_sent_ms: now_ms })
                &&& final(self).since_last_ping_ms == 0
                &&& final(self).next_ping_id == (old(self).next_ping_id + 1) % 65536
                &&& final(self).state == SyncState::Syncing
            } else {
                &&& r.is_none()
                &&& final(self).since_last_ping_ms == old(self).since_last_ping_ms
                &&& final(self).next_ping_id == old(self).next_ping_id
                &&& final(self).state == old(self).state
            },
    {
        if self.state == SyncState::Synced || self.since_last_ping_ms < self.config.ping_interval_ms {
            return None;
        }
        let ping = TimeSyncPing { id: self.next_ping_id, ping_sent_ms: now_ms };
        self.since_last_ping_ms = 0;
        self.next_ping_id = ((self.next_ping_id as u32 + 1) % 65536) as u16;
        self.state = SyncState::Syncing;
        Some(ping)
    }

    /// The window's average clock offset.
    fn window_offset(&self) -> (r: u64)
        requires
            self.wf(),
            self.samples@.len() > 0,
        ensures
            r == mean_offset(self.samples@, tick_period(self.config.tick_duration_ms)),
    {
        let p: u64 = 65536 * self.config.tick_duration_ms;
        let n = self.samples.len();
        let base = self.samples[0].offset_ms;
        let mut sum: u64 = 0;
        let mut i: usize = 0;
        while i < n
            invariant
                self.wf(),
                n == self.samples@.len(),
                p == tick_period(self.config.tick_duration_ms),
                base == self.samples@[0].offset_ms,
                i <= n,
                sum == sum_shifted(self.samples@.subrange(0, i as int), base as int, p as int),
                sum <= i * p,
            decreases n - i,
        {
            let off = self.samples[i].offset_ms;
            let sh = (off + p - base + p / 2) % p;
            assert(self.samples@.subrange(0, i + 1).drop_last() =~= self.samples@.subrange(0, i as int));
            assert(sum + sh <= (i + 1) * p) by (nonlinear_arith)
                requires
                    sum <= i * p,
                    sh < p,
            ;
            assert((i + 1) * p <= 65536 * (65536 * 0x7fff_ffff)) by (nonlinear_arith)
                requires
                    i < n <= 65535,
                    p <= 65536 * 0x7fff_ffff,
            ;
            sum = sum + sh;
            i = i + 1;
        }
        assert(self.samples@.subrange(0, n as int) =~= self.samples@);
        let avg = sum / (n as u64);
        assert(avg <= p) by (nonlinear_arith)
            requires
                sum <= n * p,
                n > 0,
                avg == sum as int / (n as int),
        ;
        (base + avg + p - p / 2) % p
    }

    /// The window's round-trip times are stable and the window is full.
    fn window_stable(&self) -> (r: bool)
        requires
            self.wf(),
        ensures
            r == self.stable(self.samples@),
    {
        let n = self.samples.len();
        if n < self.config.num_pings as usize || n == 0 {
            return false;
        }
        let mut hi: u64 = 0;
        let mut lo: u64 = self.samples[0].rtt_ms;
        let mut i: usize = 0;
        while i < n
            invariant
                n == self.samples@.len(),
                n > 0,
                i <= n,
                hi == max_rtt(self.samples@.subrange(0, i as int)),
                i > 0 ==> lo == min_rtt(self.samples@.subrange(0, i as int)),
                i == 0 ==> lo == self.samples@[0].rtt_ms,
                lo <= hi || i == 0,
            decreases n - i,
        {
            let r = self.samples[i].rtt_ms;
            let ghost sub = self.samples@.subrange(0, i + 1);
            assert(sub.drop_last() =~= self.samples@.subrange(0, i as int));
            if r > hi {
                hi = r;
            }
            if i > 0 && r < lo {
                lo = r;
            }
            if i == 0 {
                assert(sub.len() == 1);
            }
            i = i + 1;
        }
        assert(self.samples@.subrange(0, n as int) =~= self.samples@);
        hi - lo <= self.config.max_rtt_spread_ms
    }

    /// Whether a sample that measures offset `off` drifts too far from the
    /// current estimate, which triggers a resync.
    pub open spec fn drifts(&self, off: int) -> bool {
        &&& self.synced()
        &&& circular_gap(off, mean_offset(self.samples@, tick_period(self.config.tick_duration_ms)), tick_period(self.config.tick_duration_ms))
            > self.config.resync_threshold_ms
    }

    /// How the answer `pong`, received at `now_ms`, changes the manager.
    pub open spec fn pong_rel(self, next: Self, pong: TimeSyncPong, now_ms: u64) -> bool {
        &&& next.config == self.config
        &&& next.since_last_ping_ms == self.since_last_ping_ms
        &&& next.next_ping_id == self.next_ping_id
        &&& next.latest_received_server_tick == self.latest_received_server_tick
        &&& {
        let tick_ms = self.config.tick_duration_ms;
        let p = tick_period(tick_ms);
        let rtt = now_ms - pong.ping_sent_ms;
        if now_ms < pong.ping_sent_ms || rtt >= p {
            next.samples@ == self.samples@ && next.state == self.state
        } else {
            let sample = SyncSample { rtt_ms: rtt as u64, offset_ms: sample_offset(pong.remote_tick, rtt as u64, now_ms, tick_ms) as u64 };
            let resync = self.drifts(sample.offset_ms as int);
            let grown = if resync { seq![sample] } else { self.samples@.push(sample) };
            let window = if grown.len() > self.config.num_pings { grown.drop_first() } else { grown };
            &&& next.samples@ == window
            &&& next.state == if resync {
                SyncState::Syncing
            } else if self.synced() {
                SyncState::Synced
            } else if self.stable(window) {
                SyncState::Synced
            } else {
                SyncState::Syncing
            }
        }
        }
    }

    /// Takes in the answer to a probe, received at local time `now_ms`.
    /// An answer that claims to come from the future, or that took a whole
    /// tick period or more, is ignored. A synced manager whose new sample
    /// drifts too far from the estimate starts over from that sample and
    /// reports Syncing until the next answer.
    pub fn process_pong(&mut self, pong: TimeSyncPong, now_ms: u64)
        requires
            old(self).wf(),
        ensures
            final(self).wf(),
            final(self).config == old(self).config,
            final(self).since_last_ping_ms == old(self).since_last_ping_ms,
            final(self).next_ping_id == old(self).next_ping_id,
            final(self).latest_received_server_tick == old(self).latest_received_server_tick,
            old(self).pong_rel(*final(self), pong, now_ms),
    {
        if now_ms < pong.ping_sent_ms {
            return;
        }
        let tick_ms = self.config.tick_duration_ms;
        let p: u64 = 65536 * tick_ms;
        let rtt = now_ms - pong.ping_sent_ms;
        if rtt >= p {
            return;
        }
        assert(pong.remote_tick as u64 * tick_ms <= 65535 * 0x7fff_ffff) by (nonlinear_arith)
            requires
                tick_ms <= 0x7fff_ffff,
                pong.remote_tick <= 65535,
        ;
        let off = (pong.remote_tick as u64 * tick_ms + rtt / 2 + p - now_ms % p) % p;
        let sample = SyncSample { rtt_ms: rtt, offset_ms: off };
        let mut resync = false;
        if self.state == SyncState::Synced {
            let m = self.window_offset();
            let d = (off + p - m) % p;
            let gap = if d <= p / 2 { d } else { p - d };
            if gap > self.config.resync_threshold_ms {
                resync = true;
            }
        }
        let was_synced = self.state == SyncState::Synced;
        if resync {
            self.samples.clear();
            self.state = SyncState::Syncing;
        }
        self.samples.push_back(sample);
        if self.samples.len() > self.config.num_pings as usize {
            self.samples.pop_front();
        }
        proof {
            let grown = if resync { seq![sample] } else { old(self).samples@.push(sample) };
            if grown.len() > old(self).config.num_pings {
                assert(self.samples@ =~= grown.drop_first());
            } else {
                assert(self.samples@ =~= grown);
            }
        }
        if !was_synced {
            if self.window_stable() {
                self.state = SyncState::Synced;
            } else {
                self.state = SyncState::Syncing;
            }
        }
    }

    /// The remote tick estimated at local time `now_ms`, once any sample exists.
    pub fn estimated_remote_tick(&self, now_ms: u64) -> (r: Option<u16>)
        requires
            self.wf(),
        ensures
            self.samples@.len() == 0 ==> r.is_none(),
            self.samples@.len() > 0 ==> r == Some(
                tick_at(
                    now_ms,
                    mean_offset(self.samples@, tick_period(self.config.tick_duration_ms)),
                    self.config.tick_duration_ms,
                ) as u16,
            ),
    {
        if self.samples.len() == 0 {
            return None;
        }
        let tick_ms = self.config.tick_duration_ms;
        let p: u64 = 65536 * tick_ms;
        let m = self.window_offset();
        let x = (now_ms % p + m) % p;
        let t = x / tick_ms;
        proof {
            assert(t < 65536) by (nonlinear_arith)
                requires
                    t == x / tick_ms,
                    x < p,
                    p == 65536 * tick_ms,
                    tick_ms > 0,
            ;
        }
        Some(t as u16)
    }
}

} // verus!

verus! {

proof fn lemma_sum_constant(s: Seq<SyncSample>, o: u64, p: int)
    requires
        p > 0,
        forall|i: int| 0 <= i < s.len() ==> (#[trigger] s[i]).offset_ms == o,
    ensures
        sum_shifted(s, o as int, p) == s.len() * shifted(o as int, o as int, p),
    decreases s.len(),
{
    if s.len() > 0 {
        lemma_sum_constant(s.drop_last(), o, p);
        assert(s.last().offset_ms == o);
        let k = shifted(o as int, o as int, p);
        assert((s.len() - 1) * k + k == s.len() * k) by (nonlinear_arith);
    }
}

/// When every sample of the window measures the same clock offset (a link
/// with a fixed round trip and no jitter), the estimate uses exactly that offset.
pub proof fn lemma_consistent_offsets(s: Seq<SyncSample>, o: u64, tick_ms: u64)
    requires
        s.len() > 0,
        tick_ms > 0,
        o < tick_period(tick_ms),
        forall|i: int| 0 <= i < s.len() ==> (#[trigger] s[i]).offset_ms == o,
    ensures
        mean_offset(s, tick_period(tick_ms)) == o,
{
    let p = tick_period(tick_ms);
    lemma_sum_constant(s, o, p);
    assert(shifted(o as int, o as int, p) == p / 2) by {
        vstd::arithmetic::div_mod::lemma_mod_add_multiples_vanish((p / 2) as int, p);
        vstd::arithmetic::div_mod::lemma_small_mod((p / 2) as nat, p as nat);
    }
    let n = s.len() as int;
    assert((n * (p / 2)) / n == p / 2) by {
        vstd::arithmetic::div_mod::lemma_div_multiples_vanish(p / 2, n);
    }
    assert(s[0].offset_ms == o);
    vstd::arithmetic::div_mod::lemma_mod_add_multiples_vanish(o as int, p);
    vstd::arithmetic::div_mod::lemma_small_mod(o as nat, p as nat);
}

} // verus!
