//! Splitting oversized messages into fragments, and putting them back together.
use vstd::prelude::*;

use crate::message::{FragmentData, SingleData};

verus! {

/// How many chunks of at most `c` bytes a payload of `len` bytes needs.
/// An empty payload still travels as one (empty) chunk.
pub open spec fn num_chunks(len: nat, c: nat) -> nat
    recommends
        c > 0,
{
    if len == 0 {
        1
    } else {
        ((len + c - 1) as nat / c) as nat
    }
}

/// The `i`-th chunk of `p` when cut into pieces of `c` bytes.
pub open spec fn chunk_of(p: Seq<u8>, c: nat, i: int) -> Seq<u8> {
    let start = i * c;
    let end = if start + c <= p.len() { start + c } else { p.len() as int };
    p.subrange(start, end)
}

/// The fragments that `fragment` produces for a message.
pub open spec fn is_fragmentation(
    fs: Seq<FragmentData>,
    message_id: u16,
    tick: Option<u16>,
    p: Seq<u8>,
    c: nat,
) -> bool {
    &&& fs.len() == num_chunks(p.len(), c)
    &&& forall|i: int|
        0 <= i < fs.len() ==> {
            &&& (#[trigger] fs[i]).message_id == message_id
            &&& fs[i].fragment_index == i
            &&& fs[i].num_fragments == fs.len()
            &&& fs[i].tick == tick
            &&& fs[i].bytes@ == chunk_of(p, c, i)
        }
}

/// The concatenation of a sequence of filled chunk slots, in slot order.
pub open spec fn join_slots(s: Seq<Option<Vec<u8>>>) -> Seq<u8>
    decreases s.len(),
{
    if s.len() == 0 {
        Seq::empty()
    } else {
        join_slots(s.drop_last()) + s.last().unwrap()@
    }
}

/// Every slot holds a chunk.
pub open spec fn all_present(s: Seq<Option<Vec<u8>>>) -> bool {
    forall|i: int| 0 <= i < s.len() ==> (#[trigger] s[i]).is_some()
}

/// The slots that a complete set of fragments fills, in index order.
pub open spec fn slots_of(fs: Seq<FragmentData>) -> Seq<Option<Vec<u8>>> {
    Seq::new(fs.len(), |i: int| Some(fs[i].bytes))
}

proof fn lemma_push_contains(s: Seq<u16>, x: u16, k: u16)
    ensures
        s.push(x).contains(k) <==> s.contains(k) || k == x,
{
    if s.contains(k) {
        let w = choose|w: int| 0 <= w < s.len() && s[w] == k;
        assert(s.push(x)[w] == k);
    }
    assert(s.push(x)[s.len() as int] == x);
    if s.push(x).contains(k) && k != x {
        let w = choose|w: int| 0 <= w < s.push(x).len() && s.push(x)[w] == k;
        assert(s[w] == k);
    }
}

proof fn lemma_chunk_count(len: nat, c: nat)
    requires
        c > 0,
        len > 0,
    ensures
        num_chunks(len, c) * c >= len,
        (num_chunks(len, c) - 1) * c < len,
        num_chunks(len, c) >= 1,
{
    let n = num_chunks(len, c);
    let t = (len + c - 1) as nat;
    vstd::arithmetic::div_mod::lemma_fundamental_div_mod(t as int, c as int);
    let r = t as int % c as int;
    assert(t == c * n + r);
    assert(0 <= r < c);
    assert(n * c >= len) by (nonlinear_arith)
        requires
            t == c * n + r,
            r < c,
            t == len + c - 1,
    ;
    assert((n - 1) * c < len) by (nonlinear_arith)
        requires
            t == c * n + r,
            r >= 0,
            t == len + c - 1,
    ;
    assert(n >= 1) by (nonlinear_arith)
        requires
            n * c >= len,
            len > 0,
            c > 0,
    ;
}

proof fn lemma_join_prefix(fs: Seq<FragmentData>, p: Seq<u8>, c: nat, k: int, message_id: u16, tick: Option<u16>)
    requires
        c > 0,
        is_fragmentation(fs, message_id, tick, p, c),
        0 <= k <= fs.len(),
        p.len() > 0,
    ensures
        join_slots(slots_of(fs).subrange(0, k)) == p.subrange(0, if k * c <= p.len() { k * c } else { p.len() as int }),
    decreases k,
{
    lemma_chunk_count(p.len(), c);
    if k == 0 {
        assert(slots_of(fs).subrange(0, 0) =~= Seq::<Option<Vec<u8>>>::empty());
        assert(p.subrange(0, 0) =~= Seq::<u8>::empty());
    } else {
        lemma_join_prefix(fs, p, c, k - 1, message_id, tick);
        let s = slots_of(fs).subrange(0, k);
        assert(s.drop_last() =~= slots_of(fs).subrange(0, k - 1));
        let n = fs.len() as int;
        assert((k - 1) * c <= (n - 1) * c) by (nonlinear_arith)
            requires
                k <= n,
                c > 0,
        ;
        assert((k - 1) * c + c == k * c) by (nonlinear_arith);
        let start = (k - 1) * c;
        assert(start < p.len());
        assert(fs[k - 1].bytes@ == chunk_of(p, c, k - 1));
        assert(s.last() == Some(fs[k - 1].bytes));
        let end = if k * c <= p.len() { k * c } else { p.len() as int };
        assert(p.subrange(0, start) + p.subrange(start, end) =~= p.subrange(0, end));
    }
}

/// Fragmenting a payload and joining all of its fragments, in index order,
/// gives back the payload byte for byte.
pub proof fn lemma_fragment_round_trip(
    fs: Seq<FragmentData>,
    p: Seq<u8>,
    c: nat,
    message_id: u16,
    tick: Option<u16>,
)
    requires
        c > 0,
        is_fragmentation(fs, message_id, tick, p, c),
    ensures
        all_present(slots_of(fs)),
        join_slots(slots_of(fs)) == p,
{
    if p.len() == 0 {
        let s = slots_of(fs);
        assert(s.len() == 1);
        assert(s.drop_last() =~= Seq::<Option<Vec<u8>>>::empty());
        assert(fs.len() == 1);
        assert(fs[0].bytes@ == chunk_of(p, c, 0));
        assert(0 * c == 0) by (nonlinear_arith);
        assert(chunk_of(p, c, 0) =~= Seq::<u8>::empty());
        assert(join_slots(s.drop_last()) == Seq::<u8>::empty());
        assert(join_slots(s) =~= p);
    } else {
        lemma_chunk_count(p.len(), c);
        let n = fs.len() as int;
        lemma_join_prefix(fs, p, c, n, message_id, tick);
        assert(slots_of(fs).subrange(0, n) =~= slots_of(fs));
        assert(p.subrange(0, p.len() as int) =~= p);
    }
}

/// A copy of `p[start..end]`.
fn copy_range(p: &Vec<u8>, start: usize, end: usize) -> (r: Vec<u8>)
    requires
        start <= end <= p.len(),
    ensures
        r@ == p@.subrange(start as int, end as int),
{
    let mut r: Vec<u8> = Vec::new();
    let mut i: usize = start;
    while i < end
        invariant
            start <= i <= end <= p.len(),
            r@ == p@.subrange(start as int, i as int),
        decreases end - i,
    {
        r.push(p[i]);
        i = i + 1;
        assert(r@ =~= p@.subrange(start as int, i as int));
    }
    r
}

/// Splits `payload` into chunks of at most `chunk_size` bytes, each tagged
/// with the message id, its index and the total count.
pub fn fragment(message_id: u16, tick: Option<u16>, payload: &Vec<u8>, chunk_size: usize) -> (r: Vec<FragmentData>)
    requires
        chunk_size > 0,
        num_chunks(payload@.len(), chunk_size as nat) <= 65535,
    ensures
        is_fragmentation(r@, message_id, tick, payload@, chunk_size as nat),
{
    let len = payload.len();
    let c = chunk_size;
    let ghost n = num_chunks(len as nat, c as nat);
    proof {
        if len > 0 {
            lemma_chunk_count(len as nat, c as nat);
        }
    }
    let mut out: Vec<FragmentData> = Vec::new();
    if len == 0 {
        out.push(FragmentData { message_id, fragment_index: 0, num_fragments: 1, tick, bytes: Vec::new() });
        assert(chunk_of(payload@, c as nat, 0) =~= Seq::<u8>::empty());
        return out;
    }
    let q = len / c;
    let rem = len % c;
    proof {
        vstd::arithmetic::div_mod::lemma_fundamental_div_mod(len as int, c as int);
        assert(rem > 0 ==> q < len) by (nonlinear_arith)
            requires
                len == c * q + rem,
                c > 0,
        ;
    }
    let total = if rem == 0 { q } else { q + 1 };
    proof {
        let t = (len + c - 1) as int;
        assert(t == (q + 1) * c + rem - 1) by (nonlinear_arith)
            requires
                len == c * q + rem,
                t == len + c - 1,
        ;
        assert(rem == 0 ==> t == q * c + c - 1) by (nonlinear_arith)
            requires
                len == c * q + rem,
                t == len + c - 1,
        ;
        if rem == 0 {
            vstd::arithmetic::div_mod::lemma_fundamental_div_mod_converse(t, c as int, q as int, (c - 1) as int);
        } else {
            vstd::arithmetic::div_mod::lemma_fundamental_div_mod_converse(t, c as int, q as int + 1, (rem - 1) as int);
        }
    }
    assert(total == n);
    let count: u16 = total as u16;
    let mut i: u16 = 0;
    let mut start: usize = 0;
    while i < count
        invariant
            c > 0,
            len == payload@.len(),
            n == num_chunks(len as nat, c as nat),
            count == n,
            n * c >= len,
            (n - 1) * c < len,
            i <= count,
            out@.len() == i,
            i < count ==> start == i * c,
            i < count ==> start < len,
            forall|j: int|
                0 <= j < i ==> {
                    &&& (#[trigger] out@[j]).message_id == message_id
                    &&& out@[j].fragment_index == j
                    &&& out@[j].num_fragments == n
                    &&& out@[j].tick == tick
                    &&& out@[j].bytes@ == chunk_of(payload@, c as nat, j)
                },
        decreases count - i,
    {
        let end = if len - start > c { start + c } else { len };
        let bytes = copy_range(payload, start, end);
        assert(bytes@ == chunk_of(payload@, c as nat, i as int));
        out.push(FragmentData { message_id, fragment_index: i, num_fragments: count, tick, bytes });
        i = i + 1;
        if i < count {
            // every chunk but the last is a full one
            assert(i * c <= (n - 1) * c) by (nonlinear_arith)
                requires
                    i <= n - 1,
                    c > 0,
            ;
            assert(start + c == i * c) by (nonlinear_arith)
                requires
                    start == (i - 1) * c,
            ;
            start = end;
        }
    }
    out
}

} // verus!

verus! {

/// A message whose fragments are still arriving.
pub struct Reassembly {
    /// How many fragments the message has.
    pub num_fragments: u16,
    /// Tick the message describes, taken from its first fragment.
    pub tick: Option<u16>,
    /// One slot per fragment index, filled as fragments arrive.
    pub chunks: Vec<Option<Vec<u8>>>,
    /// Time (ms) at which the first fragment arrived.
    pub started_ms: u64,
}

/// Reassembly buffer for the fragments of one channel, keyed by message id.
pub struct FragmentReceiver {
    /// Messages under reassembly.
    pub in_flight: std::collections::HashMap<u16, Reassembly>,
    /// Ids of messages under reassembly, in the order they were opened.
    pub opened: Vec<u16>,
}

/// A fragment that fits the message it claims to belong to.
pub open spec fn fragment_fits(m: Map<u16, Reassembly>, f: FragmentData) -> bool {
    &&& f.num_fragments > 0
    &&& f.fragment_index < f.num_fragments
    &&& m.contains_key(f.message_id) ==> m[f.message_id].num_fragments == f.num_fragments
}

/// The chunk slots of `f`'s message once `f` has been stored.
/// A fragment index that was already filled keeps its first chunk.
pub open spec fn slots_after(m: Map<u16, Reassembly>, f: FragmentData) -> Seq<Option<Vec<u8>>> {
    let base = if m.contains_key(f.message_id) {
        m[f.message_id].chunks@
    } else {
        Seq::new(f.num_fragments as nat, |j: int| None)
    };
    if base[f.fragment_index as int].is_none() {
        base.update(f.fragment_index as int, Some(f.bytes))
    } else {
        base
    }
}

/// The tick of `f`'s message: that of the first fragment that arrived.
pub open spec fn tick_after(m: Map<u16, Reassembly>, f: FragmentData) -> Option<u16> {
    if m.contains_key(f.message_id) {
        m[f.message_id].tick
    } else {
        f.tick
    }
}

/// A reassembly that has waited the timeout or more by `now_ms`; without a
/// timeout nothing is ever stale.
pub open spec fn is_stale(e: Reassembly, now_ms: u64, timeout_ms: Option<u64>) -> bool {
    match timeout_ms {
        Some(t) => now_ms as int >= e.started_ms as int + t as int,
        None => false,
    }
}

/// `next` is the reassembly buffer `m` once the stale messages are forgotten.
pub open spec fn swept(m: Map<u16, Reassembly>, next: Map<u16, Reassembly>, now_ms: u64, timeout_ms: Option<u64>) -> bool {
    &&& forall|k: u16| #[trigger] next.contains_key(k) <==> m.contains_key(k) && !is_stale(m[k], now_ms, timeout_ms)
    &&& forall|k: u16| #[trigger] next.contains_key(k) ==> next[k] == m[k]
}

/// How the reassembly buffer `m` becomes `next` when fragment `f` arrives at `now_ms`.
pub open spec fn receive_rel(m: Map<u16, Reassembly>, next: Map<u16, Reassembly>, f: FragmentData, now_ms: u64) -> bool {
    if !fragment_fits(m, f) {
        next == m
    } else if all_present(slots_after(m, f)) {
        next == m.remove(f.message_id)
    } else {
        &&& next.contains_key(f.message_id)
        &&& next[f.message_id].chunks@ == slots_after(m, f)
        &&& next[f.message_id].num_fragments == f.num_fragments
        &&& next[f.message_id].tick == tick_after(m, f)
        &&& next[f.message_id].started_ms == if m.contains_key(f.message_id) {
            m[f.message_id].started_ms
        } else {
            now_ms
        }
        &&& next.remove(f.message_id) == m.remove(f.message_id)
    }
}

impl FragmentReceiver {
    pub open spec fn wf(&self) -> bool {
        forall|k: u16|
            #[trigger] self.in_flight@.contains_key(k) ==> {
                &&& self.opened@.contains(k)
                &&& self.in_flight@[k].chunks@.len() == self.in_flight@[k].num_fragments
                &&& self.in_flight@[k].num_fragments > 0
            }
    }

    /// An empty reassembly buffer.
    pub fn new() -> (r: Self)
        ensures
            r.wf(),
            r.in_flight@.is_empty(),
    {
        FragmentReceiver { in_flight: std::collections::HashMap::new(), opened: Vec::new() }
    }

    /// Stores one fragment; returns the whole message once its last fragment
    /// has arrived, and forgets it then.
    pub fn receive(&mut self, f: FragmentData, now_ms: u64) -> (r: Option<SingleData>)
        requires
            old(self).wf(),
        ensures
            final(self).wf(),
            receive_rel(old(self).in_flight@, final(self).in_flight@, f, now_ms),
            !fragment_fits(old(self).in_flight@, f) ==> r.is_none() && final(self).in_flight@ == old(self).in_flight@,
            fragment_fits(old(self).in_flight@, f) && all_present(slots_after(old(self).in_flight@, f)) ==> {
                &&& r.is_some()
                &&& r.unwrap().id == f.message_id
                &&& r.unwrap().tick == tick_after(old(self).in_flight@, f)
                &&& r.unwrap().bytes@ == join_slots(slots_after(old(self).in_flight@, f))
                &&& final(self).in_flight@ == old(self).in_flight@.remove(f.message_id)
            },
            fragment_fits(old(self).in_flight@, f) && !all_present(slots_after(old(self).in_flight@, f)) ==> {
                &&& r.is_none()
                &&& final(self).in_flight@.contains_key(f.message_id)
                &&& final(self).in_flight@[f.message_id].chunks@ == slots_after(old(self).in_flight@, f)
                &&& final(self).in_flight@[f.message_id].num_fragments == f.num_fragments
                &&& final(self).in_flight@[f.message_id].tick == tick_after(old(self).in_flight@, f)
                &&& final(self).in_flight@.remove(f.message_id) == old(self).in_flight@.remove(f.message_id)
            },
    {
        let ghost m = self.in_flight@;
        let n = f.num_fragments;
        let idx = f.fragment_index;
        if n == 0 || idx >= n {
            return None;
        }
        let id = f.message_id;
        let mut entry = match self.in_flight.remove(&id) {
            Some(e) => {
                if e.num_fragments != n {
                    self.in_flight.insert(id, e);
                    assert(self.in_flight@ =~= m);
                    return None;
                }
                e
            },
            None => {
                let mut chunks: Vec<Option<Vec<u8>>> = Vec::new();
                let mut j: u16 = 0;
                while j < n
                    invariant
                        j <= n,
                        chunks@ =~= Seq::new(j as nat, |k: int| None::<Vec<u8>>),
                    decreases n - j,
                {
                    chunks.push(None);
                    j = j + 1;
                }
                let ghost opened_before = self.opened@;
                self.opened.push(id);
                assert forall|k: u16| #[trigger] m.contains_key(k) implies self.opened@.contains(k) by {
                    lemma_push_contains(opened_before, id, k);
                }
                proof {
                    lemma_push_contains(opened_before, id, id);
                }
                Reassembly { num_fragments: n, tick: f.tick, chunks, started_ms: now_ms }
            },
        };
        assert(self.in_flight@ == m.remove(id));
        assert(entry.chunks@ == if m.contains_key(id) { m[id].chunks@ } else { Seq::new(n as nat, |j: int| None) });
        let i = idx as usize;
        if entry.chunks[i].is_none() {
            entry.chunks[i] = Some(f.bytes);
        }
        assert(entry.chunks@ == slots_after(m, f));
        // is every slot filled?
        let mut complete = true;
        let mut j: usize = 0;
        while j < entry.chunks.len()
            invariant
                j <= entry.chunks@.len(),
                complete == forall|k: int| 0 <= k < j ==> (#[trigger] entry.chunks@[k]).is_some(),
            decreases entry.chunks@.len() - j,
        {
            if entry.chunks[j].is_none() {
                complete = false;
            }
            j = j + 1;
        }
        if complete {
            let mut bytes: Vec<u8> = Vec::new();
            let mut j: usize = 0;
            while j < entry.chunks.len()
                invariant
                    j <= entry.chunks@.len(),
                    all_present(entry.chunks@),
                    bytes@ == join_slots(entry.chunks@.subrange(0, j as int)),
                decreases entry.chunks@.len() - j,
            {
                let ghost before = bytes@;
                match &entry.chunks[j] {
                    Some(chunk) => {
                        let mut k: usize = 0;
                        while k < chunk.len()
                            invariant
                                k <= chunk@.len(),
                                bytes@ == before + chunk@.subrange(0, k as int),
                            decreases chunk@.len() - k,
                        {
                            bytes.push(chunk[k]);
                            k = k + 1;
                            assert(bytes@ =~= before + chunk@.subrange(0, k as int));
                        }
                        assert(chunk@.subrange(0, k as int) =~= chunk@);
                    },
                    None => {
                        assert(entry.chunks@[j as int].is_some());
                    },
                }
                let ghost s = entry.chunks@.subrange(0, j + 1);
                assert(s.drop_last() =~= entry.chunks@.subrange(0, j as int));
                j = j + 1;
            }
            assert(entry.chunks@.subrange(0, j as int) =~= entry.chunks@);
            Some(SingleData { id, tick: entry.tick, bytes })
        } else {
            self.in_flight.insert(id, entry);
            assert(self.in_flight@.remove(id) =~= m.remove(id));
            None
        }
    }

    /// Forgets every message whose reassembly has waited the timeout or
    /// more, and the ids of messages already completed; nothing of a
    /// forgotten message is ever delivered. Without a timeout only the
    /// bookkeeping of completed messages is pruned.
    pub fn drop_stale(&mut self, now_ms: u64, timeout_ms: Option<u64>)
        requires
            old(self).wf(),
        ensures
            final(self).wf(),
            swept(old(self).in_flight@, final(self).in_flight@, now_ms, timeout_ms),
            forall|k: u16| #[trigger] final(self).opened@.contains(k) ==> final(self).in_flight@.contains_key(k),
    {
        let ghost m = self.in_flight@;
        let mut kept: Vec<u16> = Vec::new();
        assert(self.opened@.subrange(0, self.opened@.len() as int) =~= self.opened@);
        let mut i: usize = 0;
        while i < self.opened.len()
            invariant
                i <= self.opened@.len(),
                forall|k: u16|
                    #[trigger] self.in_flight@.contains_key(k) <==> m.contains_key(k) && !(
                    is_stale(m[k], now_ms, timeout_ms) && self.opened@.subrange(0, i as int).contains(k)),
                forall|k: u16| #[trigger] self.in_flight@.contains_key(k) ==> self.in_flight@[k] == m[k],
                forall|k: u16|
                    #[trigger] m.contains_key(k) ==> self.opened@.contains(k) && m[k].chunks@.len()
                        == m[k].num_fragments && m[k].num_fragments > 0,
                forall|k: u16|
                    #[trigger] self.in_flight@.contains_key(k) ==> kept@.contains(k)
                        || self.opened@.subrange(i as int, self.opened@.len() as int).contains(k),
                forall|k: u16|
                    #[trigger] kept@.contains(k) ==> self.in_flight@.contains_key(k) && !is_stale(m[k], now_ms, timeout_ms),
            decreases self.opened@.len() - i,
        {
            let id = self.opened[i];
            let ghost before = self.in_flight@;
            let ghost kept_before = kept@;
            let mut keep = false;
            match self.in_flight.get(&id) {
                Some(e) => {
                    let stale = match timeout_ms {
                        Some(t) => now_ms >= e.started_ms && now_ms - e.started_ms >= t,
                        None => false,
                    };
                    if stale {
                        self.in_flight.remove(&id);
                    } else {
                        keep = true;
                    }
                },
                None => {},
            }
            if keep {
                kept.push(id);
            }
            assert forall|k: u16| #[trigger] kept@.contains(k) implies self.in_flight@.contains_key(k)
                && !is_stale(m[k], now_ms, timeout_ms) by {
                lemma_push_contains(kept_before, id, k);
            }
            assert(self.opened@.subrange(0, i + 1) =~= self.opened@.subrange(0, i as int).push(id));
            assert forall|k: u16| #[trigger] self.opened@.subrange(0, i + 1).contains(k) <==> (
                self.opened@.subrange(0, i as int).contains(k) || k == id) by {
                lemma_push_contains(self.opened@.subrange(0, i as int), id, k);
            }
            assert forall|k: u16| #[trigger] self.in_flight@.contains_key(k) implies kept@.contains(k)
                || self.opened@.subrange(i + 1, self.opened@.len() as int).contains(k) by {
                assert(before.contains_key(k));
                if k == id {
                    assert(kept@.last() == id);
                } else {
                    if kept_before.contains(k) {
                        let w = choose|w: int| 0 <= w < kept_before.len() && kept_before[w] == k;
                        assert(kept@[w] == k);
                    } else {
                        let tail = self.opened@.subrange(i as int, self.opened@.len() as int);
                        let w = choose|w: int| 0 <= w < tail.len() && tail[w] == k;
                        assert(w != 0);
                        assert(self.opened@.subrange(i + 1, self.opened@.len() as int)[w - 1] == k);
                    }
                }
            }
            i = i + 1;
        }
        assert(self.opened@.subrange(0, i as int) =~= self.opened@);
        self.opened = kept;
    }
}

} // verus!

verus! {

/// The chunk slots after the first `k` of `n` fragments have arrived in index order.
pub open spec fn first_slots(fs: Seq<FragmentData>, k: int) -> Seq<Option<Vec<u8>>> {
    Seq::new(fs.len(), |j: int| if j < k { Some(fs[j].bytes) } else { None })
}

/// What the buffer holds for the message before fragment `k` arrives.
pub open spec fn holds_prefix(m: Map<u16, Reassembly>, fs: Seq<FragmentData>, message_id: u16, k: int) -> bool {
    if k == 0 {
        !m.contains_key(message_id)
    } else {
        &&& m.contains_key(message_id)
        &&& m[message_id].chunks@ == first_slots(fs, k)
        &&& m[message_id].num_fragments == fs.len()
    }
}

proof fn lemma_arrival_step(fs: Seq<FragmentData>, p: Seq<u8>, c: nat, message_id: u16, tick: Option<u16>, m: Map<u16, Reassembly>, k: int)
    requires
        c > 0,
        is_fragmentation(fs, message_id, tick, p, c),
        0 <= k < fs.len(),
        holds_prefix(m, fs, message_id, k),
    ensures
        fragment_fits(m, fs[k]),
        slots_after(m, fs[k]) == first_slots(fs, k + 1),
{
    let n = fs.len() as int;
    let f = fs[k];
    assert(f.message_id == message_id && f.fragment_index == k && f.num_fragments == n);
    let base = if m.contains_key(message_id) { m[message_id].chunks@ } else { Seq::new(f.num_fragments as nat, |j: int| None) };
    assert(base =~= first_slots(fs, k));
    assert(slots_after(m, f) =~= first_slots(fs, k + 1));
}

proof fn lemma_prefix(
    fs: Seq<FragmentData>,
    p: Seq<u8>,
    c: nat,
    message_id: u16,
    tick: Option<u16>,
    ms: Seq<Map<u16, Reassembly>>,
    now_ms: u64,
    k: int,
)
    requires
        c > 0,
        is_fragmentation(fs, message_id, tick, p, c),
        ms.len() == fs.len(),
        !ms[0].contains_key(message_id),
        forall|j: int| 0 <= j < fs.len() - 1 ==> receive_rel(#[trigger] ms[j], ms[j + 1], fs[j], now_ms),
        0 <= k < fs.len(),
    ensures
        holds_prefix(ms[k], fs, message_id, k),
        forall|j: int| 0 <= j < k ==> !(#[trigger] all_present(slots_after(ms[j], fs[j]))),
    decreases k,
{
    if k > 0 {
        lemma_prefix(fs, p, c, message_id, tick, ms, now_ms, k - 1);
        lemma_arrival_step(fs, p, c, message_id, tick, ms[k - 1], k - 1);
        assert(!first_slots(fs, k)[fs.len() - 1].is_some());
        assert(receive_rel(ms[k - 1], ms[k], fs[k - 1], now_ms));
    }
}

/// Fragments of a payload that arrive one by one, in index order, at a
/// reassembly buffer that holds nothing for their message: none but the
/// last completes the message, and the last yields the payload byte for byte.
/// `ms[k]` is the buffer before fragment `k` arrives.
pub proof fn lemma_reassembly_in_order(
    fs: Seq<FragmentData>,
    p: Seq<u8>,
    c: nat,
    message_id: u16,
    tick: Option<u16>,
    ms: Seq<Map<u16, Reassembly>>,
    now_ms: u64,
)
    requires
        c > 0,
        is_fragmentation(fs, message_id, tick, p, c),
        ms.len() == fs.len(),
        !ms[0].contains_key(message_id),
        forall|k: int| 0 <= k < fs.len() - 1 ==> receive_rel(#[trigger] ms[k], ms[k + 1], fs[k], now_ms),
    ensures
        forall|k: int| 0 <= k < fs.len() - 1 ==> !(#[trigger] all_present(slots_after(ms[k], fs[k]))),
        fragment_fits(ms[fs.len() - 1], fs[fs.len() - 1]),
        all_present(slots_after(ms[fs.len() - 1], fs[fs.len() - 1])),
        join_slots(slots_after(ms[fs.len() - 1], fs[fs.len() - 1])) == p,
{
    let n = fs.len() as int;
    lemma_fragment_round_trip(fs, p, c, message_id, tick);
    if p.len() > 0 {
        lemma_chunk_count(p.len(), c);
    }
    assert(n >= 1);
    lemma_prefix(fs, p, c, message_id, tick, ms, now_ms, n - 1);
    lemma_arrival_step(fs, p, c, message_id, tick, ms[n - 1], n - 1);
    assert(first_slots(fs, n) =~= slots_of(fs));
}

} // verus!
