//! A fixed-depth history of local input, by tick.
use vstd::prelude::*;

use crate::sequence::{distance, is_newer, seq_distance, seq_newer};

verus! {

/// The entries of `s` other than those for `tick` whose tick lies less than
/// `depth` ticks behind `latest`.
pub open spec fn keep_window<T>(s: Seq<(u16, T)>, latest: u16, depth: u16, tick: u16) -> Seq<(u16, T)>
    decreases s.len(),
{
    if s.len() == 0 {
        s
    } else {
        let rest = keep_window(s.drop_last(), latest, depth, tick);
        if s.last().0 != tick && seq_distance(latest, s.last().0) < depth as int {
            rest.push(s.last())
        } else {
            rest
        }
    }
}

/// The newest tick once `tick` has been pushed.
pub open spec fn newest_after(latest: Option<u16>, tick: u16) -> u16 {
    match latest {
        None => tick,
        Some(l) => if seq_newer(tick, l) { tick } else { l },
    }
}

proof fn lemma_keep_window_excludes<T>(s: Seq<(u16, T)>, latest: u16, depth: u16, tick: u16)
    ensures
        forall|i: int|
            0 <= i < keep_window(s, latest, depth, tick).len() ==> {
                &&& (#[trigger] keep_window(s, latest, depth, tick)[i]).0 != tick
                &&& seq_distance(latest, keep_window(s, latest, depth, tick)[i].0) < depth as int
            },
    decreases s.len(),
{
    if s.len() > 0 {
        lemma_keep_window_excludes(s.drop_last(), latest, depth, tick);
        let rest = keep_window(s.drop_last(), latest, depth, tick);
        let r = keep_window(s, latest, depth, tick);
        assert forall|i: int| 0 <= i < r.len() implies {
            &&& (#[trigger] r[i]).0 != tick
            &&& seq_distance(latest, r[i].0) < depth as int
        } by {
            if i < rest.len() {
                assert(r[i] == rest[i]);
            }
        }
    }
}

proof fn lemma_find_last<T>(s: Seq<(u16, T)>, e: (u16, T))
    requires
        forall|i: int| 0 <= i < s.len() ==> (#[trigger] s[i]).0 != e.0,
    ensures
        find_tick(s.push(e), e.0) == Some(e.1),
    decreases s.len(),
{
    if s.len() == 0 {
        assert(s.push(e)[0] == e);
    } else {
        assert(s.push(e)[0] == s[0]);
        assert(s.push(e).drop_first() =~= s.drop_first().push(e));
        assert forall|i: int| 0 <= i < s.drop_first().len() implies (#[trigger] s.drop_first()[i]).0 != e.0 by {
            assert(s.drop_first()[i] == s[i + 1]);
        }
        lemma_find_last(s.drop_first(), e);
    }
}

/// The value that `s` holds for `tick`, its first entry for that tick.
pub open spec fn find_tick<T>(s: Seq<(u16, T)>, tick: u16) -> Option<T>
    decreases s.len(),
{
    if s.len() == 0 {
        None
    } else if s[0].0 == tick {
        Some(s[0].1)
    } else {
        find_tick(s.drop_first(), tick)
    }
}

/// Input values for the most recent `depth` ticks.
pub struct InputBuffer<T> {
    /// Retained (tick, input) pairs, oldest first.
    pub entries: std::collections::VecDeque<(u16, T)>,
    /// How many ticks back inputs are kept.
    pub depth: u16,
    /// The newest tick pushed so far.
    pub latest: Option<u16>,
}

/// Default number of ticks an input buffer retains.
pub const DEFAULT_INPUT_DEPTH: u16 = 32;

impl<T> InputBuffer<T> {
    /// Every retained tick lies within the window behind the newest one.
    pub open spec fn wf(&self) -> bool {
        &&& 0 < self.depth <= 32768
        &&& self.latest.is_none() ==> self.entries@.len() == 0
        &&& forall|i: int|
            0 <= i < self.entries@.len() ==> seq_distance(self.latest.unwrap(), (#[trigger] self.entries@[i]).0)
                < self.depth as int
    }

    /// An empty buffer that keeps `depth` ticks.
    pub fn new(depth: u16) -> (r: Self)
        requires
            0 < depth <= 32768,
        ensures
            r.wf(),
            r.depth == depth,
            r.latest.is_none(),
            r.entries@.len() == 0,
    {
        InputBuffer { entries: std::collections::VecDeque::new(), depth, latest: None }
    }

    /// `next` is this buffer once the input `value` for `tick` is pushed.
    pub open spec fn pushed(&self, next: &Self, tick: u16, value: T) -> bool {
        let newest = newest_after(self.latest, tick);
        &&& next.depth == self.depth
        &&& if seq_distance(newest, tick) < self.depth as int {
            &&& next.latest == Some(newest)
            &&& next.entries@ == keep_window(self.entries@, newest, self.depth, tick).push((tick, value))
            &&& find_tick(next.entries@, tick) == Some(value)
        } else {
            next.entries@ == self.entries@ && next.latest == self.latest
        }
    }

    /// Records the input for `tick`, replacing any earlier input for it. A
    /// tick newer than every one before becomes the newest, and the ticks
    /// that then lie `depth` or more behind it are evicted; an input for a
    /// tick that lies that far behind is ignored.
    pub fn push(&mut self, tick: u16, value: T)
        requires
            old(self).wf(),
        ensures
            final(self).wf(),
            old(self).pushed(final(self), tick, value),
    {
        let newest = match self.latest {
            Some(l) => if is_newer(tick, l) { tick } else { l },
            None => tick,
        };
        if distance(newest, tick) >= self.depth {
            return;
        }
        self.latest = Some(newest);
        let ghost start = self.entries@;
        let n = self.entries.len();
        let mut kept: std::collections::VecDeque<(u16, T)> = std::collections::VecDeque::new();
        let mut i: usize = 0;
        assert(start.subrange(0, n as int) =~= start);
        assert(start.subrange(n as int, n as int) =~= Seq::<(u16, T)>::empty());
        assert(self.entries@ =~= start.subrange(0, n as int));
        while i < n
            invariant
                i <= n == start.len(),
                self.depth == old(self).depth,
                0 < self.depth <= 32768,
                self.latest == Some(newest),
                self.entries@ == start.subrange(i as int, n as int),
                kept@ == keep_window(start.subrange(0, i as int), newest, self.depth, tick),
            decreases n - i,
        {
            let e = self.entries.pop_front();
            match e {
                Some(x) => {
                    assert(x == start[i as int]);
                    if x.0 != tick && distance(newest, x.0) < self.depth {
                        kept.push_back(x);
                    }
                },
                None => {},
            }
            assert(start.subrange(0, i + 1).drop_last() =~= start.subrange(0, i as int));
            assert(self.entries@ =~= start.subrange(i + 1, n as int));
            i = i + 1;
        }
        proof {
            lemma_keep_window_excludes(start, newest, self.depth, tick);
            lemma_find_last(kept@, (tick, value));
        }
        kept.push_back((tick, value));
        self.entries = kept;
    }

    /// The input recorded for `tick`, if that tick is still retained.
    pub fn get(&self, tick: u16) -> (r: Option<&T>)
        ensures
            match r {
                Some(v) => find_tick(self.entries@, tick) == Some(*v),
                None => find_tick(self.entries@, tick).is_none(),
            },
    {
        let n = self.entries.len();
        let mut i: usize = 0;
        assert(self.entries@.subrange(0, n as int) =~= self.entries@);
        while i < n
            invariant
                i <= n == self.entries@.len(),
                find_tick(self.entries@, tick) == find_tick(self.entries@.subrange(i as int, n as int), tick),
            decreases n - i,
        {
            let ghost rest = self.entries@.subrange(i as int, n as int);
            if self.entries[i].0 == tick {
                return Some(&self.entries[i].1);
            }
            assert(rest.drop_first() =~= self.entries@.subrange(i + 1, n as int));
            i = i + 1;
        }
        None
    }
}

} // verus!
