//! Tick-indexed input history and the input resolver.
//!
//! Each simulated entity owns one history: an ordered store of
//! (tick, sample) pairs with unique ticks, written either by local capture
//! or by network delivery, and bounded in depth.  The resolver picks the
//! sample a step acts on: the exact entry when input arrived in time,
//! otherwise the most recent earlier entry (repeating the last observed
//! intent rather than fabricating a new one), and the neutral sample only
//! while nothing was ever recorded.  The resolver never consults an entry
//! from after the requested tick: that would leak future intent into a
//! replayed past step and break rollback determinism.

use vstd::prelude::*;

use crate::input::InputSample;

verus! {

/// Tick keys strictly increase along the stored order.
pub open spec fn ticks_sorted(s: Seq<(u64, InputSample)>) -> bool {
    forall|i: int, j: int| 0 <= i < j < s.len() ==> s[i].0 < s[j].0
}

/// Some entry carries exactly this tick.
pub open spec fn has_tick(s: Seq<(u64, InputSample)>, tick: u64) -> bool {
    exists|i: int| 0 <= i < s.len() && s[i].0 == tick
}

/// The sample to act on at `tick`: the last entry at or before the tick,
/// or the neutral sample when there is none.
pub open spec fn spec_resolve(s: Seq<(u64, InputSample)>, tick: u64) -> InputSample
    decreases s.len(),
{
    if s.len() == 0 {
        InputSample::neutral_spec()
    } else if s.last().0 <= tick {
        s.last().1
    } else {
        spec_resolve(s.drop_last(), tick)
    }
}

/// Where a new tick would be stored: after every entry with a smaller tick.
pub open spec fn insert_pos(s: Seq<(u64, InputSample)>, tick: u64) -> int
    decreases s.len(),
{
    if s.len() == 0 {
        0
    } else if s.last().0 < tick {
        s.len() as int
    } else {
        insert_pos(s.drop_last(), tick)
    }
}

/// What recording does to the stored sequence: nothing when the tick is
/// already present (samples are immutable once recorded) or when a full
/// history receives a tick older than everything it retains (the entry
/// would be the next evicted); otherwise the sample goes in at its sorted
/// position and, if the depth bound is now exceeded, the oldest entry is
/// evicted.
pub open spec fn spec_record(
    s: Seq<(u64, InputSample)>,
    cap: nat,
    tick: u64,
    sample: InputSample,
) -> Seq<(u64, InputSample)> {
    if has_tick(s, tick) {
        s
    } else if s.len() >= cap && tick < s[0].0 {
        s
    } else {
        let grown = s.insert(insert_pos(s, tick), (tick, sample));
        if grown.len() > cap {
            grown.remove(0)
        } else {
            grown
        }
    }
}

proof fn lemma_insert_pos_bounds(s: Seq<(u64, InputSample)>, tick: u64)
    requires
        ticks_sorted(s),
        !has_tick(s, tick),
    ensures
        0 <= insert_pos(s, tick) <= s.len(),
        forall|j: int| 0 <= j < insert_pos(s, tick) ==> (#[trigger] s[j]).0 < tick,
        forall|j: int| insert_pos(s, tick) <= j < s.len() ==> (#[trigger] s[j]).0 > tick,
    decreases s.len(),
{
    if s.len() == 0 {
    } else if s.last().0 < tick {
        assert forall|j: int| 0 <= j < insert_pos(s, tick) implies (#[trigger] s[j]).0 < tick by {
            if j < s.len() - 1 {
                assert(s[j].0 < s[s.len() - 1].0);
            }
        }
    } else {
        assert(s.last().0 != tick) by {
            if s.last().0 == tick {
                assert(s[s.len() - 1].0 == tick);
            }
        }
        let prefix = s.drop_last();
        assert(ticks_sorted(prefix));
        assert(!has_tick(prefix, tick)) by {
            if has_tick(prefix, tick) {
                let i = choose|i: int| 0 <= i < prefix.len() && prefix[i].0 == tick;
                assert(s[i].0 == tick);
            }
        }
        lemma_insert_pos_bounds(prefix, tick);
        assert forall|j: int| 0 <= j < insert_pos(s, tick) implies (#[trigger] s[j]).0 < tick by {
            assert(prefix[j] == s[j]);
        }
        assert forall|j: int| insert_pos(s, tick) <= j < s.len() implies (#[trigger] s[j]).0
            > tick by {
            if j < s.len() - 1 {
                assert(prefix[j] == s[j]);
            }
        }
    }
}

/// No future leakage: whatever the history holds, the resolved sample is
/// the neutral one or comes from an entry at or before the requested tick.
/// An entry from after the tick would leak future intent into a replayed
/// past step.
pub proof fn lemma_resolve_no_future(s: Seq<(u64, InputSample)>, tick: u64)
    ensures
        spec_resolve(s, tick) == InputSample::neutral_spec() || exists|i: int|
            0 <= i < s.len() && (#[trigger] s[i]).0 <= tick && s[i].1 == spec_resolve(s, tick),
    decreases s.len(),
{
    if s.len() == 0 {
    } else if s.last().0 <= tick {
        assert(s[s.len() - 1].0 <= tick && s[s.len() - 1].1 == spec_resolve(s, tick));
    } else {
        let prefix = s.drop_last();
        lemma_resolve_no_future(prefix, tick);
        if spec_resolve(prefix, tick) != InputSample::neutral_spec() {
            let i = choose|i: int|
                0 <= i < prefix.len() && (#[trigger] prefix[i]).0 <= tick && prefix[i].1
                    == spec_resolve(prefix, tick);
            assert(s[i].0 <= tick && s[i].1 == spec_resolve(s, tick));
        }
    }
}

/// Fallback correctness: the resolver returns the entry with the greatest
/// tick at or before the requested one — the exact entry when input arrived
/// in time, else the last known input.
pub proof fn lemma_resolve_latest(s: Seq<(u64, InputSample)>, tick: u64, i: int)
    requires
        ticks_sorted(s),
        0 <= i < s.len(),
        s[i].0 <= tick,
        forall|j: int| i < j < s.len() ==> (#[trigger] s[j]).0 > tick,
    ensures
        spec_resolve(s, tick) == s[i].1,
    decreases s.len(),
{
    if i == s.len() - 1 {
        assert(s.last().0 <= tick);
    } else {
        assert(s[s.len() - 1].0 > tick);
        let prefix = s.drop_last();
        assert(ticks_sorted(prefix));
        assert forall|j: int| i < j < prefix.len() implies (#[trigger] prefix[j]).0 > tick by {
            assert(prefix[j] == s[j]);
        }
        lemma_resolve_latest(prefix, tick, i);
    }
}

/// An exact hit is returned as recorded: the common case, input arrived in
/// time for its tick.
pub proof fn lemma_resolve_exact(s: Seq<(u64, InputSample)>, tick: u64, i: int)
    requires
        ticks_sorted(s),
        0 <= i < s.len(),
        s[i].0 == tick,
    ensures
        spec_resolve(s, tick) == s[i].1,
{
    lemma_resolve_latest(s, tick, i);
}

/// Before anything at or below the tick was recorded, the resolver yields
/// the neutral sample: it fabricates no intent.
pub proof fn lemma_resolve_neutral(s: Seq<(u64, InputSample)>, tick: u64)
    requires
        forall|j: int| 0 <= j < s.len() ==> (#[trigger] s[j]).0 > tick,
    ensures
        spec_resolve(s, tick) == InputSample::neutral_spec(),
    decreases s.len(),
{
    if s.len() > 0 {
        assert(s[s.len() - 1].0 > tick);
        let prefix = s.drop_last();
        assert forall|j: int| 0 <= j < prefix.len() implies (#[trigger] prefix[j]).0 > tick by {
            assert(prefix[j] == s[j]);
        }
        lemma_resolve_neutral(prefix, tick);
    }
}

/// All samples a history holds are within capture bounds.
pub open spec fn samples_wf(s: Seq<(u64, InputSample)>) -> bool {
    forall|i: int| 0 <= i < s.len() ==> (#[trigger] s[i]).1.wf()
}

/// A resolved sample is always within capture bounds when the history's
/// samples are: it is either a stored sample or the neutral one.
pub proof fn lemma_resolve_wf(s: Seq<(u64, InputSample)>, tick: u64)
    requires
        samples_wf(s),
    ensures
        spec_resolve(s, tick).wf(),
{
    lemma_resolve_no_future(s, tick);
    if spec_resolve(s, tick) != InputSample::neutral_spec() {
        let i = choose|i: int|
            0 <= i < s.len() && (#[trigger] s[i]).0 <= tick && s[i].1 == spec_resolve(s, tick);
        assert(s[i].1.wf());
    }
}

/// Recording a sample within capture bounds keeps every stored sample
/// within them.
pub proof fn lemma_record_samples_wf(
    s: Seq<(u64, InputSample)>,
    cap: nat,
    tick: u64,
    sample: InputSample,
)
    requires
        ticks_sorted(s),
        samples_wf(s),
        sample.wf(),
    ensures
        samples_wf(spec_record(s, cap, tick, sample)),
{
    let s2 = spec_record(s, cap, tick, sample);
    if has_tick(s, tick) {
    } else if s.len() >= cap && tick < s[0].0 {
    } else {
        lemma_insert_pos_bounds(s, tick);
        let pos = insert_pos(s, tick);
        let grown = s.insert(pos, (tick, sample));
        assert(samples_wf(grown)) by {
            assert forall|i: int| 0 <= i < grown.len() implies (#[trigger] grown[i]).1.wf() by {
                if i < pos {
                    assert(grown[i] == s[i]);
                } else if i == pos {
                    assert(grown[i] == (tick, sample));
                } else {
                    assert(grown[i] == s[i - 1]);
                }
            }
        }
        if grown.len() > cap {
            assert forall|i: int| 0 <= i < s2.len() implies (#[trigger] s2[i]).1.wf() by {
                assert(s2[i] == grown[i + 1]);
            }
        }
    }
}

/// Eviction safety: recording evicts at most the oldest entry, so the
/// sample just written survives whenever it was admitted, and the entry
/// with the greatest tick survives every write, even one that exceeds the
/// depth bound.
pub proof fn lemma_eviction_keeps_newest(
    s: Seq<(u64, InputSample)>,
    cap: nat,
    tick: u64,
    sample: InputSample,
)
    requires
        ticks_sorted(s),
        s.len() <= cap,
        cap >= 1,
    ensures
        !has_tick(s, tick) && (s.len() < cap || tick >= s[0].0) ==> spec_record(
            s,
            cap,
            tick,
            sample,
        ).contains((tick, sample)),
        s.len() > 0 ==> spec_record(s, cap, tick, sample).len() > 0 && spec_record(
            s,
            cap,
            tick,
            sample,
        ).last().0 >= s.last().0,
        s.len() > 0 && tick < s.last().0 ==> spec_record(s, cap, tick, sample).last() == s.last(),
{
    let s2 = spec_record(s, cap, tick, sample);
    if has_tick(s, tick) {
        assert(s2 == s);
    } else if s.len() >= cap && tick < s[0].0 {
        assert(s2 == s);
    } else {
        lemma_insert_pos_bounds(s, tick);
        let pos = insert_pos(s, tick);
        let grown = s.insert(pos, (tick, sample));
        assert(grown[pos] == (tick, sample));
        if s.len() > 0 {
            if pos == s.len() {
                assert(grown.last() == (tick, sample));
                assert(s[s.len() - 1].0 < tick);
            } else {
                assert(grown.last() == s[s.len() - 1]);
            }
        }
        if grown.len() > cap {
            // Over the depth bound: the oldest entry goes.  The new entry
            // never sits in front (a full history refuses ticks older than
            // all it retains), so it is never the one evicted.
            assert(s.len() == cap);
            assert(tick >= s[0].0);
            assert(tick > s[0].0) by {
                if tick == s[0].0 {
                    assert(s[0].0 == tick);
                }
            }
            assert(pos >= 1) by {
                if pos == 0 {
                    assert(s[0].0 > tick);
                }
            }
            assert(s2 == grown.remove(0));
            assert(s2[pos - 1] == grown[pos]);
            assert(s2.contains((tick, sample))) by {
                assert(s2[pos - 1] == (tick, sample));
            }
            assert(s2.last() == grown.last());
        } else {
            assert(s2 == grown);
            assert(s2.contains((tick, sample))) by {
                assert(s2[pos] == (tick, sample));
            }
        }
    }
}

/// The history of one entity: entries ordered by strictly increasing tick,
/// at most `capacity` of them retained.
pub struct InputHistory {
    entries: Vec<(u64, InputSample)>,
    capacity: usize,
}

impl View for InputHistory {
    type V = Seq<(u64, InputSample)>;

    closed spec fn view(&self) -> Seq<(u64, InputSample)> {
        self.entries@
    }
}

impl InputHistory {
    /// The depth bound this history was created with.
    pub closed spec fn cap(self) -> nat {
        self.capacity as nat
    }

    /// Entries sorted by tick, depth within bounds.
    pub open spec fn wf(self) -> bool {
        ticks_sorted(self@) && self@.len() <= self.cap() && self.cap() >= 1
    }

    /// Creates an empty history retaining at most `capacity` entries.
    pub fn new(capacity: usize) -> (r: InputHistory)
        requires
            capacity >= 1,
        ensures
            r.wf(),
            r@ == Seq::<(u64, InputSample)>::empty(),
            r.cap() == capacity,
    {
        let r = InputHistory { entries: Vec::new(), capacity };
        proof {
            assert(r@ =~= Seq::<(u64, InputSample)>::empty());
        }
        r
    }

    /// How many entries are retained.
    pub fn len(&self) -> (r: usize)
        ensures
            r == self@.len(),
    {
        self.entries.len()
    }

    /// The most recent recorded entry, if any: the fallback the resolver
    /// degrades to, and the one entry eviction never removes.
    pub fn latest(&self) -> (r: Option<(u64, InputSample)>)
        requires
            self.wf(),
        ensures
            self@.len() == 0 ==> r is None,
            self@.len() > 0 ==> r == Some(self@.last()),
    {
        if self.entries.len() == 0 {
            None
        } else {
            Some(self.entries[self.entries.len() - 1])
        }
    }

    /// The oldest retained tick, if any.
    pub fn oldest_tick(&self) -> (r: Option<u64>)
        requires
            self.wf(),
        ensures
            self@.len() == 0 ==> r is None,
            self@.len() > 0 ==> r == Some(self@[0].0),
    {
        if self.entries.len() == 0 {
            None
        } else {
            Some(self.entries[0].0)
        }
    }

    /// Resolves the input to act on at `tick`: the exact entry when one
    /// exists, else the most recent earlier entry, else neutral.
    pub fn resolve(&self, tick: u64) -> (r: InputSample)
        requires
            self.wf(),
        ensures
            r == spec_resolve(self@, tick),
    {
        let ghost s = self@;
        proof {
            assert(s.subrange(0, s.len() as int) =~= s);
        }
        let mut i = self.entries.len();
        while i > 0
            invariant
                i <= s.len(),
                s == self@,
                spec_resolve(s, tick) == spec_resolve(s.subrange(0, i as int), tick),
            decreases i,
        {
            let entry = self.entries[i - 1];
            proof {
                assert(s.subrange(0, i as int).last() == s[i - 1]);
                assert(s.subrange(0, i as int).drop_last() =~= s.subrange(0, i as int - 1));
            }
            if entry.0 <= tick {
                return entry.1;
            }
            i = i - 1;
        }
        proof {
            assert(s.subrange(0, 0) =~= Seq::<(u64, InputSample)>::empty());
        }
        InputSample::neutral()
    }

    /// Where a rollback replay may start: a divergence point older than
    /// everything retained is clamped to the oldest retrievable tick, so a
    /// deep rollback degrades gracefully instead of failing.
    pub fn clamp_replay_start(&self, divergence_tick: u64) -> (r: u64)
        requires
            self.wf(),
        ensures
            self@.len() == 0 ==> r == divergence_tick,
            self@.len() > 0 ==> r == (if divergence_tick >= self@[0].0 {
                divergence_tick
            } else {
                self@[0].0
            }),
            r >= divergence_tick,
    {
        match self.oldest_tick() {
            None => divergence_tick,
            Some(oldest) => {
                if divergence_tick >= oldest {
                    divergence_tick
                } else {
                    oldest
                }
            },
        }
    }

    /// Finds where `tick` would be stored: `None` when an entry already
    /// carries it, else its sorted position.
    fn scan(&self, tick: u64) -> (r: Option<usize>)
        requires
            self.wf(),
        ensures
            r is None ==> has_tick(self@, tick),
            r matches Some(p) ==> !has_tick(self@, tick) && p == insert_pos(self@, tick)
                && p <= self@.len(),
    {
        let ghost s = self@;
        proof {
            assert(s.subrange(0, s.len() as int) =~= s);
        }
        let mut p = self.entries.len();
        while p > 0
            invariant
                p <= s.len(),
                s == self@,
                ticks_sorted(s),
                forall|j: int| p <= j < s.len() ==> (#[trigger] s[j]).0 > tick,
                insert_pos(s, tick) == insert_pos(s.subrange(0, p as int), tick),
            decreases p,
        {
            let entry = self.entries[p - 1];
            proof {
                assert(s.subrange(0, p as int).last() == s[p - 1]);
                assert(s.subrange(0, p as int).drop_last() =~= s.subrange(0, p as int - 1));
            }
            if entry.0 < tick {
                proof {
                    assert(insert_pos(s.subrange(0, p as int), tick) == p as int);
                    assert(!has_tick(s, tick)) by {
                        if has_tick(s, tick) {
                            let i = choose|i: int| 0 <= i < s.len() && s[i].0 == tick;
                            if i < p - 1 {
                                assert(s[i].0 < s[p - 1].0);
                            }
                        }
                    }
                }
                return Some(p);
            }
            if entry.0 == tick {
                proof {
                    assert(has_tick(s, tick)) by {
                        assert(0 <= p - 1 < s.len() && s[p - 1].0 == tick);
                    }
                }
                return None;
            }
            p = p - 1;
        }
        proof {
            assert(s.subrange(0, 0) =~= Seq::<(u64, InputSample)>::empty());
            assert(!has_tick(s, tick)) by {
                if has_tick(s, tick) {
                    let i = choose|i: int| 0 <= i < s.len() && s[i].0 == tick;
                    assert(s[i].0 > tick);
                }
            }
        }
        Some(0)
    }

    /// Records a sample for `tick`.  An already-recorded tick is left
    /// untouched (samples are immutable once recorded); a tick older than
    /// everything a full history retains is not admitted; otherwise the
    /// entry goes in at its sorted position and the oldest entry is evicted
    /// once the depth bound is exceeded.
    pub fn record(&mut self, tick: u64, sample: InputSample)
        requires
            old(self).wf(),
        ensures
            final(self).wf(),
            final(self).cap() == old(self).cap(),
            final(self)@ == spec_record(old(self)@, old(self).cap(), tick, sample),
    {
        let ghost s = self@;
        let scan = self.scan(tick);
        if scan.is_none() {
            // This tick is already recorded: the stored sample stays.
            return ;
        }
        let p = scan.unwrap();
        proof {
            lemma_insert_pos_bounds(s, tick);
        }
        if p == 0 && self.entries.len() == self.capacity {
            // A full history never admits a tick older than all it retains:
            // the entry would be the next evicted.
            return ;
        }
        self.entries.insert(p, (tick, sample));
        proof {
            let grown = s.insert(p as int, (tick, sample));
            assert(self@ == grown);
            assert(ticks_sorted(grown)) by {
                assert forall|i: int, j: int| 0 <= i < j < grown.len() implies grown[i].0
                    < grown[j].0 by {
                    assert(grown[p as int] == (tick, sample));
                    if i < p {
                        assert(grown[i] == s[i]);
                    }
                    if i > p {
                        assert(grown[i] == s[i - 1]);
                    }
                    if j < p {
                        assert(grown[j] == s[j]);
                    }
                    if j > p {
                        assert(grown[j] == s[j - 1]);
                    }
                }
            }
        }
        if self.entries.len() > self.capacity {
            let ghost grown = self@;
            self.entries.remove(0);
            proof {
                assert forall|i: int, j: int| 0 <= i < j < self@.len() implies self@[i].0
                    < self@[j].0 by {
                    assert(self@[i] == grown[i + 1]);
                    assert(self@[j] == grown[j + 1]);
                }
            }
        }
    }
}

} // verus!
