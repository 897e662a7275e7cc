//! Delta reconciliation: turns successive absolute counter snapshots into
//! non-negative per-tenant deltas, treating a counter that moved backwards
//! as a reset (the whole current value counts as new traffic).

use vstd::prelude::*;

use crate::model::{SampleSpec, TrafficSample};

verus! {

/// Delta between one previous and one current absolute counter reading.
pub open spec fn spec_reconcile(previous: u64, current: u64) -> u64 {
    if current >= previous {
        (current - previous) as u64
    } else {
        current
    }
}

/// Reconcile a single absolute counter against its previous reading.
///
/// When the counter moved forward the delta is the difference; when it moved
/// backwards the counter was reset and the whole current value is new traffic.
/// The delta is never negative.
pub fn reconcile_value(previous: u64, current: u64) -> (delta: u64)
    ensures
        delta == spec_reconcile(previous, current),
        current >= previous ==> delta == current - previous,
        current < previous ==> delta == current,
{
    if current >= previous {
        current - previous
    } else {
        current
    }
}

/// One tenant's absolute counter reading: tag with cumulative byte counts
/// for the inbound and outbound direction.
pub struct CounterEntry {
    pub tag: Vec<u8>,
    pub bytes_in: u64,
    pub bytes_out: u64,
}

/// Mathematical model of a counter reading.
#[verifier::ext_equal]
pub struct CounterEntrySpec {
    pub tag: Seq<u8>,
    pub bytes_in: u64,
    pub bytes_out: u64,
}

impl View for CounterEntry {
    type V = CounterEntrySpec;

    open spec fn view(&self) -> CounterEntrySpec {
        CounterEntrySpec { tag: self.tag@, bytes_in: self.bytes_in, bytes_out: self.bytes_out }
    }
}

impl DeepView for CounterEntry {
    type V = CounterEntrySpec;

    open spec fn deep_view(&self) -> CounterEntrySpec {
        self@
    }
}

/// Last-observed absolute counters per tag. Process-local and ephemeral:
/// empty at start, updated every tick, lost on restart.
pub struct CounterState {
    pub entries: Vec<CounterEntry>,
}

impl View for CounterState {
    type V = Seq<CounterEntrySpec>;

    open spec fn view(&self) -> Seq<CounterEntrySpec> {
        self.entries.deep_view()
    }
}

/// The counters last observed for `tag`: the first matching entry, or zero
/// for a tag never seen before.
pub open spec fn spec_lookup(entries: Seq<CounterEntrySpec>, tag: Seq<u8>, i: int) -> (u64, u64)
    decreases entries.len() - i,
{
    if i < 0 || i >= entries.len() {
        (0u64, 0u64)
    } else if entries[i].tag == tag {
        (entries[i].bytes_in, entries[i].bytes_out)
    } else {
        spec_lookup(entries, tag, i + 1)
    }
}

/// Position of the first entry for `tag`, if any.
pub open spec fn spec_position(entries: Seq<CounterEntrySpec>, tag: Seq<u8>, i: int) -> Option<
    int,
>
    decreases entries.len() - i,
{
    if i < 0 || i >= entries.len() {
        None
    } else if entries[i].tag == tag {
        Some(i)
    } else {
        spec_position(entries, tag, i + 1)
    }
}

/// The state after recording a reading: the first entry for the tag is
/// replaced, or a new entry is appended for a tag never seen before.
pub open spec fn spec_record(entries: Seq<CounterEntrySpec>, e: CounterEntrySpec) -> Seq<
    CounterEntrySpec,
> {
    match spec_position(entries, e.tag, 0) {
        Some(i) => entries.update(i, e),
        None => entries.push(e),
    }
}

pub proof fn lemma_counter_position_bounds(entries: Seq<CounterEntrySpec>, tag: Seq<u8>, i: int)
    requires
        0 <= i,
    ensures
        match spec_position(entries, tag, i) {
            Some(k) => i <= k < entries.len() && entries[k].tag == tag,
            None => true,
        },
    decreases entries.len() - i,
{
    if i < entries.len() && entries[i].tag != tag {
        lemma_counter_position_bounds(entries, tag, i + 1);
    }
}

impl CounterState {
    /// A state with no observed counters, as at process start.
    pub fn new() -> (s: CounterState)
        ensures
            s@ == Seq::<CounterEntrySpec>::empty(),
    {
        let s = CounterState { entries: Vec::new() };
        proof {
            assert(s@ =~= Seq::<CounterEntrySpec>::empty());
        }
        s
    }

    /// The counters last observed for `tag`, zero if never observed.
    pub fn lookup(&self, tag: &[u8]) -> (r: (u64, u64))
        ensures
            r == spec_lookup(self@, tag@, 0),
    {
        let ghost es = self@;
        let mut i: usize = 0;
        while i < self.entries.len()
            invariant
                0 <= i <= self.entries@.len(),
                es == self@,
                es.len() == self.entries@.len(),
                forall|k: int| 0 <= k < es.len() ==> es[k] == self.entries@[k]@,
                spec_lookup(es, tag@, 0) == spec_lookup(es, tag@, i as int),
            decreases self.entries@.len() - i,
        {
            let e = &self.entries[i];
            if crate::text::eq_bytes(e.tag.as_slice(), tag) {
                return (e.bytes_in, e.bytes_out);
            }
            i = i + 1;
        }
        (0, 0)
    }

    /// Record a reading, replacing the first entry with the same tag or
    /// appending a new one.
    pub fn record(&mut self, e: CounterEntry)
        ensures
            final(self)@ == spec_record(old(self)@, e@),
    {
        let ghost es = self@;
        proof {
            lemma_counter_position_bounds(es, e@.tag, 0);
        }
        let mut i: usize = 0;
        while i < self.entries.len()
            invariant
                0 <= i <= self.entries@.len(),
                es == self@,
                self@ == old(self)@,
                es.len() == self.entries@.len(),
                forall|k: int| 0 <= k < es.len() ==> es[k] == self.entries@[k]@,
                spec_position(es, e@.tag, 0) == spec_position(es, e@.tag, i as int),
            decreases self.entries@.len() - i,
        {
            let same = crate::text::eq_bytes(self.entries[i].tag.as_slice(), e.tag.as_slice());
            if same {
                self.entries[i] = e;
                proof {
                    assert(self@ =~= spec_record(es, e@));
                }
                return ;
            }
            i = i + 1;
        }
        self.entries.push(e);
        proof {
            assert(self@ =~= spec_record(es, e@));
        }
    }
}

/// One step of reconciliation: the sample a reading yields against the last
/// observed state, and the state with the reading recorded.
pub open spec fn spec_step_sample(state: Seq<CounterEntrySpec>, e: CounterEntrySpec) -> Seq<
    SampleSpec,
> {
    let last = spec_lookup(state, e.tag, 0);
    let d_in = spec_reconcile(last.0, e.bytes_in);
    let d_out = spec_reconcile(last.1, e.bytes_out);
    if d_in > 0 || d_out > 0 {
        Seq::empty().push(SampleSpec { tag: e.tag, up_delta: d_in, down_delta: d_out })
    } else {
        Seq::empty()
    }
}

/// Reconciliation of a whole snapshot, reading by reading, in order.
/// Yields the samples with a non-zero delta and the updated state; a tag in
/// the previous state but absent from the snapshot keeps its stale entry and
/// yields no sample.
pub open spec fn spec_reconcile_snapshot(
    state: Seq<CounterEntrySpec>,
    snapshot: Seq<CounterEntrySpec>,
) -> (Seq<SampleSpec>, Seq<CounterEntrySpec>)
    decreases snapshot.len(),
{
    if snapshot.len() == 0 {
        (Seq::empty(), state)
    } else {
        let head = spec_step_sample(state, snapshot[0]);
        let rec = spec_reconcile_snapshot(
            spec_record(state, snapshot[0]),
            snapshot.subrange(1, snapshot.len() as int),
        );
        (head + rec.0, rec.1)
    }
}

/// Reconcile a snapshot of absolute readings against the last observed
/// state: every reading becomes a non-negative delta (a backwards counter is
/// a reset and counts whole), readings with zero delta are dropped, and the
/// state is updated to the snapshot values.
pub fn reconcile_snapshot(state: &mut CounterState, snapshot: Vec<CounterEntry>) -> (samples:
    Vec<TrafficSample>)
    ensures
        samples.deep_view() == spec_reconcile_snapshot(old(state)@, snapshot.deep_view()).0,
        final(state)@ == spec_reconcile_snapshot(old(state)@, snapshot.deep_view()).1,
{
    let ghost s0 = old(state)@;
    let ghost snap = snapshot.deep_view();
    let mut samples: Vec<TrafficSample> = Vec::new();
    proof {
        assert(snap.subrange(0, snap.len() as int) =~= snap);
    }
    let it = snapshot;
    let n = it.len();
    let mut idx: usize = 0;
    while idx < n
        invariant
            0 <= idx <= n,
            n == it@.len(),
            snap == it.deep_view(),
            snap.len() == it@.len(),
            forall|k: int| 0 <= k < snap.len() ==> snap[k] == it@[k]@,
            spec_reconcile_snapshot(s0, snap).0 == samples.deep_view()
                + spec_reconcile_snapshot(state@, snap.subrange(idx as int, snap.len() as int)).0,
            spec_reconcile_snapshot(s0, snap).1 == spec_reconcile_snapshot(
                state@,
                snap.subrange(idx as int, snap.len() as int),
            ).1,
        decreases n - idx,
    {
        let ghost pre = state@;
        let ghost rest = snap.subrange(idx as int, snap.len() as int);
        proof {
            assert(rest[0] == snap[idx as int]);
            assert(rest.subrange(1, rest.len() as int) =~= snap.subrange(
                idx + 1,
                snap.len() as int,
            ));
        }
        let e = &it[idx];
        let last = state.lookup(e.tag.as_slice());
        let d_in = reconcile_value(last.0, e.bytes_in);
        let d_out = reconcile_value(last.1, e.bytes_out);
        let mut tag_copy: Vec<u8> = Vec::new();
        crate::text::push_bytes(&mut tag_copy, e.tag.as_slice());
        let entry = CounterEntry { tag: tag_copy, bytes_in: e.bytes_in, bytes_out: e.bytes_out };
        proof {
            assert(entry@ =~= snap[idx as int]);
        }
        state.record(entry);
        if d_in > 0 || d_out > 0 {
            let mut tag_copy2: Vec<u8> = Vec::new();
            crate::text::push_bytes(&mut tag_copy2, e.tag.as_slice());
            let ghost sm0 = samples.deep_view();
            samples.push(TrafficSample { tag: tag_copy2, up_delta: d_in, down_delta: d_out });
            proof {
                assert(samples.deep_view() =~= sm0.push(
                    SampleSpec { tag: snap[idx as int].tag, up_delta: d_in, down_delta: d_out },
                ));
                assert(sm0 + spec_step_sample(pre, snap[idx as int]) =~= samples.deep_view());
            }
        } else {
            proof {
                assert(samples.deep_view() + Seq::<SampleSpec>::empty() =~= samples.deep_view());
            }
        }
        idx = idx + 1;
    }
    proof {
        assert(snap.subrange(snap.len() as int, snap.len() as int) =~= Seq::<
            CounterEntrySpec,
        >::empty());
        assert(samples.deep_view() + Seq::<SampleSpec>::empty() =~= samples.deep_view());
    }
    samples
}

/// Sum of the deltas over a run of successive absolute readings.
pub open spec fn spec_delta_sum(readings: Seq<u64>) -> int
    decreases readings.len(),
{
    if readings.len() <= 1 {
        0
    } else {
        spec_delta_sum(readings.drop_last()) + spec_reconcile(
            readings[readings.len() - 2],
            readings.last(),
        )
    }
}

/// Over any run of absolute readings of one counter, every delta is
/// non-negative by construction, and when no reset occurred (the readings
/// never move backwards) the deltas sum exactly to the final reading minus
/// the initial one: nothing is double-counted and nothing is lost.
pub proof fn lemma_deltas_telescope(readings: Seq<u64>)
    requires
        readings.len() >= 1,
        forall|i: int| 0 <= i < readings.len() - 1 ==> #[trigger] readings[i] <= readings[i + 1],
    ensures
        spec_delta_sum(readings) == readings.last() - readings[0],
    decreases readings.len(),
{
    if readings.len() == 1 {
    } else {
        let shorter = readings.drop_last();
        assert forall|i: int|
            0 <= i < shorter.len() - 1 implies #[trigger] shorter[i] <= shorter[i + 1] by {
            assert(shorter[i] == readings[i]);
            assert(shorter[i + 1] == readings[i + 1]);
        }
        lemma_deltas_telescope(shorter);
        assert(readings[readings.len() - 2] <= readings.last());
    }
}

/// A counter that moved backwards was reset: the reconciled delta is exactly
/// the current reading.
pub proof fn lemma_reset_policy(previous: u64, current: u64)
    requires
        current < previous,
    ensures
        spec_reconcile(previous, current) == current,
{
}

} // verus!
