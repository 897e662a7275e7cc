//! One accounting tick over a kernel counter snapshot: reconcile the
//! snapshot into deltas, apply every delta to its tenant's ledger, and say
//! whether the configuration must be reapplied.

use vstd::prelude::*;

use crate::ledger::{spec_any_flip, spec_apply_samples, spec_unmatched};
use crate::model::TenantRecord;
use crate::reconcile::{spec_reconcile_snapshot, CounterEntry, CounterState};

verus! {

/// Process one tick's snapshot: the counter state is advanced to the
/// snapshot, every non-zero delta becomes a sample applied to the first
/// tenant with the matching effective tag, and the result says whether any
/// tenant flipped from enabled to disabled (the sole reapply trigger) and
/// which sample tags matched no tenant (reportable, non-fatal).
pub fn process_tick(
    state: &mut CounterState,
    snapshot: Vec<CounterEntry>,
    tenants: &mut Vec<TenantRecord>,
) -> (r: (bool, Vec<Vec<u8>>))
    ensures
        final(state)@ == spec_reconcile_snapshot(old(state)@, snapshot.deep_view()).1,
        final(tenants).deep_view() == spec_apply_samples(
            old(tenants).deep_view(),
            spec_reconcile_snapshot(old(state)@, snapshot.deep_view()).0,
        ),
        r.0 == spec_any_flip(
            old(tenants).deep_view(),
            spec_reconcile_snapshot(old(state)@, snapshot.deep_view()).0,
        ),
        r.1.deep_view() == spec_unmatched(
            old(tenants).deep_view(),
            spec_reconcile_snapshot(old(state)@, snapshot.deep_view()).0,
        ),
{
    let samples = crate::reconcile::reconcile_snapshot(state, snapshot);
    crate::ledger::apply_samples(tenants, &samples)
}

} // verus!
