//! Quota ledger: applies one traffic sample to a tenant's persisted totals
//! and decides enablement, exactly once per sample.

use vstd::prelude::*;

use crate::model::{spec_effective_tag, SampleSpec, TenantRecord, TenantSpec, TrafficSample};

verus! {

/// 64-bit addition capped at the maximum counter value.
pub open spec fn spec_sat_add(a: u64, b: u64) -> u64 {
    if a + b > u64::MAX {
        u64::MAX
    } else {
        (a + b) as u64
    }
}

/// Quota breach: a positive quota that the combined counters have reached.
/// A zero quota means unlimited and never breaches.
pub open spec fn spec_breach(total: u64, up: u64, down: u64) -> bool {
    total > 0 && up + down >= total
}

/// The tenant after one sample: counters grow by the deltas (capped at the
/// counter width) and the tenant stays enabled exactly when it was enabled
/// and the post-update totals do not breach the quota.
pub open spec fn spec_apply_sample(t: TenantSpec, s: SampleSpec) -> TenantSpec {
    TenantSpec {
        up: spec_sat_add(t.up, s.up_delta),
        down: spec_sat_add(t.down, s.down_delta),
        enable: t.enable && !spec_breach(
            t.total,
            spec_sat_add(t.up, s.up_delta),
            spec_sat_add(t.down, s.down_delta),
        ),
        ..t
    }
}

/// Whether one sample flips the tenant from enabled to disabled.
pub open spec fn spec_sample_flips(t: TenantSpec, s: SampleSpec) -> bool {
    t.enable && !spec_apply_sample(t, s).enable
}

/// 64-bit saturating addition.
pub fn sat_add(a: u64, b: u64) -> (r: u64)
    ensures
        r == spec_sat_add(a, b),
{
    match a.checked_add(b) {
        Some(x) => x,
        None => u64::MAX,
    }
}

/// Apply one sample to a tenant record: add the deltas to the persisted
/// counters and re-evaluate enablement against the post-update totals.
/// Returns whether this update flipped the tenant from enabled to disabled,
/// the sole trigger for a configuration reapply.
pub fn apply_sample(t: &mut TenantRecord, sample: &TrafficSample) -> (flipped: bool)
    ensures
        final(t)@ == spec_apply_sample(old(t)@, sample@),
        flipped == spec_sample_flips(old(t)@, sample@),
{
    let new_up = sat_add(t.up, sample.up_delta);
    let new_down = sat_add(t.down, sample.down_delta);
    let was_enabled = t.enable;
    let breach = t.total > 0 && match new_up.checked_add(new_down) {
        Some(sum) => sum >= t.total,
        None => true,
    };
    t.up = new_up;
    t.down = new_down;
    t.enable = was_enabled && !breach;
    proof {
        assert(t@ =~= spec_apply_sample(old(t)@, sample@));
    }
    was_enabled && !t.enable
}

/// The tenant list after a run of samples, each applied to the first tenant
/// whose effective tag matches; samples without a matching tenant change
/// nothing.
pub open spec fn spec_apply_samples(tenants: Seq<TenantSpec>, samples: Seq<SampleSpec>) -> Seq<
    TenantSpec,
>
    decreases samples.len(),
{
    if samples.len() == 0 {
        tenants
    } else {
        spec_apply_samples(spec_apply_one(tenants, samples[0]), samples.subrange(1, samples.len() as int))
    }
}

/// Index of the first tenant whose effective tag equals `tag`.
pub open spec fn spec_find_tenant(tenants: Seq<TenantSpec>, tag: Seq<u8>, i: int) -> Option<int>
    decreases tenants.len() - i,
{
    if i < 0 || i >= tenants.len() {
        None
    } else if spec_effective_tag(tenants[i].tag, tenants[i].id) == tag {
        Some(i)
    } else {
        spec_find_tenant(tenants, tag, i + 1)
    }
}

/// One sample applied to the first matching tenant, if any.
pub open spec fn spec_apply_one(tenants: Seq<TenantSpec>, s: SampleSpec) -> Seq<TenantSpec> {
    match spec_find_tenant(tenants, s.tag, 0) {
        Some(i) => tenants.update(i, spec_apply_sample(tenants[i], s)),
        None => tenants,
    }
}

/// Whether any sample in the run flips its matching tenant to disabled.
pub open spec fn spec_any_flip(tenants: Seq<TenantSpec>, samples: Seq<SampleSpec>) -> bool
    decreases samples.len(),
{
    if samples.len() == 0 {
        false
    } else {
        (match spec_find_tenant(tenants, samples[0].tag, 0) {
            Some(i) => spec_sample_flips(tenants[i], samples[0]),
            None => false,
        }) || spec_any_flip(spec_apply_one(tenants, samples[0]), samples.subrange(1, samples.len() as int))
    }
}

proof fn lemma_find_tenant_bounds(tenants: Seq<TenantSpec>, tag: Seq<u8>, i: int)
    requires
        0 <= i,
    ensures
        match spec_find_tenant(tenants, tag, i) {
            Some(k) => i <= k < tenants.len(),
            None => true,
        },
    decreases tenants.len() - i,
{
    if i < tenants.len() && spec_effective_tag(tenants[i].tag, tenants[i].id) != tag {
        lemma_find_tenant_bounds(tenants, tag, i + 1);
    }
}

fn find_tenant(tenants: &Vec<TenantRecord>, tag: &[u8]) -> (r: Option<usize>)
    ensures
        match r {
            Some(k) => k < tenants@.len() && Some(k as int) == spec_find_tenant(
                tenants.deep_view(),
                tag@,
                0,
            ),
            None => spec_find_tenant(tenants.deep_view(), tag@, 0) is None,
        },
{
    let ghost ts = tenants.deep_view();
    let mut i: usize = 0;
    while i < tenants.len()
        invariant
            0 <= i <= tenants@.len(),
            ts == tenants.deep_view(),
            ts.len() == tenants@.len(),
            forall|k: int| 0 <= k < tenants@.len() ==> ts[k] == tenants@[k]@,
            spec_find_tenant(ts, tag@, 0) == spec_find_tenant(ts, tag@, i as int),
        decreases tenants@.len() - i,
    {
        let t = &tenants[i];
        let etag = crate::model::effective_tag(&t.tag, t.id);
        if crate::text::eq_bytes(etag.as_slice(), tag) {
            proof {
                lemma_find_tenant_bounds(ts, tag@, 0);
            }
            return Some(i);
        }
        i = i + 1;
    }
    None
}

/// Samples without a matching tenant, in order: reportable per-tenant errors.
pub open spec fn spec_unmatched(tenants: Seq<TenantSpec>, samples: Seq<SampleSpec>) -> Seq<
    Seq<u8>,
>
    decreases samples.len(),
{
    if samples.len() == 0 {
        Seq::empty()
    } else {
        (match spec_find_tenant(tenants, samples[0].tag, 0) {
            Some(_) => Seq::<Seq<u8>>::empty(),
            None => Seq::<Seq<u8>>::empty().push(samples[0].tag),
        }) + spec_unmatched(spec_apply_one(tenants, samples[0]), samples.subrange(1, samples.len() as int))
    }
}

/// A run of samples applied in order to a tenant list. Each sample updates
/// the first tenant whose effective tag matches; tags with no matching
/// tenant are returned so the caller can report them. The flag says whether
/// any tenant flipped from enabled to disabled, the trigger for a reapply.
pub fn apply_samples(tenants: &mut Vec<TenantRecord>, samples: &Vec<TrafficSample>) -> (r: (
    bool,
    Vec<Vec<u8>>,
))
    ensures
        final(tenants).deep_view() == spec_apply_samples(
            old(tenants).deep_view(),
            samples.deep_view(),
        ),
        r.0 == spec_any_flip(old(tenants).deep_view(), samples.deep_view()),
        r.1.deep_view() == spec_unmatched(
            old(tenants).deep_view(),
            samples.deep_view(),
        ),
{
    let ghost ts0 = old(tenants).deep_view();
    let ghost ss = samples.deep_view();
    let mut any_flip = false;
    let mut unmatched: Vec<Vec<u8>> = Vec::new();
    let mut j: usize = 0;
    proof {
        assert(ss.subrange(0, ss.len() as int) =~= ss);
    }
    while j < samples.len()
        invariant
            0 <= j <= samples@.len(),
            ss == samples.deep_view(),
            ss.len() == samples@.len(),
            forall|k: int| 0 <= k < samples@.len() ==> ss[k] == samples@[k]@,
            spec_apply_samples(ts0, ss) == spec_apply_samples(
                tenants.deep_view(),
                ss.subrange(j as int, ss.len() as int),
            ),
            spec_any_flip(ts0, ss) == (any_flip || spec_any_flip(
                tenants.deep_view(),
                ss.subrange(j as int, ss.len() as int),
            )),
            spec_unmatched(ts0, ss) == unmatched.deep_view() + spec_unmatched(
                tenants.deep_view(),
                ss.subrange(j as int, ss.len() as int),
            ),
        decreases samples@.len() - j,
    {
        let ghost pre = tenants.deep_view();
        let ghost rest = ss.subrange(j as int, ss.len() as int);
        proof {
            assert(rest[0] == ss[j as int]);
            assert(rest.subrange(1, rest.len() as int) =~= ss.subrange(j + 1, ss.len() as int));
        }
        let sample = &samples[j];
        match find_tenant(tenants, sample.tag.as_slice()) {
            Some(i) => {
                let flipped = apply_sample(&mut tenants[i], sample);
                if flipped {
                    any_flip = true;
                }
                proof {
                    assert(tenants.deep_view() =~= spec_apply_one(pre, ss[j as int]));
                    assert(unmatched.deep_view() + Seq::<Seq<u8>>::empty() =~= unmatched.deep_view());
                }
            },
            None => {
                let mut tag_copy: Vec<u8> = Vec::new();
                crate::text::push_bytes(&mut tag_copy, sample.tag.as_slice());
                let ghost um0 = unmatched.deep_view();
                unmatched.push(tag_copy);
                proof {
                    assert(tag_copy@ =~= ss[j as int].tag);
                    assert(unmatched.deep_view() =~~= um0.push(ss[j as int].tag));
                    assert(spec_apply_one(pre, ss[j as int]) == pre);
                    assert(um0 + (Seq::<Seq<u8>>::empty().push(ss[j as int].tag) + spec_unmatched(
                        pre,
                        rest.subrange(1, rest.len() as int),
                    )) =~= um0.push(ss[j as int].tag) + spec_unmatched(
                        pre,
                        rest.subrange(1, rest.len() as int),
                    ));
                }
            },
        }
        j = j + 1;
    }
    proof {
        assert(ss.subrange(ss.len() as int, ss.len() as int) =~= Seq::<SampleSpec>::empty());
        assert(unmatched.deep_view() + Seq::<Seq<u8>>::empty() =~= unmatched.deep_view());
    }
    (any_flip, unmatched)
}

/// A tenant with no quota is never disabled by the ledger, whatever traffic
/// accumulates.
pub proof fn lemma_unlimited_never_disabled(t: TenantSpec, s: SampleSpec)
    requires
        t.total == 0,
    ensures
        spec_apply_sample(t, s).enable == t.enable,
{
}

/// Once a positive quota is reached by the post-update totals, the tenant is
/// disabled; and the ledger never re-enables a disabled tenant, whatever
/// samples follow.
pub proof fn lemma_breach_disables_and_sticks(t: TenantSpec, s: SampleSpec, later: SampleSpec)
    requires
        t.total > 0,
    ensures
        spec_sat_add(t.up, s.up_delta) + spec_sat_add(t.down, s.down_delta) >= t.total
            ==> !spec_apply_sample(t, s).enable,
        !t.enable ==> !spec_apply_sample(t, later).enable,
{
}

/// The ledger never re-enables: a tenant disabled before a run of samples
/// is still disabled after it, whatever the samples hold. Re-enabling is an
/// external admin action only.
pub proof fn lemma_disabled_stays_disabled(
    tenants: Seq<TenantSpec>,
    samples: Seq<SampleSpec>,
    i: int,
)
    requires
        0 <= i < tenants.len(),
        !tenants[i].enable,
    ensures
        spec_apply_samples(tenants, samples).len() == tenants.len(),
        !spec_apply_samples(tenants, samples)[i].enable,
    decreases samples.len(),
{
    if samples.len() > 0 {
        lemma_find_tenant_bounds(tenants, samples[0].tag, 0);
        let t1 = spec_apply_one(tenants, samples[0]);
        assert(t1.len() == tenants.len());
        assert(!t1[i].enable);
        lemma_disabled_stays_disabled(t1, samples.subrange(1, samples.len() as int), i);
    }
}

} // verus!
