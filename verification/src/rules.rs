//! Rule synchronizer planning: which accounting rules the firewall's two
//! chains are missing for the currently enabled tenants.
//!
//! A rule is planned only when no rule with its tenant's comment is already
//! present in the chain, so insertion stays idempotent across ticks. Rules
//! of disabled or deleted tenants are never planned for removal.

use vstd::prelude::*;

use crate::model::{spec_effective_tag, TenantRecord, TenantSpec};
use crate::text::spec_contains_bytes;

verus! {

/// One firewall rule to insert: direction, transport, the tenant's port and
/// the deterministic comment derived from its tag.
pub struct PlannedRule {
    /// Inbound chain (destination port) or outbound chain (source port).
    pub inbound: bool,
    /// Stream transport, or datagram when false.
    pub stream: bool,
    pub port: u16,
    pub comment: Vec<u8>,
}

/// Mathematical model of a planned rule.
#[verifier::ext_equal]
pub struct PlannedRuleSpec {
    pub inbound: bool,
    pub stream: bool,
    pub port: u16,
    pub comment: Seq<u8>,
}

impl View for PlannedRule {
    type V = PlannedRuleSpec;

    open spec fn view(&self) -> PlannedRuleSpec {
        PlannedRuleSpec {
            inbound: self.inbound,
            stream: self.stream,
            port: self.port,
            comment: self.comment@,
        }
    }
}

impl DeepView for PlannedRule {
    type V = PlannedRuleSpec;

    open spec fn deep_view(&self) -> PlannedRuleSpec {
        self@
    }
}

/// The bytes of the comment prefix `xui-`.
pub open spec fn spec_rule_prefix() -> Seq<u8> {
    seq![120u8, 117u8, 105u8, 45u8]
}

/// The deterministic rule comment of a tenant tag.
pub open spec fn spec_comment_for(tag: Seq<u8>) -> Seq<u8> {
    spec_rule_prefix() + tag
}

/// The rules one tenant needs: two per direction whose chain does not
/// already carry its comment, stream before datagram, inbound before
/// outbound; none for a disabled tenant.
pub open spec fn spec_tenant_rules(
    t: TenantSpec,
    in_comments: Seq<Seq<u8>>,
    out_comments: Seq<Seq<u8>>,
) -> Seq<PlannedRuleSpec> {
    if !t.enable {
        Seq::empty()
    } else {
        let c = spec_comment_for(spec_effective_tag(t.tag, t.id));
        (if !spec_contains_bytes(in_comments, c, 0) {
            Seq::empty().push(
                PlannedRuleSpec { inbound: true, stream: true, port: t.port, comment: c },
            ).push(PlannedRuleSpec { inbound: true, stream: false, port: t.port, comment: c })
        } else {
            Seq::empty()
        }) + (if !spec_contains_bytes(out_comments, c, 0) {
            Seq::empty().push(
                PlannedRuleSpec { inbound: false, stream: true, port: t.port, comment: c },
            ).push(PlannedRuleSpec { inbound: false, stream: false, port: t.port, comment: c })
        } else {
            Seq::empty()
        })
    }
}

/// The rules all tenants from position `i` on need, in tenant order.
pub open spec fn spec_plan(
    tenants: Seq<TenantSpec>,
    i: int,
    in_comments: Seq<Seq<u8>>,
    out_comments: Seq<Seq<u8>>,
) -> Seq<PlannedRuleSpec>
    decreases tenants.len() - i,
{
    if i < 0 || i >= tenants.len() {
        Seq::empty()
    } else {
        spec_tenant_rules(tenants[i], in_comments, out_comments) + spec_plan(
            tenants,
            i + 1,
            in_comments,
            out_comments,
        )
    }
}

fn rule_prefix_bytes() -> (v: Vec<u8>)
    ensures
        v@ == spec_rule_prefix(),
{
    let a: [u8; 4] = [120, 117, 105, 45];
    let v = crate::text::byte_vec(a.as_slice());
    proof {
        assert(v@ =~= spec_rule_prefix());
    }
    v
}

/// The deterministic rule comment of a tenant tag.
pub fn comment_for(tag: &[u8]) -> (v: Vec<u8>)
    ensures
        v@ == spec_comment_for(tag@),
{
    let mut v = rule_prefix_bytes();
    crate::text::push_bytes(&mut v, tag);
    v
}

/// Plan the rule insertions one tick needs: for every enabled tenant whose
/// comment a chain does not yet carry, one rule per transport for that
/// chain. Comments already present plan nothing, so insertion never
/// duplicates; nothing is ever planned for removal.
pub fn plan_rule_sync(
    tenants: &Vec<TenantRecord>,
    in_comments: &Vec<Vec<u8>>,
    out_comments: &Vec<Vec<u8>>,
) -> (plan: Vec<PlannedRule>)
    ensures
        plan.deep_view() == spec_plan(
            tenants.deep_view(),
            0,
            in_comments.deep_view(),
            out_comments.deep_view(),
        ),
{
    let ghost tv = tenants.deep_view();
    let ghost inc = in_comments.deep_view();
    let ghost outc = out_comments.deep_view();
    let mut plan: Vec<PlannedRule> = Vec::new();
    let mut i: usize = 0;
    proof {
        assert(plan.deep_view() =~= Seq::<PlannedRuleSpec>::empty());
        assert(spec_plan(tv, 0, inc, outc) == plan.deep_view() + spec_plan(tv, 0, inc, outc));
    }
    while i < tenants.len()
        invariant
            0 <= i <= tenants@.len(),
            tv == tenants.deep_view(),
            inc == in_comments.deep_view(),
            outc == out_comments.deep_view(),
            tv.len() == tenants@.len(),
            forall|k: int| 0 <= k < tv.len() ==> tv[k] == tenants@[k]@,
            spec_plan(tv, 0, inc, outc) == plan.deep_view() + spec_plan(tv, i as int, inc, outc),
        decreases tenants@.len() - i,
    {
        let ghost pre = plan.deep_view();
        let t = &tenants[i];
        if t.enable {
            let tag = crate::model::effective_tag(&t.tag, t.id);
            let comment = comment_for(tag.as_slice());
            let ghost c = comment@;
            if !crate::text::contains_bytes(in_comments, comment.as_slice()) {
                let c1 = crate::text::byte_vec(comment.as_slice());
                plan.push(PlannedRule { inbound: true, stream: true, port: t.port, comment: c1 });
                let c2 = crate::text::byte_vec(comment.as_slice());
                plan.push(PlannedRule { inbound: true, stream: false, port: t.port, comment: c2 });
            }
            if !crate::text::contains_bytes(out_comments, comment.as_slice()) {
                let c3 = crate::text::byte_vec(comment.as_slice());
                plan.push(PlannedRule { inbound: false, stream: true, port: t.port, comment: c3 });
                let c4 = crate::text::byte_vec(comment.as_slice());
                plan.push(
                    PlannedRule { inbound: false, stream: false, port: t.port, comment: c4 },
                );
            }
            proof {
                assert(plan.deep_view() =~= pre + spec_tenant_rules(tv[i as int], inc, outc));
                assert(pre + (spec_tenant_rules(tv[i as int], inc, outc) + spec_plan(
                    tv,
                    i + 1,
                    inc,
                    outc,
                )) =~= pre + spec_tenant_rules(tv[i as int], inc, outc) + spec_plan(
                    tv,
                    i + 1,
                    inc,
                    outc,
                ));
            }
        } else {
            proof {
                assert(plan.deep_view() =~= pre + spec_tenant_rules(tv[i as int], inc, outc));
                assert(pre + (spec_tenant_rules(tv[i as int], inc, outc) + spec_plan(
                    tv,
                    i + 1,
                    inc,
                    outc,
                )) =~= pre + spec_tenant_rules(tv[i as int], inc, outc) + spec_plan(
                    tv,
                    i + 1,
                    inc,
                    outc,
                ));
            }
        }
        i = i + 1;
    }
    proof {
        assert(plan.deep_view() + Seq::<PlannedRuleSpec>::empty() =~= plan.deep_view());
    }
    plan
}

} // verus!
