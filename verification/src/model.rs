//! Core data model: tenant records as this system reads and updates them,
//! and the transient per-tick traffic samples.

use vstd::prelude::*;

use crate::json::{deep_of, JsonSpec, JsonValue};
use crate::text::{spec_dec, u64_to_dec};

verus! {

/// One traffic sample: the bytes a tenant moved since the previous tick.
#[derive(Clone)]
pub struct TrafficSample {
    pub tag: Vec<u8>,
    pub up_delta: u64,
    pub down_delta: u64,
}

/// Mathematical model of a traffic sample.
#[verifier::ext_equal]
pub struct SampleSpec {
    pub tag: Seq<u8>,
    pub up_delta: u64,
    pub down_delta: u64,
}

impl View for TrafficSample {
    type V = SampleSpec;

    open spec fn view(&self) -> SampleSpec {
        SampleSpec { tag: self.tag@, up_delta: self.up_delta, down_delta: self.down_delta }
    }
}

impl DeepView for TrafficSample {
    type V = SampleSpec;

    open spec fn deep_view(&self) -> SampleSpec {
        self@
    }
}

/// The fields of a persisted tenant record that this system reads or writes.
pub struct TenantRecord {
    pub id: u64,
    /// Stored tag; an absent or empty tag falls back to a derived one.
    pub tag: Option<Vec<u8>>,
    pub protocol: Vec<u8>,
    pub port: u16,
    pub listen: Option<Vec<u8>>,
    /// Tenant-authored settings document, if present and well-formed.
    pub settings: Option<JsonValue>,
    /// Tenant-authored stream settings document, if present and well-formed.
    pub stream_settings: Option<JsonValue>,
    /// Tenant-authored sniffing document, if present and well-formed.
    pub sniffing: Option<JsonValue>,
    pub up: u64,
    pub down: u64,
    /// Quota in bytes; zero means unlimited.
    pub total: u64,
    pub enable: bool,
}

/// Mathematical model of a tenant record.
#[verifier::ext_equal]
pub struct TenantSpec {
    pub id: u64,
    pub tag: Option<Seq<u8>>,
    pub protocol: Seq<u8>,
    pub port: u16,
    pub listen: Option<Seq<u8>>,
    pub settings: Option<JsonSpec>,
    pub stream_settings: Option<JsonSpec>,
    pub sniffing: Option<JsonSpec>,
    pub up: u64,
    pub down: u64,
    pub total: u64,
    pub enable: bool,
}

impl View for TenantRecord {
    type V = TenantSpec;

    open spec fn view(&self) -> TenantSpec {
        TenantSpec {
            id: self.id,
            tag: match self.tag {
                Some(t) => Some(t@),
                None => None,
            },
            protocol: self.protocol@,
            port: self.port,
            listen: match self.listen {
                Some(l) => Some(l@),
                None => None,
            },
            settings: match self.settings {
                Some(s) => Some(deep_of(s)),
                None => None,
            },
            stream_settings: match self.stream_settings {
                Some(s) => Some(deep_of(s)),
                None => None,
            },
            sniffing: match self.sniffing {
                Some(s) => Some(deep_of(s)),
                None => None,
            },
            up: self.up,
            down: self.down,
            total: self.total,
            enable: self.enable,
        }
    }
}

impl DeepView for TenantRecord {
    type V = TenantSpec;

    open spec fn deep_view(&self) -> TenantSpec {
        self@
    }
}

/// The bytes of the derived tag prefix.
pub open spec fn spec_tag_prefix() -> Seq<u8> {
    seq![105u8, 110u8, 98u8, 111u8, 117u8, 110u8, 100u8, 45u8]
}

/// The tag a tenant is correlated under: the stored tag when non-empty,
/// otherwise the derived fallback built from the record id.
pub open spec fn spec_effective_tag(tag: Option<Seq<u8>>, id: u64) -> Seq<u8> {
    match tag {
        Some(t) => if t.len() > 0 {
            t
        } else {
            spec_tag_prefix() + spec_dec(id as nat)
        },
        None => spec_tag_prefix() + spec_dec(id as nat),
    }
}

/// The tag this tenant is correlated under, everywhere: accounting rules,
/// counter readings and the synthesized configuration use the same value.
pub fn effective_tag(tag: &Option<Vec<u8>>, id: u64) -> (r: Vec<u8>)
    ensures
        r@ == spec_effective_tag(
            match tag {
                Some(t) => Some(t@),
                None => None,
            },
            id,
        ),
{
    match tag {
        Some(t) => {
            if t.len() > 0 {
                let mut r: Vec<u8> = Vec::new();
                crate::text::push_bytes(&mut r, t.as_slice());
                proof {
                    assert(r@ =~= t@);
                }
                r
            } else {
                derived_tag(id)
            }
        },
        None => derived_tag(id),
    }
}

fn derived_tag(id: u64) -> (r: Vec<u8>)
    ensures
        r@ == spec_tag_prefix() + spec_dec(id as nat),
{
    let mut r: Vec<u8> = Vec::new();
    r.push(105);
    r.push(110);
    r.push(98);
    r.push(111);
    r.push(117);
    r.push(110);
    r.push(100);
    r.push(45);
    proof {
        assert(r@ =~= spec_tag_prefix());
    }
    let mut digits = u64_to_dec(id);
    let ghost pre = r@;
    r.append(&mut digits);
    r
}

} // verus!
