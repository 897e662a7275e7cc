use traffic_meter::json::JsonValue;
use traffic_meter::ledger::{apply_sample, apply_samples, sat_add};
use traffic_meter::model::{effective_tag, TenantRecord, TrafficSample};
use traffic_meter::reconcile::{reconcile_snapshot, reconcile_value, CounterEntry, CounterState};
use traffic_meter::tick::process_tick;

fn tenant(tag: &str, up: u64, down: u64, total: u64, enable: bool) -> TenantRecord {
    TenantRecord {
        id: 1,
        tag: Some(tag.as_bytes().to_vec()),
        protocol: b"vless".to_vec(),
        port: 443,
        listen: None,
        settings: None,
        stream_settings: None,
        sniffing: None,
        up,
        down,
        total,
        enable,
    }
}

fn entry(tag: &str, bytes_in: u64, bytes_out: u64) -> CounterEntry {
    CounterEntry {
        tag: tag.as_bytes().to_vec(),
        bytes_in,
        bytes_out,
    }
}

#[test]
fn forward_counter_yields_difference() {
    assert_eq!(reconcile_value(100, 150), 50);
    assert_eq!(reconcile_value(0, 7), 7);
    assert_eq!(reconcile_value(5, 5), 0);
}

#[test]
fn reset_counter_counts_whole_current_value() {
    assert_eq!(reconcile_value(100, 80), 80);
    assert_eq!(reconcile_value(1, 0), 0);
}

#[test]
fn deltas_telescope_without_reset() {
    let mut state = CounterState::new();
    let readings = [100u64, 150, 230];
    let mut sum = 0u64;
    for r in readings {
        let samples = reconcile_snapshot(&mut state, vec![entry("t1", r, 0)]);
        for s in &samples {
            sum += s.up_delta;
        }
    }
    assert_eq!(sum, 230 - 100 + 100);
}

#[test]
fn kernel_reset_scenario_not_negative() {
    // tick 1 sees (100, 50); tick 2 sees (80, 50): the inbound counter was
    // reset, the outbound one did not move.
    let mut state = CounterState::new();
    let first = reconcile_snapshot(&mut state, vec![entry("t1", 100, 50)]);
    assert_eq!(first.len(), 1);
    assert_eq!(first[0].up_delta, 100);
    assert_eq!(first[0].down_delta, 50);
    let second = reconcile_snapshot(&mut state, vec![entry("t1", 80, 50)]);
    assert_eq!(second.len(), 1);
    assert_eq!(second[0].tag, b"t1".to_vec());
    assert_eq!(second[0].up_delta, 80);
    assert_eq!(second[0].down_delta, 0);
}

#[test]
fn zero_delta_yields_no_sample() {
    let mut state = CounterState::new();
    let _ = reconcile_snapshot(&mut state, vec![entry("t1", 40, 40)]);
    let again = reconcile_snapshot(&mut state, vec![entry("t1", 40, 40)]);
    assert!(again.is_empty());
}

#[test]
fn absent_tag_keeps_stale_state_and_contributes_nothing() {
    let mut state = CounterState::new();
    let _ = reconcile_snapshot(&mut state, vec![entry("t1", 40, 0), entry("t2", 10, 0)]);
    let samples = reconcile_snapshot(&mut state, vec![entry("t2", 15, 0)]);
    assert_eq!(samples.len(), 1);
    assert_eq!(samples[0].tag, b"t2".to_vec());
    assert_eq!(samples[0].up_delta, 5);
    // the stale tag is still known: new traffic is a delta, not a reset
    let later = reconcile_snapshot(&mut state, vec![entry("t1", 41, 0)]);
    assert_eq!(later.len(), 1);
    assert_eq!(later[0].up_delta, 1);
}

#[test]
fn unlimited_tenant_is_never_disabled() {
    let mut t = tenant("t1", u64::MAX - 10, u64::MAX - 10, 0, true);
    let s = TrafficSample {
        tag: b"t1".to_vec(),
        up_delta: u64::MAX,
        down_delta: u64::MAX,
    };
    let flipped = apply_sample(&mut t, &s);
    assert!(!flipped);
    assert!(t.enable);
}

#[test]
fn breach_disables_and_stays_disabled() {
    let mut t = tenant("t1", 60, 30, 100, true);
    let s = TrafficSample {
        tag: b"t1".to_vec(),
        up_delta: 10,
        down_delta: 0,
    };
    let flipped = apply_sample(&mut t, &s);
    assert!(flipped);
    assert!(!t.enable);
    // later samples never re-enable
    let later = TrafficSample {
        tag: b"t1".to_vec(),
        up_delta: 0,
        down_delta: 0,
    };
    let flipped_again = apply_sample(&mut t, &later);
    assert!(!flipped_again);
    assert!(!t.enable);
}

#[test]
fn quota_scenario_flips_once_and_triggers_reapply() {
    // tenant {tag:"t1", up:90, down:0, total:100, enable:true} receives
    // sample {up_delta:20, down_delta:0}
    let mut state = CounterState::new();
    let _ = reconcile_snapshot(&mut state, vec![entry("t1", 90, 0)]);
    let mut tenants = vec![tenant("t1", 90, 0, 100, true)];
    let (reapply, unknown) = process_tick(&mut state, vec![entry("t1", 110, 0)], &mut tenants);
    assert!(reapply);
    assert!(unknown.is_empty());
    assert_eq!(tenants[0].up, 110);
    assert_eq!(tenants[0].down, 0);
    assert!(!tenants[0].enable);
}

#[test]
fn sample_for_unknown_tag_is_reported_not_fatal() {
    let mut tenants = vec![tenant("t1", 0, 0, 0, true)];
    let samples = vec![
        TrafficSample {
            tag: b"ghost".to_vec(),
            up_delta: 5,
            down_delta: 0,
        },
        TrafficSample {
            tag: b"t1".to_vec(),
            up_delta: 7,
            down_delta: 0,
        },
    ];
    let (flip, unknown) = apply_samples(&mut tenants, &samples);
    assert!(!flip);
    assert_eq!(unknown, vec![b"ghost".to_vec()]);
    assert_eq!(tenants[0].up, 7);
}

#[test]
fn empty_tag_falls_back_to_derived_tag() {
    let t = TenantRecord {
        tag: Some(Vec::new()),
        ..tenant("x", 0, 0, 0, true)
    };
    assert_eq!(effective_tag(&t.tag, 5), b"inbound-5".to_vec());
    assert_eq!(effective_tag(&None, 12), b"inbound-12".to_vec());
    assert_eq!(effective_tag(&Some(b"named".to_vec()), 12), b"named".to_vec());
}

#[test]
fn counter_addition_saturates_at_the_counter_width() {
    assert_eq!(sat_add(u64::MAX - 1, 5), u64::MAX);
    assert_eq!(sat_add(3, 4), 7);
}

#[test]
fn settings_field_survives_in_record() {
    // the JSON tree type carries tenant-authored settings unchanged
    let t = TenantRecord {
        settings: Some(JsonValue::Null),
        ..tenant("t1", 0, 0, 0, true)
    };
    assert!(t.settings.is_some());
}
