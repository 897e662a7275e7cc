use traffic_meter::chains::{extract_rule_comments, parse_counter_line, read_iptables_stats};
use traffic_meter::envcfg::{normalize_web_root, render_env_update};
use traffic_meter::keygen::parse_keygen_output;
use traffic_meter::logline::{next_read_offset, parse_traffic_line, parse_traffic_segment};
use traffic_meter::rules::{comment_for, plan_rule_sync};
use traffic_meter::model::TenantRecord;
use traffic_meter::text::parse_u64;

#[test]
fn traffic_line_parses_fields_in_any_order() {
    let line = b"2024/01/02 12:00:01 [TRAFFIC] tag=t2 up=1024 down=2048 other=9";
    let s = parse_traffic_line(line).expect("line must parse");
    assert_eq!(s.tag, b"t2".to_vec());
    assert_eq!(s.up_delta, 1024);
    assert_eq!(s.down_delta, 2048);

    let reordered = b"[TRAFFIC] down=2048 tag=t2 up=1024";
    let s2 = parse_traffic_line(reordered).expect("order must not matter");
    assert_eq!(s2.tag, b"t2".to_vec());
    assert_eq!(s2.up_delta, 1024);
    assert_eq!(s2.down_delta, 2048);
}

#[test]
fn traffic_line_missing_field_is_skipped() {
    assert!(parse_traffic_line(b"x [TRAFFIC] tag=t2 up=1024").is_none());
    assert!(parse_traffic_line(b"tag=t2 up=1 down=2").is_none());
    assert!(parse_traffic_line(b"[TRAFFIC] tag=t2 up=abc down=2").is_none());
    assert!(parse_traffic_line(b"[TRAFFIC] tag= up=1 down=2").is_none());
}

#[test]
fn traffic_segment_collects_parsable_lines_only() {
    let segment = b"junk\n[TRAFFIC] tag=a up=1 down=2\nbroken [TRAFFIC] tag=b up=x down=1\n[TRAFFIC] tag=c up=3 down=4\n";
    let samples = parse_traffic_segment(segment);
    assert_eq!(samples.len(), 2);
    assert_eq!(samples[0].tag, b"a".to_vec());
    assert_eq!(samples[1].tag, b"c".to_vec());
    assert_eq!(samples[1].up_delta, 3);
}

#[test]
fn rotated_log_restarts_from_zero() {
    assert_eq!(next_read_offset(1000, 400), 400);
    assert_eq!(next_read_offset(300, 400), 0);
    assert_eq!(next_read_offset(400, 400), 400);
}

#[test]
fn numeric_token_parsing_is_strict() {
    assert_eq!(parse_u64(b"1024"), Some(1024));
    assert_eq!(parse_u64(b"0"), Some(0));
    assert_eq!(parse_u64(b""), None);
    assert_eq!(parse_u64(b"12a"), None);
    assert_eq!(parse_u64(b"18446744073709551615"), Some(u64::MAX));
    assert_eq!(parse_u64(b"18446744073709551616"), None);
}

#[test]
fn counter_line_extracts_tag_and_bytes() {
    let line = b"  42  1234 RETURN  tcp  --  *  *  0.0.0.0/0  0.0.0.0/0  tcp dpt:443 /* xui-t1 */";
    let (tag, bytes) = parse_counter_line(line).expect("counter line");
    assert_eq!(tag, b"t1".to_vec());
    assert_eq!(bytes, 1234);
    assert!(parse_counter_line(b"Chain XUI_IN (1 references)").is_none());
}

#[test]
fn chain_stats_accumulate_per_tag_and_direction() {
    let input = b"Chain XUI_IN\n 1 100 RETURN tcp /* xui-t1 */\n 2 40 RETURN udp /* xui-t1 */\n 3 7 RETURN tcp /* xui-t2 */\n";
    let output = b"Chain XUI_OUT\n 1 55 RETURN tcp /* xui-t1 */\n";
    let stats = read_iptables_stats(input, output);
    assert_eq!(stats.len(), 2);
    assert_eq!(stats[0].tag, b"t1".to_vec());
    assert_eq!(stats[0].bytes_in, 140);
    assert_eq!(stats[0].bytes_out, 55);
    assert_eq!(stats[1].tag, b"t2".to_vec());
    assert_eq!(stats[1].bytes_in, 7);
    assert_eq!(stats[1].bytes_out, 0);
}

#[test]
fn rule_comments_lose_their_quotes() {
    let listing = b"-N XUI_IN\n-A XUI_IN -p tcp --dport 443 -j RETURN -m comment --comment \"xui-t1\"\n-A XUI_IN -p udp -j RETURN -m comment --comment xui-t2\n";
    let comments = extract_rule_comments(listing);
    assert_eq!(comments, vec![b"xui-t1".to_vec(), b"xui-t2".to_vec()]);
}

fn plain_tenant(tag: &str, port: u16, enable: bool) -> TenantRecord {
    TenantRecord {
        id: 3,
        tag: Some(tag.as_bytes().to_vec()),
        protocol: b"vless".to_vec(),
        port,
        listen: None,
        settings: None,
        stream_settings: None,
        sniffing: None,
        up: 0,
        down: 0,
        total: 0,
        enable,
    }
}

#[test]
fn rule_plan_is_idempotent_against_existing_comments() {
    let tenants = vec![plain_tenant("t1", 443, true)];
    let empty: Vec<Vec<u8>> = Vec::new();
    let plan = plan_rule_sync(&tenants, &empty, &empty);
    assert_eq!(plan.len(), 4);
    assert!(plan[0].inbound && plan[0].stream);
    assert!(plan[0].comment == b"xui-t1".to_vec());
    assert_eq!(plan[0].port, 443);

    // a second tick sees the comments already present: nothing is planned
    let present = vec![b"xui-t1".to_vec()];
    let none = plan_rule_sync(&tenants, &present, &present);
    assert!(none.is_empty());
}

#[test]
fn disabled_tenants_get_no_rules_and_none_are_removed() {
    let tenants = vec![plain_tenant("t1", 443, false)];
    let stale = vec![b"xui-gone".to_vec()];
    let plan = plan_rule_sync(&tenants, &stale, &stale);
    assert!(plan.is_empty());
    assert_eq!(comment_for(b"abc"), b"xui-abc".to_vec());
}

#[test]
fn env_rewrite_replaces_in_place_and_appends_missing() {
    let content = b"A=1\nSERVER_PORT=2053\nB=2";
    let out = render_env_update(content, 8443, b"/panel/");
    assert_eq!(out, b"A=1\nSERVER_PORT=8443\nB=2\nWEB_ROOT=/panel/".to_vec());

    let out2 = render_env_update(b"", 80, b"/");
    assert_eq!(out2, b"SERVER_PORT=80\nWEB_ROOT=/".to_vec());
}

#[test]
fn web_root_is_pinned_between_slashes() {
    assert_eq!(normalize_web_root(b"  panel "), b"/panel/".to_vec());
    assert_eq!(normalize_web_root(b"/panel"), b"/panel/".to_vec());
    assert_eq!(normalize_web_root(b"/panel/"), b"/panel/".to_vec());
    assert_eq!(normalize_web_root(b"/"), b"/".to_vec());
    assert_eq!(normalize_web_root(b""), b"/".to_vec());
}

#[test]
fn keygen_output_parses_both_generator_formats() {
    let out = b"Private key: PRIV1\nPublic key: PUB1\n";
    let keys = parse_keygen_output(out).expect("keys");
    assert_eq!(keys.private_key, "PRIV1");
    assert_eq!(keys.public_key, "PUB1");

    let compat = b"PrivateKey: PRIV2\nPassword: PUB2\n";
    let keys2 = parse_keygen_output(compat).expect("compat keys");
    assert_eq!(keys2.private_key, "PRIV2");
    assert_eq!(keys2.public_key, "PUB2");
}

#[test]
fn keygen_output_with_a_missing_key_is_rejected() {
    assert!(parse_keygen_output(b"Private key: PRIV1\n").is_none());
    assert!(parse_keygen_output(b"nothing here").is_none());
}
