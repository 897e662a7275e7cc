use traffic_meter::json::{obj_get, serialize_json, JsonEntry, JsonValue};
use traffic_meter::model::TenantRecord;
use traffic_meter::synth::{inbound_doc, synthesize_config, RoutingRule};

fn obj(entries: Vec<(&str, JsonValue)>) -> JsonValue {
    JsonValue::Obj(
        entries
            .into_iter()
            .map(|(k, v)| JsonEntry {
                key: k.as_bytes().to_vec(),
                value: v,
            })
            .collect(),
    )
}

fn jstr(s: &str) -> JsonValue {
    JsonValue::Str(s.as_bytes().to_vec())
}

fn tenant_with_stream(stream: Option<JsonValue>) -> TenantRecord {
    TenantRecord {
        id: 7,
        tag: Some(b"t1".to_vec()),
        protocol: b"vless".to_vec(),
        port: 443,
        listen: None,
        settings: None,
        stream_settings: stream,
        sniffing: None,
        up: 0,
        down: 0,
        total: 0,
        enable: true,
    }
}

fn contains(hay: &[u8], needle: &[u8]) -> bool {
    hay.windows(needle.len()).any(|w| w == needle)
}

#[test]
fn synthesis_is_idempotent() {
    let stream = obj(vec![
        ("network", jstr("xhttp")),
        ("security", jstr("reality")),
        (
            "realitySettings",
            obj(vec![("serverName", jstr("a.com")), ("shortId", jstr("ab"))]),
        ),
    ]);
    let tenants = vec![tenant_with_stream(Some(stream))];
    let first = synthesize_config(&tenants);
    let second = synthesize_config(&tenants);
    assert_eq!(first, second);
}

#[test]
fn reality_scalars_become_arrays_and_singulars_vanish() {
    let stream = obj(vec![
        ("security", jstr("reality")),
        (
            "realitySettings",
            obj(vec![("serverName", jstr("a.com")), ("shortId", jstr("ab"))]),
        ),
    ]);
    let t = tenant_with_stream(Some(stream));
    let doc = inbound_doc(&t);
    let ss = obj_get(&doc, b"streamSettings").expect("stream settings");
    let rs = obj_get(ss, b"realitySettings").expect("reality settings");

    match obj_get(rs, b"serverNames").expect("serverNames") {
        JsonValue::Arr(items) => match &items[..] {
            [JsonValue::Str(s)] => assert_eq!(s, &b"a.com".to_vec()),
            other => panic!("expected one server name, got {} items", other.len()),
        },
        _ => panic!("serverNames must be an array"),
    }
    match obj_get(rs, b"shortIds").expect("shortIds") {
        JsonValue::Arr(items) => match &items[..] {
            [JsonValue::Str(s)] => assert_eq!(s, &b"ab".to_vec()),
            other => panic!("expected one short id, got {} items", other.len()),
        },
        _ => panic!("shortIds must be an array"),
    }
    match obj_get(rs, b"fingerprint").expect("fingerprint") {
        JsonValue::Str(s) => assert_eq!(s, &b"chrome".to_vec()),
        _ => panic!("fingerprint must be a string"),
    }
    assert!(obj_get(rs, b"serverName").is_none());
    assert!(obj_get(rs, b"shortId").is_none());
}

#[test]
fn unsupported_transport_is_downgraded() {
    let stream = obj(vec![("network", jstr("xhttp"))]);
    let t = tenant_with_stream(Some(stream));
    let doc = inbound_doc(&t);
    let ss = obj_get(&doc, b"streamSettings").expect("stream settings");
    match obj_get(ss, b"network").expect("network") {
        JsonValue::Str(s) => assert_eq!(s, &b"tcp".to_vec()),
        _ => panic!("network must be a string"),
    }
}

#[test]
fn unsupported_sub_mode_becomes_auto() {
    let stream = obj(vec![(
        "xhttpSettings",
        obj(vec![("mode", jstr("packet-up")), ("path", jstr("/x"))]),
    )]);
    let t = tenant_with_stream(Some(stream));
    let doc = inbound_doc(&t);
    let ss = obj_get(&doc, b"streamSettings").expect("stream settings");
    let xh = obj_get(ss, b"xhttpSettings").expect("xhttp settings");
    match obj_get(xh, b"mode").expect("mode") {
        JsonValue::Str(s) => assert_eq!(s, &b"auto".to_vec()),
        _ => panic!("mode must be a string"),
    }
    match obj_get(xh, b"path").expect("path") {
        JsonValue::Str(s) => assert_eq!(s, &b"/x".to_vec()),
        _ => panic!("path must be a string"),
    }
}

#[test]
fn socket_options_carry_explicit_defaults() {
    let t = tenant_with_stream(None);
    let doc = inbound_doc(&t);
    let ss = obj_get(&doc, b"streamSettings").expect("stream settings");
    let so = obj_get(ss, b"sockopt").expect("sockopt");
    assert!(matches!(
        obj_get(so, b"tcpFastOpen"),
        Some(JsonValue::Bool(true))
    ));
    assert!(matches!(
        obj_get(so, b"tcpNoDelay"),
        Some(JsonValue::Bool(true))
    ));
    assert!(matches!(
        obj_get(so, b"acceptProxyProtocol"),
        Some(JsonValue::Bool(false))
    ));

    // an individual override is honored
    let stream = obj(vec![(
        "sockopt",
        obj(vec![("tcpNoDelay", JsonValue::Bool(false))]),
    )]);
    let t2 = tenant_with_stream(Some(stream));
    let doc2 = inbound_doc(&t2);
    let ss2 = obj_get(&doc2, b"streamSettings").expect("stream settings");
    let so2 = obj_get(ss2, b"sockopt").expect("sockopt");
    assert!(matches!(
        obj_get(so2, b"tcpNoDelay"),
        Some(JsonValue::Bool(false))
    ));
    assert!(matches!(
        obj_get(so2, b"tcpFastOpen"),
        Some(JsonValue::Bool(true))
    ));
}

#[test]
fn clients_keep_identifier_and_label_only() {
    let settings = obj(vec![(
        "clients",
        JsonValue::Arr(vec![
            obj(vec![
                ("id", jstr("uuid-1")),
                ("email", jstr("a@b")),
                ("flow", jstr("zap")),
            ]),
            obj(vec![("password", jstr("pw-2"))]),
        ]),
    )]);
    let t = TenantRecord {
        settings: Some(settings),
        ..tenant_with_stream(None)
    };
    let doc = inbound_doc(&t);
    let st = obj_get(&doc, b"settings").expect("settings");
    match obj_get(st, b"clients").expect("clients") {
        JsonValue::Arr(items) => {
            assert_eq!(items.len(), 2);
            assert!(matches!(obj_get(&items[0], b"id"), Some(JsonValue::Str(s)) if s == &b"uuid-1".to_vec()));
            assert!(matches!(obj_get(&items[0], b"email"), Some(JsonValue::Str(s)) if s == &b"a@b".to_vec()));
            assert!(obj_get(&items[0], b"flow").is_none());
            // a password is carried as the identifier
            assert!(matches!(obj_get(&items[1], b"id"), Some(JsonValue::Str(s)) if s == &b"pw-2".to_vec()));
        }
        _ => panic!("clients must be an array"),
    }
}

#[test]
fn document_shape_has_fixed_blocks_and_fallback_tag() {
    let t = TenantRecord {
        tag: Some(Vec::new()),
        listen: Some(Vec::new()),
        ..tenant_with_stream(None)
    };
    let bytes = synthesize_config(&vec![t]);
    assert!(contains(&bytes, b"\"loglevel\":\"warning\""));
    assert!(contains(&bytes, b"\"services\":[\"HandlerService\",\"StatsService\"]"));
    assert!(contains(&bytes, b"\"tag\":\"direct\",\"protocol\":\"freedom\""));
    assert!(contains(&bytes, b"\"tag\":\"blocked\",\"protocol\":\"blackhole\""));
    assert!(contains(&bytes, b"\"domainStrategy\":\"IPIfNonMatch\",\"rules\":[]"));
    // empty tag and listen fall back
    assert!(contains(&bytes, b"\"tag\":\"inbound-7\""));
    assert!(contains(&bytes, b"\"listen\":\"0.0.0.0\""));
    assert!(contains(&bytes, b"\"port\":443"));
    // default sniffing is emitted inside settings
    assert!(contains(&bytes, b"\"sniffing\":{\"enabled\":false,\"destOverride\":[\"tls\",\"http\"]}"));
}

#[test]
fn serializer_produces_exact_compact_bytes() {
    let doc = obj(vec![
        ("a", JsonValue::Num(b"1".to_vec())),
        ("b", JsonValue::Arr(vec![JsonValue::Null, JsonValue::Bool(true)])),
        ("c", jstr("x")),
    ]);
    assert_eq!(
        serialize_json(&doc),
        b"{\"a\":1,\"b\":[null,true],\"c\":\"x\"}".to_vec()
    );
}

#[test]
fn default_routing_rule_matches_fields_with_no_constraints() {
    let r = RoutingRule::default();
    assert_eq!(r.rule_type, b"field".to_vec());
    assert!(r.port.is_none());
    assert!(r.inbound_tag.is_none());
    assert!(r.outbound_tag.is_none());
    assert!(r.ip.is_none());
    assert!(r.domain.is_none());
    assert!(r.protocol.is_none());
}

#[test]
fn synthesized_document_is_valid_json_with_expected_shape() {
    let stream = obj(vec![
        ("security", jstr("reality")),
        (
            "realitySettings",
            obj(vec![("serverName", jstr("a.com")), ("shortId", jstr("ab"))]),
        ),
    ]);
    let tenants = vec![tenant_with_stream(Some(stream))];
    let bytes = synthesize_config(&tenants);
    let parsed: serde_json::Value =
        serde_json::from_slice(&bytes).expect("synthesized config must be valid JSON");
    assert_eq!(parsed["log"]["loglevel"], "warning");
    assert_eq!(parsed["api"]["services"][1], "StatsService");
    assert_eq!(parsed["inbounds"][0]["tag"], "t1");
    assert_eq!(parsed["inbounds"][0]["port"], 443);
    let rs = &parsed["inbounds"][0]["streamSettings"]["realitySettings"];
    let server_names = rs["serverNames"].as_array().expect("serverNames array");
    assert_eq!(server_names.len(), 1);
    assert_eq!(server_names[0], "a.com");
    let short_ids = rs["shortIds"].as_array().expect("shortIds array");
    assert_eq!(short_ids.len(), 1);
    assert_eq!(short_ids[0], "ab");
    assert_eq!(rs["fingerprint"], "chrome");
    assert_eq!(parsed["outbounds"][1]["protocol"], "blackhole");
    assert_eq!(parsed["routing"]["domainStrategy"], "IPIfNonMatch");
}
