use cfnat::api::{update_dns_config, UpdaterAction};
use cfnat::dns_resolver::{add_unique, domains_to_resolve, hostname_for_lookup, looks_like_domain, merge_resolved};
use cfnat::dns_updater::{
    bearer, cloudflare_api_url, first_result_id, format_now, lookup_id, record_body, record_call,
    record_lookup_url, record_url, record_written, records_url, start_dns_updater,
    stop_dns_updater, write_succeeded, zone_lookup_failed, zone_lookup_url, DnsLoop,
    DnsUpdaterConfig, DnsUpdaterState, JsonValue, RecordCall, RecordChange, RecordType,
};
use cfnat::net::IpAddress;

fn strings(v: &[&str]) -> Vec<String> {
    v.iter().map(|s| s.to_string()).collect()
}

fn ready_config() -> DnsUpdaterConfig {
    let mut c = DnsUpdaterConfig::default();
    c.cf_api_token = "token".to_string();
    c.enabled = true;
    c
}

#[test]
fn hostnames_lose_their_port() {
    assert_eq!(hostname_for_lookup("a.com"), "a.com");
    assert_eq!(hostname_for_lookup("a.com:443"), "a.com");
    assert_eq!(hostname_for_lookup("[::1]:443"), "::1");
    assert_eq!(hostname_for_lookup("[fe80::1]"), "fe80::1");
    assert_eq!(hostname_for_lookup("[[::1]]"), "::1");
    assert_eq!(hostname_for_lookup("::1"), "::1");
    assert_eq!(hostname_for_lookup("2606:4700::1111"), "2606:4700::1111");
    assert_eq!(hostname_for_lookup("a.com:"), "a.com");
    assert_eq!(hostname_for_lookup("a.com:443:1"), "a.com");
    assert_eq!(hostname_for_lookup("::ffff:1.2.3.4"), "::ffff:1.2.3.4");
}

#[test]
fn domains_are_told_from_addresses_and_blocks() {
    assert!(looks_like_domain(" example.com ", None));
    assert!(!looks_like_domain("1.2.3.4", Some(IpAddress::V4(0x0102_0304))));
    assert!(!looks_like_domain("10.0.0.0/8", None));
    assert!(!looks_like_domain("a b.com", None));
    assert!(!looks_like_domain("a\tb.com", None));
    assert!(!looks_like_domain("localhost", None));
}

#[test]
fn blank_domains_are_not_resolved() {
    assert_eq!(domains_to_resolve(&strings(&[" a.com ", "", "  ", "b.org"])), strings(&["a.com", "b.org"]));
}

#[test]
fn merged_addresses_keep_first_occurrences() {
    let a = IpAddress::V4(1);
    let b = IpAddress::V4(2);
    let c = IpAddress::V6(1);
    assert_eq!(merge_resolved(&vec![vec![a, b], vec![b, c, a], vec![c]]), vec![a, b, c]);
    let mut all = vec![c];
    add_unique(&mut all, &vec![c, c, a]);
    assert_eq!(all, vec![c, a]);
}

#[test]
fn updater_defaults() {
    let s = DnsUpdaterState::new();
    let c = s.get_config();
    assert_eq!(c.cf_api_token, "");
    assert_eq!(c.zone_name, "example.com");
    assert_eq!(c.record_name, "cf.example.com");
    assert_eq!(c.interval_secs, 60);
    assert!(c.single_ip && !c.update_aaaa && !c.enabled);
    let st = s.get_status();
    assert!(!st.running && st.last_update.is_none() && st.last_a_record.is_none() && st.last_aaaa_record.is_none() && st.error.is_none());
}

#[test]
fn start_needs_token_and_names() {
    let mut s = DnsUpdaterState::new();
    assert_eq!(start_dns_updater(&mut s), Err("CF_API_TOKEN 未设置".to_string()));
    let mut c = ready_config();
    c.zone_name = String::new();
    s.update_config(c);
    assert_eq!(start_dns_updater(&mut s), Err("ZONE_NAME 和 RECORD_NAME 不能为空".to_string()));
    assert!(!s.status.running);
    s.update_config(ready_config());
    s.status.error = Some("old".to_string());
    assert_eq!(start_dns_updater(&mut s), Ok(()));
    assert!(s.status.running && s.status.error.is_none());
    stop_dns_updater(&mut s);
    assert!(!s.status.running);
}

#[test]
fn missing_zone_stops_the_updater() {
    let mut s = DnsUpdaterState::new();
    s.status.running = true;
    zone_lookup_failed(&mut s);
    assert!(!s.status.running);
    assert_eq!(s.status.error, Some("无法获取 Zone ID".to_string()));
}

#[test]
fn settings_change_decisions() {
    let mut s = DnsUpdaterState::new();
    let (r, a) = update_dns_config(&mut s, ready_config(), true);
    assert!(r.success);
    assert_eq!(r.message, "DNS 更新器已启动");
    assert_eq!(a, UpdaterAction::Launch);
    assert!(s.status.running);
    let (r, a) = update_dns_config(&mut s, ready_config(), false);
    assert_eq!((r.success, r.message.as_str(), a), (true, "配置已保存", UpdaterAction::Keep));
    let (r, a) = update_dns_config(&mut s, DnsUpdaterConfig::default(), true);
    assert_eq!((r.success, r.message.as_str(), a), (true, "DNS 更新器已停止", UpdaterAction::Halt));
    assert!(!s.status.running);
    let mut bad = ready_config();
    bad.record_name = String::new();
    let (r, a) = update_dns_config(&mut s, bad, true);
    assert_eq!((r.success, r.message.as_str(), a), (false, "ZONE_NAME 和 RECORD_NAME 不能为空", UpdaterAction::Keep));
}

fn changes(v: &[RecordChange]) -> Vec<(RecordType, String)> {
    v.iter().map(|c| (c.rtype, c.ip.clone())).collect()
}

#[test]
fn rounds_write_only_when_addresses_move() {
    let mut l = DnsLoop::new("zone".to_string());
    let mut cfg = ready_config();
    let ips = strings(&["1.1.1.1", "2001:db8::1", "2.2.2.2"]);
    assert_eq!(changes(&l.plan_round(&cfg, &ips)), vec![(RecordType::A, "1.1.1.1".to_string())]);
    assert!(l.plan_round(&cfg, &ips).is_empty());
    cfg.update_aaaa = true;
    assert_eq!(changes(&l.plan_round(&cfg, &ips)), vec![(RecordType::AAAA, "2001:db8::1".to_string())]);
    let moved = strings(&["2.2.2.2", "1.1.1.1", "2001:db8::1"]);
    assert_eq!(changes(&l.plan_round(&cfg, &moved)), vec![(RecordType::A, "2.2.2.2".to_string())]);
    assert_eq!(l.last_a_ips, strings(&["2.2.2.2", "1.1.1.1"]));
    assert!(l.plan_round(&cfg, &vec![]).is_empty());
    assert_eq!(l.last_a_ips, strings(&["2.2.2.2", "1.1.1.1"]));
    cfg.enabled = false;
    assert!(l.plan_round(&cfg, &strings(&["9.9.9.9"])).is_empty());
    assert_eq!(l.zone_id, "zone");
}

fn obj(members: Vec<(&str, JsonValue)>) -> JsonValue {
    JsonValue::Object(members.into_iter().map(|(k, v)| (k.to_string(), v)).collect())
}

#[test]
fn lookup_replies_give_the_first_id() {
    let reply = obj(vec![
        ("success", JsonValue::Bool(true)),
        ("result", JsonValue::Array(vec![obj(vec![("id", JsonValue::Str("abc".to_string()))]), obj(vec![("id", JsonValue::Str("def".to_string()))])])),
    ]);
    assert_eq!(first_result_id(&reply), Some("abc".to_string()));
    assert_eq!(lookup_id(true, &Some(reply)), Some("abc".to_string()));
    let empty = obj(vec![("result", JsonValue::Array(vec![]))]);
    assert_eq!(first_result_id(&empty), None);
    let numeric = obj(vec![("result", JsonValue::Array(vec![obj(vec![("id", JsonValue::Number("7".to_string()))])]))]);
    assert_eq!(first_result_id(&numeric), None);
    assert_eq!(first_result_id(&JsonValue::Array(vec![])), None);
    assert_eq!(lookup_id(false, &Some(obj(vec![("result", JsonValue::Array(vec![obj(vec![("id", JsonValue::Str("x".to_string()))])]))]))), None);
    assert_eq!(lookup_id(true, &None), None);
}

#[test]
fn writes_succeed_only_on_success_true() {
    assert!(write_succeeded(&Some(obj(vec![("errors", JsonValue::Array(vec![])), ("success", JsonValue::Bool(true))]))));
    assert!(!write_succeeded(&Some(obj(vec![("success", JsonValue::Bool(false))]))));
    assert!(!write_succeeded(&Some(obj(vec![("success", JsonValue::Str("true".to_string()))]))));
    assert!(!write_succeeded(&Some(JsonValue::Null)));
    assert!(!write_succeeded(&None));
}

#[test]
fn record_calls_and_bodies() {
    match record_call(Some("rid".to_string())) {
        RecordCall::Update { record_id } => assert_eq!(record_id, "rid"),
        RecordCall::Create => panic!("expected an update"),
    }
    assert!(matches!(record_call(None), RecordCall::Create));
    let b = record_body(&RecordChange { rtype: RecordType::AAAA, ip: "::1".to_string() }, &"cf.example.com".to_string());
    assert_eq!((b.rtype.as_str(), b.name.as_str(), b.content.as_str(), b.ttl, b.proxied), ("AAAA", "cf.example.com", "::1", 60, false));
}

#[test]
fn written_records_show_in_the_status() {
    let mut s = DnsUpdaterState::new();
    record_written(&mut s, &RecordChange { rtype: RecordType::A, ip: "1.1.1.1".to_string() }, 3661);
    assert_eq!(s.status.last_a_record, Some("1.1.1.1".to_string()));
    assert_eq!(s.status.last_update, Some("01:01:01".to_string()));
    assert_eq!(s.status.last_aaaa_record, None);
    record_written(&mut s, &RecordChange { rtype: RecordType::AAAA, ip: "::1".to_string() }, 86399);
    assert_eq!(s.status.last_aaaa_record, Some("::1".to_string()));
    assert_eq!(s.status.last_update, Some("23:59:59".to_string()));
}

#[test]
fn clock_text() {
    assert_eq!(format_now(0), "00:00:00");
    assert_eq!(format_now(3661), "01:01:01");
    assert_eq!(format_now(86399), "23:59:59");
    assert_eq!(format_now(86400), "00:00:00");
    assert_eq!(format_now(1_725_029_869), "14:57:49");
    assert_eq!(format_now(u64::MAX), format_now(u64::MAX % 86400));
}

#[test]
fn api_addresses() {
    let api = cloudflare_api_url();
    assert_eq!(api, "https://api.cloudflare.com/client/v4");
    assert_eq!(zone_lookup_url(&api, "example.com"), "https://api.cloudflare.com/client/v4/zones?name=example.com");
    assert_eq!(record_lookup_url(&api, "z", "cf.example.com", "A"), "https://api.cloudflare.com/client/v4/zones/z/dns_records?name=cf.example.com&type=A");
    assert_eq!(record_url(&api, "z", "r"), "https://api.cloudflare.com/client/v4/zones/z/dns_records/r");
    assert_eq!(records_url(&api, "z"), "https://api.cloudflare.com/client/v4/zones/z/dns_records");
    assert_eq!(bearer("t0k"), "Bearer t0k");
}
