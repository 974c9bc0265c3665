use cfnat::api::{clear_logs_reply, health_check, start_service_reply, stop_service_reply};
use cfnat::net::SockAddr;
use cfnat::service::{nonblank_lines, IpPoolPlan, ServiceConfig, ServiceState, SourcePlan};
use cfnat::types::{increment_status_version, ConfigOverrides, StatusVersion};

fn strings(v: &[&str]) -> Vec<String> {
    v.iter().map(|s| s.to_string()).collect()
}

#[test]
fn overrides_replace_only_what_they_set() {
    let mut c = ServiceConfig::default();
    let mut o = ConfigOverrides::none();
    c.apply_overrides(&o);
    assert_eq!(c.ips, 10);
    o.ips = Some(42);
    o.colo = Some(strings(&["SJC"]));
    o.addr = Some(SockAddr::V4 { ip4: 0, port: 80 });
    o.ip_file = Some("other.txt".to_string());
    o.api_addr = Some(SockAddr::V4 { ip4: 1, port: 1 });
    c.apply_overrides(&o);
    assert_eq!(c.ips, 42);
    assert_eq!(c.colo, Some(strings(&["SJC"])));
    assert_eq!(c.addr, SockAddr::V4 { ip4: 0, port: 80 });
    assert_eq!(c.ip_file, "other.txt");
    assert_eq!(c.api_addr, Some(SockAddr::V4 { ip4: 1, port: 1 }));
    assert_eq!(c.threads, 16);
    assert_eq!(c.http, "http://cp.cloudflare.com/cdn-cgi/trace");
    let once = c.copy();
    c.apply_overrides(&o);
    assert_eq!((c.ips, c.colo.clone(), c.ip_file.clone()), (once.ips, once.colo.clone(), once.ip_file.clone()));
}

#[test]
fn start_and_stop_cycle() {
    let mut s = ServiceState::new();
    assert!(!s.is_running());
    assert_eq!(s.begin_stop(), Err("服务未运行".to_string()));
    assert_eq!(s.begin_start(), Ok(()));
    assert_eq!(s.get_uptime_secs(5_000_000_000), 0);
    s.mark_started(1_000_000_000);
    assert!(s.is_running());
    assert_eq!(s.begin_start(), Err("服务已在运行".to_string()));
    assert_eq!(s.start(10), Err("服务已在运行".to_string()));
    assert_eq!(s.get_uptime_secs(3_999_999_999), 2);
    assert_eq!(s.get_uptime_secs(0), 0);
    assert_eq!(s.begin_stop(), Ok(()));
    s.mark_stopped();
    assert!(!s.is_running());
    assert_eq!(s.start_time, None);
    s.mark_started(7);
    assert_eq!((s.is_running(), s.start_time), (true, Some(7)));
}

#[test]
fn start_needs_some_ip_source() {
    let mut s = ServiceState::new();
    assert_eq!(s.start(0), Err("未找到有效的 IP，请通过 -f、-ip 或 -domain 指定".to_string()));
    assert_eq!(s.start(3), Ok(()));
    let mut c = s.get_config();
    c.domains = Some(vec![]);
    s.update_config(c);
    assert!(s.start(0).is_err());
    let mut c = s.get_config();
    c.custom_ips = Some(strings(&["1.1.1.1"]));
    s.update_config(c);
    assert_eq!(s.start(0), Ok(()));
}

#[test]
fn pool_plans() {
    let mut s = ServiceState::new();
    let lines = strings(&[" 1.0.0.1 ", "", "1.0.0.0/30"]);
    match s.build_ip_pool(&vec![], 4, &lines) {
        Ok(IpPoolPlan::FileOnly) => {}
        _ => panic!("expected the file pool"),
    }
    assert!(s.build_ip_pool(&vec![], 0, &vec![]).is_err());
    let mut c = s.get_config();
    c.custom_ips = Some(strings(&["9.9.9.9"]));
    c.domains = Some(strings(&["a.com"]));
    s.update_config(c);
    match s.build_ip_pool(&strings(&["8.8.8.8"]), 4, &lines) {
        Ok(IpPoolPlan::Combined(v)) => assert_eq!(v, strings(&["1.0.0.1", "1.0.0.0/30", "9.9.9.9", "8.8.8.8"])),
        _ => panic!("expected a combined pool"),
    }
    match s.build_ip_pool(&vec![], 0, &lines) {
        Ok(IpPoolPlan::Combined(v)) => assert_eq!(v, strings(&["9.9.9.9"])),
        _ => panic!("expected a combined pool"),
    }
    let mut c = s.get_config();
    c.custom_ips = None;
    s.update_config(c);
    match s.build_ip_pool(&vec![], 0, &lines) {
        Err(e) => assert_eq!(e, "未找到有效的 IP，请通过 -f、-ip 或 -domain 指定"),
        _ => panic!("expected no IP"),
    }
}

#[test]
fn request_sources_in_order() {
    let mut s = ServiceState::new();
    match s.start_with_sources(&strings(&["a", " "]), &Some(strings(&["b"])), &None, &strings(&["c"])) {
        Ok(SourcePlan::Given(all)) => assert_eq!(all, strings(&["a", "b", "c"])),
        _ => panic!("expected the request's sources"),
    }
    match s.start_with_sources(&strings(&[" "]), &None, &Some(vec![]), &vec![]) {
        Ok(SourcePlan::Configured) => {}
        _ => panic!("expected the configured sources"),
    }
    assert_eq!(nonblank_lines(&strings(&["  x\t", "\u{3000}"])), strings(&["x"]));
    s.mark_started(0);
    match s.start_with_sources(&strings(&["a"]), &None, &None, &vec![]) {
        Err(e) => assert_eq!(e, "服务已在运行"),
        _ => panic!("expected a refusal"),
    }
}

#[test]
fn api_listens_apart_from_the_forwarder() {
    let mut c = ServiceConfig::default();
    assert_eq!(c.api_bind_addr(), Some(SockAddr::V4 { ip4: 0x7f00_0001, port: 0 }));
    c.api_addr = Some(c.addr);
    assert_eq!(c.api_bind_addr(), None);
    c.api_addr = Some(SockAddr::V4 { ip4: 0x7f06_0606, port: 0 });
    c.addr = SockAddr::V4 { ip4: 0x7f06_0606, port: 0 };
    assert_eq!(c.api_bind_addr(), Some(SockAddr::V4 { ip4: 0x7f06_0606, port: 0 }));
    c.api_addr = Some(SockAddr::V4 { ip4: 1, port: 9 });
    assert_eq!(c.api_bind_addr(), Some(SockAddr::V4 { ip4: 1, port: 9 }));
}

#[test]
fn replies() {
    let r = start_service_reply(Ok(()));
    assert_eq!((r.success, r.message.as_str()), (true, "服务已启动"));
    let r = start_service_reply(Err("服务已在运行".to_string()));
    assert_eq!((r.success, r.message.as_str()), (false, "服务已在运行"));
    let r = stop_service_reply(Ok(()));
    assert_eq!((r.success, r.message.as_str()), (true, "服务已停止"));
    let r = health_check();
    assert_eq!((r.success, r.message.as_str()), (true, "服务运行正常"));
    let r = clear_logs_reply();
    assert_eq!((r.success, r.message.as_str()), (true, "日志已清空"));
}

#[test]
fn status_reports() {
    let mut s = ServiceState::new();
    let mut v = StatusVersion::new();
    let r = s.build_full_status(&mut v, 9_000_000_000, false);
    assert_eq!((r.version, r.running, r.uptime_secs, v.value), (0, false, 0, 0));
    s.mark_started(1_000_000_000);
    let r = s.build_full_status(&mut v, 9_000_000_000, true);
    assert_eq!((r.version, r.running, r.uptime_secs, v.value), (1, true, 8, 1));
    let r = s.build_full_status(&mut v, 9_000_000_000, true);
    assert_eq!(r.version, 2);
}

#[test]
fn status_versions_count_up() {
    let mut v = StatusVersion::new();
    assert_eq!(increment_status_version(&mut v), 1);
    assert_eq!(increment_status_version(&mut v), 2);
    assert_eq!(v.value, 2);
}
