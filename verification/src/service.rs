//! The service's configuration and the state that starting and stopping it
//! moves through, with the decisions of each step.
use vstd::prelude::*;

use crate::net::{sock_port, SockAddr};
use crate::text::{chars_of, copy_opt_strings, copy_strings, string_from_chars, trim_chars, trimmed_nonempty};
use crate::types::{increment_status_version, ConfigOverrides, ConfigOverridesView, StatusVersion};

verus! {

broadcast use vstd::string::group_string_axioms;

/// The configuration of the forwarding service. The loss-rate threshold
/// (`tlr`, a float) is kept beside it by the program, not here.
pub struct ServiceConfig {
    pub ip_file: String,
    pub http: String,
    pub delay_limit: u64,
    pub ips: usize,
    pub threads: usize,
    pub tls_port: u16,
    pub http_port: u16,
    pub colo: Option<Vec<String>>,
    pub addr: SockAddr,
    pub max_sticky_slots: usize,
    /// Custom IP list (`-ip` on the command line or given through the API).
    pub custom_ips: Option<Vec<String>>,
    /// Domains whose addresses join the IP pool (`-domain` or the API).
    pub domains: Option<Vec<String>>,
    pub api_addr: Option<SockAddr>,
}

/// A `ServiceConfig` with its text as character sequences.
pub struct ServiceConfigView {
    pub ip_file: Seq<char>,
    pub http: Seq<char>,
    pub delay_limit: u64,
    pub ips: usize,
    pub threads: usize,
    pub tls_port: u16,
    pub http_port: u16,
    pub colo: Option<Seq<Seq<char>>>,
    pub addr: SockAddr,
    pub max_sticky_slots: usize,
    pub custom_ips: Option<Seq<Seq<char>>>,
    pub domains: Option<Seq<Seq<char>>>,
    pub api_addr: Option<SockAddr>,
}

impl View for ServiceConfig {
    type V = ServiceConfigView;

    open spec fn view(&self) -> ServiceConfigView {
        ServiceConfigView {
            ip_file: self.ip_file@,
            http: self.http@,
            delay_limit: self.delay_limit,
            ips: self.ips,
            threads: self.threads,
            tls_port: self.tls_port,
            http_port: self.http_port,
            colo: self.colo.deep_view(),
            addr: self.addr,
            max_sticky_slots: self.max_sticky_slots,
            custom_ips: self.custom_ips.deep_view(),
            domains: self.domains.deep_view(),
            api_addr: self.api_addr,
        }
    }
}

/// 127.6.6.6:1234, where the service listens unless told otherwise.
pub open spec fn default_listen_addr() -> SockAddr {
    SockAddr::V4 { ip4: 0x7f06_0606, port: 1234 }
}

/// The configuration the service starts from.
pub open spec fn default_config() -> ServiceConfigView {
    ServiceConfigView {
        ip_file: "ip.txt"@,
        http: "http://cp.cloudflare.com/cdn-cgi/trace"@,
        delay_limit: 500,
        ips: 10,
        threads: 16,
        tls_port: 443,
        http_port: 80,
        colo: None,
        addr: default_listen_addr(),
        max_sticky_slots: 5,
        custom_ips: None,
        domains: None,
        api_addr: None,
    }
}

/// `v` where `o` is `Some(v)`, else `cur`.
pub open spec fn or_keep<T>(o: Option<T>, cur: T) -> T {
    match o {
        Some(v) => v,
        None => cur,
    }
}

/// `Some(v)` where `o` is `Some(v)`, else `cur`.
pub open spec fn or_keep_opt<T>(o: Option<T>, cur: Option<T>) -> Option<T> {
    match o {
        Some(v) => Some(v),
        None => cur,
    }
}

/// The configuration `c` with every field that `o` sets replaced.
pub open spec fn overridden(c: ServiceConfigView, o: ConfigOverridesView) -> ServiceConfigView {
    ServiceConfigView {
        ip_file: or_keep(o.ip_file, c.ip_file),
        http: or_keep(o.http, c.http),
        delay_limit: or_keep(o.delay_limit, c.delay_limit),
        ips: or_keep(o.ips, c.ips),
        threads: or_keep(o.threads, c.threads),
        tls_port: or_keep(o.tls_port, c.tls_port),
        http_port: or_keep(o.http_port, c.http_port),
        colo: or_keep_opt(o.colo, c.colo),
        addr: or_keep(o.addr, c.addr),
        max_sticky_slots: or_keep(o.max_sticky_slots, c.max_sticky_slots),
        custom_ips: or_keep_opt(o.custom_ips, c.custom_ips),
        domains: or_keep_opt(o.domains, c.domains),
        api_addr: or_keep_opt(o.api_addr, c.api_addr),
    }
}

impl Default for ServiceConfig {
    fn default() -> (c: Self)
        ensures
            c@ == default_config(),
    {
        ServiceConfig {
            ip_file: "ip.txt".to_string(),
            http: "http://cp.cloudflare.com/cdn-cgi/trace".to_string(),
            delay_limit: 500,
            ips: 10,
            threads: 16,
            tls_port: 443,
            http_port: 80,
            colo: None,
            addr: SockAddr::V4 { ip4: 0x7f06_0606, port: 1234 },
            max_sticky_slots: 5,
            custom_ips: None,
            domains: None,
            api_addr: None,
        }
    }
}

/// 127.0.0.1:0, where the control API listens unless told otherwise (port 0
/// lets the system pick one).
pub open spec fn default_api_addr() -> SockAddr {
    SockAddr::V4 { ip4: 0x7f00_0001, port: 0 }
}

/// Where the control API listens: the configured address, or the default
/// one. `None` when the configured address is the forwarding address itself
/// with a fixed port, which the program refuses.
pub open spec fn api_bind(c: ServiceConfigView) -> Option<SockAddr> {
    match c.api_addr {
        Some(a) => if a == c.addr && sock_port(a) != 0 {
            None
        } else {
            Some(a)
        },
        None => Some(default_api_addr()),
    }
}

impl ServiceConfig {
    /// Where the control API listens, as `api_bind` says.
    pub fn api_bind_addr(&self) -> (r: Option<SockAddr>)
        ensures
            r == api_bind(self@),
    {
        match self.api_addr {
            Some(a) => if a.same_as(&self.addr) && a.port() != 0 {
                None
            } else {
                Some(a)
            },
            None => Some(SockAddr::V4 { ip4: 0x7f00_0001, port: 0 }),
        }
    }

    /// A field-for-field copy.
    pub fn copy(&self) -> (c: ServiceConfig)
        ensures
            c@ == self@,
    {
        ServiceConfig {
            ip_file: self.ip_file.clone(),
            http: self.http.clone(),
            delay_limit: self.delay_limit,
            ips: self.ips,
            threads: self.threads,
            tls_port: self.tls_port,
            http_port: self.http_port,
            colo: copy_opt_strings(&self.colo),
            addr: self.addr,
            max_sticky_slots: self.max_sticky_slots,
            custom_ips: copy_opt_strings(&self.custom_ips),
            domains: copy_opt_strings(&self.domains),
            api_addr: self.api_addr,
        }
    }

    /// Replaces every field that `overrides` sets; the others stay.
    pub fn apply_overrides(&mut self, overrides: &ConfigOverrides)
        ensures
            final(self)@ == overridden(old(self)@, overrides@),
    {
        if let Some(v) = &overrides.ip_file {
            self.ip_file = v.clone();
        }
        if let Some(v) = &overrides.http {
            self.http = v.clone();
        }
        if let Some(v) = overrides.delay_limit {
            self.delay_limit = v;
        }
        if let Some(v) = overrides.ips {
            self.ips = v;
        }
        if let Some(v) = overrides.threads {
            self.threads = v;
        }
        if let Some(v) = overrides.tls_port {
            self.tls_port = v;
        }
        if let Some(v) = overrides.http_port {
            self.http_port = v;
        }
        if let Some(v) = &overrides.colo {
            self.colo = Some(copy_strings(v));
        }
        if let Some(v) = overrides.addr {
            self.addr = v;
        }
        if let Some(v) = overrides.max_sticky_slots {
            self.max_sticky_slots = v;
        }
        if let Some(v) = &overrides.custom_ips {
            self.custom_ips = Some(copy_strings(v));
        }
        if let Some(v) = &overrides.domains {
            self.domains = Some(copy_strings(v));
        }
        if let Some(v) = overrides.api_addr {
            self.api_addr = Some(v);
        }
    }
}

/// The service's life: its configuration and when it started (nanoseconds
/// on the program's monotonic clock); it runs exactly while it has a start
/// time. The pool, the balancer, the tasks and their cancellation belong to
/// the program.
pub struct ServiceState {
    pub config: ServiceConfig,
    pub start_time: Option<u64>,
}

/// A `ServiceState` as values.
pub struct ServiceStateView {
    pub running: bool,
    pub config: ServiceConfigView,
    pub start_time: Option<u64>,
}

impl View for ServiceState {
    type V = ServiceStateView;

    open spec fn view(&self) -> ServiceStateView {
        ServiceStateView {
            running: self.start_time is Some,
            config: self.config@,
            start_time: self.start_time,
        }
    }
}

/// The error when the service is asked to start while it runs.
pub open spec fn already_running_error() -> Seq<char> {
    "服务已在运行"@
}

/// The error when the service is asked to stop while it does not run.
pub open spec fn not_running_error() -> Seq<char> {
    "服务未运行"@
}

/// The error when no source gives an IP.
pub open spec fn no_ip_error() -> Seq<char> {
    "未找到有效的 IP，请通过 -f、-ip 或 -domain 指定"@
}

/// Whether a list setting is given and not empty.
pub open spec fn has_items(o: Option<Seq<Seq<char>>>) -> bool {
    match o {
        Some(v) => v.len() > 0,
        None => false,
    }
}

/// The state after a successful start at `now`.
pub open spec fn started(s: ServiceStateView, now: u64) -> ServiceStateView {
    ServiceStateView { running: true, start_time: Some(now), ..s }
}

/// The state after a stop.
pub open spec fn stopped(s: ServiceStateView) -> ServiceStateView {
    ServiceStateView { running: false, start_time: None, ..s }
}

/// The seconds since the start, at `now` (0 when not started, and when the
/// clock reads earlier than the start).
pub open spec fn uptime_secs(s: ServiceStateView, now: u64) -> int {
    match s.start_time {
        Some(t) => if now >= t {
            (now - t) / 1_000_000_000
        } else {
            0
        },
        None => 0,
    }
}

/// Where the sources of an API start request come from.
pub enum SourcePlan {
    /// The request's own sources, not empty.
    Given(Vec<String>),
    /// None given: the configured sources, through `build_ip_pool`.
    Configured,
}

/// The service part of a status report.
pub struct StatusReport {
    pub version: u64,
    pub running: bool,
    pub uptime_secs: u64,
}

/// How the IP pool is built.
pub enum IpPoolPlan {
    /// The pool holds exactly these entries (file lines and extra sources).
    Combined(Vec<String>),
    /// The pool is the one read from the configured file.
    FileOnly,
}

/// The extra sources of the configuration: the custom IPs when given, then
/// the resolved domain addresses when domains are given.
pub open spec fn extra_sources(c: ServiceConfigView, resolved: Seq<Seq<char>>) -> Seq<Seq<char>> {
    (if has_items(c.custom_ips) {
        c.custom_ips->0
    } else {
        seq![]
    }) + (if has_items(c.domains) {
        resolved
    } else {
        seq![]
    })
}

/// The plan for the IP pool: an error when neither the file nor any extra
/// source gives an IP; the file's pool alone when no extra source is
/// configured; else the file's non-blank lines (when the file gives IPs)
/// followed by the extra sources.
pub open spec fn pool_plan(
    c: ServiceConfigView,
    resolved: Seq<Seq<char>>,
    file_ip_count: int,
    file_lines: Seq<Seq<char>>,
) -> Result<Option<Seq<Seq<char>>>, Seq<char>> {
    let extra = extra_sources(c, resolved);
    if file_ip_count == 0 && extra.len() == 0 {
        Err(no_ip_error())
    } else if has_items(c.custom_ips) || has_items(c.domains) {
        Ok(
            Some(
                (if file_ip_count > 0 {
                    trimmed_nonempty(file_lines)
                } else {
                    seq![]
                }) + extra,
            ),
        )
    } else {
        Ok(None)
    }
}

/// The sources an API start request gives, in order: the file's non-blank
/// lines, the uploaded content, the custom IPs, the resolved domain addresses.
pub open spec fn request_sources(
    file_lines: Seq<Seq<char>>,
    content: Option<Seq<Seq<char>>>,
    custom: Option<Seq<Seq<char>>>,
    resolved: Seq<Seq<char>>,
) -> Seq<Seq<char>> {
    trimmed_nonempty(file_lines) + (match content {
        Some(v) => v,
        None => seq![],
    }) + (match custom {
        Some(v) => v,
        None => seq![],
    }) + resolved
}

/// Whether a list setting is given and not empty.
fn has_entries(o: &Option<Vec<String>>) -> (b: bool)
    ensures
        b == has_items(o.deep_view()),
{
    match o {
        Some(v) => v.len() > 0,
        None => false,
    }
}

/// Appends copies of the strings of `more`.
fn extend_strings(out: &mut Vec<String>, more: &Vec<String>)
    ensures
        final(out).deep_view() == old(out).deep_view() + more.deep_view(),
{
    let mut i: usize = 0;
    while i < more.len()
        invariant
            i <= more.len(),
            out.deep_view() =~= old(out).deep_view() + more.deep_view().take(i as int),
        decreases more.len() - i,
    {
        let ghost before = out.deep_view();
        out.push(more[i].clone());
        assert(out.deep_view() =~= before.push(more[i as int]@));
        assert(more.deep_view().take(i + 1) =~= more.deep_view().take(i as int).push(
            more[i as int]@,
        ));
        i = i + 1;
    }
    assert(more.deep_view().take(more.len() as int) =~= more.deep_view());
}

/// The non-blank lines of a file, trimmed.
pub fn nonblank_lines(lines: &Vec<String>) -> (out: Vec<String>)
    ensures
        out.deep_view() == trimmed_nonempty(lines.deep_view()),
{
    let mut out: Vec<String> = Vec::new();
    let mut i: usize = 0;
    assert(lines.deep_view().take(0) =~= Seq::<Seq<char>>::empty());
    while i < lines.len()
        invariant
            i <= lines.len(),
            out.deep_view() == trimmed_nonempty(lines.deep_view().take(i as int)),
        decreases lines.len() - i,
    {
        assert(lines.deep_view().take(i + 1).drop_last() =~= lines.deep_view().take(i as int));
        assert(lines.deep_view().take(i + 1).last() == lines[i as int]@);
        let v = chars_of(lines[i].as_str());
        let t = trim_chars(&v);
        if t.len() > 0 {
            let ghost before = out.deep_view();
            out.push(string_from_chars(t.as_slice()));
            assert(out.deep_view() =~= before.push(t@));
        }
        i = i + 1;
    }
    assert(lines.deep_view().take(lines.len() as int) =~= lines.deep_view());
    out
}

impl Default for ServiceState {
    fn default() -> (s: Self)
        ensures
            s@ == (ServiceStateView { running: false, config: default_config(), start_time: None }),
    {
        ServiceState::new()
    }
}

impl ServiceState {
    /// A stopped service with the default configuration.
    pub fn new() -> (s: ServiceState)
        ensures
            s@ == (ServiceStateView { running: false, config: default_config(), start_time: None }),
    {
        ServiceState { config: ServiceConfig::default(), start_time: None }
    }

    /// Whether the service runs.
    pub fn is_running(&self) -> (b: bool)
        ensures
            b == self@.running,
    {
        self.start_time.is_some()
    }

    /// The configuration.
    pub fn get_config(&self) -> (c: ServiceConfig)
        ensures
            c@ == self.config@,
    {
        self.config.copy()
    }

    /// Replaces the configuration; nothing else changes.
    pub fn update_config(&mut self, new_config: ServiceConfig)
        ensures
            final(self)@ == (ServiceStateView { config: new_config@, ..old(self)@ }),
    {
        self.config = new_config;
    }

    /// Seconds since the start, as `uptime_secs` says, at `now` on the
    /// program's monotonic clock.
    pub fn get_uptime_secs(&self, now: u64) -> (secs: u64)
        ensures
            secs as int == uptime_secs(self@, now),
    {
        match self.start_time {
            Some(t) => now.saturating_sub(t) / 1_000_000_000,
            None => 0,
        }
    }

    /// Refuses a start while the service runs.
    pub fn begin_start(&self) -> (r: Result<(), String>)
        ensures
            r is Ok <==> !self@.running,
            r matches Err(e) ==> e@ == already_running_error(),
    {
        if self.start_time.is_some() {
            return Err("服务已在运行".to_string());
        }
        Ok(())
    }

    /// Whether a start from the configured file can go ahead, given how many
    /// IPs the file's pool holds: not while running; not when the file gives
    /// none and neither custom IPs nor domains are configured.
    pub fn start(&self, file_ip_count: usize) -> (r: Result<(), String>)
        ensures
            self@.running ==> (r matches Err(e) && e@ == already_running_error()),
            !self@.running && file_ip_count == 0 && !has_items(self.config@.custom_ips) && !has_items(
                self.config@.domains,
            ) ==> (r matches Err(e) && e@ == no_ip_error()),
            r is Ok <==> (!self@.running && (file_ip_count > 0 || has_items(self.config@.custom_ips)
                || has_items(self.config@.domains))),
    {
        if self.start_time.is_some() {
            return Err("服务已在运行".to_string());
        }
        let has_custom = has_entries(&self.config.custom_ips);
        let has_domains = has_entries(&self.config.domains);
        if file_ip_count == 0 && !has_custom && !has_domains {
            return Err("未找到有效的 IP，请通过 -f、-ip 或 -domain 指定".to_string());
        }
        Ok(())
    }

    /// The plan for the IP pool, as `pool_plan` says, given the addresses the
    /// configured domains resolved to (as text), how many IPs the file's pool
    /// holds and the file's lines.
    pub fn build_ip_pool(
        &self,
        resolved: &Vec<String>,
        file_ip_count: usize,
        file_lines: &Vec<String>,
    ) -> (r: Result<IpPoolPlan, String>)
        ensures
            match r {
                Ok(IpPoolPlan::Combined(v)) => pool_plan(
                    self.config@,
                    resolved.deep_view(),
                    file_ip_count as int,
                    file_lines.deep_view(),
                ) == Ok::<Option<Seq<Seq<char>>>, Seq<char>>(Some(v.deep_view())),
                Ok(IpPoolPlan::FileOnly) => pool_plan(
                    self.config@,
                    resolved.deep_view(),
                    file_ip_count as int,
                    file_lines.deep_view(),
                ) == Ok::<Option<Seq<Seq<char>>>, Seq<char>>(None),
                Err(e) => pool_plan(
                    self.config@,
                    resolved.deep_view(),
                    file_ip_count as int,
                    file_lines.deep_view(),
                ) == Err::<Option<Seq<Seq<char>>>, Seq<char>>(e@),
            },
    {
        let has_custom = has_entries(&self.config.custom_ips);
        let has_domains = has_entries(&self.config.domains);
        let mut all_sources: Vec<String> = Vec::new();
        assert(all_sources.deep_view() =~= Seq::<Seq<char>>::empty());
        if has_custom {
            match &self.config.custom_ips {
                Some(v) => extend_strings(&mut all_sources, v),
                None => {},
            }
        }
        if has_domains {
            extend_strings(&mut all_sources, resolved);
        }
        assert(all_sources.deep_view() =~= extra_sources(self.config@, resolved.deep_view()));
        if file_ip_count == 0 && all_sources.len() == 0 {
            return Err("未找到有效的 IP，请通过 -f、-ip 或 -domain 指定".to_string());
        }
        if has_custom || has_domains {
            let mut combined: Vec<String> = if file_ip_count > 0 {
                nonblank_lines(file_lines)
            } else {
                Vec::new()
            };
            assert(file_ip_count == 0 ==> combined.deep_view() =~= Seq::<Seq<char>>::empty());
            extend_strings(&mut combined, &all_sources);
            Ok(IpPoolPlan::Combined(combined))
        } else {
            Ok(IpPoolPlan::FileOnly)
        }
    }

    /// The sources of an API start request, once the start is allowed (not
    /// while running): the request's own sources, as `request_sources` says,
    /// or, when they are empty, the configured ones (`build_ip_pool`).
    pub fn start_with_sources(
        &self,
        file_lines: &Vec<String>,
        ip_content: &Option<Vec<String>>,
        custom_ips: &Option<Vec<String>>,
        resolved: &Vec<String>,
    ) -> (r: Result<SourcePlan, String>)
        ensures
            self@.running ==> (r matches Err(e) && e@ == already_running_error()),
            !self@.running ==> r is Ok,
            r matches Ok(SourcePlan::Given(all)) ==> all.deep_view() == request_sources(
                file_lines.deep_view(),
                ip_content.deep_view(),
                custom_ips.deep_view(),
                resolved.deep_view(),
            ) && all.len() > 0,
            r matches Ok(SourcePlan::Configured) ==> request_sources(
                file_lines.deep_view(),
                ip_content.deep_view(),
                custom_ips.deep_view(),
                resolved.deep_view(),
            ).len() == 0,
    {
        if self.start_time.is_some() {
            return Err("服务已在运行".to_string());
        }
        let mut all = nonblank_lines(file_lines);
        match ip_content {
            Some(v) => extend_strings(&mut all, v),
            None => {},
        }
        match custom_ips {
            Some(v) => extend_strings(&mut all, v),
            None => {},
        }
        extend_strings(&mut all, resolved);
        assert(all.deep_view() =~= request_sources(
            file_lines.deep_view(),
            ip_content.deep_view(),
            custom_ips.deep_view(),
            resolved.deep_view(),
        ));
        if all.len() == 0 {
            Ok(SourcePlan::Configured)
        } else {
            Ok(SourcePlan::Given(all))
        }
    }

    /// The status report: whether the service runs and for how long at `now`,
    /// with a fresh version (the counter advanced by one) when a balancer
    /// reports it, or version 0 for an empty report.
    pub fn build_full_status(&self, counter: &mut StatusVersion, now: u64, balancer_present: bool) -> (r:
        StatusReport)
        requires
            balancer_present ==> old(counter).value < u64::MAX,
        ensures
            r.running == self@.running,
            r.uptime_secs as int == uptime_secs(self@, now),
            balancer_present ==> final(counter).value == old(counter).value + 1 && r.version
                == final(counter).value,
            !balancer_present ==> final(counter).value == old(counter).value && r.version == 0,
    {
        let version = if balancer_present {
            increment_status_version(counter)
        } else {
            0
        };
        StatusReport {
            version,
            running: self.is_running(),
            uptime_secs: self.get_uptime_secs(now),
        }
    }

    /// Records a successful start at `now`.
    pub fn mark_started(&mut self, now: u64)
        ensures
            final(self)@ == started(old(self)@, now),
    {
        self.start_time = Some(now);
    }

    /// Refuses a stop while the service does not run.
    pub fn begin_stop(&self) -> (r: Result<(), String>)
        ensures
            r is Ok <==> self@.running,
            r matches Err(e) ==> e@ == not_running_error(),
    {
        if self.start_time.is_none() {
            return Err("服务未运行".to_string());
        }
        Ok(())
    }

    /// Records a stop, once the program has cancelled and awaited the tasks.
    pub fn mark_stopped(&mut self)
        ensures
            final(self)@ == stopped(old(self)@),
    {
        self.start_time = None;
    }
}

/// The service runs exactly while it has a start time, in every state.
pub proof fn lemma_running_iff_started(s: ServiceState)
    ensures
        s@.running <==> s@.start_time is Some,
{
}

/// A start refused while running, a stop refused while stopped: after a
/// start the service refuses another start; after a stop it refuses another
/// stop, accepts a start, and has no start time.
pub proof fn lemma_start_stop_cycle(s: ServiceStateView, now: u64)
    ensures
        started(s, now).running,
        !stopped(started(s, now)).running,
        stopped(started(s, now)).start_time is None,
        stopped(started(s, now)).config == s.config,
        stopped(started(s, now)) == stopped(s),
        uptime_secs(stopped(s), now) == 0,
{
}

/// Applying the same overrides twice is applying them once, and overrides
/// that set nothing change nothing.
pub proof fn lemma_overrides_idempotent(c: ServiceConfigView, o: ConfigOverridesView)
    ensures
        overridden(overridden(c, o), o) == overridden(c, o),
        (o.ip_file is None && o.http is None && o.delay_limit is None && o.ips is None
            && o.threads is None && o.tls_port is None && o.http_port is None && o.colo is None
            && o.addr is None && o.max_sticky_slots is None && o.custom_ips is None && o.domains is None
            && o.api_addr is None) ==> overridden(c, o) == c,
{
}

/// Each setting that the overrides give replaces that same setting and no
/// other; each setting they leave out keeps its value.
pub proof fn lemma_overrides_by_field(c: ServiceConfigView, o: ConfigOverridesView)
    ensures
        overridden(c, o).ip_file == (if o.ip_file is Some { o.ip_file->0 } else { c.ip_file }),
        overridden(c, o).http == (if o.http is Some { o.http->0 } else { c.http }),
        overridden(c, o).delay_limit == (if o.delay_limit is Some { o.delay_limit->0 } else { c.delay_limit }),
        overridden(c, o).ips == (if o.ips is Some { o.ips->0 } else { c.ips }),
        overridden(c, o).threads == (if o.threads is Some { o.threads->0 } else { c.threads }),
        overridden(c, o).tls_port == (if o.tls_port is Some { o.tls_port->0 } else { c.tls_port }),
        overridden(c, o).http_port == (if o.http_port is Some { o.http_port->0 } else { c.http_port }),
        overridden(c, o).colo == (if o.colo is Some { o.colo } else { c.colo }),
        overridden(c, o).addr == (if o.addr is Some { o.addr->0 } else { c.addr }),
        overridden(c, o).max_sticky_slots == (if o.max_sticky_slots is Some {
            o.max_sticky_slots->0
        } else {
            c.max_sticky_slots
        }),
        overridden(c, o).custom_ips == (if o.custom_ips is Some { o.custom_ips } else { c.custom_ips }),
        overridden(c, o).domains == (if o.domains is Some { o.domains } else { c.domains }),
        overridden(c, o).api_addr == (if o.api_addr is Some { o.api_addr } else { c.api_addr }),
{
}

/// The list a setting gives, or nothing.
pub open spec fn listed(o: Option<Seq<Seq<char>>>) -> Seq<Seq<char>> {
    match o {
        Some(v) => v,
        None => seq![],
    }
}

/// How the pool is made from its sources. It fails, with the no-IP error,
/// exactly when the file gives no IP, no custom IP is configured and the
/// configured domains (if any) resolved to nothing. With neither custom IPs
/// nor domains configured it is the file's pool alone. Otherwise it is the
/// file's non-blank lines (when the file gives IPs), then every custom IP,
/// then every resolved address, whether or not custom IPs are configured.
pub proof fn lemma_pool_sources(
    c: ServiceConfigView,
    resolved: Seq<Seq<char>>,
    file_ip_count: int,
    file_lines: Seq<Seq<char>>,
)
    requires
        file_ip_count >= 0,
    ensures
        pool_plan(c, resolved, file_ip_count, file_lines) is Err <==> (file_ip_count == 0
            && !has_items(c.custom_ips) && !(has_items(c.domains) && resolved.len() > 0)),
        pool_plan(c, resolved, file_ip_count, file_lines) is Err ==> pool_plan(
            c,
            resolved,
            file_ip_count,
            file_lines,
        ) == Err::<Option<Seq<Seq<char>>>, Seq<char>>(no_ip_error()),
        file_ip_count > 0 && !has_items(c.custom_ips) && !has_items(c.domains) ==> pool_plan(
            c,
            resolved,
            file_ip_count,
            file_lines,
        ) == Ok::<Option<Seq<Seq<char>>>, Seq<char>>(None),
        (has_items(c.custom_ips) || has_items(c.domains)) && !(pool_plan(
            c,
            resolved,
            file_ip_count,
            file_lines,
        ) is Err) ==> pool_plan(c, resolved, file_ip_count, file_lines) == Ok::<
            Option<Seq<Seq<char>>>,
            Seq<char>,
        >(
            Some(
                (if file_ip_count > 0 {
                    trimmed_nonempty(file_lines)
                } else {
                    seq![]
                }) + (if has_items(c.custom_ips) {
                    listed(c.custom_ips)
                } else {
                    seq![]
                }) + (if has_items(c.domains) {
                    resolved
                } else {
                    seq![]
                }),
            ),
        ),
{
    let x = extra_sources(c, resolved);
    assert(has_items(c.custom_ips) ==> listed(c.custom_ips).len() > 0);
    if file_ip_count > 0 {
        let f = trimmed_nonempty(file_lines);
        assert(f + x == f + (if has_items(c.custom_ips) {
            listed(c.custom_ips)
        } else {
            seq![]
        }) + (if has_items(c.domains) {
            resolved
        } else {
            seq![]
        }));
    } else {
        let e: Seq<Seq<char>> = seq![];
        assert(e + x =~= e + (if has_items(c.custom_ips) {
            listed(c.custom_ips)
        } else {
            seq![]
        }) + (if has_items(c.domains) {
            resolved
        } else {
            seq![]
        }));
    }
}

/// An API start request's sources, in order: the file's non-blank lines, the
/// uploaded content, the custom IPs, the resolved addresses, each of them
/// whole. So the request counts as empty only when every part is empty: one
/// that gives only custom IPs is started with exactly those.
pub proof fn lemma_request_sources_parts(
    file_lines: Seq<Seq<char>>,
    content: Option<Seq<Seq<char>>>,
    custom: Option<Seq<Seq<char>>>,
    resolved: Seq<Seq<char>>,
)
    ensures
        request_sources(file_lines, content, custom, resolved).len() == trimmed_nonempty(
            file_lines,
        ).len() + listed(content).len() + listed(custom).len() + resolved.len(),
        request_sources(file_lines, content, custom, resolved).subrange(
            0,
            trimmed_nonempty(file_lines).len() as int,
        ) == trimmed_nonempty(file_lines),
        request_sources(file_lines, content, custom, resolved).subrange(
            trimmed_nonempty(file_lines).len() as int,
            trimmed_nonempty(file_lines).len() as int + listed(content).len(),
        ) == listed(content),
        request_sources(file_lines, content, custom, resolved).subrange(
            trimmed_nonempty(file_lines).len() as int + listed(content).len(),
            trimmed_nonempty(file_lines).len() as int + listed(content).len() + listed(custom).len(),
        ) == listed(custom),
        request_sources(file_lines, content, custom, resolved).subrange(
            trimmed_nonempty(file_lines).len() as int + listed(content).len() + listed(custom).len(),
            request_sources(file_lines, content, custom, resolved).len() as int,
        ) == resolved,
        forall|i: int|
            0 <= i < listed(custom).len() ==> request_sources(
                file_lines,
                content,
                custom,
                resolved,
            ).contains(#[trigger] listed(custom)[i]),
        request_sources(file_lines, content, custom, resolved).len() == 0 <==> (trimmed_nonempty(
            file_lines,
        ).len() == 0 && listed(content).len() == 0 && listed(custom).len() == 0 && resolved.len()
            == 0),
{
    let f = trimmed_nonempty(file_lines);
    let a = listed(content);
    let b = listed(custom);
    let s = request_sources(file_lines, content, custom, resolved);
    assert(s =~= f + a + b + resolved);
    assert(s.subrange(0, f.len() as int) =~= f);
    assert(s.subrange(f.len() as int, f.len() as int + a.len()) =~= a);
    assert(s.subrange(f.len() as int + a.len(), f.len() as int + a.len() + b.len()) =~= b);
    assert(s.subrange(f.len() as int + a.len() + b.len(), s.len() as int) =~= resolved);
    assert forall|i: int| 0 <= i < b.len() implies s.contains(#[trigger] b[i]) by {
        assert(s[f.len() as int + a.len() + i] == b[i]);
    }
}

} // verus!
