//! Values passed between the service, its status report and its API.
use vstd::prelude::*;

use crate::net::SockAddr;

verus! {

/// Settings that replace those of a `ServiceConfig` where they are given.
/// The loss-rate threshold (`tlr`, a float) travels beside it in the program.
pub struct ConfigOverrides {
    pub ip_file: Option<String>,
    pub ip_content: Option<Vec<String>>,
    pub http: Option<String>,
    pub delay_limit: Option<u64>,
    pub ips: Option<usize>,
    pub threads: Option<usize>,
    pub tls_port: Option<u16>,
    pub http_port: Option<u16>,
    pub colo: Option<Vec<String>>,
    pub addr: Option<SockAddr>,
    pub max_sticky_slots: Option<usize>,
    pub custom_ips: Option<Vec<String>>,
    pub domains: Option<Vec<String>>,
    pub api_addr: Option<SockAddr>,
}

/// A `ConfigOverrides` with its text as character sequences.
pub struct ConfigOverridesView {
    pub ip_file: Option<Seq<char>>,
    pub ip_content: Option<Seq<Seq<char>>>,
    pub http: Option<Seq<char>>,
    pub delay_limit: Option<u64>,
    pub ips: Option<usize>,
    pub threads: Option<usize>,
    pub tls_port: Option<u16>,
    pub http_port: Option<u16>,
    pub colo: Option<Seq<Seq<char>>>,
    pub addr: Option<SockAddr>,
    pub max_sticky_slots: Option<usize>,
    pub custom_ips: Option<Seq<Seq<char>>>,
    pub domains: Option<Seq<Seq<char>>>,
    pub api_addr: Option<SockAddr>,
}

impl View for ConfigOverrides {
    type V = ConfigOverridesView;

    open spec fn view(&self) -> ConfigOverridesView {
        ConfigOverridesView {
            ip_file: self.ip_file.deep_view(),
            ip_content: self.ip_content.deep_view(),
            http: self.http.deep_view(),
            delay_limit: self.delay_limit,
            ips: self.ips,
            threads: self.threads,
            tls_port: self.tls_port,
            http_port: self.http_port,
            colo: self.colo.deep_view(),
            addr: self.addr,
            max_sticky_slots: self.max_sticky_slots,
            custom_ips: self.custom_ips.deep_view(),
            domains: self.domains.deep_view(),
            api_addr: self.api_addr,
        }
    }
}

impl ConfigOverrides {
    /// Overrides that set nothing.
    pub fn none() -> (o: ConfigOverrides)
        ensures
            o@ == (ConfigOverridesView {
                ip_file: None,
                ip_content: None,
                http: None,
                delay_limit: None,
                ips: None,
                threads: None,
                tls_port: None,
                http_port: None,
                colo: None,
                addr: None,
                max_sticky_slots: None,
                custom_ips: None,
                domains: None,
                api_addr: None,
            }),
    {
        ConfigOverrides {
            ip_file: None,
            ip_content: None,
            http: None,
            delay_limit: None,
            ips: None,
            threads: None,
            tls_port: None,
            http_port: None,
            colo: None,
            addr: None,
            max_sticky_slots: None,
            custom_ips: None,
            domains: None,
            api_addr: None,
        }
    }
}

/// The counter behind the version number of each status report.
pub struct StatusVersion {
    pub value: u64,
}

impl StatusVersion {
    /// A counter that has handed out no version yet.
    pub fn new() -> (c: StatusVersion)
        ensures
            c.value == 0,
    {
        StatusVersion { value: 0 }
    }
}

/// Advances the counter by one and returns its new value, so that successive
/// status reports carry 1, 2, 3, and so on.
pub fn increment_status_version(counter: &mut StatusVersion) -> (v: u64)
    requires
        old(counter).value < u64::MAX,
    ensures
        final(counter).value == old(counter).value + 1,
        v == final(counter).value,
{
    counter.value = counter.value + 1;
    counter.value
}

} // verus!
