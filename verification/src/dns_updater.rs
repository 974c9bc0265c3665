//! The Cloudflare DNS updater: its configuration and status, the checks made
//! when it starts, and the decisions of its update loop (which records to
//! write with which address, what each API reply means, what the status then
//! says). The HTTP calls, the timer and the task run in the program.
use vstd::prelude::*;

use crate::text::{append_str, chars_eq_str, chars_of, contains_char, string_from_chars};

verus! {

broadcast use vstd::string::group_string_axioms;

/// The updater's settings.
pub struct DnsUpdaterConfig {
    /// Cloudflare API token.
    pub cf_api_token: String,
    /// Zone name, such as "example.com".
    pub zone_name: String,
    /// Record name, such as "cf.example.com".
    pub record_name: String,
    /// Seconds between two rounds.
    pub interval_secs: u64,
    /// Whether only one IP is published.
    pub single_ip: bool,
    /// Whether AAAA records are updated too.
    pub update_aaaa: bool,
    /// Whether the updater is enabled.
    pub enabled: bool,
}

/// A `DnsUpdaterConfig` with its text as character sequences.
pub struct DnsUpdaterConfigView {
    pub cf_api_token: Seq<char>,
    pub zone_name: Seq<char>,
    pub record_name: Seq<char>,
    pub interval_secs: u64,
    pub single_ip: bool,
    pub update_aaaa: bool,
    pub enabled: bool,
}

impl View for DnsUpdaterConfig {
    type V = DnsUpdaterConfigView;

    open spec fn view(&self) -> DnsUpdaterConfigView {
        DnsUpdaterConfigView {
            cf_api_token: self.cf_api_token@,
            zone_name: self.zone_name@,
            record_name: self.record_name@,
            interval_secs: self.interval_secs,
            single_ip: self.single_ip,
            update_aaaa: self.update_aaaa,
            enabled: self.enabled,
        }
    }
}

/// The settings the updater starts with.
pub open spec fn default_dns_config() -> DnsUpdaterConfigView {
    DnsUpdaterConfigView {
        cf_api_token: seq![],
        zone_name: "example.com"@,
        record_name: "cf.example.com"@,
        interval_secs: 60,
        single_ip: true,
        update_aaaa: false,
        enabled: false,
    }
}

impl Default for DnsUpdaterConfig {
    fn default() -> (c: Self)
        ensures
            c@ == default_dns_config(),
    {
        DnsUpdaterConfig {
            cf_api_token: String::new(),
            zone_name: "example.com".to_string(),
            record_name: "cf.example.com".to_string(),
            interval_secs: 60,
            single_ip: true,
            update_aaaa: false,
            enabled: false,
        }
    }
}

impl DnsUpdaterConfig {
    /// A field-for-field copy.
    pub fn copy(&self) -> (c: DnsUpdaterConfig)
        ensures
            c@ == self@,
    {
        DnsUpdaterConfig {
            cf_api_token: self.cf_api_token.clone(),
            zone_name: self.zone_name.clone(),
            record_name: self.record_name.clone(),
            interval_secs: self.interval_secs,
            single_ip: self.single_ip,
            update_aaaa: self.update_aaaa,
            enabled: self.enabled,
        }
    }
}

/// What the updater reports about itself.
pub struct DnsUpdaterStatus {
    pub running: bool,
    pub last_update: Option<String>,
    pub last_a_record: Option<String>,
    pub last_aaaa_record: Option<String>,
    pub error: Option<String>,
}

/// A `DnsUpdaterStatus` with its text as character sequences.
pub struct DnsUpdaterStatusView {
    pub running: bool,
    pub last_update: Option<Seq<char>>,
    pub last_a_record: Option<Seq<char>>,
    pub last_aaaa_record: Option<Seq<char>>,
    pub error: Option<Seq<char>>,
}

impl View for DnsUpdaterStatus {
    type V = DnsUpdaterStatusView;

    open spec fn view(&self) -> DnsUpdaterStatusView {
        DnsUpdaterStatusView {
            running: self.running,
            last_update: self.last_update.deep_view(),
            last_a_record: self.last_a_record.deep_view(),
            last_aaaa_record: self.last_aaaa_record.deep_view(),
            error: self.error.deep_view(),
        }
    }
}

/// The status before the updater has ever run.
pub open spec fn idle_status() -> DnsUpdaterStatusView {
    DnsUpdaterStatusView {
        running: false,
        last_update: None,
        last_a_record: None,
        last_aaaa_record: None,
        error: None,
    }
}

/// A copy of an optional string.
fn copy_opt_string(o: &Option<String>) -> (r: Option<String>)
    ensures
        r.deep_view() == o.deep_view(),
{
    match o {
        Some(s) => Some(s.clone()),
        None => None,
    }
}

impl Default for DnsUpdaterStatus {
    fn default() -> (s: Self)
        ensures
            s@ == idle_status(),
    {
        DnsUpdaterStatus {
            running: false,
            last_update: None,
            last_a_record: None,
            last_aaaa_record: None,
            error: None,
        }
    }
}

impl DnsUpdaterStatus {
    /// A field-for-field copy.
    pub fn copy(&self) -> (s: DnsUpdaterStatus)
        ensures
            s@ == self@,
    {
        DnsUpdaterStatus {
            running: self.running,
            last_update: copy_opt_string(&self.last_update),
            last_a_record: copy_opt_string(&self.last_a_record),
            last_aaaa_record: copy_opt_string(&self.last_aaaa_record),
            error: copy_opt_string(&self.error),
        }
    }
}

/// The updater's settings and status. The channel that cancels a running
/// update loop belongs to the program that runs the loop.
pub struct DnsUpdaterState {
    pub config: DnsUpdaterConfig,
    pub status: DnsUpdaterStatus,
}

impl DnsUpdaterState {
    /// Default settings, idle status.
    pub fn new() -> (s: Self)
        ensures
            s.config@ == default_dns_config(),
            s.status@ == idle_status(),
    {
        DnsUpdaterState { config: DnsUpdaterConfig::default(), status: DnsUpdaterStatus::default() }
    }

    /// Replaces the settings; the status stays.
    pub fn update_config(&mut self, new_config: DnsUpdaterConfig)
        ensures
            final(self).config@ == new_config@,
            final(self).status@ == old(self).status@,
    {
        self.config = new_config;
    }

    /// The current settings.
    pub fn get_config(&self) -> (c: DnsUpdaterConfig)
        ensures
            c@ == self.config@,
    {
        self.config.copy()
    }

    /// The current status.
    pub fn get_status(&self) -> (s: DnsUpdaterStatus)
        ensures
            s@ == self.status@,
    {
        self.status.copy()
    }
}

/// The error when no API token is set.
pub open spec fn missing_token_error() -> Seq<char> {
    "CF_API_TOKEN 未设置"@
}

/// The error when the zone or record name is empty.
pub open spec fn missing_names_error() -> Seq<char> {
    "ZONE_NAME 和 RECORD_NAME 不能为空"@
}

/// Checks the settings and marks the updater running: an empty token, then an
/// empty zone or record name, is refused and nothing changes; otherwise the
/// status says running with no error, and the program cancels any loop
/// still running and starts a new one.
pub fn start_dns_updater(state: &mut DnsUpdaterState) -> (r: Result<(), String>)
    ensures
        old(state).config@.cf_api_token.len() == 0 ==> (r matches Err(e) && e@
            == missing_token_error()),
        old(state).config@.cf_api_token.len() > 0 && (old(state).config@.zone_name.len() == 0
            || old(state).config@.record_name.len() == 0) ==> (r matches Err(e) && e@
            == missing_names_error()),
        r is Err ==> final(state).config@ == old(state).config@ && final(state).status@ == old(
            state,
        ).status@,
        r is Ok <==> (old(state).config@.cf_api_token.len() > 0 && old(state).config@.zone_name.len()
            > 0 && old(state).config@.record_name.len() > 0),
        r is Ok ==> final(state).config@ == old(state).config@ && final(state).status@ == (
        DnsUpdaterStatusView { running: true, error: None, ..old(state).status@ }),
{
    if state.config.cf_api_token.as_str().is_empty() {
        return Err("CF_API_TOKEN 未设置".to_string());
    }
    if state.config.zone_name.as_str().is_empty() || state.config.record_name.as_str().is_empty() {
        return Err("ZONE_NAME 和 RECORD_NAME 不能为空".to_string());
    }
    stop_dns_updater(state);
    state.status.running = true;
    state.status.error = None;
    Ok(())
}

/// Marks the updater stopped; the program cancels its loop.
pub fn stop_dns_updater(state: &mut DnsUpdaterState)
    ensures
        final(state).config@ == old(state).config@,
        final(state).status@ == (DnsUpdaterStatusView { running: false, ..old(state).status@ }),
{
    state.status.running = false;
}

/// The error shown when the zone cannot be found.
pub open spec fn zone_error() -> Seq<char> {
    "无法获取 Zone ID"@
}

/// The loop could not find its zone: it stops, saying why.
pub fn zone_lookup_failed(state: &mut DnsUpdaterState)
    ensures
        final(state).config@ == old(state).config@,
        final(state).status@ == (DnsUpdaterStatusView {
            running: false,
            error: Some(zone_error()),
            ..old(state).status@
        }),
{
    state.status.running = false;
    state.status.error = Some("无法获取 Zone ID".to_string());
}

/// The loop was cancelled: the updater is no longer running.
pub fn updater_stopped(state: &mut DnsUpdaterState)
    ensures
        final(state).config@ == old(state).config@,
        final(state).status@ == (DnsUpdaterStatusView { running: false, ..old(state).status@ }),
{
    state.status.running = false;
}

/// The kind of DNS record written.
#[derive(Clone, Copy, Debug, PartialEq, Eq, Structural)]
pub enum RecordType {
    A,
    AAAA,
}

/// The name of a record type as the API spells it.
pub open spec fn record_type_name(t: RecordType) -> Seq<char> {
    match t {
        RecordType::A => "A"@,
        RecordType::AAAA => "AAAA"@,
    }
}

impl RecordType {
    /// The name of the type as the API spells it.
    pub fn name(&self) -> (s: String)
        ensures
            s@ == record_type_name(*self),
    {
        match self {
            RecordType::A => "A".to_string(),
            RecordType::AAAA => "AAAA".to_string(),
        }
    }
}

/// One record to write: its type and the address it points to.
pub struct RecordChange {
    pub rtype: RecordType,
    pub ip: String,
}

/// The change as a type and a character sequence.
pub open spec fn change_view(c: RecordChange) -> (RecordType, Seq<char>) {
    (c.rtype, c.ip@)
}

/// The addresses of the list that are IPv4 (no `:` in their text), in order.
pub open spec fn ipv4_only(ips: Seq<Seq<char>>) -> Seq<Seq<char>>
    decreases ips.len(),
{
    if ips.len() == 0 {
        seq![]
    } else if ips.last().contains(':') {
        ipv4_only(ips.drop_last())
    } else {
        ipv4_only(ips.drop_last()).push(ips.last())
    }
}

/// The addresses of the list that are IPv6 (a `:` in their text), in order.
pub open spec fn ipv6_only(ips: Seq<Seq<char>>) -> Seq<Seq<char>>
    decreases ips.len(),
{
    if ips.len() == 0 {
        seq![]
    } else if ips.last().contains(':') {
        ipv6_only(ips.drop_last()).push(ips.last())
    } else {
        ipv6_only(ips.drop_last())
    }
}

/// One family's part of a round: when its address list is not empty and
/// differs from the one last published, its first address is written and the
/// list becomes the last published one; otherwise nothing happens.
pub open spec fn family_step(last: Seq<Seq<char>>, current: Seq<Seq<char>>) -> (
    Option<Seq<char>>,
    Seq<Seq<char>>,
) {
    if current != last && current.len() > 0 {
        (Some(current[0]), current)
    } else {
        (None, last)
    }
}

/// What the update loop remembers between rounds.
pub struct DnsLoop {
    pub zone_id: String,
    pub last_a_ips: Vec<String>,
    pub last_aaaa_ips: Vec<String>,
}

/// The loop's memory as character sequences.
pub struct DnsLoopView {
    pub zone_id: Seq<char>,
    pub last_a_ips: Seq<Seq<char>>,
    pub last_aaaa_ips: Seq<Seq<char>>,
}

impl View for DnsLoop {
    type V = DnsLoopView;

    open spec fn view(&self) -> DnsLoopView {
        DnsLoopView {
            zone_id: self.zone_id@,
            last_a_ips: self.last_a_ips.deep_view(),
            last_aaaa_ips: self.last_aaaa_ips.deep_view(),
        }
    }
}

/// The changes of one round and the memory after it: nothing when the
/// updater is disabled; else the A family, then (when AAAA updates are on)
/// the AAAA family, each as `family_step` says.
pub open spec fn round(l: DnsLoopView, cfg: DnsUpdaterConfigView, ips: Seq<Seq<char>>) -> (
    Seq<(RecordType, Seq<char>)>,
    DnsLoopView,
) {
    if !cfg.enabled {
        (seq![], l)
    } else {
        let a = family_step(l.last_a_ips, ipv4_only(ips));
        let a_changes: Seq<(RecordType, Seq<char>)> = match a.0 {
            Some(ip) => seq![(RecordType::A, ip)],
            None => seq![],
        };
        if cfg.update_aaaa {
            let b = family_step(l.last_aaaa_ips, ipv6_only(ips));
            let b_changes: Seq<(RecordType, Seq<char>)> = match b.0 {
                Some(ip) => seq![(RecordType::AAAA, ip)],
                None => seq![],
            };
            (a_changes + b_changes, DnsLoopView { last_a_ips: a.1, last_aaaa_ips: b.1, ..l })
        } else {
            (a_changes, DnsLoopView { last_a_ips: a.1, ..l })
        }
    }
}

/// The addresses of one family, in order.
fn family_addresses(ips: &Vec<String>, v6: bool) -> (out: Vec<String>)
    ensures
        out.deep_view() == if v6 {
            ipv6_only(ips.deep_view())
        } else {
            ipv4_only(ips.deep_view())
        },
{
    let mut out: Vec<String> = Vec::new();
    let mut i: usize = 0;
    assert(ips.deep_view().take(0) =~= Seq::<Seq<char>>::empty());
    while i < ips.len()
        invariant
            i <= ips.len(),
            out.deep_view() == if v6 {
                ipv6_only(ips.deep_view().take(i as int))
            } else {
                ipv4_only(ips.deep_view().take(i as int))
            },
        decreases ips.len() - i,
    {
        assert(ips.deep_view().take(i + 1).drop_last() =~= ips.deep_view().take(i as int));
        assert(ips.deep_view().take(i + 1).last() == ips[i as int]@);
        let v = chars_of(ips[i].as_str());
        let has_colon = contains_char(&v, ':');
        if has_colon == v6 {
            let ghost before = out.deep_view();
            out.push(ips[i].clone());
            assert(out.deep_view() =~= before.push(ips[i as int]@));
        }
        i = i + 1;
    }
    assert(ips.deep_view().take(ips.len() as int) =~= ips.deep_view());
    out
}

/// Whether two address lists are equal.
fn same_lists(a: &Vec<String>, b: &Vec<String>) -> (r: bool)
    ensures
        r == (a.deep_view() == b.deep_view()),
{
    if a.len() != b.len() {
        assert(a.deep_view().len() != b.deep_view().len());
        return false;
    }
    let mut i: usize = 0;
    while i < a.len()
        invariant
            i <= a.len() == b.len(),
            forall|k: int| 0 <= k < i ==> a.deep_view()[k] == b.deep_view()[k],
        decreases a.len() - i,
    {
        if a[i] != b[i] {
            assert(a.deep_view()[i as int] != b.deep_view()[i as int]);
            return false;
        }
        i = i + 1;
    }
    assert(a.deep_view() =~= b.deep_view());
    true
}

/// One family's step, as `family_step` says.
fn family_step_exec(last: &mut Vec<String>, current: Vec<String>) -> (r: Option<String>)
    ensures
        (r.deep_view(), final(last).deep_view()) == family_step(old(last).deep_view(), current.deep_view()),
{
    if !same_lists(&current, last) && current.len() > 0 {
        let first = current[0].clone();
        assert(current.deep_view()[0] == current[0]@);
        *last = current;
        Some(first)
    } else {
        None
    }
}

impl DnsLoop {
    /// The memory of a loop that has published nothing yet in `zone_id`.
    pub fn new(zone_id: String) -> (l: DnsLoop)
        ensures
            l@ == (DnsLoopView { zone_id: zone_id@, last_a_ips: seq![], last_aaaa_ips: seq![] }),
    {
        let l = DnsLoop { zone_id, last_a_ips: Vec::new(), last_aaaa_ips: Vec::new() };
        assert(l.last_a_ips.deep_view() =~= Seq::<Seq<char>>::empty());
        assert(l.last_aaaa_ips.deep_view() =~= Seq::<Seq<char>>::empty());
        l
    }

    /// The records to write in this round for the primary addresses `ips`,
    /// as `round` says; the memory moves on as `round` says.
    pub fn plan_round(&mut self, cfg: &DnsUpdaterConfig, ips: &Vec<String>) -> (changes: Vec<
        RecordChange,
    >)
        ensures
            (changes@.map_values(|c: RecordChange| change_view(c)), final(self)@) == round(
                old(self)@,
                cfg@,
                ips.deep_view(),
            ),
    {
        let mut changes: Vec<RecordChange> = Vec::new();
        if !cfg.enabled {
            assert(changes@.map_values(|c: RecordChange| change_view(c)) =~= Seq::<
                (RecordType, Seq<char>),
            >::empty());
            return changes;
        }
        let v4 = family_addresses(ips, false);
        if let Some(ip) = family_step_exec(&mut self.last_a_ips, v4) {
            changes.push(RecordChange { rtype: RecordType::A, ip });
        }
        if cfg.update_aaaa {
            let v6 = family_addresses(ips, true);
            if let Some(ip) = family_step_exec(&mut self.last_aaaa_ips, v6) {
                changes.push(RecordChange { rtype: RecordType::AAAA, ip });
            }
        }
        let ghost r = round(old(self)@, cfg@, ips.deep_view());
        assert(changes@.map_values(|c: RecordChange| change_view(c)) =~= r.0);
        changes
    }
}

/// After a round, the same addresses give no change in the next round:
/// records are written only when the primary addresses move.
pub proof fn lemma_round_settles(l: DnsLoopView, cfg: DnsUpdaterConfigView, ips: Seq<Seq<char>>)
    ensures
        round(round(l, cfg, ips).1, cfg, ips).0.len() == 0,
        round(round(l, cfg, ips).1, cfg, ips).1 == round(l, cfg, ips).1,
{
}

/// A round in terms of the two families, each on its own. Disabled, it does
/// nothing. Enabled, the A record is written with the first IPv4 primary
/// exactly when the IPv4 primaries are not empty and differ from the last
/// published ones; when AAAA updates are on, the AAAA record is written with
/// the first IPv6 primary exactly when the IPv6 primaries are not empty and
/// differ from the last published ones, whatever the IPv4 primaries are. A
/// written family's list becomes its last published one; the other memory
/// stays.
pub proof fn lemma_round_per_family(l: DnsLoopView, cfg: DnsUpdaterConfigView, ips: Seq<Seq<char>>)
    ensures
        !cfg.enabled ==> round(l, cfg, ips).0.len() == 0 && round(l, cfg, ips).1 == l,
        cfg.enabled ==> round(l, cfg, ips).0 == (if ipv4_only(ips).len() > 0 && ipv4_only(ips)
            != l.last_a_ips {
            seq![(RecordType::A, ipv4_only(ips)[0])]
        } else {
            Seq::<(RecordType, Seq<char>)>::empty()
        }) + (if cfg.update_aaaa && ipv6_only(ips).len() > 0 && ipv6_only(ips) != l.last_aaaa_ips {
            seq![(RecordType::AAAA, ipv6_only(ips)[0])]
        } else {
            Seq::<(RecordType, Seq<char>)>::empty()
        }),
        cfg.enabled ==> round(l, cfg, ips).1.last_a_ips == (if ipv4_only(ips).len() > 0
            && ipv4_only(ips) != l.last_a_ips {
            ipv4_only(ips)
        } else {
            l.last_a_ips
        }),
        cfg.enabled ==> round(l, cfg, ips).1.last_aaaa_ips == (if cfg.update_aaaa && ipv6_only(
            ips,
        ).len() > 0 && ipv6_only(ips) != l.last_aaaa_ips {
            ipv6_only(ips)
        } else {
            l.last_aaaa_ips
        }),
        round(l, cfg, ips).1.zone_id == l.zone_id,
{
    if cfg.enabled {
        let e = Seq::<(RecordType, Seq<char>)>::empty();
        let a = family_step(l.last_a_ips, ipv4_only(ips));
        let a_changes: Seq<(RecordType, Seq<char>)> = match a.0 {
            Some(ip) => seq![(RecordType::A, ip)],
            None => e,
        };
        if cfg.update_aaaa {
            let b = family_step(l.last_aaaa_ips, ipv6_only(ips));
            let b_changes: Seq<(RecordType, Seq<char>)> = match b.0 {
                Some(ip) => seq![(RecordType::AAAA, ip)],
                None => e,
            };
            assert(round(l, cfg, ips).0 == a_changes + b_changes);
        } else {
            assert(a_changes + e =~= a_changes);
        }
    }
}

/// The IPv4 list holds addresses of the given list without a `:`; the IPv6
/// list holds those with one.
pub proof fn lemma_family_members(ips: Seq<Seq<char>>)
    ensures
        forall|i: int|
            0 <= i < ipv4_only(ips).len() ==> ips.contains(#[trigger] ipv4_only(ips)[i])
                && !ipv4_only(ips)[i].contains(':'),
        forall|i: int|
            0 <= i < ipv6_only(ips).len() ==> ips.contains(#[trigger] ipv6_only(ips)[i])
                && ipv6_only(ips)[i].contains(':'),
    decreases ips.len(),
{
    if ips.len() > 0 {
        let rest = ips.drop_last();
        lemma_family_members(rest);
        assert forall|i: int| 0 <= i < ipv4_only(ips).len() implies ips.contains(
            #[trigger] ipv4_only(ips)[i],
        ) && !ipv4_only(ips)[i].contains(':') by {
            if i < ipv4_only(rest).len() {
                assert(ipv4_only(ips)[i] == ipv4_only(rest)[i]);
                let k = choose|k: int| 0 <= k < rest.len() && rest[k] == ipv4_only(rest)[i];
                assert(ips[k] == rest[k]);
            } else {
                assert(ipv4_only(ips)[i] == ips.last());
                assert(ips[ips.len() - 1] == ips.last());
            }
        }
        assert forall|i: int| 0 <= i < ipv6_only(ips).len() implies ips.contains(
            #[trigger] ipv6_only(ips)[i],
        ) && ipv6_only(ips)[i].contains(':') by {
            if i < ipv6_only(rest).len() {
                assert(ipv6_only(ips)[i] == ipv6_only(rest)[i]);
                let k = choose|k: int| 0 <= k < rest.len() && rest[k] == ipv6_only(rest)[i];
                assert(ips[k] == rest[k]);
            } else {
                assert(ipv6_only(ips)[i] == ips.last());
                assert(ips[ips.len() - 1] == ips.last());
            }
        }
    }
}

/// Every record a round writes points to one of the primary addresses, and
/// of its own family: an A record never gets an address with a `:`, an AAAA
/// record never one without.
pub proof fn lemma_round_families(l: DnsLoopView, cfg: DnsUpdaterConfigView, ips: Seq<Seq<char>>)
    ensures
        forall|i: int|
            0 <= i < round(l, cfg, ips).0.len() ==> ips.contains(
                (#[trigger] round(l, cfg, ips).0[i]).1,
            ) && (round(l, cfg, ips).0[i].0 == RecordType::A <==> !round(l, cfg, ips).0[i].1.contains(
                ':',
            )),
{
    lemma_family_members(ips);
    let r = round(l, cfg, ips).0;
    assert forall|i: int| 0 <= i < r.len() implies ips.contains((#[trigger] r[i]).1) && (r[i].0
        == RecordType::A <==> !r[i].1.contains(':')) by {
        let a = family_step(l.last_a_ips, ipv4_only(ips));
        let b = family_step(l.last_aaaa_ips, ipv6_only(ips));
        if a.0 is Some {
            assert(ipv4_only(ips)[0] == a.0->0);
        }
        if b.0 is Some {
            assert(ipv6_only(ips)[0] == b.0->0);
        }
    }
}

/// How a record is written once its id is known: updated in place when it
/// exists, created when it does not.
pub enum RecordCall {
    Update { record_id: String },
    Create,
}

/// The write to make for a change, given the record id that the lookup found.
pub fn record_call(record_id: Option<String>) -> (c: RecordCall)
    ensures
        match record_id {
            Some(id) => (c matches RecordCall::Update { record_id } && record_id@ == id@),
            None => c is Create,
        },
{
    match record_id {
        Some(id) => RecordCall::Update { record_id: id },
        None => RecordCall::Create,
    }
}

/// The fields of the record body that the API is sent: type, name, address,
/// a TTL of 60 seconds, and no proxying.
pub struct RecordBody {
    pub rtype: String,
    pub name: String,
    pub content: String,
    pub ttl: u64,
    pub proxied: bool,
}

/// The body for writing `change` under the configured record name.
pub fn record_body(change: &RecordChange, record_name: &String) -> (b: RecordBody)
    ensures
        b.rtype@ == record_type_name(change.rtype),
        b.name@ == record_name@,
        b.content@ == change.ip@,
        b.ttl == 60,
        !b.proxied,
{
    RecordBody {
        rtype: change.rtype.name(),
        name: record_name.clone(),
        content: change.ip.clone(),
        ttl: 60,
        proxied: false,
    }
}

/// A write succeeded: the status shows the address of the record written
/// and the time of the write.
pub fn record_written(state: &mut DnsUpdaterState, change: &RecordChange, now_secs: u64)
    ensures
        final(state).config@ == old(state).config@,
        final(state).status@ == (match change.rtype {
            RecordType::A => DnsUpdaterStatusView {
                last_a_record: Some(change.ip@),
                last_update: Some(clock_text(now_secs as int)),
                ..old(state).status@
            },
            RecordType::AAAA => DnsUpdaterStatusView {
                last_aaaa_record: Some(change.ip@),
                last_update: Some(clock_text(now_secs as int)),
                ..old(state).status@
            },
        }),
{
    match change.rtype {
        RecordType::A => {
            state.status.last_a_record = Some(change.ip.clone());
        },
        RecordType::AAAA => {
            state.status.last_aaaa_record = Some(change.ip.clone());
        },
    }
    state.status.last_update = Some(format_now(now_secs));
}

/// The character of a decimal digit.
pub open spec fn digit_char(d: int) -> char {
    if d == 0 {
        '0'
    } else if d == 1 {
        '1'
    } else if d == 2 {
        '2'
    } else if d == 3 {
        '3'
    } else if d == 4 {
        '4'
    } else if d == 5 {
        '5'
    } else if d == 6 {
        '6'
    } else if d == 7 {
        '7'
    } else if d == 8 {
        '8'
    } else {
        '9'
    }
}

/// A number below 100 in two digits, with a leading zero.
pub open spec fn two_digits(n: int) -> Seq<char> {
    seq![digit_char(n / 10), digit_char(n % 10)]
}

/// The UTC time of day `secs` seconds after the Unix epoch, as `HH:MM:SS`.
pub open spec fn clock_text(secs: int) -> Seq<char> {
    two_digits((secs / 3600) % 24) + seq![':'] + two_digits((secs % 3600) / 60) + seq![':']
        + two_digits(secs % 60)
}

/// The character of a decimal digit.
fn digit(d: u64) -> (c: char)
    requires
        d < 10,
    ensures
        c == digit_char(d as int),
{
    if d == 0 {
        '0'
    } else if d == 1 {
        '1'
    } else if d == 2 {
        '2'
    } else if d == 3 {
        '3'
    } else if d == 4 {
        '4'
    } else if d == 5 {
        '5'
    } else if d == 6 {
        '6'
    } else if d == 7 {
        '7'
    } else if d == 8 {
        '8'
    } else {
        '9'
    }
}

/// Formats seconds since the Unix epoch (read from the clock by the program)
/// as the UTC time of day `HH:MM:SS`.
pub fn format_now(total_secs: u64) -> (s: String)
    ensures
        s@ == clock_text(total_secs as int),
{
    let h = (total_secs / 3600) % 24;
    let m = (total_secs % 3600) / 60;
    let sec = total_secs % 60;
    let mut out: Vec<char> = Vec::new();
    out.push(digit(h / 10));
    out.push(digit(h % 10));
    out.push(':');
    out.push(digit(m / 10));
    out.push(digit(m % 10));
    out.push(':');
    out.push(digit(sec / 10));
    out.push(digit(sec % 10));
    assert(out@ =~= clock_text(total_secs as int));
    string_from_chars(out.as_slice())
}

/// The time of day repeats every 86400 seconds.
pub proof fn lemma_clock_daily(secs: nat)
    ensures
        clock_text(secs + 86400int) == clock_text(secs as int),
{
    assert(((secs + 86400) / 3600) == secs / 3600 + 24) by (nonlinear_arith);
    assert((secs + 86400) % 3600 == secs % 3600) by (nonlinear_arith);
    assert((secs + 86400) % 60 == secs % 60) by (nonlinear_arith);
    assert((secs / 3600 + 24) % 24 == (secs / 3600) % 24) by (nonlinear_arith);
}

/// A JSON document as the API's replies hold it: numbers keep their text,
/// objects keep their members in order (their keys are distinct).
pub enum JsonValue {
    Null,
    Bool(bool),
    Number(String),
    Str(String),
    Array(Vec<JsonValue>),
    Object(Vec<(String, JsonValue)>),
}

/// The value of the first member of `entries` named `key`.
pub open spec fn member_value(entries: Seq<(String, JsonValue)>, key: Seq<char>) -> Option<
    JsonValue,
>
    decreases entries.len(),
{
    if entries.len() == 0 {
        None
    } else if entries[0].0@ == key {
        Some(entries[0].1)
    } else {
        member_value(entries.drop_first(), key)
    }
}

/// `value.get(key)`: the member `key` of an object; nothing for other values.
pub open spec fn json_get(value: JsonValue, key: Seq<char>) -> Option<JsonValue> {
    match value {
        JsonValue::Object(entries) => member_value(entries@, key),
        _ => None,
    }
}

/// The `id` of the first element of a reply's `result` array, when the reply
/// has one and it is a string.
pub open spec fn first_result_id_spec(reply: JsonValue) -> Option<Seq<char>> {
    match json_get(reply, "result"@) {
        Some(JsonValue::Array(items)) => if items@.len() > 0 {
            match json_get(items@[0], "id"@) {
                Some(JsonValue::Str(s)) => Some(s@),
                _ => None,
            }
        } else {
            None
        },
        _ => None,
    }
}

/// What a lookup (of a zone or of a record) found: nothing when the HTTP
/// status was not a success or the body was not JSON, else the id of the
/// first result.
pub open spec fn lookup_result(status_ok: bool, body: Option<JsonValue>) -> Option<Seq<char>> {
    if !status_ok {
        None
    } else {
        match body {
            Some(v) => first_result_id_spec(v),
            None => None,
        }
    }
}

/// Whether a write succeeded: the reply is JSON whose `success` member is `true`.
pub open spec fn write_succeeded_spec(body: Option<JsonValue>) -> bool {
    match body {
        Some(v) => json_get(v, "success"@) == Some(JsonValue::Bool(true)),
        None => false,
    }
}

/// The member `key` of an object, as `json_get` says.
pub fn get_member<'a>(value: &'a JsonValue, key: &str) -> (r: Option<&'a JsonValue>)
    ensures
        match r {
            Some(v) => json_get(*value, key@) == Some(*v),
            None => json_get(*value, key@) is None,
        },
{
    match value {
        JsonValue::Object(entries) => {
            let mut i: usize = 0;
            assert(entries@.skip(0) =~= entries@);
            while i < entries.len()
                invariant
                    i <= entries.len(),
                    json_get(*value, key@) == member_value(entries@, key@),
                    member_value(entries@, key@) == member_value(entries@.skip(i as int), key@),
                decreases entries.len() - i,
            {
                assert(entries@.skip(i as int).drop_first() =~= entries@.skip(i + 1));
                let name = chars_of(entries[i].0.as_str());
                if chars_eq_str(&name, key) {
                    assert(entries@.skip(i as int)[0] == entries@[i as int]);
                    return Some(&entries[i].1);
                }
                i = i + 1;
            }
            None
        },
        _ => None,
    }
}

/// The id of the first result of a reply, as `first_result_id_spec` says.
pub fn first_result_id(reply: &JsonValue) -> (r: Option<String>)
    ensures
        r.deep_view() == first_result_id_spec(*reply),
{
    match get_member(reply, "result") {
        Some(JsonValue::Array(items)) => {
            if items.len() == 0 {
                return None;
            }
            match get_member(&items[0], "id") {
                Some(JsonValue::Str(s)) => Some(s.clone()),
                _ => None,
            }
        },
        _ => None,
    }
}

/// What a zone or record lookup found, as `lookup_result` says.
pub fn lookup_id(status_ok: bool, body: &Option<JsonValue>) -> (r: Option<String>)
    ensures
        r.deep_view() == lookup_result(status_ok, *body),
{
    if !status_ok {
        return None;
    }
    match body {
        Some(v) => first_result_id(v),
        None => None,
    }
}

/// Whether a write succeeded, as `write_succeeded_spec` says.
pub fn write_succeeded(body: &Option<JsonValue>) -> (ok: bool)
    ensures
        ok == write_succeeded_spec(*body),
{
    match body {
        Some(v) => match get_member(v, "success") {
            Some(JsonValue::Bool(b)) => *b,
            _ => false,
        },
        None => false,
    }
}

/// A lookup that succeeded finds the `id` string of the first element of the
/// reply's `result` array, where `result` is the reply's first member of that
/// name; a lookup whose HTTP status failed, or whose body was no JSON, finds
/// nothing. A write succeeded exactly when the reply's `success` member is
/// `true`.
pub proof fn lemma_reply_reading(reply: JsonValue, k: int, j: int, id: Seq<char>, body: Option<JsonValue>)
    requires
        reply is Object,
        0 <= k < reply->Object_0@.len(),
        reply->Object_0@[k].0@ == "result"@,
        forall|i: int| 0 <= i < k ==> (#[trigger] reply->Object_0@[i]).0@ != "result"@,
        reply->Object_0@[k].1 is Array,
        reply->Object_0@[k].1->Array_0@.len() > 0,
        reply->Object_0@[k].1->Array_0@[0] is Object,
        0 <= j < reply->Object_0@[k].1->Array_0@[0]->Object_0@.len(),
        reply->Object_0@[k].1->Array_0@[0]->Object_0@[j].0@ == "id"@,
        forall|i: int|
            0 <= i < j ==> (#[trigger] reply->Object_0@[k].1->Array_0@[0]->Object_0@[i]).0@ != "id"@,
        reply->Object_0@[k].1->Array_0@[0]->Object_0@[j].1 == JsonValue::Str(
            reply->Object_0@[k].1->Array_0@[0]->Object_0@[j].1->Str_0,
        ),
        reply->Object_0@[k].1->Array_0@[0]->Object_0@[j].1->Str_0@ == id,
    ensures
        lookup_result(true, Some(reply)) == Some(id),
        lookup_result(false, body) is None,
        lookup_result(true, None) is None,
        write_succeeded_spec(body) <==> (body is Some && json_get(body->0, "success"@) == Some(
            JsonValue::Bool(true),
        )),
{
    let o = reply->Object_0@;
    lemma_member_at(o, k, "result"@);
    let e = o[k].1->Array_0@[0]->Object_0@;
    lemma_member_at(e, j, "id"@);
}

/// The first member named `key` is the one found.
proof fn lemma_member_at(entries: Seq<(String, JsonValue)>, k: int, key: Seq<char>)
    requires
        0 <= k < entries.len(),
        entries[k].0@ == key,
        forall|i: int| 0 <= i < k ==> entries[i].0@ != key,
    ensures
        member_value(entries, key) == Some(entries[k].1),
    decreases k,
{
    if k > 0 {
        assert(entries[0].0@ != key);
        let rest = entries.drop_first();
        assert forall|i: int| 0 <= i < k - 1 implies rest[i].0@ != key by {
            assert(rest[i] == entries[i + 1]);
        }
        lemma_member_at(rest, k - 1, key);
    }
}

/// The base of Cloudflare's v4 API.
pub open spec fn api_base() -> Seq<char> {
    "https://api.cloudflare.com/client/v4"@
}

/// The base of Cloudflare's v4 API.
pub fn cloudflare_api_url() -> (s: String)
    ensures
        s@ == api_base(),
{
    "https://api.cloudflare.com/client/v4".to_string()
}

/// The address that looks a zone up by name.
pub fn zone_lookup_url(api_url: &str, zone_name: &str) -> (s: String)
    ensures
        s@ == api_url@ + "/zones?name="@ + zone_name@,
{
    let mut out: Vec<char> = Vec::new();
    append_str(&mut out, api_url);
    append_str(&mut out, "/zones?name=");
    append_str(&mut out, zone_name);
    string_from_chars(out.as_slice())
}

/// The address that looks a record up by name and type.
pub fn record_lookup_url(api_url: &str, zone_id: &str, record_name: &str, rtype: &str) -> (s:
    String)
    ensures
        s@ == api_url@ + "/zones/"@ + zone_id@ + "/dns_records?name="@ + record_name@ + "&type="@
            + rtype@,
{
    let mut out: Vec<char> = Vec::new();
    append_str(&mut out, api_url);
    append_str(&mut out, "/zones/");
    append_str(&mut out, zone_id);
    append_str(&mut out, "/dns_records?name=");
    append_str(&mut out, record_name);
    append_str(&mut out, "&type=");
    append_str(&mut out, rtype);
    string_from_chars(out.as_slice())
}

/// The address of an existing record, for updating it.
pub fn record_url(api_url: &str, zone_id: &str, record_id: &str) -> (s: String)
    ensures
        s@ == api_url@ + "/zones/"@ + zone_id@ + "/dns_records/"@ + record_id@,
{
    let mut out: Vec<char> = Vec::new();
    append_str(&mut out, api_url);
    append_str(&mut out, "/zones/");
    append_str(&mut out, zone_id);
    append_str(&mut out, "/dns_records/");
    append_str(&mut out, record_id);
    string_from_chars(out.as_slice())
}

/// The address where records of a zone are created.
pub fn records_url(api_url: &str, zone_id: &str) -> (s: String)
    ensures
        s@ == api_url@ + "/zones/"@ + zone_id@ + "/dns_records"@,
{
    let mut out: Vec<char> = Vec::new();
    append_str(&mut out, api_url);
    append_str(&mut out, "/zones/");
    append_str(&mut out, zone_id);
    append_str(&mut out, "/dns_records");
    string_from_chars(out.as_slice())
}

/// The value of the `Authorization` header for a token.
pub fn bearer(token: &str) -> (s: String)
    ensures
        s@ == "Bearer "@ + token@,
{
    let mut out: Vec<char> = Vec::new();
    append_str(&mut out, "Bearer ");
    append_str(&mut out, token);
    string_from_chars(out.as_slice())
}

} // verus!
