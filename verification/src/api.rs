//! What the control API answers: the replies of its handlers and the
//! decision taken when the DNS updater's settings change. Serving HTTP runs
//! in the program.
use vstd::prelude::*;

use crate::dns_updater::{
    start_dns_updater, stop_dns_updater, DnsUpdaterConfig, DnsUpdaterState, DnsUpdaterStatusView,
};

verus! {

broadcast use vstd::string::group_string_axioms;

/// A reply of the control API.
pub struct ApiResponse {
    pub success: bool,
    pub message: String,
}

/// The reply for a service call: success with `ok_message`, or failure with
/// the error's text.
pub open spec fn outcome_reply(result: Result<(), String>, ok_message: Seq<char>) -> (bool, Seq<
    char,
>) {
    match result {
        Ok(_) => (true, ok_message),
        Err(e) => (false, e@),
    }
}

/// The reply to a start request, given how the start went.
pub fn start_service_reply(result: Result<(), String>) -> (r: ApiResponse)
    ensures
        (r.success, r.message@) == outcome_reply(result, "服务已启动"@),
{
    match result {
        Ok(_) => ApiResponse { success: true, message: "服务已启动".to_string() },
        Err(e) => ApiResponse { success: false, message: e },
    }
}

/// The reply to a stop request, given how the stop went.
pub fn stop_service_reply(result: Result<(), String>) -> (r: ApiResponse)
    ensures
        (r.success, r.message@) == outcome_reply(result, "服务已停止"@),
{
    match result {
        Ok(_) => ApiResponse { success: true, message: "服务已停止".to_string() },
        Err(e) => ApiResponse { success: false, message: e },
    }
}

/// The reply to a health check.
pub fn health_check() -> (r: ApiResponse)
    ensures
        r.success,
        r.message@ == "服务运行正常"@,
{
    ApiResponse { success: true, message: "服务运行正常".to_string() }
}

/// The reply once the log has been cleared.
pub fn clear_logs_reply() -> (r: ApiResponse)
    ensures
        r.success,
        r.message@ == "日志已清空"@,
{
    ApiResponse { success: true, message: "日志已清空".to_string() }
}

/// What the program does with the updater's loop after a settings change.
#[derive(Clone, Copy, Debug, PartialEq, Eq, Structural)]
pub enum UpdaterAction {
    /// Cancel any loop still running and start a new one.
    Launch,
    /// Cancel the running loop.
    Halt,
    /// Leave the loop as it is.
    Keep,
}

/// Stores new updater settings and decides what follows: when they enable
/// the updater with a token while the service runs, the updater starts (or
/// its start is refused, as `start_dns_updater` says); when they disable it,
/// it stops; otherwise the settings are only saved.
pub fn update_dns_config(
    state: &mut DnsUpdaterState,
    new_config: DnsUpdaterConfig,
    service_running: bool,
) -> (r: (ApiResponse, UpdaterAction))
    ensures
        final(state).config@ == new_config@,
        new_config.enabled && new_config@.cf_api_token.len() > 0 && service_running ==> {
            let names_ok = new_config@.zone_name.len() > 0 && new_config@.record_name.len() > 0;
            &&& names_ok ==> r.0.success && r.0.message@ == "DNS 更新器已启动"@ && r.1
                == UpdaterAction::Launch && final(state).status@ == (DnsUpdaterStatusView {
                running: true,
                error: None,
                ..old(state).status@
            })
            &&& !names_ok ==> !r.0.success && r.0.message@
                == crate::dns_updater::missing_names_error() && r.1 == UpdaterAction::Keep
                && final(state).status@ == old(state).status@
        },
        !new_config.enabled ==> r.0.success && r.0.message@ == "DNS 更新器已停止"@ && r.1
            == UpdaterAction::Halt && final(state).status@ == (DnsUpdaterStatusView {
            running: false,
            ..old(state).status@
        }),
        new_config.enabled && !(new_config@.cf_api_token.len() > 0 && service_running) ==> r.0.success
            && r.0.message@ == "配置已保存"@ && r.1 == UpdaterAction::Keep && final(state).status@
            == old(state).status@,
{
    let enabled = new_config.enabled;
    let has_token = !new_config.cf_api_token.as_str().is_empty();
    state.update_config(new_config);
    if enabled && has_token && service_running {
        match start_dns_updater(state) {
            Ok(_) => {
                return (
                    ApiResponse { success: true, message: "DNS 更新器已启动".to_string() },
                    UpdaterAction::Launch,
                );
            },
            Err(e) => {
                return (ApiResponse { success: false, message: e }, UpdaterAction::Keep);
            },
        }
    }
    if !enabled {
        stop_dns_updater(state);
        return (
            ApiResponse { success: true, message: "DNS 更新器已停止".to_string() },
            UpdaterAction::Halt,
        );
    }
    (ApiResponse { success: true, message: "配置已保存".to_string() }, UpdaterAction::Keep)
}

} // verus!
