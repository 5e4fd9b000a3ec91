//! The system proxy API: which operation a request asks for, what the
//! proxy is set to, and how a failure to set it is answered.
use vstd::prelude::*;
use crate::text::{str_chars, chars_eq_str, contains, contains_str, push_str, to_owned_string};

verus! {

/// The operations of the system proxy API.
#[derive(Debug, Clone, Copy, PartialEq, Eq, Structural)]
pub enum SystemProxyAction {
    GetStatus,
    Apply,
    GetSupport,
    MethodNotAllowed,
    NotFound,
}

/// The operation of a request below `/api/proxy`, by path and method.
pub open spec fn system_proxy_action_spec(path: Seq<char>, method: Seq<char>) -> SystemProxyAction {
    if path == "/api/proxy/system"@ || path == "/api/proxy/system/"@ {
        if method == "GET"@ {
            SystemProxyAction::GetStatus
        } else if method == "PUT"@ {
            SystemProxyAction::Apply
        } else {
            SystemProxyAction::MethodNotAllowed
        }
    } else if path == "/api/proxy/system/support"@ {
        if method == "GET"@ { SystemProxyAction::GetSupport } else { SystemProxyAction::MethodNotAllowed }
    } else {
        SystemProxyAction::NotFound
    }
}

/// The operation of a request below `/api/proxy`.
pub fn system_proxy_action(path: &str, method: &str) -> (a: SystemProxyAction)
    ensures
        a == system_proxy_action_spec(path@, method@),
{
    let p = str_chars(path);
    let m = str_chars(method);
    if chars_eq_str(&p, "/api/proxy/system") || chars_eq_str(&p, "/api/proxy/system/") {
        if chars_eq_str(&m, "GET") {
            SystemProxyAction::GetStatus
        } else if chars_eq_str(&m, "PUT") {
            SystemProxyAction::Apply
        } else {
            SystemProxyAction::MethodNotAllowed
        }
    } else if chars_eq_str(&p, "/api/proxy/system/support") {
        if chars_eq_str(&m, "GET") { SystemProxyAction::GetSupport } else { SystemProxyAction::MethodNotAllowed }
    } else {
        SystemProxyAction::NotFound
    }
}

/// The hosts that bypass the system proxy unless the request names others.
pub const DEFAULT_BYPASS: &'static str = "localhost,127.0.0.1,::1,*.local";

/// The address the system proxy points at.
pub const PROXY_HOST: &'static str = "127.0.0.1";

/// The bypass list of a request, or the default one.
pub fn bypass_or_default(bypass: Option<String>) -> (r: String)
    ensures
        r@ == (match bypass {
            Some(b) => b@,
            None => DEFAULT_BYPASS@,
        }),
{
    match bypass {
        Some(b) => b,
        None => to_owned_string(DEFAULT_BYPASS),
    }
}

/// What the system proxy is set to, as the API reports it.
pub struct SystemProxyStatus {
    pub supported: bool,
    pub enabled: bool,
    pub host: String,
    pub port: u16,
    pub bypass: String,
}

/// The status on a platform without system proxy support.
pub fn unsupported_status() -> (s: SystemProxyStatus)
    ensures
        !s.supported && !s.enabled && s.host@.len() == 0 && s.port == 0 && s.bypass@.len() == 0,
{
    SystemProxyStatus { supported: false, enabled: false, host: String::new(), port: 0, bypass: String::new() }
}

/// The status after the proxy was switched on (at the proxy's own port,
/// with the bypass list) or off (empty).
pub fn status_after_set(enabled: bool, port: u16, bypass: String) -> (s: SystemProxyStatus)
    ensures
        s.supported,
        s.enabled == enabled,
        s.host@ == (if enabled { PROXY_HOST@ } else { Seq::<char>::empty() }),
        s.port == (if enabled { port } else { 0 }),
        s.bypass@ == (if enabled { bypass@ } else { Seq::<char>::empty() }),
{
    if enabled {
        SystemProxyStatus { supported: true, enabled: true, host: to_owned_string(PROXY_HOST), port, bypass }
    } else {
        SystemProxyStatus { supported: true, enabled: false, host: String::new(), port: 0, bypass: String::new() }
    }
}

/// A failure that asks for administrator rights (tried again with the
/// system's authorization dialog where there is one).
pub fn requires_admin(error: &str) -> (b: bool)
    ensures
        b == contains(error@, "RequiresAdmin"@),
{
    let e = str_chars(error);
    contains_str(&e, "RequiresAdmin")
}

/// How a failure to set the system proxy is answered.
pub enum SetProxyFailure {
    /// The user cancelled the authorization dialog.
    UserCancelled,
    /// Administrator rights are needed.
    RequiresAdmin,
    /// Anything else: 500 with this message.
    Other(String),
}

/// The answer to a failure, by the error's text.
pub fn set_proxy_failure(error: &str) -> (f: SetProxyFailure)
    ensures
        match f {
            SetProxyFailure::UserCancelled => contains(error@, "UserCancelled"@),
            SetProxyFailure::RequiresAdmin => !contains(error@, "UserCancelled"@) && contains(error@, "RequiresAdmin"@),
            SetProxyFailure::Other(m) => !contains(error@, "UserCancelled"@) && !contains(error@, "RequiresAdmin"@)
                && m@ == "Failed to set system proxy: "@ + error@,
        },
{
    let e = str_chars(error);
    if contains_str(&e, "UserCancelled") {
        SetProxyFailure::UserCancelled
    } else if contains_str(&e, "RequiresAdmin") {
        SetProxyFailure::RequiresAdmin
    } else {
        let mut m = to_owned_string("Failed to set system proxy: ");
        push_str(&mut m, error);
        SetProxyFailure::Other(m)
    }
}

} // verus!
