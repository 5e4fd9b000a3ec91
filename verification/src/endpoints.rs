//! Which operation a request below `/api/system`, `/api/metrics`,
//! `/api/config` or `/api/search` asks for, from its path and method.
use vstd::prelude::*;
use crate::text::{str_chars, chars_eq_str, contains, contains_str};
use crate::traffic_api::{trim_end_slashes, trim_end_slashes_exec};

verus! {

/// The operations below `/api/system`.
#[derive(Debug, Clone, Copy, PartialEq, Eq, Structural)]
pub enum SystemEndpoint {
    Info,
    Overview,
    Memory,
    VersionCheck,
    MethodNotAllowed,
    NotFound,
}

/// The operations below `/api/metrics`.
#[derive(Debug, Clone, Copy, PartialEq, Eq, Structural)]
pub enum MetricsEndpoint {
    Current,
    History,
    Apps,
    Hosts,
    MethodNotAllowed,
    NotFound,
}

/// The operations below `/api/config`.
#[derive(Debug, Clone, Copy, PartialEq, Eq, Structural)]
pub enum ConfigEndpoint {
    ProxySettings,
    GetTls,
    UpdateTls,
    GetPerformance,
    UpdatePerformance,
    ClearBodyCache,
    MethodNotAllowed,
    NotFound,
}

/// The operations below `/api/search`.
#[derive(Debug, Clone, Copy, PartialEq, Eq, Structural)]
pub enum SearchEndpoint {
    Search,
    Stream,
    MethodNotAllowed,
    NotFound,
}

/// The path is `p` or `p` with one trailing slash.
pub open spec fn is_path(path: Seq<char>, p: Seq<char>) -> bool {
    path == p || path == p.push('/')
}

/// `GET` only.
pub open spec fn get_only(method: Seq<char>, e: SystemEndpoint) -> SystemEndpoint {
    if method == "GET"@ { e } else { SystemEndpoint::MethodNotAllowed }
}

/// The system operation a request asks for.
pub open spec fn system_endpoint_spec(path: Seq<char>, method: Seq<char>) -> SystemEndpoint {
    if is_path(path, "/api/system"@) {
        get_only(method, SystemEndpoint::Info)
    } else if path == "/api/system/overview"@ {
        get_only(method, SystemEndpoint::Overview)
    } else if is_path(path, "/api/system/memory"@) {
        get_only(method, SystemEndpoint::Memory)
    } else if path == "/api/system/version-check"@ {
        get_only(method, SystemEndpoint::VersionCheck)
    } else {
        SystemEndpoint::NotFound
    }
}

/// Whether `v` is `p` or `p` with one trailing slash.
fn path_is(v: &Vec<char>, p: &str, ps: &str) -> (b: bool)
    requires
        ps@ == p@.push('/'),
    ensures
        b == is_path(v@, p@),
{
    chars_eq_str(v, p) || chars_eq_str(v, ps)
}

/// The system operation a request asks for.
pub fn system_endpoint(path: &str, method: &str) -> (e: SystemEndpoint)
    ensures
        e == system_endpoint_spec(path@, method@),
{
    proof {
        reveal_strlit("/api/system");
        reveal_strlit("/api/system/");
        assert("/api/system/"@ =~= "/api/system"@.push('/'));
        reveal_strlit("/api/system/memory");
        reveal_strlit("/api/system/memory/");
        assert("/api/system/memory/"@ =~= "/api/system/memory"@.push('/'));
    }
    let p = str_chars(path);
    let m = str_chars(method);
    let get = chars_eq_str(&m, "GET");
    let found = if path_is(&p, "/api/system", "/api/system/") {
        SystemEndpoint::Info
    } else if chars_eq_str(&p, "/api/system/overview") {
        SystemEndpoint::Overview
    } else if path_is(&p, "/api/system/memory", "/api/system/memory/") {
        SystemEndpoint::Memory
    } else if chars_eq_str(&p, "/api/system/version-check") {
        SystemEndpoint::VersionCheck
    } else {
        return SystemEndpoint::NotFound;
    };
    if get { found } else { SystemEndpoint::MethodNotAllowed }
}

/// `GET` only.
pub open spec fn metrics_get_only(method: Seq<char>, e: MetricsEndpoint) -> MetricsEndpoint {
    if method == "GET"@ { e } else { MetricsEndpoint::MethodNotAllowed }
}

/// The metrics operation a request asks for.
pub open spec fn metrics_endpoint_spec(path: Seq<char>, method: Seq<char>) -> MetricsEndpoint {
    if is_path(path, "/api/metrics"@) {
        metrics_get_only(method, MetricsEndpoint::Current)
    } else if path == "/api/metrics/history"@ {
        metrics_get_only(method, MetricsEndpoint::History)
    } else if path == "/api/metrics/apps"@ {
        metrics_get_only(method, MetricsEndpoint::Apps)
    } else if path == "/api/metrics/hosts"@ {
        metrics_get_only(method, MetricsEndpoint::Hosts)
    } else {
        MetricsEndpoint::NotFound
    }
}

/// The metrics operation a request asks for.
pub fn metrics_endpoint(path: &str, method: &str) -> (e: MetricsEndpoint)
    ensures
        e == metrics_endpoint_spec(path@, method@),
{
    proof {
        reveal_strlit("/api/metrics");
        reveal_strlit("/api/metrics/");
        assert("/api/metrics/"@ =~= "/api/metrics"@.push('/'));
    }
    let p = str_chars(path);
    let m = str_chars(method);
    let get = chars_eq_str(&m, "GET");
    let found = if path_is(&p, "/api/metrics", "/api/metrics/") {
        MetricsEndpoint::Current
    } else if chars_eq_str(&p, "/api/metrics/history") {
        MetricsEndpoint::History
    } else if chars_eq_str(&p, "/api/metrics/apps") {
        MetricsEndpoint::Apps
    } else if chars_eq_str(&p, "/api/metrics/hosts") {
        MetricsEndpoint::Hosts
    } else {
        return MetricsEndpoint::NotFound;
    };
    if get { found } else { MetricsEndpoint::MethodNotAllowed }
}

/// `GET` reads and `PUT` writes; other methods are refused.
pub open spec fn read_or_write(method: Seq<char>, read: ConfigEndpoint, write: ConfigEndpoint) -> ConfigEndpoint {
    if method == "GET"@ {
        read
    } else if method == "PUT"@ {
        write
    } else {
        ConfigEndpoint::MethodNotAllowed
    }
}

/// The configuration operation a request asks for.
pub open spec fn config_endpoint_spec(path: Seq<char>, method: Seq<char>) -> ConfigEndpoint {
    if is_path(path, "/api/config"@) {
        if method == "GET"@ { ConfigEndpoint::ProxySettings } else { ConfigEndpoint::MethodNotAllowed }
    } else if is_path(path, "/api/config/tls"@) {
        read_or_write(method, ConfigEndpoint::GetTls, ConfigEndpoint::UpdateTls)
    } else if is_path(path, "/api/config/performance"@) {
        read_or_write(method, ConfigEndpoint::GetPerformance, ConfigEndpoint::UpdatePerformance)
    } else if is_path(path, "/api/config/performance/clear-cache"@) {
        if method == "DELETE"@ { ConfigEndpoint::ClearBodyCache } else { ConfigEndpoint::MethodNotAllowed }
    } else {
        ConfigEndpoint::NotFound
    }
}

/// The configuration operation a request asks for.
pub fn config_endpoint(path: &str, method: &str) -> (e: ConfigEndpoint)
    ensures
        e == config_endpoint_spec(path@, method@),
{
    proof {
        reveal_strlit("/api/config");
        reveal_strlit("/api/config/");
        assert("/api/config/"@ =~= "/api/config"@.push('/'));
        reveal_strlit("/api/config/tls");
        reveal_strlit("/api/config/tls/");
        assert("/api/config/tls/"@ =~= "/api/config/tls"@.push('/'));
        reveal_strlit("/api/config/performance");
        reveal_strlit("/api/config/performance/");
        assert("/api/config/performance/"@ =~= "/api/config/performance"@.push('/'));
        reveal_strlit("/api/config/performance/clear-cache");
        reveal_strlit("/api/config/performance/clear-cache/");
        assert("/api/config/performance/clear-cache/"@ =~= "/api/config/performance/clear-cache"@.push('/'));
    }
    let p = str_chars(path);
    let m = str_chars(method);
    let get = chars_eq_str(&m, "GET");
    let put = chars_eq_str(&m, "PUT");
    if path_is(&p, "/api/config", "/api/config/") {
        if get { ConfigEndpoint::ProxySettings } else { ConfigEndpoint::MethodNotAllowed }
    } else if path_is(&p, "/api/config/tls", "/api/config/tls/") {
        if get {
            ConfigEndpoint::GetTls
        } else if put {
            ConfigEndpoint::UpdateTls
        } else {
            ConfigEndpoint::MethodNotAllowed
        }
    } else if path_is(&p, "/api/config/performance", "/api/config/performance/") {
        if get {
            ConfigEndpoint::GetPerformance
        } else if put {
            ConfigEndpoint::UpdatePerformance
        } else {
            ConfigEndpoint::MethodNotAllowed
        }
    } else if path_is(&p, "/api/config/performance/clear-cache", "/api/config/performance/clear-cache/") {
        if chars_eq_str(&m, "DELETE") { ConfigEndpoint::ClearBodyCache } else { ConfigEndpoint::MethodNotAllowed }
    } else {
        ConfigEndpoint::NotFound
    }
}

/// The search operation a request asks for: the path without trailing
/// slashes is `/api/search` or `/api/search/stream`, and only `POST` is
/// served.
pub open spec fn search_endpoint_spec(path: Seq<char>, method: Seq<char>) -> SearchEndpoint {
    let p = trim_end_slashes(path);
    let post = method == "POST"@;
    if p == "/api/search"@ {
        if post { SearchEndpoint::Search } else { SearchEndpoint::MethodNotAllowed }
    } else if p == "/api/search/stream"@ {
        if post { SearchEndpoint::Stream } else { SearchEndpoint::MethodNotAllowed }
    } else {
        SearchEndpoint::NotFound
    }
}

/// The search operation a request asks for.
pub fn search_endpoint(path: &str, method: &str) -> (e: SearchEndpoint)
    ensures
        e == search_endpoint_spec(path@, method@),
{
    let c = str_chars(path);
    let p = trim_end_slashes_exec(&c);
    let m = str_chars(method);
    let post = chars_eq_str(&m, "POST");
    if chars_eq_str(&p, "/api/search") {
        if post { SearchEndpoint::Search } else { SearchEndpoint::MethodNotAllowed }
    } else if chars_eq_str(&p, "/api/search/stream") {
        if post { SearchEndpoint::Stream } else { SearchEndpoint::MethodNotAllowed }
    } else {
        SearchEndpoint::NotFound
    }
}


/// Whether a version check is asked to bypass its cache: the query holds
/// `refresh=true` or `refresh=1`.
pub open spec fn force_refresh_spec(query: Option<Seq<char>>) -> bool {
    match query {
        Some(q) => contains(q, "refresh=true"@) || contains(q, "refresh=1"@),
        None => false,
    }
}

/// Whether a version check is asked to bypass its cache.
pub fn force_refresh(query: Option<&str>) -> (b: bool)
    ensures
        b == force_refresh_spec(match query { Some(q) => Some(q@), None => None }),
{
    match query {
        Some(q) => {
            let c = str_chars(q);
            contains_str(&c, "refresh=true") || contains_str(&c, "refresh=1")
        },
        None => false,
    }
}

} // verus!
