//! Routing of admin requests by path, and the check that asks remote clients
//! for a session token.
use vstd::prelude::*;
use crate::text::{str_chars, starts_with, starts_with_str, slice_chars, string_from_chars};
use crate::auth::{bearer_token, extract_bearer_token};

verus! {

/// Every admin path starts with this.
pub const ADMIN_PATH_PREFIX: &'static str = "/_bifrost";

/// The admin router.
pub struct AdminRouter;

/// Where an admin request goes.
pub enum AdminRoute {
    /// The path is not under the admin prefix.
    NotFound,
    CertPublic,
    ProxyPublic,
    SyncPublic,
    /// An API endpoint; the path below the prefix is routed further.
    Api,
    /// A file of the web interface, by its path below the prefix.
    Static,
}

/// Which handler an API path goes to.
pub enum ApiRoute {
    Auth,
    Audit,
    Rules,
    Traffic,
    Metrics,
    System,
    /// The settings store, with the path after `/api/values`.
    Values(String),
    Whitelist,
    Cert,
    Proxy,
    Config,
    WebSocketConnections,
    Push,
    AppIcon,
    Search,
    Sync,
    GroupRules,
    Group,
    Env,
    Room,
    User,
    Scripts,
    Replay,
    Syntax,
    /// Bifrost files, with the path after `/api/bifrost-file`.
    BifrostFile(String),
    NotFound,
}

/// What the authentication check decides for an API request.
pub enum AuthGate {
    /// The request goes on.
    Allow,
    /// A remote client sent no usable bearer token.
    MissingToken,
    /// A remote client sent this token, which must be validated.
    Validate(String),
}

/// The route of an admin path (`p` is the whole request path).
pub open spec fn admin_route_spec(p: Seq<char>) -> AdminRoute {
    if !starts_with(p, "/_bifrost"@) {
        AdminRoute::NotFound
    } else {
        let a = p.skip(9);
        if starts_with(a, "/public/cert"@) {
            AdminRoute::CertPublic
        } else if starts_with(a, "/public/proxy"@) {
            AdminRoute::ProxyPublic
        } else if starts_with(a, "/public/sync-login"@) {
            AdminRoute::SyncPublic
        } else if starts_with(a, "/api/"@) {
            AdminRoute::Api
        } else {
            AdminRoute::Static
        }
    }
}

/// The API handler of a path below the admin prefix, by the first prefix
/// that matches, in the router's order.
pub open spec fn api_route_spec(p: Seq<char>) -> ApiRouteKind {
    if starts_with(p, "/api/auth"@) {
        ApiRouteKind::Auth
    } else if starts_with(p, "/api/admin/audit"@) {
        ApiRouteKind::Audit
    } else if starts_with(p, "/api/rules"@) {
        ApiRouteKind::Rules
    } else if starts_with(p, "/api/traffic"@) {
        ApiRouteKind::Traffic
    } else if starts_with(p, "/api/metrics"@) {
        ApiRouteKind::Metrics
    } else if starts_with(p, "/api/system"@) {
        ApiRouteKind::System
    } else if starts_with(p, "/api/values"@) {
        ApiRouteKind::Values
    } else if starts_with(p, "/api/whitelist"@) {
        ApiRouteKind::Whitelist
    } else if starts_with(p, "/api/cert"@) {
        ApiRouteKind::Cert
    } else if starts_with(p, "/api/proxy"@) {
        ApiRouteKind::Proxy
    } else if starts_with(p, "/api/config"@) {
        ApiRouteKind::Config
    } else if starts_with(p, "/api/websocket/connections"@) {
        ApiRouteKind::WebSocketConnections
    } else if starts_with(p, "/api/push"@) {
        ApiRouteKind::Push
    } else if starts_with(p, "/api/app-icon/"@) {
        ApiRouteKind::AppIcon
    } else if starts_with(p, "/api/search"@) {
        ApiRouteKind::Search
    } else if starts_with(p, "/api/sync"@) {
        ApiRouteKind::Sync
    } else if starts_with(p, "/api/group-rules"@) {
        ApiRouteKind::GroupRules
    } else if starts_with(p, "/api/group"@) {
        ApiRouteKind::Group
    } else if starts_with(p, "/api/env"@) {
        ApiRouteKind::Env
    } else if starts_with(p, "/api/room"@) {
        ApiRouteKind::Room
    } else if starts_with(p, "/api/user"@) {
        ApiRouteKind::User
    } else if starts_with(p, "/api/scripts"@) {
        ApiRouteKind::Scripts
    } else if starts_with(p, "/api/replay"@) {
        ApiRouteKind::Replay
    } else if starts_with(p, "/api/syntax"@) {
        ApiRouteKind::Syntax
    } else if starts_with(p, "/api/bifrost-file"@) {
        ApiRouteKind::BifrostFile
    } else {
        ApiRouteKind::NotFound
    }
}

/// The variants of `ApiRoute`, without their data.
pub enum ApiRouteKind {
    Auth,
    Audit,
    Rules,
    Traffic,
    Metrics,
    System,
    Values,
    Whitelist,
    Cert,
    Proxy,
    Config,
    WebSocketConnections,
    Push,
    AppIcon,
    Search,
    Sync,
    GroupRules,
    Group,
    Env,
    Room,
    User,
    Scripts,
    Replay,
    Syntax,
    BifrostFile,
    NotFound,
}

impl ApiRoute {
    /// The variant of a route.
    pub open spec fn kind(&self) -> ApiRouteKind {
        match self {
            ApiRoute::Auth => ApiRouteKind::Auth,
            ApiRoute::Audit => ApiRouteKind::Audit,
            ApiRoute::Rules => ApiRouteKind::Rules,
            ApiRoute::Traffic => ApiRouteKind::Traffic,
            ApiRoute::Metrics => ApiRouteKind::Metrics,
            ApiRoute::System => ApiRouteKind::System,
            ApiRoute::Values(_) => ApiRouteKind::Values,
            ApiRoute::Whitelist => ApiRouteKind::Whitelist,
            ApiRoute::Cert => ApiRouteKind::Cert,
            ApiRoute::Proxy => ApiRouteKind::Proxy,
            ApiRoute::Config => ApiRouteKind::Config,
            ApiRoute::WebSocketConnections => ApiRouteKind::WebSocketConnections,
            ApiRoute::Push => ApiRouteKind::Push,
            ApiRoute::AppIcon => ApiRouteKind::AppIcon,
            ApiRoute::Search => ApiRouteKind::Search,
            ApiRoute::Sync => ApiRouteKind::Sync,
            ApiRoute::GroupRules => ApiRouteKind::GroupRules,
            ApiRoute::Group => ApiRouteKind::Group,
            ApiRoute::Env => ApiRouteKind::Env,
            ApiRoute::Room => ApiRouteKind::Room,
            ApiRoute::User => ApiRouteKind::User,
            ApiRoute::Scripts => ApiRouteKind::Scripts,
            ApiRoute::Replay => ApiRouteKind::Replay,
            ApiRoute::Syntax => ApiRouteKind::Syntax,
            ApiRoute::BifrostFile(_) => ApiRouteKind::BifrostFile,
            ApiRoute::NotFound => ApiRouteKind::NotFound,
        }
    }
}

/// What the authentication check decides: remote access on, a non-authentication endpoint
/// and a peer known not to be on the loopback interface (an unknown peer
/// counts as loopback) call for a bearer token.
pub open spec fn auth_gate_spec(
    remote_enabled: bool,
    path: Seq<char>,
    peer_is_loopback: Option<bool>,
    authorization: Option<Seq<char>>,
) -> Option<Option<Seq<char>>> {
    if remote_enabled && !starts_with(path, "/api/auth/"@) && peer_is_loopback == Some(false) {
        Some(
            match authorization {
                Some(h) => bearer_token(h),
                None => None,
            },
        )
    } else {
        None
    }
}

impl AdminRouter {
    /// The route of a request path.
    pub fn admin_route(path: &str) -> (r: AdminRoute)
        ensures
            r == admin_route_spec(path@),
    {
        let p = str_chars(path);
        if !starts_with_str(&p, "/_bifrost") {
            return AdminRoute::NotFound;
        }
        proof {
            reveal_strlit("/_bifrost");
        }
        let a = slice_chars(&p, 9, p.len());
        proof {
            assert(a@ =~= path@.skip(9));
        }
        if starts_with_str(&a, "/public/cert") {
            AdminRoute::CertPublic
        } else if starts_with_str(&a, "/public/proxy") {
            AdminRoute::ProxyPublic
        } else if starts_with_str(&a, "/public/sync-login") {
            AdminRoute::SyncPublic
        } else if starts_with_str(&a, "/api/") {
            AdminRoute::Api
        } else {
            AdminRoute::Static
        }
    }

    /// The API handler for a path below the admin prefix.
    pub fn api_route(path: &str) -> (r: ApiRoute)
        ensures
            r.kind() == api_route_spec(path@),
            r matches ApiRoute::Values(s) ==> s@ == path@.skip(11),
            r matches ApiRoute::BifrostFile(s) ==> s@ == path@.skip(17),
    {
        let p = str_chars(path);
        if starts_with_str(&p, "/api/auth") {
            ApiRoute::Auth
        } else if starts_with_str(&p, "/api/admin/audit") {
            ApiRoute::Audit
        } else if starts_with_str(&p, "/api/rules") {
            ApiRoute::Rules
        } else if starts_with_str(&p, "/api/traffic") {
            ApiRoute::Traffic
        } else if starts_with_str(&p, "/api/metrics") {
            ApiRoute::Metrics
        } else if starts_with_str(&p, "/api/system") {
            ApiRoute::System
        } else if starts_with_str(&p, "/api/values") {
            proof {
                reveal_strlit("/api/values");
            }
            let rest = slice_chars(&p, 11, p.len());
            proof {
                assert(rest@ =~= path@.skip(11));
            }
            ApiRoute::Values(string_from_chars(&rest))
        } else if starts_with_str(&p, "/api/whitelist") {
            ApiRoute::Whitelist
        } else if starts_with_str(&p, "/api/cert") {
            ApiRoute::Cert
        } else if starts_with_str(&p, "/api/proxy") {
            ApiRoute::Proxy
        } else if starts_with_str(&p, "/api/config") {
            ApiRoute::Config
        } else if starts_with_str(&p, "/api/websocket/connections") {
            ApiRoute::WebSocketConnections
        } else if starts_with_str(&p, "/api/push") {
            ApiRoute::Push
        } else if starts_with_str(&p, "/api/app-icon/") {
            ApiRoute::AppIcon
        } else if starts_with_str(&p, "/api/search") {
            ApiRoute::Search
        } else if starts_with_str(&p, "/api/sync") {
            ApiRoute::Sync
        } else if starts_with_str(&p, "/api/group-rules") {
            ApiRoute::GroupRules
        } else if starts_with_str(&p, "/api/group") {
            ApiRoute::Group
        } else if starts_with_str(&p, "/api/env") {
            ApiRoute::Env
        } else if starts_with_str(&p, "/api/room") {
            ApiRoute::Room
        } else if starts_with_str(&p, "/api/user") {
            ApiRoute::User
        } else if starts_with_str(&p, "/api/scripts") {
            ApiRoute::Scripts
        } else if starts_with_str(&p, "/api/replay") {
            ApiRoute::Replay
        } else if starts_with_str(&p, "/api/syntax") {
            ApiRoute::Syntax
        } else if starts_with_str(&p, "/api/bifrost-file") {
            proof {
                reveal_strlit("/api/bifrost-file");
            }
            let rest = slice_chars(&p, 17, p.len());
            proof {
                assert(rest@ =~= path@.skip(17));
            }
            ApiRoute::BifrostFile(string_from_chars(&rest))
        } else {
            ApiRoute::NotFound
        }
    }

    /// The authentication check for an API request: `remote_enabled` is the
    /// stored remote-access flag, `path` the path below the admin prefix,
    /// `peer_is_loopback` whether the peer address is a loopback address
    /// (`None` when unknown), `authorization` the `Authorization` header.
    pub fn check_api_auth(
        remote_enabled: bool,
        path: &str,
        peer_is_loopback: Option<bool>,
        authorization: Option<&str>,
    ) -> (g: AuthGate)
        ensures
            match auth_gate_spec(
                remote_enabled,
                path@,
                peer_is_loopback,
                match authorization {
                    Some(h) => Some(h@),
                    None => None,
                },
            ) {
                None => g is Allow,
                Some(None) => g is MissingToken,
                Some(Some(t)) => g matches AuthGate::Validate(s) && s@ == t,
            },
    {
        let p = str_chars(path);
        if !remote_enabled || starts_with_str(&p, "/api/auth/") {
            return AuthGate::Allow;
        }
        match peer_is_loopback {
            Some(false) => {},
            _ => { return AuthGate::Allow; },
        }
        match extract_bearer_token(authorization) {
            None => AuthGate::MissingToken,
            Some(t) => AuthGate::Validate(t),
        }
    }
}

} // verus!
