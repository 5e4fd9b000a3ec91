//! Request and response records of the admin API, with the defaults that
//! missing fields take and the paging rules of the audit list.
use vstd::prelude::*;
use crate::text::{str_chars, chars_eq, trim, trim_chars, split, split_chars, split_once, split_once_chars, parse_unsigned, parse_usize_chars, to_owned_string};

verus! {

// ---------------------------------------------------------------------------
// Login audit
// ---------------------------------------------------------------------------

/// Most login records kept.
pub const MAX_LOGIN_RECORDS: i64 = 100;
/// Oldest login record kept, in days.
pub const MAX_LOGIN_AGE_DAYS: i64 = 30;

/// A recorded administrator login.
#[derive(Debug, Clone)]
pub struct AdminLoginAuditEntry {
    pub id: i64,
    pub ts: i64,
    pub username: String,
    pub ip: String,
    pub ua: String,
}

/// A page of the login audit.
#[derive(Debug, Clone)]
pub struct AuditListResponse {
    pub total: i64,
    pub items: Vec<AdminLoginAuditEntry>,
    pub limit: usize,
    pub offset: usize,
}

/// Login records older than this time (seconds) are deleted.
pub fn audit_cutoff_ts(now: i64) -> (t: i64)
    requires
        now >= i64::MIN + MAX_LOGIN_AGE_DAYS * 86400,
    ensures
        t == now - MAX_LOGIN_AGE_DAYS * 86400,
{
    now - MAX_LOGIN_AGE_DAYS * 86400
}

/// A query piece as key and value: split at the first `=`, the value
/// empty when there is none.
pub open spec fn piece_kv(p: Seq<char>) -> (Seq<char>, Seq<char>) {
    match split_once(p, '=') {
        Some((k, v)) => (k, v),
        None => (p, Seq::<char>::empty()),
    }
}

/// A value read as a number.
pub open spec fn usize_of(v: Seq<char>) -> Option<usize> {
    match parse_unsigned(v, usize::MAX as nat) {
        Some(n) => Some(n as usize),
        None => None,
    }
}

/// The value of the first piece of a query whose key, trimmed, is `key`,
/// read as a number.
pub open spec fn usize_param(pieces: Seq<Seq<char>>, key: Seq<char>) -> Option<usize>
    decreases pieces.len(),
{
    if pieces.len() == 0 {
        None
    } else if trim(piece_kv(pieces[0]).0) == key {
        usize_of(piece_kv(pieces[0]).1)
    } else {
        usize_param(pieces.drop_first(), key)
    }
}

/// Splits a query piece into key and value.
pub(crate) fn piece_kv_exec(p: &[char]) -> (r: (Vec<char>, Vec<char>))
    ensures
        (r.0@, r.1@) == piece_kv(p@),
{
    match split_once_chars(p, '=') {
        Some((k, v)) => (k, v),
        None => {
            let k = crate::text::slice_chars(p, 0, p.len());
            proof {
                assert(p@.subrange(0, p@.len() as int) =~= p@);
            }
            let v: Vec<char> = Vec::new();
            proof {
                assert(v@ =~= Seq::<char>::empty());
            }
            (k, v)
        },
    }
}

/// A numeric query parameter of the audit list (`None` without a query).
pub fn parse_usize_query(query: Option<&str>, key: &str) -> (r: Option<usize>)
    ensures
        match query {
            Some(q) => r == usize_param(split(q@, '&'), key@),
            None => r is None,
        },
{
    let q = match query {
        Some(q) => q,
        None => { return None; },
    };
    let qc = str_chars(q);
    let kc = str_chars(key);
    let pieces = split_chars(&qc, '&');
    let ghost ps = split(q@, '&');
    proof {
        assert(ps.skip(0) =~= ps);
    }
    let mut i: usize = 0;
    while i < pieces.len()
        invariant
            i <= pieces@.len(),
            pieces@.len() == ps.len(),
            forall|k: int| 0 <= k < pieces@.len() ==> #[trigger] pieces@[k]@ == ps[k],
            usize_param(ps, key@) == usize_param(ps.skip(i as int), key@),
            ps == split(q@, '&'),
            kc@ == key@,
            query matches Some(x) && x@ == q@,
        decreases pieces@.len() - i,
    {
        proof {
            assert(ps.skip(i as int)[0] == ps[i as int]);
            assert(ps.skip(i as int).drop_first() =~= ps.skip(i + 1));
            assert(pieces@[i as int]@ == ps[i as int]);
        }
        let (k, v) = piece_kv_exec(&pieces[i]);
        let kt = trim_chars(&k);
        if chars_eq(&kt, &kc) {
            let r = parse_usize_chars(&v);
            proof {
                assert(trim(piece_kv(ps.skip(i as int)[0]).0) == key@);
                assert(r == usize_of(v@));
            }
            return r;
        }
        i = i + 1;
    }
    proof {
        assert(ps.skip(i as int) =~= Seq::<Seq<char>>::empty());
    }
    None
}

/// The page of the audit list asked for: 50 entries when no or a zero limit
/// is given, at most 500; from offset 0 by default.
pub fn audit_page(limit: Option<usize>, offset: Option<usize>) -> (r: (usize, usize))
    ensures
        r.0 == (match limit {
            Some(l) if l > 0 => if l > 500 { 500 } else { l },
            _ => 50,
        }),
        r.1 == (match offset {
            Some(o) => o,
            None => 0,
        }),
{
    let mut l = match limit {
        Some(l) => l,
        None => 50,
    };
    let o = match offset {
        Some(o) => o,
        None => 0,
    };
    if l == 0 {
        l = 50;
    }
    if l > 500 {
        l = 500;
    }
    (l, o)
}

// ---------------------------------------------------------------------------
// Authentication endpoints
// ---------------------------------------------------------------------------

/// A login attempt.
pub struct LoginRequest {
    pub username: String,
    pub password: String,
}

/// A successful login.
pub struct LoginResponse {
    pub token: String,
    pub expires_at: String,
    pub username: String,
}

/// Whether authentication is on, for the login page.
pub struct AuthStatusResponse {
    pub remote_access_enabled: bool,
    pub auth_required: bool,
    pub username: String,
    pub has_password: bool,
}

/// A password change, possibly with a new user name.
pub struct ChangePasswordRequest {
    pub username: Option<String>,
    pub password: String,
}

/// A change of the remote access switch.
pub struct RemoteAccessRequest {
    pub enabled: bool,
}

/// The authentication status: authentication is required exactly when
/// remote access is on.
pub fn auth_status_response(remote_enabled: bool, username: String, has_password: bool) -> (r: AuthStatusResponse)
    ensures
        r.remote_access_enabled == remote_enabled,
        r.auth_required == remote_enabled,
        r.username == username,
        r.has_password == has_password,
{
    AuthStatusResponse { remote_access_enabled: remote_enabled, auth_required: remote_enabled, username, has_password }
}

// ---------------------------------------------------------------------------
// Other records
// ---------------------------------------------------------------------------

/// Paging of a frame list.
#[derive(Debug, Clone)]
pub struct FramesQuery {
    pub after: Option<u64>,
    pub limit: usize,
}

/// The frame page size when none is given.
pub fn default_limit() -> (n: usize)
    ensures
        n == 100,
{
    100
}

impl FramesQuery {
    /// From the start, 100 frames.
    pub fn default() -> (q: FramesQuery)
        ensures
            q.after is None,
            q.limit == 100,
    {
        FramesQuery { after: None, limit: default_limit() }
    }
}

/// Traffic counters of one client application.
#[derive(Debug, Clone)]
pub struct AppMetrics {
    pub app_name: String,
    pub requests: u64,
    pub active_connections: u64,
    pub bytes_sent: u64,
    pub bytes_received: u64,
    pub http_requests: u64,
    pub https_requests: u64,
    pub tunnel_requests: u64,
    pub ws_requests: u64,
    pub wss_requests: u64,
    pub h3_requests: u64,
    pub socks5_requests: u64,
}

/// Traffic counters of one host.
#[derive(Debug, Clone)]
pub struct HostMetrics {
    pub host: String,
    pub requests: u64,
    pub active_connections: u64,
    pub bytes_sent: u64,
    pub bytes_received: u64,
    pub http_requests: u64,
    pub https_requests: u64,
    pub tunnel_requests: u64,
    pub ws_requests: u64,
    pub wss_requests: u64,
    pub h3_requests: u64,
    pub socks5_requests: u64,
}

impl AppMetrics {
    /// Zero counters for an application.
    pub fn new(app_name: String) -> (m: AppMetrics)
        ensures
            m.app_name == app_name,
            m.requests == 0 && m.active_connections == 0 && m.bytes_sent == 0 && m.bytes_received == 0,
            m.http_requests == 0 && m.https_requests == 0 && m.tunnel_requests == 0,
            m.ws_requests == 0 && m.wss_requests == 0 && m.h3_requests == 0 && m.socks5_requests == 0,
    {
        AppMetrics {
            app_name,
            requests: 0,
            active_connections: 0,
            bytes_sent: 0,
            bytes_received: 0,
            http_requests: 0,
            https_requests: 0,
            tunnel_requests: 0,
            ws_requests: 0,
            wss_requests: 0,
            h3_requests: 0,
            socks5_requests: 0,
        }
    }
}

impl HostMetrics {
    /// Zero counters for a host.
    pub fn new(host: String) -> (m: HostMetrics)
        ensures
            m.host == host,
            m.requests == 0 && m.active_connections == 0 && m.bytes_sent == 0 && m.bytes_received == 0,
            m.http_requests == 0 && m.https_requests == 0 && m.tunnel_requests == 0,
            m.ws_requests == 0 && m.wss_requests == 0 && m.h3_requests == 0 && m.socks5_requests == 0,
    {
        HostMetrics {
            host,
            requests: 0,
            active_connections: 0,
            bytes_sent: 0,
            bytes_received: 0,
            http_requests: 0,
            https_requests: 0,
            tunnel_requests: 0,
            ws_requests: 0,
            wss_requests: 0,
            h3_requests: 0,
            socks5_requests: 0,
        }
    }
}

/// An event of a replayed stream.
#[derive(Debug, Clone)]
pub struct StreamEvent {
    pub type_: String,
    pub data: String,
    pub id: Option<String>,
}

/// A message of a replayed WebSocket.
#[derive(Debug, Clone)]
pub struct WebSocketMessage {
    pub type_: String,
    pub data: String,
    pub timestamp: u64,
}

/// A script to save.
pub struct SaveScriptRequest {
    pub content: String,
    pub description: Option<String>,
}

/// A request to run a script against.
pub struct MockRequestData {
    pub url: String,
    pub method: String,
    pub headers: Vec<(String, String)>,
    pub body: Option<String>,
}

/// A response to run a script against.
pub struct MockResponseData {
    pub status: u16,
    pub headers: Vec<(String, String)>,
    pub body: Option<String>,
}

/// The URL of a mock request when none is given.
pub fn default_url() -> (s: String)
    ensures
        s@ == "https://example.com/api"@,
{
    to_owned_string("https://example.com/api")
}

/// The method of a mock request when none is given.
pub fn default_method() -> (s: String)
    ensures
        s@ == "GET"@,
{
    to_owned_string("GET")
}

/// The status of a mock response when none is given.
pub fn default_status() -> (s: u16)
    ensures
        s == 200,
{
    200
}

impl MockRequestData {
    /// Empty fields (the derived default, not the per-field defaults that
    /// apply to a parsed request).
    pub fn empty() -> (m: MockRequestData)
        ensures
            m.url@.len() == 0,
            m.method@.len() == 0,
            m.headers@.len() == 0,
            m.body is None,
    {
        MockRequestData { url: String::new(), method: String::new(), headers: Vec::new(), body: None }
    }
}

impl MockResponseData {
    /// Empty fields (the derived default).
    pub fn empty() -> (m: MockResponseData)
        ensures
            m.status == 0,
            m.headers@.len() == 0,
            m.body is None,
    {
        MockResponseData { status: 0, headers: Vec::new(), body: None }
    }
}

/// The outcome of moving the proxy to another port.
#[derive(Debug, Clone)]
pub struct PortRebindResponse {
    pub expected_port: u16,
    pub actual_port: u16,
}

} // verus!
