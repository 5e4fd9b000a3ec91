//! Saved requests for replay, their groups and execution history: the
//! records, their stored encodings, the statements the store runs, and the
//! store's limits.
use vstd::prelude::*;
use crate::text::{str_chars, chars_eq_str, to_owned_string, push_str};

verus! {

/// Most saved requests the store holds.
pub const MAX_REQUESTS: usize = 1000;
/// Most history records the store keeps.
pub const MAX_HISTORY: usize = 10000;
/// Most replays running at once.
pub const MAX_CONCURRENT_REPLAYS: usize = 100;
/// The store checks the history size once every this many insertions.
pub const CLEANUP_CHECK_INTERVAL: usize = 100;

/// Which rules a replay applies.
#[derive(Debug, Clone, Copy, PartialEq, Eq)]
pub enum RuleMode {
    /// The enabled rules.
    Enabled,
    /// The rules named in the configuration.
    Selected,
    /// No rules (stored as `none`).
    Disabled,
}

impl Default for RuleMode {
    fn default() -> (m: RuleMode)
        ensures
            m == RuleMode::Enabled,
    {
        RuleMode::Enabled
    }
}

/// The rules of a replay.
#[derive(Debug, Clone)]
pub struct RuleConfig {
    pub mode: RuleMode,
    pub selected_rules: Vec<String>,
}

impl Default for RuleConfig {
    fn default() -> (c: RuleConfig)
        ensures
            c.mode == RuleMode::Enabled,
            c.selected_rules@.len() == 0,
    {
        RuleConfig { mode: RuleMode::Enabled, selected_rules: Vec::new() }
    }
}

/// The kind of a request body.
#[derive(Debug, Clone, Copy, PartialEq, Eq)]
pub enum BodyType {
    /// No body (stored as `none`).
    Empty,
    FormData,
    XWwwFormUrlencoded,
    Raw,
    Binary,
}

impl Default for BodyType {
    fn default() -> (b: BodyType)
        ensures
            b == BodyType::Empty,
    {
        BodyType::Empty
    }
}

/// The language of a raw body.
#[derive(Debug, Clone, Copy, PartialEq, Eq)]
pub enum RawType {
    Json,
    Xml,
    Text,
    Javascript,
    Html,
}

impl Default for RawType {
    fn default() -> (r: RawType)
        ensures
            r == RawType::Text,
    {
        RawType::Text
    }
}

/// A header or form field of a saved request.
#[derive(Debug, Clone)]
pub struct KeyValueItem {
    pub id: String,
    pub key: String,
    pub value: String,
    pub enabled: bool,
    pub description: Option<String>,
}

/// The value a missing `enabled` flag takes.
pub fn default_true() -> (b: bool)
    ensures
        b,
{
    true
}

impl Default for KeyValueItem {
    fn default() -> (k: KeyValueItem)
        ensures
            k.id@.len() == 0,
            k.key@.len() == 0,
            k.value@.len() == 0,
            !k.enabled,
            k.description is None,
    {
        KeyValueItem {
            id: String::new(),
            key: String::new(),
            value: String::new(),
            enabled: false,
            description: None,
        }
    }
}

/// The body of a saved request.
#[derive(Debug, Clone)]
pub struct ReplayBody {
    pub body_type: BodyType,
    pub raw_type: Option<RawType>,
    pub content: Option<String>,
    pub form_data: Vec<KeyValueItem>,
    pub binary_file: Option<String>,
}

impl Default for ReplayBody {
    fn default() -> (b: ReplayBody)
        ensures
            b.body_type == BodyType::Empty,
            b.raw_type is None,
            b.content is None,
            b.form_data@.len() == 0,
            b.binary_file is None,
    {
        ReplayBody {
            body_type: BodyType::Empty,
            raw_type: None,
            content: None,
            form_data: Vec::new(),
            binary_file: None,
        }
    }
}

/// A folder of saved requests.
#[derive(Debug, Clone)]
pub struct ReplayGroup {
    pub id: String,
    pub name: String,
    pub parent_id: Option<String>,
    pub sort_order: i32,
    pub created_at: u64,
    pub updated_at: u64,
}

/// The protocol of a saved request.
#[derive(Debug, Clone, Copy, PartialEq, Eq)]
pub enum RequestType {
    Http,
    Sse,
    WebSocket,
}

/// Where a saved request came from.
#[derive(Debug, Clone, Copy, PartialEq, Eq)]
pub enum RequestSource {
    Internal,
    Imported,
}

/// A saved request.
#[derive(Debug, Clone)]
pub struct ReplayRequest {
    pub id: String,
    pub group_id: Option<String>,
    pub name: Option<String>,
    pub request_type: RequestType,
    pub method: String,
    pub url: String,
    pub headers: Vec<KeyValueItem>,
    pub body: Option<ReplayBody>,
    pub is_saved: bool,
    pub sort_order: i32,
    pub source: RequestSource,
    pub created_at: u64,
    pub updated_at: u64,
}

impl ReplayRequest {
    /// A new, unsaved HTTP request with identifier `id`, made at `now`
    /// (milliseconds): no group, name, headers or body.
    pub fn new(method: String, url: String, id: String, now: u64) -> (r: ReplayRequest)
        ensures
            r.id == id,
            r.method == method,
            r.url == url,
            r.group_id is None,
            r.name is None,
            r.request_type == RequestType::Http,
            r.headers@.len() == 0,
            r.body is None,
            !r.is_saved,
            r.sort_order == 0,
            r.source == RequestSource::Internal,
            r.created_at == now,
            r.updated_at == now,
    {
        ReplayRequest {
            id,
            group_id: None,
            name: None,
            request_type: RequestType::Http,
            method,
            url,
            headers: Vec::new(),
            body: None,
            is_saved: false,
            sort_order: 0,
            source: RequestSource::Internal,
            created_at: now,
            updated_at: now,
        }
    }
}

/// One execution of a replay.
#[derive(Debug, Clone)]
pub struct ReplayHistory {
    pub id: String,
    pub request_id: Option<String>,
    pub traffic_id: String,
    pub method: String,
    pub url: String,
    pub status: u16,
    pub duration_ms: u64,
    pub executed_at: u64,
    pub rule_config: Option<RuleConfig>,
}

impl ReplayHistory {
    /// A history record with identifier `id`, executed at `executed_at`
    /// (milliseconds).
    pub fn new(
        request_id: Option<String>,
        traffic_id: String,
        method: String,
        url: String,
        status: u16,
        duration_ms: u64,
        rule_config: Option<RuleConfig>,
        id: String,
        executed_at: u64,
    ) -> (h: ReplayHistory)
        ensures
            h.id == id,
            h.request_id == request_id,
            h.traffic_id == traffic_id,
            h.method == method,
            h.url == url,
            h.status == status,
            h.duration_ms == duration_ms,
            h.executed_at == executed_at,
            h.rule_config == rule_config,
    {
        ReplayHistory { id, request_id, traffic_id, method, url, status, duration_ms, executed_at, rule_config }
    }
}

/// Sizes of the replay store.
#[derive(Debug, Clone)]
pub struct ReplayDbStats {
    pub request_count: usize,
    pub history_count: usize,
    pub group_count: usize,
    pub db_size: u64,
    pub db_path: String,
}

/// A saved request without headers and body, for lists.
#[derive(Debug, Clone)]
pub struct ReplayRequestSummary {
    pub id: String,
    pub group_id: Option<String>,
    pub name: Option<String>,
    pub method: String,
    pub url: String,
    pub is_saved: bool,
    pub created_at: u64,
    pub updated_at: u64,
}

/// A copy of a string.
fn copy_string(s: &String) -> (r: String)
    ensures
        r@ == s@,
{
    to_owned_string(s.as_str())
}

/// A copy of an optional string.
fn copy_opt(s: &Option<String>) -> (r: Option<String>)
    ensures
        match s {
            Some(x) => r matches Some(y) && y@ == x@,
            None => r is None,
        },
{
    match s {
        Some(x) => Some(copy_string(x)),
        None => None,
    }
}

impl ReplayRequestSummary {
    /// The summary of a saved request.
    pub fn from(req: &ReplayRequest) -> (s: ReplayRequestSummary)
        ensures
            s.id@ == req.id@,
            match req.group_id {
                Some(g) => s.group_id matches Some(x) && x@ == g@,
                None => s.group_id is None,
            },
            match req.name {
                Some(n) => s.name matches Some(x) && x@ == n@,
                None => s.name is None,
            },
            s.method@ == req.method@,
            s.url@ == req.url@,
            s.is_saved == req.is_saved,
            s.created_at == req.created_at,
            s.updated_at == req.updated_at,
    {
        ReplayRequestSummary {
            id: copy_string(&req.id),
            group_id: copy_opt(&req.group_id),
            name: copy_opt(&req.name),
            method: copy_string(&req.method),
            url: copy_string(&req.url),
            is_saved: req.is_saved,
            created_at: req.created_at,
            updated_at: req.updated_at,
        }
    }
}

// ---------------------------------------------------------------------------
// Stored encodings
// ---------------------------------------------------------------------------

/// The stored text of a request type.
pub open spec fn request_type_text(rt: RequestType) -> Seq<char> {
    match rt {
        RequestType::Http => "http"@,
        RequestType::Sse => "sse"@,
        RequestType::WebSocket => "websocket"@,
    }
}

/// The request type a stored text denotes (anything unknown is HTTP).
pub open spec fn request_type_of(s: Seq<char>) -> RequestType {
    if s == "sse"@ {
        RequestType::Sse
    } else if s == "websocket"@ {
        RequestType::WebSocket
    } else {
        RequestType::Http
    }
}

/// The stored text of a request source.
pub open spec fn request_source_text(src: RequestSource) -> Seq<char> {
    match src {
        RequestSource::Internal => "internal"@,
        RequestSource::Imported => "imported"@,
    }
}

/// The request source a stored text denotes (anything unknown is internal).
pub open spec fn request_source_of(s: Seq<char>) -> RequestSource {
    if s == "imported"@ {
        RequestSource::Imported
    } else {
        RequestSource::Internal
    }
}

pub fn request_type_to_str(rt: &RequestType) -> (s: &'static str)
    ensures
        s@ == request_type_text(*rt),
{
    match rt {
        RequestType::Http => "http",
        RequestType::Sse => "sse",
        RequestType::WebSocket => "websocket",
    }
}

pub fn str_to_request_type(s: &str) -> (rt: RequestType)
    ensures
        rt == request_type_of(s@),
{
    let c = str_chars(s);
    if chars_eq_str(&c, "sse") {
        RequestType::Sse
    } else if chars_eq_str(&c, "websocket") {
        RequestType::WebSocket
    } else {
        RequestType::Http
    }
}

pub fn request_source_to_str(source: &RequestSource) -> (s: &'static str)
    ensures
        s@ == request_source_text(*source),
{
    match source {
        RequestSource::Internal => "internal",
        RequestSource::Imported => "imported",
    }
}

pub fn str_to_request_source(s: &str) -> (src: RequestSource)
    ensures
        src == request_source_of(s@),
{
    let c = str_chars(s);
    if chars_eq_str(&c, "imported") {
        RequestSource::Imported
    } else {
        RequestSource::Internal
    }
}

/// Reading back a stored request type gives the type that was stored.
pub proof fn lemma_request_type_round_trip(rt: RequestType)
    ensures
        request_type_of(request_type_text(rt)) == rt,
{
    reveal_strlit("http");
    reveal_strlit("sse");
    reveal_strlit("websocket");
    assert("http"@.len() == 4 && "sse"@.len() == 3 && "websocket"@.len() == 9);
    assert("http"@ != "sse"@ && "http"@ != "websocket"@ && "sse"@ != "websocket"@);
}

/// Reading back a stored request source gives the source that was stored.
pub proof fn lemma_request_source_round_trip(src: RequestSource)
    ensures
        request_source_of(request_source_text(src)) == src,
{
    reveal_strlit("internal");
    reveal_strlit("imported");
    assert("internal"@[1] == 'n' && "imported"@[1] == 'm');
    assert("internal"@ != "imported"@);
}

// ---------------------------------------------------------------------------
// Statements
// ---------------------------------------------------------------------------

pub fn get_insert_request_sql() -> (s: &'static str)
    ensures
        s@ == "
    INSERT INTO replay_requests (
        id, group_id, name, request_type, method, url,
        headers_blob, body_blob, is_saved, sort_order,
        source, created_at, updated_at
    ) VALUES (?1, ?2, ?3, ?4, ?5, ?6, ?7, ?8, ?9, ?10, ?11, ?12, ?13)
    "@,
{
    "
    INSERT INTO replay_requests (
        id, group_id, name, request_type, method, url,
        headers_blob, body_blob, is_saved, sort_order,
        source, created_at, updated_at
    ) VALUES (?1, ?2, ?3, ?4, ?5, ?6, ?7, ?8, ?9, ?10, ?11, ?12, ?13)
    "
}

pub fn get_update_request_sql() -> (s: &'static str)
    ensures
        s@ == "
    UPDATE replay_requests SET
        group_id = ?1,
        name = ?2,
        request_type = ?3,
        method = ?4,
        url = ?5,
        headers_blob = ?6,
        body_blob = ?7,
        is_saved = ?8,
        sort_order = ?9,
        source = ?10,
        updated_at = ?11
    WHERE id = ?12
    "@,
{
    "
    UPDATE replay_requests SET
        group_id = ?1,
        name = ?2,
        request_type = ?3,
        method = ?4,
        url = ?5,
        headers_blob = ?6,
        body_blob = ?7,
        is_saved = ?8,
        sort_order = ?9,
        source = ?10,
        updated_at = ?11
    WHERE id = ?12
    "
}

pub fn get_insert_group_sql() -> (s: &'static str)
    ensures
        s@ == "
    INSERT INTO replay_groups (
        id, name, parent_id, sort_order, created_at, updated_at
    ) VALUES (?1, ?2, ?3, ?4, ?5, ?6)
    "@,
{
    "
    INSERT INTO replay_groups (
        id, name, parent_id, sort_order, created_at, updated_at
    ) VALUES (?1, ?2, ?3, ?4, ?5, ?6)
    "
}

pub fn get_update_group_sql() -> (s: &'static str)
    ensures
        s@ == "
    UPDATE replay_groups SET
        name = ?1,
        parent_id = ?2,
        sort_order = ?3,
        updated_at = ?4
    WHERE id = ?5
    "@,
{
    "
    UPDATE replay_groups SET
        name = ?1,
        parent_id = ?2,
        sort_order = ?3,
        updated_at = ?4
    WHERE id = ?5
    "
}

pub fn get_insert_history_sql() -> (s: &'static str)
    ensures
        s@ == "
    INSERT INTO replay_history (
        id, request_id, traffic_id, method, url,
        status, duration_ms, executed_at, rule_config_blob
    ) VALUES (?1, ?2, ?3, ?4, ?5, ?6, ?7, ?8, ?9)
    "@,
{
    "
    INSERT INTO replay_history (
        id, request_id, traffic_id, method, url,
        status, duration_ms, executed_at, rule_config_blob
    ) VALUES (?1, ?2, ?3, ?4, ?5, ?6, ?7, ?8, ?9)
    "
}

// ---------------------------------------------------------------------------
// Limits
// ---------------------------------------------------------------------------

/// Whether a new request is refused, the store holding `count` already.
pub fn request_limit_reached(count: usize) -> (b: bool)
    ensures
        b == (count >= MAX_REQUESTS),
{
    count >= MAX_REQUESTS
}

/// How many of the oldest history records to delete after an insertion:
/// `insertions` counts the insertions before this one, `count` is the number
/// of records. The size is checked once every `CLEANUP_CHECK_INTERVAL`
/// insertions, and the excess over `MAX_HISTORY` goes.
pub fn history_cleanup_excess(insertions: usize, count: usize) -> (r: Option<usize>)
    ensures
        insertions % CLEANUP_CHECK_INTERVAL != 0 ==> r is None,
        insertions % CLEANUP_CHECK_INTERVAL == 0 ==> match r {
            Some(n) => count > MAX_HISTORY && n == count - MAX_HISTORY,
            None => count <= MAX_HISTORY,
        },
{
    if insertions % CLEANUP_CHECK_INTERVAL != 0 {
        return None;
    }
    if count > MAX_HISTORY {
        Some(count - MAX_HISTORY)
    } else {
        None
    }
}

/// After a cleanup the store holds exactly `MAX_HISTORY` records.
pub proof fn lemma_cleanup_leaves_limit(count: usize)
    requires
        count > MAX_HISTORY,
    ensures
        count - (count - MAX_HISTORY) == MAX_HISTORY,
{
}

// ---------------------------------------------------------------------------
// Execution
// ---------------------------------------------------------------------------

/// A rule that a replay applied.
#[derive(Debug, Clone)]
pub struct MatchedRule {
    pub pattern: String,
    pub protocol: String,
    pub value: String,
    pub rule_name: String,
    pub raw: Option<String>,
    pub line: Option<usize>,
}

/// The request part of a replay.
#[derive(Debug, Clone)]
pub struct ReplayRequestData {
    pub method: String,
    pub url: String,
    pub headers: Vec<(String, String)>,
    pub body: Option<String>,
}

/// A replay to run.
#[derive(Debug, Clone)]
pub struct ReplayExecuteRequest {
    pub request: ReplayRequestData,
    pub rule_config: RuleConfig,
    pub request_id: Option<String>,
}

/// The outcome of a replay.
#[derive(Debug, Clone)]
pub struct ReplayExecuteResponse {
    pub traffic_id: String,
    pub status: u16,
    pub headers: Vec<(String, String)>,
    pub body: Option<String>,
    pub duration_ms: u64,
    pub applied_rules: Vec<MatchedRule>,
    pub error: Option<String>,
}

/// Why a replay failed.
#[derive(Debug)]
pub enum ReplayError {
    TooManyConcurrent,
    InvalidUrl(String),
    ConnectionFailed(String),
    RequestFailed(String),
    Internal(String),
}

impl ReplayError {
    /// The message of the error.
    pub fn message(&self) -> (s: String)
        ensures
            s@ == match self {
                ReplayError::TooManyConcurrent => "Too many concurrent replay requests"@,
                ReplayError::InvalidUrl(m) => "Invalid URL: "@ + m@,
                ReplayError::ConnectionFailed(m) => "Connection failed: "@ + m@,
                ReplayError::RequestFailed(m) => "Request failed: "@ + m@,
                ReplayError::Internal(m) => "Internal error: "@ + m@,
            },
    {
        let (prefix, detail) = match self {
            ReplayError::TooManyConcurrent => {
                return to_owned_string("Too many concurrent replay requests");
            },
            ReplayError::InvalidUrl(m) => ("Invalid URL: ", m),
            ReplayError::ConnectionFailed(m) => ("Connection failed: ", m),
            ReplayError::RequestFailed(m) => ("Request failed: ", m),
            ReplayError::Internal(m) => ("Internal error: ", m),
        };
        let mut s = to_owned_string(prefix);
        push_str(&mut s, detail.as_str());
        s
    }
}

/// The identifier of the `n`-th replay: `replay-` and the number.
pub fn replay_id(n: u64) -> (s: String)
    ensures
        s@ == "replay-"@ + crate::text::decimal(n as nat),
{
    let mut s = to_owned_string("replay-");
    crate::text::push_decimal(&mut s, n);
    s
}

/// The default port of a URL scheme: 443 for HTTPS, 80 otherwise.
pub fn default_port(is_https: bool) -> (p: u16)
    ensures
        p == if is_https { 443u16 } else { 80u16 },
{
    if is_https {
        443
    } else {
        80
    }
}

} // verus!
