//! The replay API: which operation a request below `/api/replay` asks for,
//! and the decisions of a replayed HTTP request that do not depend on the
//! network.
use vstd::prelude::*;
use crate::text::{
    str_chars, chars_eq_str, starts_with, ends_with, starts_with_str, ends_with_chars, slice_chars,
    string_from_chars, contains, contains_str, push_str, to_owned_string, trim,
};
use crate::replay::{RuleConfig, RuleMode};
use crate::search::{unicode_lower, unicode_upper, to_lowercase, to_uppercase};
use crate::codec::{lossy_text, utf8_lossy, base64_standard, base64_encode};
use crate::dto::StreamEvent;

verus! {

/// The operations of the replay API.
#[derive(Debug, Clone, Copy, PartialEq, Eq, Structural)]
pub enum ReplayAction {
    ExecuteHttp,
    ExecuteWebSocket,
    ListGroups,
    CreateGroup,
    GetGroup,
    UpdateGroup,
    DeleteGroup,
    ListRequests,
    CreateRequest,
    CountRequests,
    MoveRequest,
    GetRequest,
    UpdateRequest,
    DeleteRequest,
    ListHistory,
    ClearHistory,
    CountHistory,
    DeleteHistory,
    Stats,
    MethodNotAllowed,
    NotFound,
}

/// An operation of the replay API, with the id the path names (if any).
pub struct ReplayRoute {
    pub action: ReplayAction,
    pub id: Option<String>,
}

/// `s` without `prefix`, when it starts with it.
pub open spec fn strip_prefix(s: Seq<char>, prefix: Seq<char>) -> Option<Seq<char>> {
    if starts_with(s, prefix) {
        Some(s.skip(prefix.len() as int))
    } else {
        None
    }
}

/// `s` without `suffix`, when it ends with it.
pub open spec fn strip_suffix(s: Seq<char>, suffix: Seq<char>) -> Option<Seq<char>> {
    if ends_with(s, suffix) {
        Some(s.take(s.len() - suffix.len()))
    } else {
        None
    }
}

/// An operation that names no id.
pub open spec fn plain(a: ReplayAction) -> (ReplayAction, Option<Seq<char>>) {
    (a, None)
}

/// The operation a method asks for on an item with the given id, among GET,
/// PUT and DELETE.
pub open spec fn item_action(
    method: Seq<char>,
    id: Seq<char>,
    get: ReplayAction,
    put: ReplayAction,
    delete: ReplayAction,
) -> (ReplayAction, Option<Seq<char>>) {
    if method == "GET"@ {
        (get, Some(id))
    } else if method == "PUT"@ {
        (put, Some(id))
    } else if method == "DELETE"@ {
        (delete, Some(id))
    } else {
        plain(ReplayAction::MethodNotAllowed)
    }
}

/// `a` for the one method that allows it.
pub open spec fn only(method: Seq<char>, allowed: Seq<char>, a: ReplayAction) -> (ReplayAction, Option<Seq<char>>) {
    if method == allowed {
        plain(a)
    } else {
        plain(ReplayAction::MethodNotAllowed)
    }
}

/// `get` for GET and `other` for the other allowed method.
pub open spec fn get_or(method: Seq<char>, get: ReplayAction, other_method: Seq<char>, other: ReplayAction) -> (ReplayAction, Option<Seq<char>>) {
    if method == "GET"@ {
        plain(get)
    } else if method == other_method {
        plain(other)
    } else {
        plain(ReplayAction::MethodNotAllowed)
    }
}

/// The operation of a request below `/api/replay`, by path and method.
pub open spec fn replay_route_spec(path: Seq<char>, method: Seq<char>) -> (ReplayAction, Option<Seq<char>>) {
    if path == "/api/replay/execute"@ || path == "/api/replay/execute/unified"@ {
        only(method, "POST"@, ReplayAction::ExecuteHttp)
    } else if path == "/api/replay/execute/ws"@ {
        only(method, "GET"@, ReplayAction::ExecuteWebSocket)
    } else if path == "/api/replay/groups"@ || path == "/api/replay/groups/"@ {
        get_or(method, ReplayAction::ListGroups, "POST"@, ReplayAction::CreateGroup)
    } else if strip_prefix(path, "/api/replay/groups/"@) is Some {
        item_action(
            method,
            strip_prefix(path, "/api/replay/groups/"@).unwrap(),
            ReplayAction::GetGroup,
            ReplayAction::UpdateGroup,
            ReplayAction::DeleteGroup,
        )
    } else if path == "/api/replay/requests"@ || path == "/api/replay/requests/"@ {
        get_or(method, ReplayAction::ListRequests, "POST"@, ReplayAction::CreateRequest)
    } else if path == "/api/replay/requests/count"@ {
        only(method, "GET"@, ReplayAction::CountRequests)
    } else if strip_prefix(path, "/api/replay/requests/"@) is Some {
        let rest = strip_prefix(path, "/api/replay/requests/"@).unwrap();
        match strip_suffix(rest, "/move"@) {
            Some(id) => if method == "PUT"@ {
                (ReplayAction::MoveRequest, Some(id))
            } else {
                plain(ReplayAction::MethodNotAllowed)
            },
            None => item_action(method, rest, ReplayAction::GetRequest, ReplayAction::UpdateRequest, ReplayAction::DeleteRequest),
        }
    } else if path == "/api/replay/history"@ || path == "/api/replay/history/"@ {
        get_or(method, ReplayAction::ListHistory, "DELETE"@, ReplayAction::ClearHistory)
    } else if path == "/api/replay/history/count"@ {
        only(method, "GET"@, ReplayAction::CountHistory)
    } else if strip_prefix(path, "/api/replay/history/"@) is Some {
        if method == "DELETE"@ {
            (ReplayAction::DeleteHistory, strip_prefix(path, "/api/replay/history/"@))
        } else {
            plain(ReplayAction::MethodNotAllowed)
        }
    } else if path == "/api/replay/stats"@ {
        only(method, "GET"@, ReplayAction::Stats)
    } else {
        plain(ReplayAction::NotFound)
    }
}

/// The view of a route.
pub open spec fn route_view(r: ReplayRoute) -> (ReplayAction, Option<Seq<char>>) {
    (r.action, match r.id {
        Some(s) => Some(s@),
        None => None,
    })
}

/// A route that names no id.
fn plain_route(a: ReplayAction) -> (r: ReplayRoute)
    ensures
        route_view(r) == plain(a),
{
    ReplayRoute { action: a, id: None }
}

/// The characters of `p` after a prefix of length `n`.
fn rest_after(p: &[char], n: usize) -> (r: String)
    requires
        n <= p@.len(),
    ensures
        r@ == p@.skip(n as int),
{
    let v = slice_chars(p, n, p.len());
    proof {
        assert(v@ =~= p@.skip(n as int));
    }
    string_from_chars(&v)
}

/// The route of an item operation.
fn item_route(m: &[char], id: String, get: ReplayAction, put: ReplayAction, delete: ReplayAction) -> (r: ReplayRoute)
    ensures
        route_view(r) == item_action(m@, id@, get, put, delete),
{
    if chars_eq_str(m, "GET") {
        ReplayRoute { action: get, id: Some(id) }
    } else if chars_eq_str(m, "PUT") {
        ReplayRoute { action: put, id: Some(id) }
    } else if chars_eq_str(m, "DELETE") {
        ReplayRoute { action: delete, id: Some(id) }
    } else {
        plain_route(ReplayAction::MethodNotAllowed)
    }
}

/// The route of an operation one method allows.
fn only_route(m: &[char], allowed: &str, a: ReplayAction) -> (r: ReplayRoute)
    ensures
        route_view(r) == only(m@, allowed@, a),
{
    if chars_eq_str(m, allowed) {
        plain_route(a)
    } else {
        plain_route(ReplayAction::MethodNotAllowed)
    }
}

/// The route of a collection: `get` for GET, `other` for the other method.
fn get_or_route(m: &[char], get: ReplayAction, other_method: &str, other: ReplayAction) -> (r: ReplayRoute)
    ensures
        route_view(r) == get_or(m@, get, other_method@, other),
{
    if chars_eq_str(m, "GET") {
        plain_route(get)
    } else if chars_eq_str(m, other_method) {
        plain_route(other)
    } else {
        plain_route(ReplayAction::MethodNotAllowed)
    }
}

/// The operation of a request below `/api/replay`.
pub fn replay_route(path: &str, method: &str) -> (r: ReplayRoute)
    ensures
        route_view(r) == replay_route_spec(path@, method@),
{
    let p = str_chars(path);
    let m = str_chars(method);
    proof {
        reveal_strlit("/api/replay/groups/");
        reveal_strlit("/api/replay/requests/");
        reveal_strlit("/api/replay/history/");
        reveal_strlit("/move");
    }
    if chars_eq_str(&p, "/api/replay/execute") || chars_eq_str(&p, "/api/replay/execute/unified") {
        only_route(&m, "POST", ReplayAction::ExecuteHttp)
    } else if chars_eq_str(&p, "/api/replay/execute/ws") {
        only_route(&m, "GET", ReplayAction::ExecuteWebSocket)
    } else if chars_eq_str(&p, "/api/replay/groups") || chars_eq_str(&p, "/api/replay/groups/") {
        get_or_route(&m, ReplayAction::ListGroups, "POST", ReplayAction::CreateGroup)
    } else if starts_with_str(&p, "/api/replay/groups/") {
        let id = rest_after(&p, 19);
        item_route(&m, id, ReplayAction::GetGroup, ReplayAction::UpdateGroup, ReplayAction::DeleteGroup)
    } else if chars_eq_str(&p, "/api/replay/requests") || chars_eq_str(&p, "/api/replay/requests/") {
        get_or_route(&m, ReplayAction::ListRequests, "POST", ReplayAction::CreateRequest)
    } else if chars_eq_str(&p, "/api/replay/requests/count") {
        only_route(&m, "GET", ReplayAction::CountRequests)
    } else if starts_with_str(&p, "/api/replay/requests/") {
        let rest = slice_chars(&p, 21, p.len());
        proof {
            assert(rest@ =~= p@.skip(21));
        }
        let suffix = str_chars("/move");
        if ends_with_chars(&rest, &suffix) {
            if chars_eq_str(&m, "PUT") {
                let idv = slice_chars(&rest, 0, rest.len() - 5);
                proof {
                    assert(idv@ =~= rest@.take(rest@.len() - 5));
                }
                ReplayRoute { action: ReplayAction::MoveRequest, id: Some(string_from_chars(&idv)) }
            } else {
                plain_route(ReplayAction::MethodNotAllowed)
            }
        } else {
            let id = string_from_chars(&rest);
            item_route(&m, id, ReplayAction::GetRequest, ReplayAction::UpdateRequest, ReplayAction::DeleteRequest)
        }
    } else if chars_eq_str(&p, "/api/replay/history") || chars_eq_str(&p, "/api/replay/history/") {
        get_or_route(&m, ReplayAction::ListHistory, "DELETE", ReplayAction::ClearHistory)
    } else if chars_eq_str(&p, "/api/replay/history/count") {
        only_route(&m, "GET", ReplayAction::CountHistory)
    } else if starts_with_str(&p, "/api/replay/history/") {
        if chars_eq_str(&m, "DELETE") {
            let id = rest_after(&p, 20);
            ReplayRoute { action: ReplayAction::DeleteHistory, id: Some(id) }
        } else {
            plain_route(ReplayAction::MethodNotAllowed)
        }
    } else if chars_eq_str(&p, "/api/replay/stats") {
        only_route(&m, "GET", ReplayAction::Stats)
    } else {
        plain_route(ReplayAction::NotFound)
    }
}

// ---------------------------------------------------------------------------
// A replayed HTTP request
// ---------------------------------------------------------------------------

/// The HTTP methods a replay is sent with.
#[derive(Debug, Clone, Copy, PartialEq, Eq, Structural)]
pub enum ReplayVerb {
    Get,
    Post,
    Put,
    Patch,
    Delete,
    Head,
    Options,
}

/// The method a replay is sent with: by the upper-case name; an unknown
/// name is sent as GET.
pub open spec fn replay_verb_spec(method: Seq<char>) -> ReplayVerb {
    let m = unicode_upper(method);
    if m == "POST"@ {
        ReplayVerb::Post
    } else if m == "PUT"@ {
        ReplayVerb::Put
    } else if m == "PATCH"@ {
        ReplayVerb::Patch
    } else if m == "DELETE"@ {
        ReplayVerb::Delete
    } else if m == "HEAD"@ {
        ReplayVerb::Head
    } else if m == "OPTIONS"@ {
        ReplayVerb::Options
    } else {
        ReplayVerb::Get
    }
}

/// The method a replay is sent with.
pub fn replay_verb(method: &str) -> (v: ReplayVerb)
    ensures
        v == replay_verb_spec(method@),
{
    let up = to_uppercase(method);
    let m = str_chars(up.as_str());
    if chars_eq_str(&m, "POST") {
        ReplayVerb::Post
    } else if chars_eq_str(&m, "PUT") {
        ReplayVerb::Put
    } else if chars_eq_str(&m, "PATCH") {
        ReplayVerb::Patch
    } else if chars_eq_str(&m, "DELETE") {
        ReplayVerb::Delete
    } else if chars_eq_str(&m, "HEAD") {
        ReplayVerb::Head
    } else if chars_eq_str(&m, "OPTIONS") {
        ReplayVerb::Options
    } else {
        ReplayVerb::Get
    }
}

/// The URL is a WebSocket URL (`ws://` or `wss://`, in any case).
pub open spec fn is_websocket_url_spec(url: Seq<char>) -> bool {
    starts_with(unicode_lower(url), "ws://"@) || starts_with(unicode_lower(url), "wss://"@)
}

/// Whether the URL is a WebSocket URL.
pub fn is_websocket_url(url: &str) -> (b: bool)
    ensures
        b == is_websocket_url_spec(url@),
{
    let low = to_lowercase(url);
    let l = str_chars(low.as_str());
    starts_with_str(&l, "ws://") || starts_with_str(&l, "wss://")
}

/// The content type announces an event stream.
pub open spec fn is_event_stream_spec(content_type: Seq<char>) -> bool {
    contains(unicode_lower(content_type), "text/event-stream"@)
}

/// Whether the content type announces an event stream.
pub fn is_event_stream(content_type: &str) -> (b: bool)
    ensures
        b == is_event_stream_spec(content_type@),
{
    let low = to_lowercase(content_type);
    let l = str_chars(low.as_str());
    contains_str(&l, "text/event-stream")
}

/// A refused replay: the HTTP status and the message.
pub struct ReplayRefusal {
    pub status: u16,
    pub message: String,
}

/// What a replay that cannot go through the HTTP endpoint is answered.
pub open spec fn websocket_refusal_message() -> Seq<char> {
    "WebSocket URLs are not supported via HTTP endpoint. Use the WebSocket endpoint (/api/replay/execute/ws) instead."@
}

/// The method a replay of the (rule-applied) URL and method is sent with,
/// or 400 for a WebSocket URL.
pub fn unified_replay_plan(applied_url: &str, applied_method: &str) -> (r: Result<ReplayVerb, ReplayRefusal>)
    ensures
        match r {
            Ok(v) => !is_websocket_url_spec(applied_url@) && v == replay_verb_spec(applied_method@),
            Err(e) => is_websocket_url_spec(applied_url@) && e.status == 400 && e.message@ == websocket_refusal_message(),
        },
{
    if is_websocket_url(applied_url) {
        return Err(ReplayRefusal {
            status: 400,
            message: to_owned_string("WebSocket URLs are not supported via HTTP endpoint. Use the WebSocket endpoint (/api/replay/execute/ws) instead."),
        });
    }
    Ok(replay_verb(applied_method))
}

/// The rules a replay is run with: the given ones, else every enabled rule.
pub fn rule_config_or_default(c: Option<RuleConfig>) -> (r: RuleConfig)
    ensures
        match c {
            Some(x) => r == x,
            None => r.mode == RuleMode::Enabled && r.selected_rules@.len() == 0,
        },
{
    match c {
        Some(x) => x,
        None => RuleConfig { mode: RuleMode::Enabled, selected_rules: Vec::new() },
    }
}

/// 429: too many replays at once.
pub fn too_many_replays() -> (e: ReplayRefusal)
    ensures
        e.status == 429,
        e.message@ == "Too many concurrent replay requests"@,
{
    ReplayRefusal { status: 429, message: to_owned_string("Too many concurrent replay requests") }
}

/// 504: no response headers within the timeout.
pub fn replay_timed_out(timeout_ms: u64) -> (e: ReplayRefusal)
    ensures
        e.status == 504,
        e.message@ == "Request timeout after "@ + crate::text::decimal(timeout_ms as nat) + "ms"@,
{
    let mut m = to_owned_string("Request timeout after ");
    let n = crate::text::u64_to_decimal(timeout_ms);
    push_str(&mut m, n.as_str());
    push_str(&mut m, "ms");
    ReplayRefusal { status: 504, message: m }
}

/// 502: the request could not be sent; `error` is the client's error text.
pub fn replay_failed(error: &str) -> (e: ReplayRefusal)
    ensures
        e.status == 502,
        e.message@ == "Request failed: "@ + error@,
{
    let mut m = to_owned_string("Request failed: ");
    push_str(&mut m, error);
    ReplayRefusal { status: 502, message: m }
}

/// One event of a replayed stream, framed for the event stream sent back to
/// the admin client.
pub fn sse_message_frame(event_json: &str) -> (r: String)
    ensures
        r@ == "event: message\ndata: "@ + event_json@ + "\n\n"@,
{
    let mut s = to_owned_string("event: message\ndata: ");
    push_str(&mut s, event_json);
    push_str(&mut s, "\n\n");
    s
}

// ---------------------------------------------------------------------------
// Reading a replayed event stream line by line
// ---------------------------------------------------------------------------

/// An event of a replayed stream: type, data and id.
pub type EventModel = (Seq<char>, Seq<char>, Option<Seq<char>>);

/// The view of an event.
pub open spec fn event_view(e: StreamEvent) -> EventModel {
    (e.type_@, e.data@, match e.id {
        Some(i) => Some(i@),
        None => None,
    })
}

/// An event that has seen no line yet.
pub open spec fn fresh_event() -> EventModel {
    ("message"@, Seq::empty(), None)
}

/// One line of the stream: a blank line ends the event (which is passed on
/// when it has data); `event:`, `data:` and `id:` lines fill it (data lines
/// are joined with newlines); other lines are ignored.
pub open spec fn line_step(cur: EventModel, line: Seq<char>) -> (EventModel, Option<EventModel>) {
    if line.len() == 0 {
        (fresh_event(), if cur.1.len() > 0 { Some(cur) } else { None })
    } else if starts_with(line, "event:"@) {
        ((trim(line.skip(6)), cur.1, cur.2), None)
    } else if starts_with(line, "data:"@) {
        let joined = if cur.1.len() > 0 { cur.1.push('\n') } else { cur.1 };
        ((cur.0, joined + trim(line.skip(5)), cur.2), None)
    } else if starts_with(line, "id:"@) {
        ((cur.0, cur.1, Some(trim(line.skip(3)))), None)
    } else {
        (cur, None)
    }
}

/// Where reading stands: the bytes of the unfinished line, the event being
/// filled, and the events passed on.
pub type ReadModel = (Seq<u8>, EventModel, Seq<EventModel>);

/// One byte read: a newline completes the line (read as lossy UTF-8).
pub open spec fn byte_step(st: ReadModel, b: u8) -> ReadModel {
    if b == 10 {
        let (cur, out) = line_step(st.1, lossy_text(st.0));
        (Seq::empty(), cur, match out {
            Some(e) => st.2.push(e),
            None => st.2,
        })
    } else {
        (st.0.push(b), st.1, st.2)
    }
}

/// The state after reading the bytes.
pub open spec fn read_bytes(st: ReadModel, bs: Seq<u8>) -> ReadModel
    decreases bs.len(),
{
    if bs.len() == 0 {
        st
    } else {
        byte_step(read_bytes(st, bs.drop_last()), bs.last())
    }
}

/// A fresh event.
pub fn new_stream_event() -> (e: StreamEvent)
    ensures
        event_view(e) == fresh_event(),
{
    StreamEvent { type_: to_owned_string("message"), data: String::new(), id: None }
}

/// The text after a prefix of `n` characters, trimmed.
fn trimmed_after(l: &[char], n: usize) -> (r: String)
    requires
        n <= l@.len(),
    ensures
        r@ == trim(l@.skip(n as int)),
{
    let rest = slice_chars(l, n, l.len());
    proof {
        assert(rest@ =~= l@.skip(n as int));
    }
    let t = crate::text::trim_chars(&rest);
    string_from_chars(&t)
}

/// Applies one complete line to the event being filled; returns the event
/// that the line ends, if any.
pub fn apply_stream_line(cur: &mut StreamEvent, line: &str) -> (out: Option<StreamEvent>)
    ensures
        (event_view(*final(cur)), match out {
            Some(e) => Some(event_view(e)),
            None => None,
        }) == line_step(event_view(*old(cur)), line@),
{
    let l = str_chars(line);
    proof {
        reveal_strlit("event:");
        reveal_strlit("data:");
        reveal_strlit("id:");
    }
    if l.len() == 0 {
        let mut done = new_stream_event();
        std::mem::swap(cur, &mut done);
        if done.data.as_str().is_empty() {
            None
        } else {
            Some(done)
        }
    } else if starts_with_str(&l, "event:") {
        cur.type_ = trimmed_after(&l, 6);
        None
    } else if starts_with_str(&l, "data:") {
        if !cur.data.as_str().is_empty() {
            crate::text::push_char(&mut cur.data, '\n');
        }
        let t = trimmed_after(&l, 5);
        push_str(&mut cur.data, t.as_str());
        None
    } else if starts_with_str(&l, "id:") {
        cur.id = Some(trimmed_after(&l, 3));
        None
    } else {
        None
    }
}

/// Reads a chunk of a replayed stream: `pending` holds the bytes of the
/// unfinished line, `cur` the event being filled; returns the events that
/// the chunk completes, in order.
pub fn read_stream_chunk(pending: &mut Vec<u8>, cur: &mut StreamEvent, chunk: &[u8]) -> (out: Vec<StreamEvent>)
    ensures
        (final(pending)@, event_view(*final(cur)), out@.map_values(|e: StreamEvent| event_view(e)))
            == read_bytes((old(pending)@, event_view(*old(cur)), Seq::empty()), chunk@),
{
    let ghost st0: ReadModel = (pending@, event_view(*cur), Seq::empty());
    let mut out: Vec<StreamEvent> = Vec::new();
    let mut i: usize = 0;
    proof {
        assert(chunk@.take(0) =~= Seq::<u8>::empty());
        assert(out@.map_values(|e: StreamEvent| event_view(e)) =~= Seq::<EventModel>::empty());
    }
    while i < chunk.len()
        invariant
            i <= chunk@.len(),
            (pending@, event_view(*cur), out@.map_values(|e: StreamEvent| event_view(e))) == read_bytes(st0, chunk@.take(i as int)),
        decreases chunk@.len() - i,
    {
        proof {
            assert(chunk@.take(i + 1).drop_last() =~= chunk@.take(i as int));
            assert(chunk@.take(i + 1).last() == chunk@[i as int]);
        }
        let b = chunk[i];
        if b == 10 {
            let text = utf8_lossy(pending.as_slice());
            let ghost before = out@;
            match apply_stream_line(cur, text.as_str()) {
                Some(e) => {
                    out.push(e);
                    proof {
                        assert(out@.map_values(|e: StreamEvent| event_view(e)) =~= before.map_values(|e: StreamEvent| event_view(e)).push(event_view(out@.last())));
                    }
                },
                None => {},
            }
            *pending = Vec::new();
            proof {
                assert(pending@ =~= Seq::<u8>::empty());
            }
        } else {
            pending.push(b);
        }
        i = i + 1;
    }
    proof {
        assert(chunk@.take(i as int) =~= chunk@);
    }
    out
}

proof fn lemma_read_keeps_passed(st: ReadModel, bs: Seq<u8>)
    ensures
        ({
            let r = read_bytes((st.0, st.1, Seq::empty()), bs);
            read_bytes(st, bs) == (r.0, r.1, st.2 + r.2)
        }),
    decreases bs.len(),
{
    if bs.len() == 0 {
        assert(st.2 + Seq::<EventModel>::empty() =~= st.2);
    } else {
        lemma_read_keeps_passed(st, bs.drop_last());
        let r = read_bytes((st.0, st.1, Seq::empty()), bs.drop_last());
        let b = bs.last();
        if b == 10 {
            let (cur, out) = line_step(r.1, lossy_text(r.0));
            match out {
                Some(e) => {
                    assert(st.2 + r.2.push(e) =~= (st.2 + r.2).push(e));
                },
                None => {},
            }
        }
    }
}

proof fn lemma_read_concat(st: ReadModel, a: Seq<u8>, b: Seq<u8>)
    ensures
        read_bytes(st, a + b) == read_bytes(read_bytes(st, a), b),
    decreases b.len(),
{
    if b.len() == 0 {
        assert(a + b =~= a);
    } else {
        lemma_read_concat(st, a, b.drop_last());
        assert((a + b).drop_last() =~= a + b.drop_last());
        assert((a + b).last() == b.last());
    }
}

/// Cutting a stream's bytes into two chunks, read one after the other,
/// passes on the same events, and leaves the same unfinished line and
/// event, as reading the bytes at once.
pub proof fn lemma_chunking_invariant(pending: Seq<u8>, cur: EventModel, a: Seq<u8>, b: Seq<u8>)
    ensures
        ({
            let r1 = read_bytes((pending, cur, Seq::empty()), a);
            let r2 = read_bytes((r1.0, r1.1, Seq::empty()), b);
            read_bytes((pending, cur, Seq::empty()), a + b) == (r2.0, r2.1, r1.2 + r2.2)
        }),
{
    let st: ReadModel = (pending, cur, Seq::empty());
    lemma_read_concat(st, a, b);
    let r1 = read_bytes(st, a);
    lemma_read_keeps_passed(r1, b);
}

/// The event left when the stream ends: passed on when it has data.
pub fn finish_stream(cur: StreamEvent) -> (out: Option<StreamEvent>)
    ensures
        match out {
            Some(e) => event_view(e) == event_view(cur) && cur.data@.len() > 0,
            None => cur.data@.len() == 0,
        },
{
    if cur.data.as_str().is_empty() {
        None
    } else {
        Some(cur)
    }
}

// ---------------------------------------------------------------------------
// A replayed WebSocket
// ---------------------------------------------------------------------------

/// The request asks for a WebSocket upgrade and carries a key: the key, or
/// 400 with the reason.
pub fn check_upgrade_request(upgrade: Option<&str>, key: Option<&str>) -> (r: Result<String, ReplayRefusal>)
    ensures
        match r {
            Ok(k) => (upgrade matches Some(u) && crate::text::lower(u@) == "websocket"@) && (key matches Some(x) && k@ == x@),
            Err(e) => e.status == 400 && (
                if !(upgrade matches Some(u) && crate::text::lower(u@) == "websocket"@) {
                    e.message@ == "Invalid upgrade header"@
                } else {
                    key is None && e.message@ == "Missing Sec-WebSocket-Key header"@
                }
            ),
        },
{
    let is_ws = match upgrade {
        Some(u) => {
            let c = str_chars(u);
            let l = crate::text::lower_chars(&c);
            chars_eq_str(&l, "websocket")
        },
        None => false,
    };
    if !is_ws {
        return Err(ReplayRefusal { status: 400, message: to_owned_string("Invalid upgrade header") });
    }
    match key {
        Some(k) => Ok(to_owned_string(k)),
        None => Err(ReplayRefusal { status: 400, message: to_owned_string("Missing Sec-WebSocket-Key header") }),
    }
}

/// The refusal of a WebSocket replay request, if any, in the order the
/// checks are made: the upgrade header, the key, then the target url.
pub open spec fn websocket_replay_refusal(upgrade: Option<Seq<char>>, key: Option<Seq<char>>, url: Option<Seq<char>>) -> Option<Seq<char>> {
    if !(upgrade matches Some(u) && crate::text::lower(u) == "websocket"@) {
        Some("Invalid upgrade header"@)
    } else if key is None {
        Some("Missing Sec-WebSocket-Key header"@)
    } else if url is None {
        Some("Missing url parameter"@)
    } else {
        None
    }
}

/// The view of an optional text.
pub open spec fn opt_text_view(o: Option<&str>) -> Option<Seq<char>> {
    match o {
        Some(s) => Some(s@),
        None => None,
    }
}

/// Checks a WebSocket replay request: its `Upgrade` header, its
/// `Sec-WebSocket-Key` header and the `url` parameter of its query. Gives the
/// key and the url, or 400 with the message of the first check that fails.
pub fn check_websocket_replay(upgrade: Option<&str>, key: Option<&str>, url: Option<&str>) -> (r: Result<(String, String), ReplayRefusal>)
    ensures
        match websocket_replay_refusal(opt_text_view(upgrade), opt_text_view(key), opt_text_view(url)) {
            Some(m) => r matches Err(e) && e.status == 400 && e.message@ == m,
            None => r matches Ok(p) && (key matches Some(k) && p.0@ == k@) && (url matches Some(u) && p.1@ == u@),
        },
{
    let k = match check_upgrade_request(upgrade, key) {
        Ok(k) => k,
        Err(e) => { return Err(e); },
    };
    match url {
        Some(u) => Ok((k, to_owned_string(u))),
        None => Err(ReplayRefusal { status: 400, message: to_owned_string("Missing url parameter") }),
    }
}

/// The headers of the WebSocket handshake itself, which are not passed on.
pub open spec fn handshake_header_names() -> Seq<Seq<char>> {
    seq![
        "upgrade"@,
        "connection"@,
        "sec-websocket-key"@,
        "sec-websocket-version"@,
        "sec-websocket-extensions"@,
        "sec-websocket-protocol"@,
        "host"@,
    ]
}

/// The header is one of the handshake's own (by lower-case name).
pub open spec fn is_handshake_header_spec(name: Seq<char>) -> bool {
    handshake_header_names().contains(unicode_lower(name))
}

/// Whether the header is one of the handshake's own.
pub fn is_handshake_header(name: &str) -> (b: bool)
    ensures
        b == is_handshake_header_spec(name@),
{
    let low = to_lowercase(name);
    let l = str_chars(low.as_str());
    let r = chars_eq_str(&l, "upgrade") || chars_eq_str(&l, "connection") || chars_eq_str(&l, "sec-websocket-key")
        || chars_eq_str(&l, "sec-websocket-version") || chars_eq_str(&l, "sec-websocket-extensions")
        || chars_eq_str(&l, "sec-websocket-protocol") || chars_eq_str(&l, "host");
    proof {
        let names = handshake_header_names();
        if r {
            assert(names.contains(l@)) by {
                if l@ == "upgrade"@ { assert(names[0] == l@); }
                else if l@ == "connection"@ { assert(names[1] == l@); }
                else if l@ == "sec-websocket-key"@ { assert(names[2] == l@); }
                else if l@ == "sec-websocket-version"@ { assert(names[3] == l@); }
                else if l@ == "sec-websocket-extensions"@ { assert(names[4] == l@); }
                else if l@ == "sec-websocket-protocol"@ { assert(names[5] == l@); }
                else { assert(names[6] == l@); }
            }
        } else {
            assert(!names.contains(l@)) by {
                if names.contains(l@) {
                    let i = choose|i: int| 0 <= i < names.len() && names[i] == l@;
                    assert(0 <= i < 7);
                }
            }
        }
    }
    r
}

/// The headers without the handshake's own, in order.
pub open spec fn forwardable(hs: Seq<(Seq<char>, Seq<char>)>) -> Seq<(Seq<char>, Seq<char>)>
    decreases hs.len(),
{
    if hs.len() == 0 {
        hs
    } else {
        let prev = forwardable(hs.drop_last());
        if is_handshake_header_spec(hs.last().0) {
            prev
        } else {
            prev.push(hs.last())
        }
    }
}

/// The view of a header list.
pub open spec fn pairs_view(hs: Seq<(String, String)>) -> Seq<(Seq<char>, Seq<char>)> {
    hs.map_values(|h: (String, String)| (h.0@, h.1@))
}

/// The headers of a replayed handshake that are passed on to the target.
pub fn forwardable_headers(headers: &Vec<(String, String)>) -> (r: Vec<(String, String)>)
    ensures
        pairs_view(r@) == forwardable(pairs_view(headers@)),
{
    let ghost hv = pairs_view(headers@);
    let mut out: Vec<(String, String)> = Vec::new();
    let mut i: usize = 0;
    proof {
        assert(hv.take(0) =~= Seq::<(Seq<char>, Seq<char>)>::empty());
        assert(pairs_view(out@) =~= Seq::<(Seq<char>, Seq<char>)>::empty());
    }
    while i < headers.len()
        invariant
            i <= headers@.len(),
            hv == pairs_view(headers@),
            pairs_view(out@) == forwardable(hv.take(i as int)),
        decreases headers@.len() - i,
    {
        proof {
            assert(hv.take(i + 1).drop_last() =~= hv.take(i as int));
            assert(hv.take(i + 1).last() == (headers@[i as int].0@, headers@[i as int].1@));
        }
        if !is_handshake_header(headers[i].0.as_str()) {
            let ghost before = out@;
            out.push((headers[i].0.clone(), headers[i].1.clone()));
            proof {
                assert(pairs_view(out@) =~= pairs_view(before).push((headers@[i as int].0@, headers@[i as int].1@)));
            }
        }
        i = i + 1;
    }
    proof {
        assert(hv.take(i as int) =~= hv);
    }
    out
}

/// The rules of a replayed WebSocket: the given ones, else none.
pub fn ws_rule_config_or_default(c: Option<RuleConfig>) -> (r: RuleConfig)
    ensures
        match c {
            Some(x) => r == x,
            None => r.mode == RuleMode::Disabled && r.selected_rules@.len() == 0,
        },
{
    match c {
        Some(x) => x,
        None => RuleConfig { mode: RuleMode::Disabled, selected_rules: Vec::new() },
    }
}

/// Where a replayed WebSocket connects: whether over TLS, the scheme of the
/// handshake request, and the `host:port` address.
pub struct WsTarget {
    pub secure: bool,
    pub ws_scheme: &'static str,
    pub address: String,
}

/// The connection target of a URL with the given scheme, host and port:
/// `ws`/`http` plain, `wss`/`https` over TLS (default ports 80 and 443);
/// other schemes and a missing host are refused.
pub fn ws_target(scheme: &str, host: Option<&str>, port: Option<u16>) -> (r: Result<WsTarget, String>)
    ensures
        match r {
            Ok(t) => {
                &&& (scheme@ == "wss"@ || scheme@ == "https"@ || scheme@ == "ws"@ || scheme@ == "http"@)
                &&& t.secure == (scheme@ == "wss"@ || scheme@ == "https"@)
                &&& t.ws_scheme@ == (if t.secure { "wss"@ } else { "ws"@ })
                &&& host matches Some(h) && t.address@ == h@ + ":"@ + crate::text::decimal(
                    (match port { Some(p) => p, None => if t.secure { 443u16 } else { 80u16 } }) as nat,
                )
            },
            Err(m) => if !(scheme@ == "wss"@ || scheme@ == "https"@ || scheme@ == "ws"@ || scheme@ == "http"@) {
                m@ == "Unsupported scheme: "@ + scheme@
            } else {
                host is None && m@ == "Missing host"@
            },
        },
{
    let sc = str_chars(scheme);
    let secure = if chars_eq_str(&sc, "wss") || chars_eq_str(&sc, "https") {
        true
    } else if chars_eq_str(&sc, "ws") || chars_eq_str(&sc, "http") {
        false
    } else {
        let mut m = to_owned_string("Unsupported scheme: ");
        push_str(&mut m, scheme);
        return Err(m);
    };
    let h = match host {
        Some(h) => h,
        None => {
            return Err(to_owned_string("Missing host"));
        },
    };
    let p: u16 = match port {
        Some(p) => p,
        None => if secure { 443 } else { 80 },
    };
    let mut address = to_owned_string(h);
    push_str(&mut address, ":");
    let n = crate::text::u64_to_decimal(p as u64);
    push_str(&mut address, n.as_str());
    Ok(WsTarget { secure, ws_scheme: if secure { "wss" } else { "ws" }, address })
}

/// What the client of a replayed WebSocket is told when the target cannot be
/// reached.
pub fn ws_connect_error_text(error: &str) -> (r: String)
    ensures
        r@ == "Error: Failed to connect to target WebSocket: "@ + error@,
{
    let mut m = to_owned_string("Error: Failed to connect to target WebSocket: ");
    push_str(&mut m, error);
    m
}

/// A message relayed between the client and the target.
pub enum RelayMessage {
    Text(String),
    Binary(Vec<u8>),
    Ping(Vec<u8>),
    Pong(Vec<u8>),
    Close,
    Frame,
}

/// What one relayed message leads to: what is recorded (kind and text),
/// what is passed on, and whether relaying in this direction stops.
pub struct RelayStep {
    pub record: Option<(&'static str, String)>,
    pub forward: Option<RelayMessage>,
    pub stop: bool,
}

/// What a relayed message is recorded as: text as it is, binary data in
/// Base64; the kind says the direction (`send` from the client, `receive`
/// from the target).
pub open spec fn relay_record(from_client: bool, m: RelayMessage) -> Option<(Seq<char>, Seq<char>)> {
    match m {
        RelayMessage::Text(t) => Some((if from_client { "send"@ } else { "receive"@ }, t@)),
        RelayMessage::Binary(d) => Some((if from_client { "send_binary"@ } else { "receive_binary"@ }, base64_standard(d@))),
        _ => None,
    }
}

/// The decision for one message: text, binary data, pings and pongs are
/// passed on as they are; a close is passed on as a close without a
/// reason and ends relaying; raw frames are dropped.
pub fn relay_step(from_client: bool, m: RelayMessage) -> (r: RelayStep)
    ensures
        match r.record {
            Some((k, t)) => relay_record(from_client, m) == Some((k@, t@)),
            None => relay_record(from_client, m) is None,
        },
        r.stop == (m is Close),
        match m {
            RelayMessage::Frame => r.forward is None,
            RelayMessage::Close => r.forward matches Some(RelayMessage::Close),
            RelayMessage::Text(t) => r.forward matches Some(RelayMessage::Text(u)) && u@ == t@,
            RelayMessage::Binary(d) => r.forward matches Some(RelayMessage::Binary(e)) && e@ == d@,
            RelayMessage::Ping(d) => r.forward matches Some(RelayMessage::Ping(e)) && e@ == d@,
            RelayMessage::Pong(d) => r.forward matches Some(RelayMessage::Pong(e)) && e@ == d@,
        },
{
    match m {
        RelayMessage::Text(t) => {
            let kind: &'static str = if from_client { "send" } else { "receive" };
            let copy = t.clone();
            RelayStep { record: Some((kind, copy)), forward: Some(RelayMessage::Text(t)), stop: false }
        },
        RelayMessage::Binary(d) => {
            let kind: &'static str = if from_client { "send_binary" } else { "receive_binary" };
            let text = base64_encode(d.as_slice());
            RelayStep { record: Some((kind, text)), forward: Some(RelayMessage::Binary(d)), stop: false }
        },
        RelayMessage::Ping(d) => RelayStep { record: None, forward: Some(RelayMessage::Ping(d)), stop: false },
        RelayMessage::Pong(d) => RelayStep { record: None, forward: Some(RelayMessage::Pong(d)), stop: false },
        RelayMessage::Close => RelayStep { record: None, forward: Some(RelayMessage::Close), stop: true },
        RelayMessage::Frame => RelayStep { record: None, forward: None, stop: false },
    }
}

} // verus!
