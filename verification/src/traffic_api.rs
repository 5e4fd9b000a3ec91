//! The traffic API: which operation a request below `/api/traffic` asks
//! for, with the record and frame it names.
use vstd::prelude::*;
use crate::text::{str_chars, chars_eq_str, starts_with, starts_with_str, ends_with, ends_with_chars, slice_chars, string_from_chars, contains, occurs_at, is_first_occurrence, find_chars, trim, trim_chars, parse_unsigned, parse_u64_chars};

verus! {

/// `s` without its trailing slashes.
pub open spec fn trim_end_slashes(s: Seq<char>) -> Seq<char>
    decreases s.len(),
{
    if s.len() > 0 && s.last() == '/' {
        trim_end_slashes(s.drop_last())
    } else {
        s
    }
}

/// `s` without its leading slashes.
pub open spec fn trim_start_slashes(s: Seq<char>) -> Seq<char>
    decreases s.len(),
{
    if s.len() > 0 && s[0] == '/' {
        trim_start_slashes(s.drop_first())
    } else {
        s
    }
}

/// Where `pat` first occurs in `s`.
pub open spec fn first_occurrence(s: Seq<char>, pat: Seq<char>) -> Option<int> {
    if contains(s, pat) {
        Some(choose|i: int| is_first_occurrence(s, pat, i))
    } else {
        None
    }
}

/// `str::split_once` with a text pattern: what comes before and after the
/// first occurrence.
pub open spec fn split_once_text(s: Seq<char>, pat: Seq<char>) -> Option<(Seq<char>, Seq<char>)> {
    match first_occurrence(s, pat) {
        Some(i) => Some((s.take(i), s.skip(i + pat.len()))),
        None => None,
    }
}

/// The first occurrence is unique.
proof fn lemma_first_unique(s: Seq<char>, pat: Seq<char>, i: int, j: int)
    requires
        is_first_occurrence(s, pat, i),
        is_first_occurrence(s, pat, j),
    ensures
        i == j,
{
}

/// Splits at the first occurrence of `pat`.
fn split_once_text_exec(s: &[char], pat: &str) -> (r: Option<(Vec<char>, Vec<char>)>)
    ensures
        match split_once_text(s@, pat@) {
            Some((a, b)) => (r matches Some((x, y)) && x@ == a && y@ == b),
            None => r is None,
        },
{
    let p = str_chars(pat);
    match find_chars(s, &p) {
        Some(i) => {
            proof {
                assert(contains(s@, p@));
                let c = choose|c: int| is_first_occurrence(s@, p@, c);
                lemma_first_unique(s@, p@, c, i as int);
                assert(occurs_at(s@, p@, i as int));
            }
            let n = s.len();
            let k = p.len();
            let a = slice_chars(s, 0, i);
            let b = slice_chars(s, i + k, n);
            proof {
                assert(a@ =~= s@.take(i as int));
                assert(b@ =~= s@.skip(i + p@.len()));
            }
            Some((a, b))
        },
        None => None,
    }
}

/// Removes trailing slashes.
pub(crate) fn trim_end_slashes_exec(v: &[char]) -> (r: Vec<char>)
    ensures
        r@ == trim_end_slashes(v@),
{
    let mut n: usize = v.len();
    proof {
        assert(v@.take(v@.len() as int) =~= v@);
    }
    while n > 0 && v[n - 1] == '/'
        invariant
            n <= v@.len(),
            trim_end_slashes(v@) == trim_end_slashes(v@.take(n as int)),
        decreases n,
    {
        proof {
            assert(v@.take(n as int).drop_last() =~= v@.take(n - 1));
        }
        n = n - 1;
    }
    let r = slice_chars(v, 0, n);
    proof {
        assert(r@ =~= v@.take(n as int));
    }
    r
}

/// Removes leading slashes.
fn trim_start_slashes_exec(v: &[char]) -> (r: Vec<char>)
    ensures
        r@ == trim_start_slashes(v@),
{
    let mut i: usize = 0;
    proof {
        assert(v@.skip(0) =~= v@);
    }
    while i < v.len() && v[i] == '/'
        invariant
            i <= v@.len(),
            trim_start_slashes(v@) == trim_start_slashes(v@.skip(i as int)),
        decreases v@.len() - i,
    {
        proof {
            assert(v@.skip(i as int).drop_first() =~= v@.skip(i + 1));
        }
        i = i + 1;
    }
    let r = slice_chars(v, i, v.len());
    proof {
        assert(r@ =~= v@.skip(i as int));
    }
    r
}

/// The operations of the traffic API.
#[derive(Debug, Clone, Copy, PartialEq, Eq, Structural)]
pub enum TrafficAction {
    List,
    Clear,
    Query,
    Updates,
    RequestBody,
    ResponseBody,
    SseStream,
    FramesStream,
    FramesUnsubscribe,
    FrameDetail,
    Frames,
    Detail,
    InvalidSsePath,
    InvalidFrameId,
    MethodNotAllowed,
    NotFound,
}

/// An operation of the traffic API, with the record and frame it names.
pub struct TrafficRoute {
    pub action: TrafficAction,
    pub id: Option<String>,
    pub frame_id: Option<u64>,
}

/// An operation on a record, for the one method that allows it.
pub open spec fn on_record(method: Seq<char>, allowed: Seq<char>, a: TrafficAction, id: Seq<char>) -> (TrafficAction, Option<Seq<char>>, Option<u64>) {
    if method == allowed {
        (a, Some(id), None)
    } else {
        (TrafficAction::MethodNotAllowed, None, None)
    }
}

/// An operation on no record.
pub open spec fn bare(a: TrafficAction) -> (TrafficAction, Option<Seq<char>>, Option<u64>) {
    (a, None, None)
}

/// The operation of a request below `/api/traffic` (trailing slashes do
/// not count), by path and method.
pub open spec fn traffic_route_spec(raw_path: Seq<char>, method: Seq<char>) -> (TrafficAction, Option<Seq<char>>, Option<u64>) {
    let path = trim_end_slashes(raw_path);
    if path == "/api/traffic"@ {
        if method == "GET"@ {
            bare(TrafficAction::List)
        } else if method == "DELETE"@ {
            bare(TrafficAction::Clear)
        } else {
            bare(TrafficAction::MethodNotAllowed)
        }
    } else if path == "/api/traffic/query"@ {
        if method == "POST"@ { bare(TrafficAction::Query) } else { bare(TrafficAction::MethodNotAllowed) }
    } else if path == "/api/traffic/updates"@ {
        if method == "GET"@ { bare(TrafficAction::Updates) } else { bare(TrafficAction::MethodNotAllowed) }
    } else if starts_with(path, "/api/traffic/"@) {
        let rest = trim_end_slashes(path.skip(13));
        if ends_with(rest, "/request-body"@) {
            on_record(method, "GET"@, TrafficAction::RequestBody, rest.take(rest.len() - 13))
        } else if ends_with(rest, "/response-body"@) {
            on_record(method, "GET"@, TrafficAction::ResponseBody, rest.take(rest.len() - 14))
        } else if split_once_text(rest, "/sse/stream"@) is Some {
            let (id, after) = split_once_text(rest, "/sse/stream"@).unwrap();
            if trim_end_slashes(trim_start_slashes(trim(after))).len() > 0 {
                bare(TrafficAction::InvalidSsePath)
            } else {
                on_record(method, "GET"@, TrafficAction::SseStream, id)
            }
        } else if ends_with(rest, "/frames/stream"@) {
            on_record(method, "GET"@, TrafficAction::FramesStream, rest.take(rest.len() - 14))
        } else if ends_with(rest, "/frames/unsubscribe"@) {
            on_record(method, "DELETE"@, TrafficAction::FramesUnsubscribe, rest.take(rest.len() - 19))
        } else if split_once_text(rest, "/frames/"@) is Some {
            let (id, part) = split_once_text(rest, "/frames/"@).unwrap();
            match parse_unsigned(part, u64::MAX as nat) {
                Some(n) => if method == "GET"@ {
                    (TrafficAction::FrameDetail, Some(id), Some(n as u64))
                } else {
                    bare(TrafficAction::MethodNotAllowed)
                },
                None => bare(TrafficAction::InvalidFrameId),
            }
        } else if ends_with(rest, "/frames"@) {
            on_record(method, "GET"@, TrafficAction::Frames, rest.take(rest.len() - 7))
        } else {
            on_record(method, "GET"@, TrafficAction::Detail, rest)
        }
    } else {
        bare(TrafficAction::NotFound)
    }
}

/// The view of a route.
pub open spec fn traffic_route_view(r: TrafficRoute) -> (TrafficAction, Option<Seq<char>>, Option<u64>) {
    (r.action, match r.id {
        Some(s) => Some(s@),
        None => None,
    }, r.frame_id)
}

/// A route on no record.
fn bare_route(a: TrafficAction) -> (r: TrafficRoute)
    ensures
        traffic_route_view(r) == bare(a),
{
    TrafficRoute { action: a, id: None, frame_id: None }
}

/// A route on a record, for the one method that allows it.
fn record_route(m: &[char], allowed: &str, a: TrafficAction, id: &[char]) -> (r: TrafficRoute)
    ensures
        traffic_route_view(r) == on_record(m@, allowed@, a, id@),
{
    if chars_eq_str(m, allowed) {
        TrafficRoute { action: a, id: Some(string_from_chars(id)), frame_id: None }
    } else {
        bare_route(TrafficAction::MethodNotAllowed)
    }
}

/// A record id before a suffix of `k` characters.
fn before_suffix(v: &[char], k: usize) -> (r: Vec<char>)
    requires
        k <= v@.len(),
    ensures
        r@ == v@.take(v@.len() - k),
{
    let r = slice_chars(v, 0, v.len() - k);
    proof {
        assert(r@ =~= v@.take(v@.len() - k));
    }
    r
}

/// The operation of a request below `/api/traffic`.
pub fn traffic_route(path: &str, method: &str) -> (r: TrafficRoute)
    ensures
        traffic_route_view(r) == traffic_route_spec(path@, method@),
{
    let raw = str_chars(path);
    let p = trim_end_slashes_exec(&raw);
    let m = str_chars(method);
    proof {
        reveal_strlit("/api/traffic/");
        reveal_strlit("/request-body");
        reveal_strlit("/response-body");
        reveal_strlit("/frames/stream");
        reveal_strlit("/frames/unsubscribe");
        reveal_strlit("/frames");
    }
    if chars_eq_str(&p, "/api/traffic") {
        if chars_eq_str(&m, "GET") {
            bare_route(TrafficAction::List)
        } else if chars_eq_str(&m, "DELETE") {
            bare_route(TrafficAction::Clear)
        } else {
            bare_route(TrafficAction::MethodNotAllowed)
        }
    } else if chars_eq_str(&p, "/api/traffic/query") {
        if chars_eq_str(&m, "POST") { bare_route(TrafficAction::Query) } else { bare_route(TrafficAction::MethodNotAllowed) }
    } else if chars_eq_str(&p, "/api/traffic/updates") {
        if chars_eq_str(&m, "GET") { bare_route(TrafficAction::Updates) } else { bare_route(TrafficAction::MethodNotAllowed) }
    } else if starts_with_str(&p, "/api/traffic/") {
        let after_prefix = slice_chars(&p, 13, p.len());
        proof {
            assert(after_prefix@ =~= p@.skip(13));
        }
        let rest = trim_end_slashes_exec(&after_prefix);
        if ends_with_chars(&rest, &str_chars("/request-body")) {
            record_route(&m, "GET", TrafficAction::RequestBody, &before_suffix(&rest, 13))
        } else if ends_with_chars(&rest, &str_chars("/response-body")) {
            record_route(&m, "GET", TrafficAction::ResponseBody, &before_suffix(&rest, 14))
        } else {
            match split_once_text_exec(&rest, "/sse/stream") {
                Some((id, after)) => {
                    let t = trim_chars(&after);
                    let t2 = trim_start_slashes_exec(&t);
                    let t3 = trim_end_slashes_exec(&t2);
                    if t3.len() > 0 {
                        bare_route(TrafficAction::InvalidSsePath)
                    } else {
                        record_route(&m, "GET", TrafficAction::SseStream, &id)
                    }
                },
                None => {
                    if ends_with_chars(&rest, &str_chars("/frames/stream")) {
                        record_route(&m, "GET", TrafficAction::FramesStream, &before_suffix(&rest, 14))
                    } else if ends_with_chars(&rest, &str_chars("/frames/unsubscribe")) {
                        record_route(&m, "DELETE", TrafficAction::FramesUnsubscribe, &before_suffix(&rest, 19))
                    } else {
                        match split_once_text_exec(&rest, "/frames/") {
                            Some((id, part)) => match parse_u64_chars(&part) {
                                Some(n) => if chars_eq_str(&m, "GET") {
                                    TrafficRoute { action: TrafficAction::FrameDetail, id: Some(string_from_chars(&id)), frame_id: Some(n) }
                                } else {
                                    bare_route(TrafficAction::MethodNotAllowed)
                                },
                                None => bare_route(TrafficAction::InvalidFrameId),
                            },
                            None => {
                                if ends_with_chars(&rest, &str_chars("/frames")) {
                                    record_route(&m, "GET", TrafficAction::Frames, &before_suffix(&rest, 7))
                                } else {
                                    record_route(&m, "GET", TrafficAction::Detail, &rest)
                                }
                            },
                        }
                    }
                },
            }
        }
    } else {
        bare_route(TrafficAction::NotFound)
    }
}


/// What the live monitors report of a streamed connection.
#[derive(Debug, Clone, Copy, PartialEq, Eq, Structural)]
pub struct SocketStatus {
    pub is_open: bool,
    pub frame_count: usize,
    pub send_bytes: u64,
    pub receive_bytes: u64,
}

/// The frame-related fields of a traffic summary.
#[derive(Debug, Clone, Copy, PartialEq, Eq, Structural)]
pub struct FrameInfo {
    pub is_sse: bool,
    pub is_websocket: bool,
    pub is_tunnel: bool,
    pub socket_status: Option<SocketStatus>,
    pub frame_count: usize,
    pub response_size: usize,
}

/// What is written back to the stored record of a finished event stream.
#[derive(Debug, Clone, Copy, PartialEq, Eq, Structural)]
pub struct FrameInfoWriteBack {
    pub response_size: usize,
    pub socket_status: SocketStatus,
    pub frame_count: usize,
}

/// Whether a summary describes a connection that carries frames.
pub open spec fn carries_frames(f: FrameInfo) -> bool {
    f.is_sse || f.is_websocket || f.is_tunnel || f.socket_status is Some
}

/// A status that takes its place, with its frame count, in the summary.
pub open spec fn with_status(f: FrameInfo, s: SocketStatus) -> FrameInfo {
    FrameInfo { frame_count: s.frame_count, socket_status: Some(s), ..f }
}

/// The status the frame store's metadata stands for: open unless closed,
/// with its frame count and no byte counts.
pub open spec fn stored_status(frame_count: u64, is_closed: bool) -> SocketStatus {
    SocketStatus { is_open: !is_closed, frame_count: frame_count as usize, send_bytes: 0, receive_bytes: 0 }
}

/// The summary after looking up its status: an event stream asks the SSE
/// hub; another connection asks the connection monitor, then the frame
/// store's metadata. Nothing found leaves the summary as it was.
pub open spec fn looked_up(
    f: FrameInfo,
    sse: Option<SocketStatus>,
    monitor: Option<SocketStatus>,
    stored: Option<(u64, bool)>,
) -> FrameInfo {
    if f.is_sse {
        match sse {
            Some(s) => with_status(f, s),
            None => f,
        }
    } else {
        match monitor {
            Some(s) => with_status(f, s),
            None => match stored {
                Some(m) => with_status(f, stored_status(m.0, m.1)),
                None => f,
            },
        }
    }
}

/// The bytes an event stream sent and received, as its status counts them.
pub open spec fn status_bytes(s: SocketStatus) -> int {
    s.send_bytes + s.receive_bytes
}

/// An event stream's response size grows to the bytes its status counts.
pub open spec fn sized(f: FrameInfo) -> FrameInfo {
    match f.socket_status {
        Some(s) => if f.is_sse && status_bytes(s) > 0 && f.response_size < (status_bytes(s) as u64) as usize {
            FrameInfo { response_size: (status_bytes(s) as u64) as usize, ..f }
        } else {
            f
        },
        None => f,
    }
}

/// A closed event stream with a known size is written back to its record.
pub open spec fn write_back(f: FrameInfo) -> Option<FrameInfoWriteBack> {
    match f.socket_status {
        Some(s) => if f.is_sse && !s.is_open && f.response_size > 0 {
            Some(FrameInfoWriteBack { response_size: f.response_size, socket_status: s, frame_count: f.frame_count })
        } else {
            None
        },
        None => None,
    }
}

/// The byte counts of the status an event stream ends up with fit in a
/// `u64` when added.
pub open spec fn byte_sums_fit(f: FrameInfo, sse: Option<SocketStatus>) -> bool {
    f.is_sse ==> match sse {
        Some(s) => status_bytes(s) <= u64::MAX,
        None => f.socket_status matches Some(s) ==> status_bytes(s) <= u64::MAX,
    }
}

/// Fills in the frame count and socket status of a traffic summary from
/// the live monitors or the frame store, grows an event stream's response
/// size to the bytes it carried, and says what to write back to the record
/// of an event stream that has closed. The lookups are handed in: `sse` from
/// the SSE hub, `monitor` from the connection monitor, `stored` the frame
/// count and closed flag of the frame store's metadata.
pub fn enrich_frame_info(
    f: FrameInfo,
    sse: Option<SocketStatus>,
    monitor: Option<SocketStatus>,
    stored: Option<(u64, bool)>,
) -> (r: (FrameInfo, Option<FrameInfoWriteBack>))
    requires
        byte_sums_fit(f, sse),
    ensures
        !carries_frames(f) ==> r == (f, None::<FrameInfoWriteBack>),
        carries_frames(f) ==> r.0 == sized(looked_up(f, sse, monitor, stored)),
        carries_frames(f) ==> r.1 == write_back(sized(looked_up(f, sse, monitor, stored))),
{
    if !f.is_sse && !f.is_websocket && !f.is_tunnel && f.socket_status.is_none() {
        return (f, None);
    }
    let mut g = f;
    if f.is_sse {
        if let Some(s) = sse {
            g = FrameInfo { frame_count: s.frame_count, socket_status: Some(s), ..f };
        }
    } else if let Some(s) = monitor {
        g = FrameInfo { frame_count: s.frame_count, socket_status: Some(s), ..f };
    } else if let Some(m) = stored {
        let fc = m.0 as usize;
        let s = SocketStatus { is_open: !m.1, frame_count: fc, send_bytes: 0, receive_bytes: 0 };
        g = FrameInfo { frame_count: fc, socket_status: Some(s), ..f };
    }
    assert(g == looked_up(f, sse, monitor, stored));
    let mut out: Option<FrameInfoWriteBack> = None;
    if g.is_sse {
        if let Some(s) = g.socket_status {
            let total = s.send_bytes + s.receive_bytes;
            if total > 0 {
                let t = total as usize;
                if g.response_size < t {
                    g = FrameInfo { response_size: t, ..g };
                }
            }
            if !s.is_open && g.response_size > 0 {
                out = Some(FrameInfoWriteBack { response_size: g.response_size, socket_status: s, frame_count: g.frame_count });
            }
        }
    }
    (g, out)
}


/// Whether the push channel fills in a summary's frame info: for streamed
/// connections only, whatever status the summary already holds.
pub open spec fn push_enriches(f: FrameInfo) -> bool {
    f.is_sse || f.is_websocket || f.is_tunnel
}

/// The frame count and socket status of a summary sent over the push
/// channel, looked up as for the traffic API, with an event stream's
/// response size grown to the bytes it carried; nothing is written back.
pub fn enrich_pushed_summary(
    f: FrameInfo,
    sse: Option<SocketStatus>,
    monitor: Option<SocketStatus>,
    stored: Option<(u64, bool)>,
) -> (g: FrameInfo)
    requires
        byte_sums_fit(f, sse),
    ensures
        !push_enriches(f) ==> g == f,
        push_enriches(f) ==> g == sized(looked_up(f, sse, monitor, stored)),
{
    if f.is_sse || f.is_websocket || f.is_tunnel {
        enrich_frame_info(f, sse, monitor, stored).0
    } else {
        f
    }
}

} // verus!
