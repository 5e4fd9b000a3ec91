//! Full-text search over recorded traffic: the request and response shapes,
//! which parts of a record a search looks at, the filters a record must pass,
//! and how a keyword match is located and previewed.
use vstd::prelude::*;
use vstd::utf8::{decode_utf8, encode_utf8, is_char_boundary};
use vstd::string::StringSliceAdditionalSpecFns;
use crate::text::{contains, occurs_at, str_chars, contains_chars, chars_eq_str, to_owned_string, push_str, u64_to_decimal, decimal};
use crate::bytes::str_byte_slice;

verus! {

// ---------------------------------------------------------------------------
// Unicode case mapping (std)
// ---------------------------------------------------------------------------

/// The full Unicode lower-case mapping of a text.
pub uninterp spec fn unicode_lower(s: Seq<char>) -> Seq<char>;

/// The full Unicode upper-case mapping of a text.
pub uninterp spec fn unicode_upper(s: Seq<char>) -> Seq<char>;

/// `str::to_lowercase`: claims that the result is the Unicode lower-case
/// mapping of the input, a function of the input alone.
#[verifier::external_body]
pub(crate) fn to_lowercase(s: &str) -> (r: String)
    ensures
        r@ == unicode_lower(s@),
{
    s.to_lowercase()
}

/// `str::to_uppercase`: claims that the result is the Unicode upper-case
/// mapping of the input, a function of the input alone.
#[verifier::external_body]
pub(crate) fn to_uppercase(s: &str) -> (r: String)
    ensures
        r@ == unicode_upper(s@),
{
    s.to_uppercase()
}

/// Whether `pattern` compiles as a regular expression and matches somewhere
/// in `text`: `None` when it does not compile.
pub uninterp spec fn regex_match(pattern: Seq<char>, text: Seq<char>) -> Option<bool>;

/// `regex::Regex::new(pattern)` then `is_match(text)`: claims that the
/// result is a function of the pattern and the text alone.
#[verifier::external_body]
fn regex_is_match(pattern: &str, text: &str) -> (r: Option<bool>)
    ensures
        r == regex_match(pattern@, text@),
{
    match regex::Regex::new(pattern) {
        Ok(re) => Some(re.is_match(text)),
        Err(_) => None,
    }
}

// ---------------------------------------------------------------------------
// Request and response shapes
// ---------------------------------------------------------------------------

/// Which parts of a record to search; `all` searches every part.
#[derive(Debug, Clone, Copy, PartialEq, Eq, Structural)]
pub struct SearchScope {
    pub request_body: bool,
    pub response_body: bool,
    pub request_headers: bool,
    pub response_headers: bool,
    pub url: bool,
    pub websocket_messages: bool,
    pub sse_events: bool,
    pub all: bool,
}

/// The value an absent `all` flag takes.
pub fn default_true() -> (b: bool)
    ensures
        b,
{
    true
}

impl SearchScope {
    /// Everything, through the `all` flag.
    pub fn default() -> (s: SearchScope)
        ensures
            s == (SearchScope {
                request_body: false,
                response_body: false,
                request_headers: false,
                response_headers: false,
                url: false,
                websocket_messages: false,
                sse_events: false,
                all: true,
            }),
    {
        SearchScope {
            request_body: false,
            response_body: false,
            request_headers: false,
            response_headers: false,
            url: false,
            websocket_messages: false,
            sse_events: false,
            all: default_true(),
        }
    }

    pub fn should_search_url(&self) -> (b: bool)
        ensures
            b == (self.all || self.url),
    {
        self.all || self.url
    }

    pub fn should_search_request_headers(&self) -> (b: bool)
        ensures
            b == (self.all || self.request_headers),
    {
        self.all || self.request_headers
    }

    pub fn should_search_response_headers(&self) -> (b: bool)
        ensures
            b == (self.all || self.response_headers),
    {
        self.all || self.response_headers
    }

    pub fn should_search_request_body(&self) -> (b: bool)
        ensures
            b == (self.all || self.request_body),
    {
        self.all || self.request_body
    }

    pub fn should_search_response_body(&self) -> (b: bool)
        ensures
            b == (self.all || self.response_body),
    {
        self.all || self.response_body
    }

    pub fn should_search_websocket_messages(&self) -> (b: bool)
        ensures
            b == (self.all || self.websocket_messages),
    {
        self.all || self.websocket_messages
    }

    pub fn should_search_sse_events(&self) -> (b: bool)
        ensures
            b == (self.all || self.sse_events),
    {
        self.all || self.sse_events
    }
}

/// One field condition (`host contains example`).
#[derive(Debug, Clone)]
pub struct FilterCondition {
    pub field: String,
    pub operator: String,
    pub value: String,
}

/// What a record must satisfy besides containing the keyword.
#[derive(Debug, Clone)]
pub struct SearchFilters {
    pub protocols: Vec<String>,
    pub status_ranges: Vec<String>,
    pub content_types: Vec<String>,
    pub has_rule_hit: Option<bool>,
    pub conditions: Vec<FilterCondition>,
    pub client_ips: Vec<String>,
    pub client_apps: Vec<String>,
    pub domains: Vec<String>,
}

impl SearchFilters {
    /// No filter at all.
    pub fn default() -> (f: SearchFilters)
        ensures
            f.protocols@.len() == 0 && f.status_ranges@.len() == 0 && f.content_types@.len() == 0
                && f.has_rule_hit is None && f.conditions@.len() == 0 && f.client_ips@.len() == 0
                && f.client_apps@.len() == 0 && f.domains@.len() == 0,
    {
        SearchFilters {
            protocols: Vec::new(),
            status_ranges: Vec::new(),
            content_types: Vec::new(),
            has_rule_hit: None,
            conditions: Vec::new(),
            client_ips: Vec::new(),
            client_apps: Vec::new(),
            domains: Vec::new(),
        }
    }
}

/// A search request.
#[derive(Debug, Clone)]
pub struct SearchRequest {
    pub keyword: String,
    pub scope: SearchScope,
    pub filters: SearchFilters,
    pub cursor: Option<u64>,
    pub limit: Option<usize>,
}

/// Where a keyword was found, with some text around it.
#[derive(Debug, Clone)]
pub struct MatchLocation {
    pub field: String,
    pub preview: String,
    pub offset: usize,
}

/// Flag bits of a traffic summary.
pub const FLAG_HAS_RULE_HIT: u32 = 1;
pub const FLAG_IS_WEBSOCKET: u32 = 2;
pub const FLAG_IS_SSE: u32 = 4;
pub const FLAG_IS_H3: u32 = 8;
pub const FLAG_IS_TUNNEL: u32 = 16;

/// The compact summary of one recorded exchange that searches scan.
#[derive(Debug, Clone)]
pub struct TrafficSummaryCompact {
    pub id: String,
    pub seq: u64,
    /// Protocol (`HTTP/1.1`, `HTTPS`, `WS`, ...).
    pub proto: String,
    pub flags: u32,
    /// Response status, 0 when none was received.
    pub s: u16,
    /// Response content type.
    pub ct: Option<String>,
    /// Request content type.
    pub req_ct: Option<String>,
    /// Client address.
    pub cip: String,
    /// Client application.
    pub capp: Option<String>,
    /// Host.
    pub h: String,
}

/// A record that matched, with where.
#[derive(Debug, Clone)]
pub struct SearchResultItem {
    pub record: TrafficSummaryCompact,
    pub matches: Vec<MatchLocation>,
}

/// The answer to a search request.
#[derive(Debug, Clone)]
pub struct SearchResponse {
    pub results: Vec<SearchResultItem>,
    pub total_searched: usize,
    pub total_matched: usize,
    pub next_cursor: Option<u64>,
    pub has_more: bool,
    pub search_id: String,
}

/// The id of a search started at `millis` (milliseconds since the epoch).
pub fn search_id_from_millis(millis: u64) -> (s: String)
    ensures
        s@ == "search_"@ + decimal(millis as nat),
{
    let mut s = to_owned_string("search_");
    let d = u64_to_decimal(millis);
    push_str(&mut s, d.as_str());
    s
}

// ---------------------------------------------------------------------------
// Filters
// ---------------------------------------------------------------------------

pub open spec fn flag_set(flags: u32, bit: u32) -> bool {
    flags & bit != 0
}

/// Whether a requested protocol (upper-cased) admits a record's protocol
/// (upper-cased) and flags.
pub open spec fn protocol_admits(p: Seq<char>, proto: Seq<char>, is_ws: bool, is_sse: bool, is_h3: bool) -> bool {
    if p == "HTTP"@ {
        proto == "HTTP"@ || proto == "HTTP/1.0"@ || proto == "HTTP/1.1"@
    } else if p == "HTTPS"@ {
        proto == "HTTPS"@ || proto == "HTTP/2"@
    } else if p == "H2"@ {
        contains(proto, "HTTP/2"@)
    } else if p == "WS"@ {
        is_ws && proto == "WS"@
    } else if p == "WSS"@ {
        is_ws && proto == "WSS"@
    } else if p == "H3"@ {
        is_h3 || proto == "H3"@
    } else if p == "SSE"@ {
        is_sse
    } else {
        false
    }
}

/// Whether a status range name admits a status.
pub open spec fn status_admits(range: Seq<char>, status: u16) -> bool {
    if range == "error"@ {
        status == 0 || status >= 500
    } else if range == "1xx"@ {
        100 <= status < 200
    } else if range == "2xx"@ {
        200 <= status < 300
    } else if range == "3xx"@ {
        300 <= status < 400
    } else if range == "4xx"@ {
        400 <= status < 500
    } else if range == "5xx"@ {
        500 <= status < 600
    } else {
        false
    }
}

/// The content-type fragments that a content-type filter (lower-cased) stands for.
pub open spec fn content_type_patterns(ct: Seq<char>) -> Seq<Seq<char>> {
    if ct == "json"@ {
        seq!["json"@, "application/json"@, "text/json"@]
    } else if ct == "form"@ {
        seq!["form"@, "x-www-form-urlencoded"@, "multipart/form-data"@, "application/x-www-form-urlencoded"@]
    } else if ct == "xml"@ {
        seq!["xml"@, "application/xml"@, "text/xml"@]
    } else if ct == "js"@ {
        seq!["javascript"@, "text/javascript"@, "application/javascript"@]
    } else if ct == "css"@ {
        seq!["css"@, "text/css"@]
    } else if ct == "font"@ {
        seq!["font"@, "woff"@, "woff2"@, "ttf"@, "otf"@, "eot"@, "font/"@, "application/font"@]
    } else if ct == "doc"@ {
        seq!["html"@, "text/html"@, "application/xhtml"@]
    } else if ct == "media"@ {
        seq![
            "image"@, "video"@, "audio"@, "image/"@, "video/"@, "audio/"@, "png"@, "jpg"@,
            "jpeg"@, "gif"@, "webp"@, "svg"@, "mp4"@, "webm"@, "mp3"@, "wav"@,
        ]
    } else if ct == "sse"@ {
        seq!["event-stream"@, "text/event-stream"@]
    } else {
        seq![ct]
    }
}

/// Whether a content-type filter (lower-cased) admits a record's response or
/// request content type (lower-cased).
pub open spec fn content_type_hit(ct: Seq<char>, res_ct: Seq<char>, req_ct: Seq<char>) -> bool {
    let ps = content_type_patterns(ct);
    exists|j: int| 0 <= j < ps.len() && (contains(res_ct, #[trigger] ps[j]) || contains(req_ct, ps[j]))
}

pub open spec fn opt_text(o: Option<String>) -> Seq<char> {
    match o {
        Some(s) => s@,
        None => Seq::empty(),
    }
}

/// Whether a record passes every filter that is set.
pub open spec fn filter_admits(c: TrafficSummaryCompact, f: SearchFilters) -> bool {
    let is_ws = flag_set(c.flags, FLAG_IS_WEBSOCKET);
    let is_sse = flag_set(c.flags, FLAG_IS_SSE);
    let is_h3 = flag_set(c.flags, FLAG_IS_H3);
    let proto = unicode_upper(c.proto@);
    let res_ct = unicode_lower(opt_text(c.ct));
    let req_ct = unicode_lower(opt_text(c.req_ct));
    &&& (f.has_rule_hit matches Some(b) ==> flag_set(c.flags, FLAG_HAS_RULE_HIT) == b)
    &&& (f.protocols@.len() > 0 ==> exists|i: int|
        0 <= i < f.protocols@.len() && protocol_admits(
            unicode_upper(#[trigger] f.protocols@[i]@),
            proto,
            is_ws,
            is_sse,
            is_h3,
        ))
    &&& (f.status_ranges@.len() > 0 ==> exists|i: int|
        0 <= i < f.status_ranges@.len() && status_admits(#[trigger] f.status_ranges@[i]@, c.s))
    &&& (f.content_types@.len() > 0 ==> exists|i: int|
        0 <= i < f.content_types@.len() && content_type_hit(unicode_lower(#[trigger] f.content_types@[i]@), res_ct, req_ct))
    &&& (f.client_ips@.len() > 0 ==> exists|i: int| 0 <= i < f.client_ips@.len() && #[trigger] f.client_ips@[i]@ == c.cip@)
    &&& (f.client_apps@.len() > 0 ==> (c.capp matches Some(a) && exists|i: int|
        0 <= i < f.client_apps@.len() && #[trigger] f.client_apps@[i]@ == a@))
    &&& (f.domains@.len() > 0 ==> exists|i: int| 0 <= i < f.domains@.len() && contains(c.h@, #[trigger] f.domains@[i]@))
}

fn protocol_admits_exec(p: &[char], proto: &[char], is_ws: bool, is_sse: bool, is_h3: bool) -> (r: bool)
    ensures
        r == protocol_admits(p@, proto@, is_ws, is_sse, is_h3),
{
    if chars_eq_str(p, "HTTP") {
        chars_eq_str(proto, "HTTP") || chars_eq_str(proto, "HTTP/1.0") || chars_eq_str(proto, "HTTP/1.1")
    } else if chars_eq_str(p, "HTTPS") {
        chars_eq_str(proto, "HTTPS") || chars_eq_str(proto, "HTTP/2")
    } else if chars_eq_str(p, "H2") {
        let t = str_chars("HTTP/2");
        contains_chars(proto, &t)
    } else if chars_eq_str(p, "WS") {
        is_ws && chars_eq_str(proto, "WS")
    } else if chars_eq_str(p, "WSS") {
        is_ws && chars_eq_str(proto, "WSS")
    } else if chars_eq_str(p, "H3") {
        is_h3 || chars_eq_str(proto, "H3")
    } else if chars_eq_str(p, "SSE") {
        is_sse
    } else {
        false
    }
}

fn status_admits_exec(range: &[char], status: u16) -> (r: bool)
    ensures
        r == status_admits(range@, status),
{
    if chars_eq_str(range, "error") {
        status == 0 || status >= 500
    } else if chars_eq_str(range, "1xx") {
        100 <= status && status < 200
    } else if chars_eq_str(range, "2xx") {
        200 <= status && status < 300
    } else if chars_eq_str(range, "3xx") {
        300 <= status && status < 400
    } else if chars_eq_str(range, "4xx") {
        400 <= status && status < 500
    } else if chars_eq_str(range, "5xx") {
        500 <= status && status < 600
    } else {
        false
    }
}

fn strs_to_chars(v: &[&str]) -> (r: Vec<Vec<char>>)
    ensures
        r@.len() == v@.len(),
        forall|k: int| 0 <= k < v@.len() ==> #[trigger] r@[k]@ == v@[k]@,
{
    let mut r: Vec<Vec<char>> = Vec::new();
    let mut i: usize = 0;
    while i < v.len()
        invariant
            i <= v@.len(),
            r@.len() == i,
            forall|k: int| 0 <= k < i ==> #[trigger] r@[k]@ == v@[k]@,
        decreases v@.len() - i,
    {
        r.push(str_chars(v[i]));
        i = i + 1;
    }
    r
}

fn content_type_patterns_exec(ct: &[char]) -> (r: Vec<Vec<char>>)
    ensures
        r@.len() == content_type_patterns(ct@).len(),
        forall|k: int| 0 <= k < r@.len() ==> #[trigger] r@[k]@ == content_type_patterns(ct@)[k],
{
    let list: Vec<&str> = if chars_eq_str(ct, "json") {
        vec!["json", "application/json", "text/json"]
    } else if chars_eq_str(ct, "form") {
        vec!["form", "x-www-form-urlencoded", "multipart/form-data", "application/x-www-form-urlencoded"]
    } else if chars_eq_str(ct, "xml") {
        vec!["xml", "application/xml", "text/xml"]
    } else if chars_eq_str(ct, "js") {
        vec!["javascript", "text/javascript", "application/javascript"]
    } else if chars_eq_str(ct, "css") {
        vec!["css", "text/css"]
    } else if chars_eq_str(ct, "font") {
        vec!["font", "woff", "woff2", "ttf", "otf", "eot", "font/", "application/font"]
    } else if chars_eq_str(ct, "doc") {
        vec!["html", "text/html", "application/xhtml"]
    } else if chars_eq_str(ct, "media") {
        vec![
            "image", "video", "audio", "image/", "video/", "audio/", "png", "jpg", "jpeg", "gif",
            "webp", "svg", "mp4", "webm", "mp3", "wav",
        ]
    } else if chars_eq_str(ct, "sse") {
        vec!["event-stream", "text/event-stream"]
    } else {
        let mut one: Vec<Vec<char>> = Vec::new();
        one.push(ct_copy(ct));
        assert(one@.len() == 1);
        return one;
    };
    let r = strs_to_chars(&list);
    assert(r@.len() == content_type_patterns(ct@).len());
    r
}

fn ct_copy(ct: &[char]) -> (r: Vec<char>)
    ensures
        r@ == ct@,
{
    let mut r: Vec<char> = Vec::new();
    let mut i: usize = 0;
    while i < ct.len()
        invariant
            i <= ct@.len(),
            r@ == ct@.take(i as int),
        decreases ct@.len() - i,
    {
        r.push(ct[i]);
        i = i + 1;
        assert(r@ =~= ct@.take(i as int));
    }
    assert(ct@.take(ct@.len() as int) =~= ct@);
    r
}

fn opt_chars_exec(o: &Option<String>) -> (r: Vec<char>)
    ensures
        r@ == opt_text(*o),
{
    match o {
        Some(s) => str_chars(s.as_str()),
        None => Vec::new(),
    }
}

/// Whether a record passes every filter that is set.
pub fn matches_filter_compact(compact: &TrafficSummaryCompact, filters: &SearchFilters) -> (r: bool)
    ensures
        r == filter_admits(*compact, *filters),
{
    let is_ws = (compact.flags & FLAG_IS_WEBSOCKET) != 0;
    let is_sse = (compact.flags & FLAG_IS_SSE) != 0;
    let is_h3 = (compact.flags & FLAG_IS_H3) != 0;
    if let Some(rule_hit) = filters.has_rule_hit {
        let has_rule = (compact.flags & FLAG_HAS_RULE_HIT) != 0;
        if has_rule != rule_hit {
            return false;
        }
    }
    if filters.protocols.len() > 0 {
        let pu = to_uppercase(compact.proto.as_str());
        let proto = str_chars(pu.as_str());
        let mut matched = false;
        let mut i: usize = 0;
        while i < filters.protocols.len()
            invariant
                i <= filters.protocols@.len(),
                proto@ == unicode_upper(compact.proto@),
                is_ws == flag_set(compact.flags, FLAG_IS_WEBSOCKET),
                is_sse == flag_set(compact.flags, FLAG_IS_SSE),
                is_h3 == flag_set(compact.flags, FLAG_IS_H3),
                matched == exists|k: int| 0 <= k < i && protocol_admits(unicode_upper(#[trigger] filters.protocols@[k]@), proto@, is_ws, is_sse, is_h3),
            decreases filters.protocols@.len() - i,
        {
            let up = to_uppercase(filters.protocols[i].as_str());
            let pc = str_chars(up.as_str());
            if protocol_admits_exec(&pc, &proto, is_ws, is_sse, is_h3) {
                matched = true;
            }
            i = i + 1;
        }
        if !matched {
            return false;
        }
    }
    if filters.status_ranges.len() > 0 {
        let mut matched = false;
        let mut i: usize = 0;
        while i < filters.status_ranges.len()
            invariant
                i <= filters.status_ranges@.len(),
                matched == exists|k: int| 0 <= k < i && status_admits(#[trigger] filters.status_ranges@[k]@, compact.s),
            decreases filters.status_ranges@.len() - i,
        {
            let rc = str_chars(filters.status_ranges[i].as_str());
            if status_admits_exec(&rc, compact.s) {
                matched = true;
            }
            i = i + 1;
        }
        if !matched {
            return false;
        }
    }
    if filters.content_types.len() > 0 {
        let rl = match &compact.ct {
            Some(s) => to_lowercase(s.as_str()),
            None => to_lowercase(""),
        };
        let ql = match &compact.req_ct {
            Some(s) => to_lowercase(s.as_str()),
            None => to_lowercase(""),
        };
        proof {
            reveal_strlit("");
            assert(""@ =~= Seq::<char>::empty());
        }
        let res_ct = str_chars(rl.as_str());
        let req_ct = str_chars(ql.as_str());
        let mut matched = false;
        let mut i: usize = 0;
        while i < filters.content_types.len()
            invariant
                i <= filters.content_types@.len(),
                res_ct@ == unicode_lower(opt_text(compact.ct)),
                req_ct@ == unicode_lower(opt_text(compact.req_ct)),
                matched == exists|k: int|
                    0 <= k < i && content_type_hit(unicode_lower(#[trigger] filters.content_types@[k]@), res_ct@, req_ct@),
            decreases filters.content_types@.len() - i,
        {
            let lc = to_lowercase(filters.content_types[i].as_str());
            let lcc = str_chars(lc.as_str());
            let pats = content_type_patterns_exec(&lcc);
            let ghost ps = content_type_patterns(unicode_lower(filters.content_types@[i as int]@));
            let mut found = false;
            let mut j: usize = 0;
            while j < pats.len()
                invariant
                    j <= pats@.len(),
                    pats@.len() == ps.len(),
                    forall|m: int| 0 <= m < pats@.len() ==> #[trigger] pats@[m]@ == ps[m],
                    found == exists|m: int| 0 <= m < j && (contains(res_ct@, #[trigger] ps[m]) || contains(req_ct@, ps[m])),
                decreases pats@.len() - j,
            {
                if contains_chars(&res_ct, &pats[j]) || contains_chars(&req_ct, &pats[j]) {
                    found = true;
                }
                j = j + 1;
            }
            proof {
                assert(lcc@ == unicode_lower(filters.content_types@[i as int]@));
                assert(found == content_type_hit(unicode_lower(filters.content_types@[i as int]@), res_ct@, req_ct@));
            }
            if found {
                matched = true;
            }
            i = i + 1;
        }
        if !matched {
            return false;
        }
    }
    if filters.client_ips.len() > 0 {
        let mut matched = false;
        let mut i: usize = 0;
        let cip = str_chars(compact.cip.as_str());
        while i < filters.client_ips.len()
            invariant
                i <= filters.client_ips@.len(),
                cip@ == compact.cip@,
                matched == exists|k: int| 0 <= k < i && #[trigger] filters.client_ips@[k]@ == compact.cip@,
            decreases filters.client_ips@.len() - i,
        {
            if chars_eq_str(&cip, filters.client_ips[i].as_str()) {
                matched = true;
            }
            i = i + 1;
        }
        if !matched {
            return false;
        }
    }
    if filters.client_apps.len() > 0 {
        match &compact.capp {
            Some(app) => {
                let ac = str_chars(app.as_str());
                let mut matched = false;
                let mut i: usize = 0;
                while i < filters.client_apps.len()
                    invariant
                        i <= filters.client_apps@.len(),
                        ac@ == app@,
                        matched == exists|k: int| 0 <= k < i && #[trigger] filters.client_apps@[k]@ == app@,
                    decreases filters.client_apps@.len() - i,
                {
                    if chars_eq_str(&ac, filters.client_apps[i].as_str()) {
                        matched = true;
                    }
                    i = i + 1;
                }
                if !matched {
                    return false;
                }
            },
            None => {
                return false;
            },
        }
    }
    if filters.domains.len() > 0 {
        let hc = str_chars(compact.h.as_str());
        let mut matched = false;
        let mut i: usize = 0;
        while i < filters.domains.len()
            invariant
                i <= filters.domains@.len(),
                hc@ == compact.h@,
                matched == exists|k: int| 0 <= k < i && contains(compact.h@, #[trigger] filters.domains@[k]@),
            decreases filters.domains@.len() - i,
        {
            let dc = str_chars(filters.domains[i].as_str());
            if contains_chars(&hc, &dc) {
                matched = true;
            }
            i = i + 1;
        }
        if !matched {
            return false;
        }
    }
    true
}

// ---------------------------------------------------------------------------
// Field conditions
// ---------------------------------------------------------------------------

/// The fields of a full record that conditions test.
#[derive(Debug, Clone)]
pub struct ConditionSubject {
    pub url: String,
    pub host: String,
    pub path: String,
    pub method: String,
    pub content_type: Option<String>,
    pub client_app: Option<String>,
    pub client_ip: String,
}

/// The value of the field a condition names; `None` for a field that
/// conditions do not know (such a condition always holds).
pub open spec fn condition_field(r: ConditionSubject, field: Seq<char>) -> Option<Seq<char>> {
    if field == "url"@ {
        Some(r.url@)
    } else if field == "host"@ {
        Some(r.host@)
    } else if field == "path"@ {
        Some(r.path@)
    } else if field == "method"@ {
        Some(r.method@)
    } else if field == "content_type"@ {
        Some(opt_text(r.content_type))
    } else if field == "client_app"@ {
        Some(opt_text(r.client_app))
    } else if field == "client_ip"@ {
        Some(r.client_ip@)
    } else {
        None
    }
}

/// Whether a record satisfies a condition. Comparisons ignore case; an
/// unknown operator means `contains`; a pattern that does not compile never
/// matches.
pub open spec fn condition_holds(r: ConditionSubject, c: FilterCondition) -> bool {
    match condition_field(r, c.field@) {
        None => true,
        Some(v) => {
            let fl = unicode_lower(v);
            let vl = unicode_lower(c.value@);
            if c.operator@ == "contains"@ {
                contains(fl, vl)
            } else if c.operator@ == "equals"@ {
                fl == vl
            } else if c.operator@ == "not_contains"@ {
                !contains(fl, vl)
            } else if c.operator@ == "regex"@ {
                regex_match(c.value@, v) == Some(true)
            } else {
                contains(fl, vl)
            }
        },
    }
}

fn field_value(r: &ConditionSubject, field: &str) -> (v: Option<String>)
    ensures
        match condition_field(*r, field@) {
            Some(x) => (v matches Some(s) && s@ == x),
            None => v is None,
        },
{
    let f = str_chars(field);
    if chars_eq_str(&f, "url") {
        Some(r.url.clone())
    } else if chars_eq_str(&f, "host") {
        Some(r.host.clone())
    } else if chars_eq_str(&f, "path") {
        Some(r.path.clone())
    } else if chars_eq_str(&f, "method") {
        Some(r.method.clone())
    } else if chars_eq_str(&f, "content_type") {
        let c = opt_chars_exec(&r.content_type);
        Some(crate::text::string_from_chars(&c))
    } else if chars_eq_str(&f, "client_app") {
        let c = opt_chars_exec(&r.client_app);
        Some(crate::text::string_from_chars(&c))
    } else if chars_eq_str(&f, "client_ip") {
        Some(r.client_ip.clone())
    } else {
        None
    }
}

/// Whether a record satisfies a condition.
pub fn matches_condition(record: &ConditionSubject, condition: &FilterCondition) -> (b: bool)
    ensures
        b == condition_holds(*record, *condition),
{
    let v = match field_value(record, condition.field.as_str()) {
        Some(v) => v,
        None => return true,
    };
    let fl = to_lowercase(v.as_str());
    let vl = to_lowercase(condition.value.as_str());
    let flc = str_chars(fl.as_str());
    let vlc = str_chars(vl.as_str());
    let op = str_chars(condition.operator.as_str());
    if chars_eq_str(&op, "contains") {
        contains_chars(&flc, &vlc)
    } else if chars_eq_str(&op, "equals") {
        crate::text::chars_eq(&flc, &vlc)
    } else if chars_eq_str(&op, "not_contains") {
        !contains_chars(&flc, &vlc)
    } else if chars_eq_str(&op, "regex") {
        match regex_is_match(condition.value.as_str(), v.as_str()) {
            Some(m) => m,
            None => false,
        }
    } else {
        contains_chars(&flc, &vlc)
    }
}

/// Whether a record satisfies every condition.
pub fn matches_conditions(record: &ConditionSubject, conditions: &[FilterCondition]) -> (b: bool)
    ensures
        b == forall|i: int| 0 <= i < conditions@.len() ==> condition_holds(*record, #[trigger] conditions@[i]),
{
    let mut i: usize = 0;
    while i < conditions.len()
        invariant
            i <= conditions@.len(),
            forall|k: int| 0 <= k < i ==> condition_holds(*record, #[trigger] conditions@[k]),
        decreases conditions@.len() - i,
    {
        if !matches_condition(record, &conditions[i]) {
            return false;
        }
        i = i + 1;
    }
    true
}

// ---------------------------------------------------------------------------
// Locating a keyword
// ---------------------------------------------------------------------------

/// Byte position `i` of `bytes` starts a character (or is the end).
#[verifier::opaque]
pub open spec fn at_boundary(bytes: Seq<u8>, i: int) -> bool {
    is_char_boundary(bytes, i)
}

/// The nearest character boundary of `bytes` at or after (`forward`) or at
/// or before (`!forward`) a byte position; positions past the end give the end.
#[verifier::opaque]
pub open spec fn char_boundary_near(bytes: Seq<u8>, i: int, forward: bool) -> int {
    if i >= bytes.len() {
        bytes.len() as int
    } else if at_boundary(bytes, i) {
        i
    } else if forward {
        choose|k: int| i < k <= bytes.len() && at_boundary(bytes, k) && forall|m: int| i <= m < k ==> !at_boundary(bytes, m)
    } else {
        choose|k: int| 0 <= k < i && at_boundary(bytes, k) && forall|m: int| k < m <= i ==> !at_boundary(bytes, m)
    }
}

fn boundary_at(s: &str, i: usize) -> (r: bool)
    ensures
        r == at_boundary(s.spec_bytes(), i as int),
{
    proof {
        reveal(at_boundary);
    }
    s.is_char_boundary(i)
}

proof fn lemma_ends_are_boundaries(s: &str)
    ensures
        at_boundary(s.spec_bytes(), 0),
        at_boundary(s.spec_bytes(), s.spec_bytes().len() as int),
{
    reveal(at_boundary);
    vstd::utf8::encode_utf8_valid_utf8(s@);
    vstd::utf8::is_char_boundary_start_end_of_seq(s.spec_bytes());
}

fn boundary_forward(s: &str, byte_index: usize) -> (r: usize)
    requires
        byte_index < s.spec_bytes().len(),
        !at_boundary(s.spec_bytes(), byte_index as int),
    ensures
        byte_index < r <= s.spec_bytes().len(),
        at_boundary(s.spec_bytes(), r as int),
        r == char_boundary_near(s.spec_bytes(), byte_index as int, true),
{
    reveal(char_boundary_near);
    let ghost b = s.spec_bytes();
    let len = s.as_bytes().len();
    proof {
        lemma_ends_are_boundaries(s);
    }
    let mut i: usize = byte_index + 1;
    while i < len
        invariant
            byte_index < i <= len,
            len == b.len(),
            b == s.spec_bytes(),
            at_boundary(b, len as int),
            forall|m: int| byte_index <= m < i ==> !at_boundary(b, m),
        decreases len - i,
    {
        if boundary_at(s, i) {
            proof {
                reveal(char_boundary_near);
                assert(i < b.len());
                assert(byte_index < i && at_boundary(b, i as int) && forall|m: int| byte_index <= m < i ==> !at_boundary(b, m));
                let k = choose|k: int| byte_index < k <= b.len() && at_boundary(b, k) && forall|m: int| byte_index <= m < k ==> !at_boundary(b, m);
                if k < i {
                    assert(!at_boundary(b, k));
                } else if k > i {
                    assert(!at_boundary(b, i as int));
                }
            }
            return i;
        }
        i = i + 1;
    }
    proof {
        assert(byte_index < len && at_boundary(b, len as int) && forall|m: int| byte_index <= m < len ==> !at_boundary(b, m));
        let k = choose|k: int| byte_index < k <= b.len() && at_boundary(b, k) && forall|m: int| byte_index <= m < k ==> !at_boundary(b, m);
        if k < len {
            assert(!at_boundary(b, k));
        }
    }
    len
}

fn boundary_backward(s: &str, byte_index: usize) -> (r: usize)
    requires
        byte_index < s.spec_bytes().len(),
        !at_boundary(s.spec_bytes(), byte_index as int),
    ensures
        r < byte_index,
        at_boundary(s.spec_bytes(), r as int),
        r == char_boundary_near(s.spec_bytes(), byte_index as int, false),
{
    reveal(char_boundary_near);
    let ghost b = s.spec_bytes();
    proof {
        lemma_ends_are_boundaries(s);
    }
    let mut i: usize = byte_index;
    while i > 0
        invariant
            i <= byte_index < b.len(),
            b == s.spec_bytes(),
            at_boundary(b, 0),
            forall|m: int| i <= m <= byte_index ==> !at_boundary(b, m),
        decreases i,
    {
        if boundary_at(s, i - 1) {
            proof {
                reveal(char_boundary_near);
                let j = i - 1;
                assert(0 <= j < byte_index && at_boundary(b, j) && forall|m: int| j < m <= byte_index ==> !at_boundary(b, m));
                let k = choose|k: int| 0 <= k < byte_index && at_boundary(b, k) && forall|m: int| k < m <= byte_index ==> !at_boundary(b, m);
                if k < j {
                    assert(!at_boundary(b, j));
                } else if k > j {
                    assert(!at_boundary(b, k));
                }
            }
            return i - 1;
        }
        i = i - 1;
    }
    proof {
        assert(!at_boundary(b, 0));
    }
    0
}

/// The nearest character boundary of `s` at or after (`search_forward`) or at
/// or before a byte position, clamped to the end of the string.
pub fn find_char_boundary(s: &str, byte_index: usize, search_forward: bool) -> (r: usize)
    ensures
        r <= s.spec_bytes().len(),
        at_boundary(s.spec_bytes(), r as int),
        r == char_boundary_near(s.spec_bytes(), byte_index as int, search_forward),
        byte_index >= s.spec_bytes().len() ==> r == s.spec_bytes().len(),
        byte_index < s.spec_bytes().len() && search_forward ==> r >= byte_index,
        byte_index < s.spec_bytes().len() && !search_forward ==> r <= byte_index,
{
    reveal(char_boundary_near);
    let len = s.as_bytes().len();
    proof {
        lemma_ends_are_boundaries(s);
    }
    if byte_index >= len {
        return len;
    }
    if boundary_at(s, byte_index) {
        return byte_index;
    }
    let r = if search_forward {
        boundary_forward(s, byte_index)
    } else {
        boundary_backward(s, byte_index)
    };
    proof {
        let b = s.spec_bytes();
        if search_forward {
            let k = choose|k: int| byte_index < k <= b.len() && at_boundary(b, k) && forall|m: int| byte_index <= m < k ==> !at_boundary(b, m);
            assert(at_boundary(b, b.len() as int));
            assert(byte_index < b.len() && at_boundary(b, b.len() as int));
        } else {
            assert(0 < byte_index);
        }
    }
    r
}

/// `needle` occurs in `hay` at byte `i`.
pub open spec fn bytes_at(hay: Seq<u8>, needle: Seq<u8>, i: int) -> bool {
    0 <= i && i + needle.len() <= hay.len() && hay.subrange(i, i + needle.len()) == needle
}

/// The first byte position of `needle` in `hay` (what `str::find` reports).
#[verifier::opaque]
pub open spec fn first_bytes_at(hay: Seq<u8>, needle: Seq<u8>) -> Option<int> {
    if exists|i: int| bytes_at(hay, needle, i) {
        Some(choose|i: int| bytes_at(hay, needle, i) && forall|j: int| 0 <= j < i ==> !bytes_at(hay, needle, j))
    } else {
        None
    }
}

fn find_bytes(hay: &[u8], needle: &[u8]) -> (r: Option<usize>)
    ensures
        r matches Some(p) ==> first_bytes_at(hay@, needle@) == Some(p as int),
        r is None ==> first_bytes_at(hay@, needle@) is None,
{
    reveal(first_bytes_at);
    if needle.len() > hay.len() {
        proof {
            assert forall|j: int| !bytes_at(hay@, needle@, j) by {}
        }
        return None;
    }
    let last: usize = hay.len() - needle.len();
    let mut i: usize = 0;
    loop
        invariant
            last == hay.len() - needle.len(),
            i <= last,
            forall|j: int| 0 <= j < i ==> !bytes_at(hay@, needle@, j),
        decreases last - i,
    {
        let mut k: usize = 0;
        let mut ok = true;
        while k < needle.len()
            invariant
                i + needle.len() <= hay.len(),
                k <= needle.len(),
                ok == forall|m: int| 0 <= m < k ==> hay@[i + m] == needle@[m],
            decreases needle.len() - k,
        {
            if hay[i + k] != needle[k] {
                ok = false;
            }
            k = k + 1;
        }
        if ok {
            proof {
                reveal(first_bytes_at);
                assert(hay@.subrange(i as int, i + needle.len()) =~= needle@);
                assert(bytes_at(hay@, needle@, i as int));
                let w = choose|w: int| bytes_at(hay@, needle@, w) && forall|j: int| 0 <= j < w ==> !bytes_at(hay@, needle@, j);
                assert(bytes_at(hay@, needle@, i as int) && forall|j: int| 0 <= j < i ==> !bytes_at(hay@, needle@, j));
                if w < i {
                    assert(!bytes_at(hay@, needle@, w));
                } else if w > i {
                    assert(!bytes_at(hay@, needle@, i as int));
                }
            }
            return Some(i);
        }
        proof {
            if bytes_at(hay@, needle@, i as int) {
                let m = choose|m: int| 0 <= m < needle@.len() && hay@[i + m] != needle@[m];
                assert(hay@.subrange(i as int, i + needle@.len())[m] == hay@[i + m]);
            }
        }
        if i == last {
            proof {
                reveal(first_bytes_at);
                assert forall|j: int| !bytes_at(hay@, needle@, j) by {
                    if bytes_at(hay@, needle@, j) {
                        assert(j <= i);
                    }
                }
            }
            return None;
        }
        i = i + 1;
    }
}

/// The preview of the bytes `tb[start..end]`: the text, with `...` on each
/// side where something was cut.
#[verifier::opaque]
pub open spec fn preview_spec(tb: Seq<u8>, start: int, end: int) -> Seq<char> {
    let prefix = if start > 0 { "..."@ } else { Seq::<char>::empty() };
    let suffix = if end < tb.len() { "..."@ } else { Seq::<char>::empty() };
    prefix + decode_utf8(tb.subrange(start, end)) + suffix
}

/// Where the context window of a match at `pos` of a `klen`-byte keyword
/// starts and ends, before moving to character boundaries.
pub open spec fn window(pos: int, klen: int, tlen: int) -> (int, int) {
    (
        if pos >= 50 { pos - 50 } else { 0 },
        if pos + klen + 50 <= tlen { pos + klen + 50 } else { tlen },
    )
}

/// Where `keyword` (already lower-cased) occurs in `text`, compared case-
/// insensitively, with up to 50 bytes of context on each side (cut at
/// character boundaries, marked with `...` where cut). The offset and the
/// context are byte positions, the offset in the lower-cased text.
pub open spec fn search_text_spec(text: Seq<char>, keyword: Seq<char>, field: Seq<char>) -> Option<(Seq<char>, Seq<char>, int)> {
    let tb = encode_utf8(text);
    match first_bytes_at(encode_utf8(unicode_lower(text)), encode_utf8(keyword)) {
        None => None,
        Some(pos) => {
            let (a, b) = window(pos, encode_utf8(keyword).len() as int, tb.len() as int);
            let start = char_boundary_near(tb, a, false);
            let end = char_boundary_near(tb, b, true);
            Some((field, preview_spec(tb, start, end), pos))
        },
    }
}

fn make_preview(text: &str, start: usize, end: usize) -> (r: String)
    requires
        start <= end <= text.spec_bytes().len(),
        at_boundary(text.spec_bytes(), start as int),
        at_boundary(text.spec_bytes(), end as int),
    ensures
        r@ == preview_spec(text.spec_bytes(), start as int, end as int),
{
    proof {
        reveal(at_boundary);
        reveal(preview_spec);
    }
    let tlen = text.as_bytes().len();
    let mid = str_byte_slice(text, start, end);
    let mut preview = if start > 0 { to_owned_string("...") } else { String::new() };
    push_str(&mut preview, mid.as_str());
    if end < tlen {
        push_str(&mut preview, "...");
    }
    proof {
        reveal_strlit("...");
        assert(preview@ =~= preview_spec(text.spec_bytes(), start as int, end as int));
    }
    preview
}

/// Looks for `keyword` (already lower-cased) in `text`, ignoring case.
pub fn search_text(text: &str, keyword: &str, field: &str) -> (r: Option<MatchLocation>)
    ensures
        match search_text_spec(text@, keyword@, field@) {
            Some((f, p, o)) => (r matches Some(m) && m.field@ == f && m.preview@ == p && m.offset == o),
            None => r is None,
        },
{
    let lowered = to_lowercase(text);
    let ls = lowered.as_str();
    let lb = ls.as_bytes();
    let kb = keyword.as_bytes();
    assert(lb@ == encode_utf8(unicode_lower(text@)));
    let pos = match find_bytes(lb, kb) {
        Some(p) => p,
        None => return None,
    };
    let klen = keyword.as_bytes().len();
    let tlen = text.as_bytes().len();
    assert(lowered@ == unicode_lower(text@));
    assert(first_bytes_at(encode_utf8(unicode_lower(text@)), encode_utf8(keyword@)) == Some(pos as int));
    assert(klen == encode_utf8(keyword@).len());
    assert(tlen == encode_utf8(text@).len());
    let a: usize = if pos >= 50 { pos - 50 } else { 0 };
    let want = pos.saturating_add(klen).saturating_add(50);
    let b: usize = if want <= tlen { want } else { tlen };
    assert((a as int, b as int) == window(pos as int, klen as int, tlen as int));
    let start = find_char_boundary(text, a, false);
    let end = find_char_boundary(text, b, true);
    assert(start <= end);
    let preview = make_preview(text, start, end);
    assert(start == char_boundary_near(encode_utf8(text@), a as int, false));
    assert(end == char_boundary_near(encode_utf8(text@), b as int, true));
    assert(preview@ == preview_spec(encode_utf8(text@), start as int, end as int));
    Some(MatchLocation { field: to_owned_string(field), preview, offset: pos })
}

// ---------------------------------------------------------------------------
// Laws
// ---------------------------------------------------------------------------

/// On a field that the record has, a `not_contains` condition holds exactly
/// when the `contains` condition with the same field and value does not.
pub proof fn lemma_not_contains_negates_contains(r: ConditionSubject, c: FilterCondition, d: FilterCondition)
    requires
        c.operator@ == "contains"@,
        d.operator@ == "not_contains"@,
        c.field@ == d.field@,
        c.value@ == d.value@,
        condition_field(r, c.field@) is Some,
    ensures
        condition_holds(r, d) == !condition_holds(r, c),
{
    reveal_strlit("contains");
    reveal_strlit("not_contains");
    reveal_strlit("equals");
    assert("contains"@.len() == 8 && "equals"@.len() == 6 && "not_contains"@.len() == 12);
}

/// An `equals` condition that holds implies the `contains` condition with the
/// same field and value: a value equal to the field's text occurs in it.
pub proof fn lemma_equals_implies_contains(r: ConditionSubject, c: FilterCondition, e: FilterCondition)
    requires
        c.operator@ == "contains"@,
        e.operator@ == "equals"@,
        c.field@ == e.field@,
        c.value@ == e.value@,
        condition_holds(r, e),
    ensures
        condition_holds(r, c),
{
    reveal_strlit("contains");
    reveal_strlit("equals");
    assert("contains"@.len() == 8 && "equals"@.len() == 6);
    if let Some(v) = condition_field(r, c.field@) {
        let fl = unicode_lower(v);
        let vl = unicode_lower(c.value@);
        assert(fl.subrange(0, vl.len() as int) =~= fl);
        assert(occurs_at(fl, vl, 0));
    }
}

/// A condition on a field that the record does not have never excludes it.
pub proof fn lemma_unknown_field_holds(r: ConditionSubject, c: FilterCondition)
    requires
        condition_field(r, c.field@) is None,
    ensures
        condition_holds(r, c),
{
}

} // verus!
