//! Query strings of the admin API: splitting into decoded `key=value`
//! pairs, and the parameter sets that the traffic endpoints read from them.
use vstd::prelude::*;
use vstd::string::StringSliceAdditionalSpecFns;
use crate::text::{
    str_chars, chars_eq_str, split, split_chars, split_once, split_once_chars, string_from_chars,
    parse_unsigned, parse_u64_chars, parse_usize_chars, parse_u16_chars, decimal, index_of,
    lemma_decimal_parses, lemma_split_without_sep,
};
use crate::codec::{percent_decoded, url_decode};

verus! {

// ---------------------------------------------------------------------------
// Pairs
// ---------------------------------------------------------------------------

/// `+` read as a space, as in form-encoded queries.
pub open spec fn plus_to_space(s: Seq<char>) -> Seq<char> {
    s.map_values(|c: char| if c == '+' { ' ' } else { c })
}

/// A query value decoded: `+` as space, then percent escapes; a value that
/// does not decode to UTF-8 reads as empty.
pub open spec fn decode_query(v: Seq<char>) -> Seq<char> {
    match percent_decoded(plus_to_space(v)) {
        Some(d) => d,
        None => Seq::empty(),
    }
}

/// Decodes a query value.
pub fn decode_query_value(value: &str) -> (r: String)
    ensures
        r@ == decode_query(value@),
{
    let c = str_chars(value);
    let mut out: Vec<char> = Vec::new();
    let mut i: usize = 0;
    while i < c.len()
        invariant
            i <= c@.len(),
            c@ == value@,
            out@ == plus_to_space(c@.take(i as int)),
        decreases c@.len() - i,
    {
        let ch = c[i];
        out.push(if ch == '+' { ' ' } else { ch });
        proof {
            assert(plus_to_space(c@.take(i + 1)) =~= plus_to_space(c@.take(i as int)).push(
                if ch == '+' { ' ' } else { ch },
            ));
        }
        i = i + 1;
    }
    proof {
        assert(c@.take(i as int) =~= c@);
    }
    let spaced = string_from_chars(&out);
    match url_decode(spaced.as_str()) {
        Some(d) => d,
        None => String::new(),
    }
}

/// The `key=value` pairs of `&`-separated pieces, values decoded; pieces
/// without `=` are skipped.
pub open spec fn pairs_from(pieces: Seq<Seq<char>>) -> Seq<(Seq<char>, Seq<char>)>
    decreases pieces.len(),
{
    if pieces.len() == 0 {
        Seq::empty()
    } else {
        let prev = pairs_from(pieces.drop_last());
        match split_once(pieces.last(), '=') {
            Some((k, v)) => prev.push((k, decode_query(v))),
            None => prev,
        }
    }
}

/// The decoded pairs of a query string.
pub open spec fn query_pairs(q: Seq<char>) -> Seq<(Seq<char>, Seq<char>)> {
    pairs_from(split(q, '&'))
}

/// The view of exec pairs.
pub open spec fn pairs_view(v: Seq<(String, String)>) -> Seq<(Seq<char>, Seq<char>)> {
    v.map_values(|e: (String, String)| (e.0@, e.1@))
}

/// Splits a query string into decoded pairs, in order.
pub fn decoded_pairs(query: &str) -> (r: Vec<(String, String)>)
    ensures
        pairs_view(r@) == query_pairs(query@),
{
    let q = str_chars(query);
    let pieces = split_chars(&q, '&');
    let ghost ps = split(query@, '&');
    let mut r: Vec<(String, String)> = Vec::new();
    let mut i: usize = 0;
    while i < pieces.len()
        invariant
            i <= pieces@.len(),
            pieces@.len() == ps.len(),
            forall|k: int| 0 <= k < pieces@.len() ==> #[trigger] pieces@[k]@ == ps[k],
            pairs_view(r@) == pairs_from(ps.take(i as int)),
        decreases pieces@.len() - i,
    {
        proof {
            assert(ps.take(i + 1).drop_last() =~= ps.take(i as int));
            assert(ps.take(i + 1).last() == ps[i as int]);
        }
        match split_once_chars(&pieces[i], '=') {
            Some((kc, vc)) => {
                let k = string_from_chars(&kc);
                let raw = string_from_chars(&vc);
                let v = decode_query_value(raw.as_str());
                let ghost before = r@;
                r.push((k, v));
                proof {
                    assert(pairs_view(r@) =~= pairs_view(before).push((kc@, decode_query(vc@))));
                }
            },
            None => {},
        }
        i = i + 1;
    }
    proof {
        assert(ps.take(i as int) =~= ps);
    }
    r
}

/// What `str::parse::<bool>` gives.
pub open spec fn parse_bool_spec(v: Seq<char>) -> Option<bool> {
    if v == "true"@ {
        Some(true)
    } else if v == "false"@ {
        Some(false)
    } else {
        None
    }
}

/// `str::parse::<bool>`.
pub fn parse_bool(v: &str) -> (r: Option<bool>)
    ensures
        r == parse_bool_spec(v@),
{
    let c = str_chars(v);
    if chars_eq_str(&c, "true") {
        Some(true)
    } else if chars_eq_str(&c, "false") {
        Some(false)
    } else {
        None
    }
}

/// `str::parse::<u16>` as an option.
pub open spec fn opt_u16(v: Seq<char>) -> Option<u16> {
    match parse_unsigned(v, u16::MAX as nat) {
        Some(n) => Some(n as u16),
        None => None,
    }
}

/// `str::parse::<usize>` as an option.
pub open spec fn opt_usize(v: Seq<char>) -> Option<usize> {
    match parse_unsigned(v, usize::MAX as nat) {
        Some(n) => Some(n as usize),
        None => None,
    }
}

/// `str::parse::<u64>` as an option.
pub open spec fn opt_u64(v: Seq<char>) -> Option<u64> {
    match parse_unsigned(v, u64::MAX as nat) {
        Some(n) => Some(n as u64),
        None => None,
    }
}

fn opt_u16_exec(v: &str) -> (r: Option<u16>)
    ensures
        r == opt_u16(v@),
{
    let c = str_chars(v);
    parse_u16_chars(&c)
}

fn opt_usize_exec(v: &str) -> (r: Option<usize>)
    ensures
        r == opt_usize(v@),
{
    let c = str_chars(v);
    parse_usize_chars(&c)
}

fn opt_u64_exec(v: &str) -> (r: Option<u64>)
    ensures
        r == opt_u64(v@),
{
    let c = str_chars(v);
    parse_u64_chars(&c)
}

/// The view of an optional string.
pub open spec fn ostr(o: Option<String>) -> Option<Seq<char>> {
    match o {
        Some(s) => Some(s@),
        None => None,
    }
}

// ---------------------------------------------------------------------------
// `limit`
// ---------------------------------------------------------------------------

/// The value of the first `limit` pair of raw pieces, read as a number
/// (`None` when there is none or it does not read).
pub open spec fn first_limit(pieces: Seq<Seq<char>>) -> Option<usize>
    decreases pieces.len(),
{
    if pieces.len() == 0 {
        None
    } else {
        match split_once(pieces[0], '=') {
            Some((k, v)) if k == "limit"@ => opt_usize(v),
            _ => first_limit(pieces.drop_first()),
        }
    }
}

/// The `limit` of a metrics query: the first `limit` pair, its raw value
/// read as a number.
pub fn parse_limit(query: &str) -> (r: Option<usize>)
    ensures
        r == first_limit(split(query@, '&')),
{
    let q = str_chars(query);
    let pieces = split_chars(&q, '&');
    let ghost ps = split(query@, '&');
    proof {
        assert(ps.skip(0) =~= ps);
    }
    let mut i: usize = 0;
    while i < pieces.len()
        invariant
            i <= pieces@.len(),
            pieces@.len() == ps.len(),
            forall|k: int| 0 <= k < pieces@.len() ==> #[trigger] pieces@[k]@ == ps[k],
            first_limit(ps) == first_limit(ps.skip(i as int)),
            ps == split(query@, '&'),
        decreases pieces@.len() - i,
    {
        proof {
            assert(ps.skip(i as int)[0] == ps[i as int]);
            assert(ps.skip(i as int).drop_first() =~= ps.skip(i + 1));
        }
        match split_once_chars(&pieces[i], '=') {
            Some((kc, vc)) => {
                if chars_eq_str(&kc, "limit") {
                    proof {
                        assert(pieces@[i as int]@ == ps[i as int]);
                        assert(split_once(ps[i as int], '=') == Some((kc@, vc@)));
                        assert(first_limit(ps.skip(i as int)) == opt_usize(vc@));
                    }
                    let r = parse_usize_chars(&vc);
                    proof {
                        assert(r == opt_usize(vc@));
                    }
                    return r;
                }
            },
            None => {},
        }
        i = i + 1;
    }
    proof {
        assert(ps.skip(i as int) =~= Seq::<Seq<char>>::empty());
    }
    None
}

// ---------------------------------------------------------------------------
// Parameters of the update endpoint
// ---------------------------------------------------------------------------

/// Parameters of a request for traffic updates.
#[derive(Debug, Clone)]
pub struct UpdatesParams {
    pub after_id: Option<String>,
    pub after_seq: Option<u64>,
    pub pending_ids: Vec<String>,
    pub limit: Option<usize>,
}

/// The model of update parameters.
pub struct UpdatesModel {
    pub after_id: Option<Seq<char>>,
    pub after_seq: Option<u64>,
    pub pending_ids: Seq<Seq<char>>,
    pub limit: Option<usize>,
}

impl UpdatesParams {
    pub open spec fn model(&self) -> UpdatesModel {
        UpdatesModel {
            after_id: ostr(self.after_id),
            after_seq: self.after_seq,
            pending_ids: self.pending_ids@.map_values(|s: String| s@),
            limit: self.limit,
        }
    }
}

/// The identifiers of a `pending_ids` value: at most `MAX_SUBSCRIBED_IDS`
/// comma-separated pieces, of which the empty ones and those longer than
/// `MAX_ID_LEN` bytes are dropped.
pub open spec fn kept_ids(pieces: Seq<Seq<char>>) -> Seq<Seq<char>>
    decreases pieces.len(),
{
    if pieces.len() == 0 {
        Seq::empty()
    } else {
        let prev = kept_ids(pieces.drop_last());
        let p = pieces.last();
        if p.len() == 0 || vstd::utf8::encode_utf8(p).len() > crate::push::MAX_ID_LEN {
            prev
        } else {
            prev.push(p)
        }
    }
}

/// The parameters after one decoded pair.
pub open spec fn updates_after_pair(m: UpdatesModel, key: Seq<char>, value: Seq<char>) -> UpdatesModel {
    if key == "after_id"@ {
        if value.len() > 0 { UpdatesModel { after_id: Some(value), ..m } } else { m }
    } else if key == "after_seq"@ || key == "cursor"@ {
        UpdatesModel { after_seq: opt_u64(value), ..m }
    } else if key == "pending_ids"@ {
        if value.len() > 0 {
            let pieces = split(value, ',');
            let n = if pieces.len() > crate::push::MAX_SUBSCRIBED_IDS { crate::push::MAX_SUBSCRIBED_IDS as int } else { pieces.len() as int };
            UpdatesModel { pending_ids: kept_ids(pieces.take(n)), ..m }
        } else {
            m
        }
    } else if key == "limit"@ {
        UpdatesModel { limit: opt_usize(value), ..m }
    } else {
        m
    }
}

/// The parameters after a list of decoded pairs.
pub open spec fn updates_after_pairs(pairs: Seq<(Seq<char>, Seq<char>)>) -> UpdatesModel
    decreases pairs.len(),
{
    if pairs.len() == 0 {
        UpdatesModel { after_id: None, after_seq: None, pending_ids: Seq::empty(), limit: None }
    } else {
        updates_after_pair(updates_after_pairs(pairs.drop_last()), pairs.last().0, pairs.last().1)
    }
}

/// Applies one decoded pair to update parameters.
pub fn apply_updates_pair(p: &mut UpdatesParams, key: &str, value: &str)
    ensures
        final(p).model() == updates_after_pair(old(p).model(), key@, value@),
{
    let k = str_chars(key);
    let v = str_chars(value);
    if chars_eq_str(&k, "after_id") {
        if v.len() > 0 {
            p.after_id = Some(crate::text::to_owned_string(value));
        }
    } else if chars_eq_str(&k, "after_seq") || chars_eq_str(&k, "cursor") {
        p.after_seq = opt_u64_exec(value);
    } else if chars_eq_str(&k, "pending_ids") {
        if v.len() > 0 {
            let pieces = split_chars(&v, ',');
            let n = if pieces.len() > crate::push::MAX_SUBSCRIBED_IDS { crate::push::MAX_SUBSCRIBED_IDS } else { pieces.len() };
            let ghost ps = split(value@, ',');
            let mut ids: Vec<String> = Vec::new();
            let mut i: usize = 0;
            while i < n
                invariant
                    i <= n <= pieces@.len(),
                    pieces@.len() == ps.len(),
                    forall|k: int| 0 <= k < pieces@.len() ==> #[trigger] pieces@[k]@ == ps[k],
                    ids@.map_values(|s: String| s@) == kept_ids(ps.take(i as int)),
                decreases n - i,
            {
                proof {
                    assert(ps.take(i + 1).drop_last() =~= ps.take(i as int));
                    assert(ps.take(i + 1).last() == ps[i as int]);
                }
                let piece = string_from_chars(&pieces[i]);
                let blen = piece.as_str().as_bytes().len();
                if pieces[i].len() == 0 || blen > crate::push::MAX_ID_LEN {
                } else {
                    let ghost before = ids@;
                    ids.push(piece);
                    proof {
                        assert(ids@.map_values(|s: String| s@) =~= before.map_values(|s: String| s@).push(ps[i as int]));
                    }
                }
                i = i + 1;
            }
            p.pending_ids = ids;
        }
    } else if chars_eq_str(&k, "limit") {
        p.limit = opt_usize_exec(value);
    }
    proof {
        assert(final(p).model().pending_ids =~= updates_after_pair(old(p).model(), key@, value@).pending_ids);
    }
}

/// The parameters of a request for traffic updates, from its query string.
pub fn parse_updates_params(query: &str) -> (p: UpdatesParams)
    ensures
        p.model() == updates_after_pairs(query_pairs(query@)),
{
    let pairs = decoded_pairs(query);
    let ghost pv = pairs_view(pairs@);
    let mut p = UpdatesParams { after_id: None, after_seq: None, pending_ids: Vec::new(), limit: None };
    proof {
        assert(pv.take(0) =~= Seq::<(Seq<char>, Seq<char>)>::empty());
        assert(p.model().pending_ids =~= Seq::<Seq<char>>::empty());
    }
    let mut i: usize = 0;
    while i < pairs.len()
        invariant
            i <= pairs@.len(),
            pv == pairs_view(pairs@),
            p.model() == updates_after_pairs(pv.take(i as int)),
        decreases pairs@.len() - i,
    {
        proof {
            assert(pv.take(i + 1).drop_last() =~= pv.take(i as int));
            assert(pv.take(i + 1).last() == pv[i as int]);
        }
        apply_updates_pair(&mut p, pairs[i].0.as_str(), pairs[i].1.as_str());
        i = i + 1;
    }
    proof {
        assert(pv.take(i as int) =~= pv);
    }
    p
}

// ---------------------------------------------------------------------------
// Parameters of the traffic query endpoint
// ---------------------------------------------------------------------------

/// Order of a traffic query from its cursor.
#[derive(Debug, Clone, Copy, PartialEq, Eq)]
pub enum Direction {
    Backward,
    Forward,
}

/// Parameters of a traffic query.
#[derive(Debug, Clone)]
pub struct QueryParams {
    pub cursor: Option<u64>,
    pub limit: Option<usize>,
    pub direction: Direction,
    pub method: Option<String>,
    pub status: Option<u16>,
    pub status_min: Option<u16>,
    pub status_max: Option<u16>,
    pub protocol: Option<String>,
    pub has_rule_hit: Option<bool>,
    pub is_websocket: Option<bool>,
    pub is_sse: Option<bool>,
    pub is_h3: Option<bool>,
    pub is_tunnel: Option<bool>,
    pub host_contains: Option<String>,
    pub url_contains: Option<String>,
    pub path_contains: Option<String>,
    pub client_app: Option<String>,
    pub client_ip: Option<String>,
    pub content_type: Option<String>,
}

/// The model of traffic query parameters.
pub struct QueryModel {
    pub cursor: Option<u64>,
    pub limit: Option<usize>,
    pub direction: Direction,
    pub method: Option<Seq<char>>,
    pub status: Option<u16>,
    pub status_min: Option<u16>,
    pub status_max: Option<u16>,
    pub protocol: Option<Seq<char>>,
    pub has_rule_hit: Option<bool>,
    pub is_websocket: Option<bool>,
    pub is_sse: Option<bool>,
    pub is_h3: Option<bool>,
    pub is_tunnel: Option<bool>,
    pub host_contains: Option<Seq<char>>,
    pub url_contains: Option<Seq<char>>,
    pub path_contains: Option<Seq<char>>,
    pub client_app: Option<Seq<char>>,
    pub client_ip: Option<Seq<char>>,
    pub content_type: Option<Seq<char>>,
}

impl QueryParams {
    pub open spec fn model(&self) -> QueryModel {
        QueryModel {
            cursor: self.cursor,
            limit: self.limit,
            direction: self.direction,
            method: ostr(self.method),
            status: self.status,
            status_min: self.status_min,
            status_max: self.status_max,
            protocol: ostr(self.protocol),
            has_rule_hit: self.has_rule_hit,
            is_websocket: self.is_websocket,
            is_sse: self.is_sse,
            is_h3: self.is_h3,
            is_tunnel: self.is_tunnel,
            host_contains: ostr(self.host_contains),
            url_contains: ostr(self.url_contains),
            path_contains: ostr(self.path_contains),
            client_app: ostr(self.client_app),
            client_ip: ostr(self.client_ip),
            content_type: ostr(self.content_type),
        }
    }

    /// No filter, backward from the newest record, no limit.
    pub fn new() -> (p: QueryParams)
        ensures
            p.model() == empty_query(),
    {
        QueryParams {
            cursor: None,
            limit: None,
            direction: Direction::Backward,
            method: None,
            status: None,
            status_min: None,
            status_max: None,
            protocol: None,
            has_rule_hit: None,
            is_websocket: None,
            is_sse: None,
            is_h3: None,
            is_tunnel: None,
            host_contains: None,
            url_contains: None,
            path_contains: None,
            client_app: None,
            client_ip: None,
            content_type: None,
        }
    }
}

/// The parameters of a query with no pairs.
pub open spec fn empty_query() -> QueryModel {
    QueryModel {
        cursor: None,
        limit: None,
        direction: Direction::Backward,
        method: None,
        status: None,
        status_min: None,
        status_max: None,
        protocol: None,
        has_rule_hit: None,
        is_websocket: None,
        is_sse: None,
        is_h3: None,
        is_tunnel: None,
        host_contains: None,
        url_contains: None,
        path_contains: None,
        client_app: None,
        client_ip: None,
        content_type: None,
    }
}

/// The parameters after one decoded pair.
pub open spec fn query_after_pair(m: QueryModel, key: Seq<char>, v: Seq<char>) -> QueryModel {
    if key == "cursor"@ {
        QueryModel { cursor: opt_u64(v), ..m }
    } else if key == "limit"@ {
        QueryModel { limit: opt_usize(v), ..m }
    } else if key == "direction"@ {
        if v == "forward"@ { QueryModel { direction: Direction::Forward, ..m } } else { m }
    } else if key == "method"@ {
        QueryModel { method: Some(v), ..m }
    } else if key == "status"@ {
        QueryModel { status: opt_u16(v), ..m }
    } else if key == "status_min"@ {
        QueryModel { status_min: opt_u16(v), ..m }
    } else if key == "status_max"@ {
        QueryModel { status_max: opt_u16(v), ..m }
    } else if key == "protocol"@ {
        QueryModel { protocol: Some(v), ..m }
    } else if key == "has_rule_hit"@ {
        QueryModel { has_rule_hit: parse_bool_spec(v), ..m }
    } else if key == "is_websocket"@ {
        QueryModel { is_websocket: parse_bool_spec(v), ..m }
    } else if key == "is_sse"@ {
        QueryModel { is_sse: parse_bool_spec(v), ..m }
    } else if key == "is_h3"@ {
        QueryModel { is_h3: parse_bool_spec(v), ..m }
    } else if key == "is_tunnel"@ {
        QueryModel { is_tunnel: parse_bool_spec(v), ..m }
    } else if key == "host"@ || key == "host_contains"@ {
        QueryModel { host_contains: Some(v), ..m }
    } else if key == "url"@ || key == "url_contains"@ {
        QueryModel { url_contains: Some(v), ..m }
    } else if key == "path"@ || key == "path_contains"@ {
        QueryModel { path_contains: Some(v), ..m }
    } else if key == "client_app"@ {
        QueryModel { client_app: Some(v), ..m }
    } else if key == "client_ip"@ {
        QueryModel { client_ip: Some(v), ..m }
    } else if key == "content_type"@ {
        QueryModel { content_type: Some(v), ..m }
    } else {
        m
    }
}

/// The parameters after a list of decoded pairs.
pub open spec fn query_after_pairs(pairs: Seq<(Seq<char>, Seq<char>)>) -> QueryModel
    decreases pairs.len(),
{
    if pairs.len() == 0 {
        empty_query()
    } else {
        query_after_pair(query_after_pairs(pairs.drop_last()), pairs.last().0, pairs.last().1)
    }
}

/// Applies one decoded pair to traffic query parameters.
pub fn apply_query_pair(p: &mut QueryParams, key: &str, value: &str)
    ensures
        final(p).model() == query_after_pair(old(p).model(), key@, value@),
{
    let k = str_chars(key);
    let v = crate::text::to_owned_string(value);
    if chars_eq_str(&k, "cursor") {
        p.cursor = opt_u64_exec(value);
    } else if chars_eq_str(&k, "limit") {
        p.limit = opt_usize_exec(value);
    } else if chars_eq_str(&k, "direction") {
        let vc = str_chars(value);
        if chars_eq_str(&vc, "forward") {
            p.direction = Direction::Forward;
        }
    } else if chars_eq_str(&k, "method") {
        p.method = Some(v);
    } else if chars_eq_str(&k, "status") {
        p.status = opt_u16_exec(value);
    } else if chars_eq_str(&k, "status_min") {
        p.status_min = opt_u16_exec(value);
    } else if chars_eq_str(&k, "status_max") {
        p.status_max = opt_u16_exec(value);
    } else if chars_eq_str(&k, "protocol") {
        p.protocol = Some(v);
    } else if chars_eq_str(&k, "has_rule_hit") {
        p.has_rule_hit = parse_bool(value);
    } else if chars_eq_str(&k, "is_websocket") {
        p.is_websocket = parse_bool(value);
    } else if chars_eq_str(&k, "is_sse") {
        p.is_sse = parse_bool(value);
    } else if chars_eq_str(&k, "is_h3") {
        p.is_h3 = parse_bool(value);
    } else if chars_eq_str(&k, "is_tunnel") {
        p.is_tunnel = parse_bool(value);
    } else if chars_eq_str(&k, "host") || chars_eq_str(&k, "host_contains") {
        p.host_contains = Some(v);
    } else if chars_eq_str(&k, "url") || chars_eq_str(&k, "url_contains") {
        p.url_contains = Some(v);
    } else if chars_eq_str(&k, "path") || chars_eq_str(&k, "path_contains") {
        p.path_contains = Some(v);
    } else if chars_eq_str(&k, "client_app") {
        p.client_app = Some(v);
    } else if chars_eq_str(&k, "client_ip") {
        p.client_ip = Some(v);
    } else if chars_eq_str(&k, "content_type") {
        p.content_type = Some(v);
    }
}

/// The parameters of a traffic query, from its query string; the limit is
/// 100 unless one is given that reads as a number.
pub fn parse_query_params_from_query_string(query: &str) -> (p: QueryParams)
    ensures
        p.model() == (if query_after_pairs(query_pairs(query@)).limit is None {
            QueryModel { limit: Some(100usize), ..query_after_pairs(query_pairs(query@)) }
        } else {
            query_after_pairs(query_pairs(query@))
        }),
{
    let pairs = decoded_pairs(query);
    let ghost pv = pairs_view(pairs@);
    let mut p = QueryParams::new();
    proof {
        assert(pv.take(0) =~= Seq::<(Seq<char>, Seq<char>)>::empty());
    }
    let mut i: usize = 0;
    while i < pairs.len()
        invariant
            i <= pairs@.len(),
            pv == pairs_view(pairs@),
            p.model() == query_after_pairs(pv.take(i as int)),
        decreases pairs@.len() - i,
    {
        proof {
            assert(pv.take(i + 1).drop_last() =~= pv.take(i as int));
            assert(pv.take(i + 1).last() == pv[i as int]);
        }
        apply_query_pair(&mut p, pairs[i].0.as_str(), pairs[i].1.as_str());
        i = i + 1;
    }
    proof {
        assert(pv.take(i as int) =~= pv);
    }
    if p.limit.is_none() {
        p.limit = Some(100);
    }
    p
}

// ---------------------------------------------------------------------------
// Filter of the traffic list endpoint
// ---------------------------------------------------------------------------

/// Filter of the traffic list.
#[derive(Debug, Clone)]
pub struct TrafficFilter {
    pub method: Option<String>,
    pub status: Option<u16>,
    pub status_min: Option<u16>,
    pub status_max: Option<u16>,
    pub url_contains: Option<String>,
    pub host: Option<String>,
    pub content_type: Option<String>,
    pub limit: Option<usize>,
    pub offset: Option<usize>,
    pub has_rule_hit: Option<bool>,
    pub protocol: Option<String>,
    pub request_content_type: Option<String>,
    pub domain: Option<String>,
    pub path_contains: Option<String>,
    pub header_contains: Option<String>,
    pub client_ip: Option<String>,
    pub client_app: Option<String>,
}

/// The model of a traffic filter.
pub struct FilterModel {
    pub method: Option<Seq<char>>,
    pub status: Option<u16>,
    pub status_min: Option<u16>,
    pub status_max: Option<u16>,
    pub url_contains: Option<Seq<char>>,
    pub host: Option<Seq<char>>,
    pub content_type: Option<Seq<char>>,
    pub limit: Option<usize>,
    pub offset: Option<usize>,
    pub has_rule_hit: Option<bool>,
    pub protocol: Option<Seq<char>>,
    pub request_content_type: Option<Seq<char>>,
    pub domain: Option<Seq<char>>,
    pub path_contains: Option<Seq<char>>,
    pub header_contains: Option<Seq<char>>,
    pub client_ip: Option<Seq<char>>,
    pub client_app: Option<Seq<char>>,
}

impl TrafficFilter {
    pub open spec fn model(&self) -> FilterModel {
        FilterModel {
            method: ostr(self.method),
            status: self.status,
            status_min: self.status_min,
            status_max: self.status_max,
            url_contains: ostr(self.url_contains),
            host: ostr(self.host),
            content_type: ostr(self.content_type),
            limit: self.limit,
            offset: self.offset,
            has_rule_hit: self.has_rule_hit,
            protocol: ostr(self.protocol),
            request_content_type: ostr(self.request_content_type),
            domain: ostr(self.domain),
            path_contains: ostr(self.path_contains),
            header_contains: ostr(self.header_contains),
            client_ip: ostr(self.client_ip),
            client_app: ostr(self.client_app),
        }
    }

    /// The filter that admits everything.
    pub fn new() -> (f: TrafficFilter)
        ensures
            f.model() == empty_filter(),
    {
        TrafficFilter {
            method: None,
            status: None,
            status_min: None,
            status_max: None,
            url_contains: None,
            host: None,
            content_type: None,
            limit: None,
            offset: None,
            has_rule_hit: None,
            protocol: None,
            request_content_type: None,
            domain: None,
            path_contains: None,
            header_contains: None,
            client_ip: None,
            client_app: None,
        }
    }
}

/// The filter of a query with no pairs.
pub open spec fn empty_filter() -> FilterModel {
    FilterModel {
        method: None,
        status: None,
        status_min: None,
        status_max: None,
        url_contains: None,
        host: None,
        content_type: None,
        limit: None,
        offset: None,
        has_rule_hit: None,
        protocol: None,
        request_content_type: None,
        domain: None,
        path_contains: None,
        header_contains: None,
        client_ip: None,
        client_app: None,
    }
}

/// The filter after one decoded pair.
pub open spec fn filter_after_pair(m: FilterModel, key: Seq<char>, v: Seq<char>) -> FilterModel {
    if key == "method"@ {
        FilterModel { method: Some(v), ..m }
    } else if key == "status"@ {
        FilterModel { status: opt_u16(v), ..m }
    } else if key == "status_min"@ {
        FilterModel { status_min: opt_u16(v), ..m }
    } else if key == "status_max"@ {
        FilterModel { status_max: opt_u16(v), ..m }
    } else if key == "url"@ || key == "url_contains"@ {
        FilterModel { url_contains: Some(v), ..m }
    } else if key == "host"@ {
        FilterModel { host: Some(v), ..m }
    } else if key == "content_type"@ {
        FilterModel { content_type: Some(v), ..m }
    } else if key == "limit"@ {
        FilterModel { limit: opt_usize(v), ..m }
    } else if key == "offset"@ {
        FilterModel { offset: opt_usize(v), ..m }
    } else if key == "has_rule_hit"@ {
        FilterModel { has_rule_hit: parse_bool_spec(v), ..m }
    } else if key == "protocol"@ {
        FilterModel { protocol: Some(v), ..m }
    } else if key == "request_content_type"@ {
        FilterModel { request_content_type: Some(v), ..m }
    } else if key == "domain"@ {
        FilterModel { domain: Some(v), ..m }
    } else if key == "path_contains"@ || key == "path"@ {
        FilterModel { path_contains: Some(v), ..m }
    } else if key == "header_contains"@ || key == "header"@ {
        FilterModel { header_contains: Some(v), ..m }
    } else if key == "client_ip"@ {
        FilterModel { client_ip: Some(v), ..m }
    } else if key == "client_app"@ {
        FilterModel { client_app: Some(v), ..m }
    } else {
        m
    }
}

/// The filter after a list of decoded pairs.
pub open spec fn filter_after_pairs(pairs: Seq<(Seq<char>, Seq<char>)>) -> FilterModel
    decreases pairs.len(),
{
    if pairs.len() == 0 {
        empty_filter()
    } else {
        filter_after_pair(filter_after_pairs(pairs.drop_last()), pairs.last().0, pairs.last().1)
    }
}

/// Applies one decoded pair to a traffic filter.
pub fn apply_filter_pair(f: &mut TrafficFilter, key: &str, value: &str)
    ensures
        final(f).model() == filter_after_pair(old(f).model(), key@, value@),
{
    let k = str_chars(key);
    let v = crate::text::to_owned_string(value);
    if chars_eq_str(&k, "method") {
        f.method = Some(v);
    } else if chars_eq_str(&k, "status") {
        f.status = opt_u16_exec(value);
    } else if chars_eq_str(&k, "status_min") {
        f.status_min = opt_u16_exec(value);
    } else if chars_eq_str(&k, "status_max") {
        f.status_max = opt_u16_exec(value);
    } else if chars_eq_str(&k, "url") || chars_eq_str(&k, "url_contains") {
        f.url_contains = Some(v);
    } else if chars_eq_str(&k, "host") {
        f.host = Some(v);
    } else if chars_eq_str(&k, "content_type") {
        f.content_type = Some(v);
    } else if chars_eq_str(&k, "limit") {
        f.limit = opt_usize_exec(value);
    } else if chars_eq_str(&k, "offset") {
        f.offset = opt_usize_exec(value);
    } else if chars_eq_str(&k, "has_rule_hit") {
        f.has_rule_hit = parse_bool(value);
    } else if chars_eq_str(&k, "protocol") {
        f.protocol = Some(v);
    } else if chars_eq_str(&k, "request_content_type") {
        f.request_content_type = Some(v);
    } else if chars_eq_str(&k, "domain") {
        f.domain = Some(v);
    } else if chars_eq_str(&k, "path_contains") || chars_eq_str(&k, "path") {
        f.path_contains = Some(v);
    } else if chars_eq_str(&k, "header_contains") || chars_eq_str(&k, "header") {
        f.header_contains = Some(v);
    } else if chars_eq_str(&k, "client_ip") {
        f.client_ip = Some(v);
    } else if chars_eq_str(&k, "client_app") {
        f.client_app = Some(v);
    }
}

/// The filter of a traffic list request, from its query string.
pub fn parse_traffic_filter(query: &str) -> (f: TrafficFilter)
    ensures
        f.model() == filter_after_pairs(query_pairs(query@)),
{
    let pairs = decoded_pairs(query);
    let ghost pv = pairs_view(pairs@);
    let mut f = TrafficFilter::new();
    proof {
        assert(pv.take(0) =~= Seq::<(Seq<char>, Seq<char>)>::empty());
    }
    let mut i: usize = 0;
    while i < pairs.len()
        invariant
            i <= pairs@.len(),
            pv == pairs_view(pairs@),
            f.model() == filter_after_pairs(pv.take(i as int)),
        decreases pairs@.len() - i,
    {
        proof {
            assert(pv.take(i + 1).drop_last() =~= pv.take(i as int));
            assert(pv.take(i + 1).last() == pv[i as int]);
        }
        apply_filter_pair(&mut f, pairs[i].0.as_str(), pairs[i].1.as_str());
        i = i + 1;
    }
    proof {
        assert(pv.take(i as int) =~= pv);
    }
    f
}

// ---------------------------------------------------------------------------
// Body previews
// ---------------------------------------------------------------------------

/// A text cut to at most `max_size` bytes at a character boundary: the
/// text itself when it fits, else its longest prefix of whole characters
/// within the size.
pub open spec fn truncated(value: Seq<char>, max_size: int) -> Seq<char> {
    let b = vstd::utf8::encode_utf8(value);
    if b.len() <= max_size {
        value
    } else {
        vstd::utf8::decode_utf8(b.take(crate::search::char_boundary_near(b, max_size, false)))
    }
}

/// Cuts a text to at most `max_size` bytes without splitting a character.
pub fn truncate_utf8(value: &str, max_size: usize) -> (r: String)
    ensures
        r@ == truncated(value@, max_size as int),
{
    let len = value.as_bytes().len();
    if len <= max_size {
        return crate::text::to_owned_string(value);
    }
    let end = crate::search::find_char_boundary(value, max_size, false);
    proof {
        reveal(crate::search::at_boundary);
        vstd::utf8::encode_utf8_valid_utf8(value@);
        vstd::utf8::is_char_boundary_start_end_of_seq(value.spec_bytes());
        assert(value.spec_bytes().subrange(0, end as int) =~= value.spec_bytes().take(end as int));
    }
    crate::bytes::str_byte_slice(value, 0, end)
}

// ---------------------------------------------------------------------------
// Laws
// ---------------------------------------------------------------------------

/// A `status` pair whose value is the decimal text of a status code sets the
/// exact-status field to that code and leaves every other field as it was.
pub proof fn lemma_status_pair_sets_status(m: FilterModel, n: u16)
    ensures
        filter_after_pair(m, "status"@, decimal(n as nat)) == (FilterModel { status: Some(n), ..m }),
{
    reveal_strlit("status");
    reveal_strlit("method");
    assert("status"@[0] != "method"@[0]);
    lemma_decimal_parses(n as nat, u16::MAX as nat);
}

/// The query `status=` followed by a value without `&` gives a filter whose
/// exact-status field is that value, decoded and read as a status code, and
/// whose other fields are all unset.
pub proof fn lemma_status_query(t: Seq<char>)
    requires
        forall|i: int| 0 <= i < t.len() ==> t[i] != '&',
    ensures
        filter_after_pairs(query_pairs("status="@ + t)) == (FilterModel {
            status: opt_u16(decode_query(t)),
            ..empty_filter()
        }),
{
    reveal_strlit("status=");
    reveal_strlit("status");
    reveal_strlit("method");
    let q = "status="@ + t;
    assert forall|i: int| 0 <= i < q.len() implies q[i] != '&' by {
        if i >= 7 {
            assert(q[i] == t[i - 7]);
        }
    }
    lemma_split_without_sep(q, '&');
    assert(q[6] == '=');
    assert(forall|j: int| 0 <= j < 6 ==> q[j] != '=');
    let k = choose|i: int| 0 <= i < q.len() && q[i] == '=' && forall|j: int| 0 <= j < i ==> q[j] != '=';
    assert(0 <= 6 < q.len() && q[6] == '=' && forall|j: int| 0 <= j < 6 ==> q[j] != '=');
    assert(k == 6) by {
        if k < 6 {
            assert(q[k] != '=');
        } else if k > 6 {
            assert(q[6] != '=');
        }
    }
    assert(index_of(q, '=') == Some(6int));
    assert(q.take(6) =~= "status"@);
    assert(q.skip(7) =~= t);
    let ps = seq![q];
    assert(ps.drop_last() =~= Seq::<Seq<char>>::empty());
    assert(ps.last() == q);
    assert(split_once(q, '=') == Some((q.take(6), q.skip(7))));
    assert(pairs_from(ps.drop_last()) == Seq::<(Seq<char>, Seq<char>)>::empty());
    assert(pairs_from(ps) =~= seq![("status"@, decode_query(t))]);
    let pairs = seq![("status"@, decode_query(t))];
    assert(pairs.drop_last() =~= Seq::<(Seq<char>, Seq<char>)>::empty());
    assert(query_pairs(q) == pairs);
    assert(filter_after_pairs(pairs.drop_last()) == empty_filter());
    assert(pairs.last() == ("status"@, decode_query(t)));
    assert("status"@[0] != "method"@[0]);
    assert(filter_after_pairs(pairs) == filter_after_pair(empty_filter(), "status"@, decode_query(t)));
}

/// Each text key that the filter knows sets its own field to the value as
/// given, and no other field.
pub proof fn lemma_filter_text_keys(m: FilterModel, v: Seq<char>)
    ensures
        filter_after_pair(m, "method"@, v) == (FilterModel { method: Some(v), ..m }),
        filter_after_pair(m, "url"@, v) == (FilterModel { url_contains: Some(v), ..m }),
        filter_after_pair(m, "url_contains"@, v) == (FilterModel { url_contains: Some(v), ..m }),
        filter_after_pair(m, "host"@, v) == (FilterModel { host: Some(v), ..m }),
        filter_after_pair(m, "content_type"@, v) == (FilterModel { content_type: Some(v), ..m }),
        filter_after_pair(m, "protocol"@, v) == (FilterModel { protocol: Some(v), ..m }),
        filter_after_pair(m, "request_content_type"@, v) == (FilterModel { request_content_type: Some(v), ..m }),
        filter_after_pair(m, "domain"@, v) == (FilterModel { domain: Some(v), ..m }),
        filter_after_pair(m, "path_contains"@, v) == (FilterModel { path_contains: Some(v), ..m }),
        filter_after_pair(m, "path"@, v) == (FilterModel { path_contains: Some(v), ..m }),
        filter_after_pair(m, "header_contains"@, v) == (FilterModel { header_contains: Some(v), ..m }),
        filter_after_pair(m, "header"@, v) == (FilterModel { header_contains: Some(v), ..m }),
        filter_after_pair(m, "client_ip"@, v) == (FilterModel { client_ip: Some(v), ..m }),
        filter_after_pair(m, "client_app"@, v) == (FilterModel { client_app: Some(v), ..m }),
{
    reveal_strlit("method");
    reveal_strlit("status");
    reveal_strlit("status_min");
    reveal_strlit("status_max");
    reveal_strlit("url");
    reveal_strlit("url_contains");
    reveal_strlit("host");
    reveal_strlit("content_type");
    reveal_strlit("limit");
    reveal_strlit("offset");
    reveal_strlit("has_rule_hit");
    reveal_strlit("protocol");
    reveal_strlit("request_content_type");
    reveal_strlit("domain");
    reveal_strlit("path_contains");
    reveal_strlit("path");
    reveal_strlit("header_contains");
    reveal_strlit("header");
    reveal_strlit("client_ip");
    reveal_strlit("client_app");
    assert("method"@.len() == 6 && "method"@[0] == 'm');
    assert("status"@.len() == 6 && "status"@[0] == 's');
    assert("status_min"@.len() == 10 && "status_min"@[0] == 's');
    assert("status_max"@.len() == 10 && "status_max"@[0] == 's');
    assert("url"@.len() == 3 && "url"@[0] == 'u');
    assert("url_contains"@.len() == 12 && "url_contains"@[0] == 'u');
    assert("host"@.len() == 4 && "host"@[0] == 'h');
    assert("content_type"@.len() == 12 && "content_type"@[0] == 'c');
    assert("limit"@.len() == 5 && "limit"@[0] == 'l');
    assert("offset"@.len() == 6 && "offset"@[0] == 'o');
    assert("has_rule_hit"@.len() == 12 && "has_rule_hit"@[0] == 'h');
    assert("protocol"@.len() == 8 && "protocol"@[0] == 'p');
    assert("request_content_type"@.len() == 20 && "request_content_type"@[0] == 'r');
    assert("domain"@.len() == 6 && "domain"@[0] == 'd');
    assert("path_contains"@.len() == 13 && "path_contains"@[0] == 'p');
    assert("path"@.len() == 4 && "path"@[0] == 'p');
    assert("header_contains"@.len() == 15 && "header_contains"@[0] == 'h');
    assert("header"@.len() == 6 && "header"@[0] == 'h');
    assert("client_ip"@.len() == 9 && "client_ip"@[0] == 'c');
    assert("client_app"@.len() == 10 && "client_app"@[0] == 'c');
    assert("status_min"@[8] == 'i' && "status_max"@[8] == 'a');
}

/// Each numeric key that the filter knows sets its own field to the number
/// that a decimal value denotes, and `has_rule_hit` takes `true` or `false`;
/// no other field changes.
pub proof fn lemma_filter_numeric_keys(m: FilterModel, n: u16, k: usize)
    ensures
        filter_after_pair(m, "status_min"@, decimal(n as nat)) == (FilterModel { status_min: Some(n), ..m }),
        filter_after_pair(m, "status_max"@, decimal(n as nat)) == (FilterModel { status_max: Some(n), ..m }),
        filter_after_pair(m, "limit"@, decimal(k as nat)) == (FilterModel { limit: Some(k), ..m }),
        filter_after_pair(m, "offset"@, decimal(k as nat)) == (FilterModel { offset: Some(k), ..m }),
        filter_after_pair(m, "has_rule_hit"@, "true"@) == (FilterModel { has_rule_hit: Some(true), ..m }),
        filter_after_pair(m, "has_rule_hit"@, "false"@) == (FilterModel { has_rule_hit: Some(false), ..m }),
{
    reveal_strlit("method");
    reveal_strlit("status");
    reveal_strlit("status_min");
    reveal_strlit("status_max");
    reveal_strlit("url");
    reveal_strlit("url_contains");
    reveal_strlit("host");
    reveal_strlit("content_type");
    reveal_strlit("limit");
    reveal_strlit("offset");
    reveal_strlit("has_rule_hit");
    reveal_strlit("protocol");
    reveal_strlit("request_content_type");
    reveal_strlit("domain");
    reveal_strlit("path_contains");
    reveal_strlit("path");
    reveal_strlit("header_contains");
    reveal_strlit("header");
    reveal_strlit("client_ip");
    reveal_strlit("client_app");
    reveal_strlit("true");
    reveal_strlit("false");
    assert("method"@.len() == 6 && "method"@[0] == 'm');
    assert("status"@.len() == 6 && "status"@[0] == 's');
    assert("status_min"@.len() == 10 && "status_min"@[0] == 's');
    assert("status_max"@.len() == 10 && "status_max"@[0] == 's');
    assert("url"@.len() == 3 && "url"@[0] == 'u');
    assert("url_contains"@.len() == 12 && "url_contains"@[0] == 'u');
    assert("host"@.len() == 4 && "host"@[0] == 'h');
    assert("content_type"@.len() == 12 && "content_type"@[0] == 'c');
    assert("limit"@.len() == 5 && "limit"@[0] == 'l');
    assert("offset"@.len() == 6 && "offset"@[0] == 'o');
    assert("has_rule_hit"@.len() == 12 && "has_rule_hit"@[0] == 'h');
    assert("protocol"@.len() == 8 && "protocol"@[0] == 'p');
    assert("request_content_type"@.len() == 20 && "request_content_type"@[0] == 'r');
    assert("domain"@.len() == 6 && "domain"@[0] == 'd');
    assert("path_contains"@.len() == 13 && "path_contains"@[0] == 'p');
    assert("path"@.len() == 4 && "path"@[0] == 'p');
    assert("header_contains"@.len() == 15 && "header_contains"@[0] == 'h');
    assert("header"@.len() == 6 && "header"@[0] == 'h');
    assert("client_ip"@.len() == 9 && "client_ip"@[0] == 'c');
    assert("client_app"@.len() == 10 && "client_app"@[0] == 'c');
    assert("status_min"@[8] == 'i' && "status_max"@[8] == 'a');
    assert("true"@.len() == 4 && "false"@.len() == 5);
    lemma_decimal_parses(n as nat, u16::MAX as nat);
    lemma_decimal_parses(k as nat, usize::MAX as nat);
}

} // verus!
