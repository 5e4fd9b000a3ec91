//! Traffic counters per client application and per host, from the recorded
//! traffic (or from totals the traffic database already grouped) and the
//! open connections; the groups come out with the busiest first.
use vstd::prelude::*;
use crate::dto::{AppMetrics, HostMetrics};
use crate::metrics::wadd;
use crate::sse::SocketCounters;
use crate::text::{str_chars, chars_eq, to_owned_string};

verus! {

/// Counters of one group of traffic.
#[derive(Debug, Clone, Copy, PartialEq, Eq, Structural)]
pub struct TrafficTotals {
    pub requests: u64,
    pub active_connections: u64,
    pub bytes_sent: u64,
    pub bytes_received: u64,
    pub http_requests: u64,
    pub https_requests: u64,
    pub tunnel_requests: u64,
    pub ws_requests: u64,
    pub wss_requests: u64,
    pub h3_requests: u64,
    pub socks5_requests: u64,
}

/// All counters at zero.
pub open spec fn zero_totals() -> TrafficTotals {
    TrafficTotals {
        requests: 0,
        active_connections: 0,
        bytes_sent: 0,
        bytes_received: 0,
        http_requests: 0,
        https_requests: 0,
        tunnel_requests: 0,
        ws_requests: 0,
        wss_requests: 0,
        h3_requests: 0,
        socks5_requests: 0,
    }
}

impl TrafficTotals {
    /// All counters at zero.
    pub fn zero() -> (t: TrafficTotals)
        ensures
            t == zero_totals(),
    {
        TrafficTotals {
            requests: 0,
            active_connections: 0,
            bytes_sent: 0,
            bytes_received: 0,
            http_requests: 0,
            https_requests: 0,
            tunnel_requests: 0,
            ws_requests: 0,
            wss_requests: 0,
            h3_requests: 0,
            socks5_requests: 0,
        }
    }
}

/// One recorded exchange, as far as the counters need it.
#[derive(Debug, Clone)]
pub struct MetricTraffic {
    pub id: String,
    pub host: String,
    pub protocol: String,
    pub request_size: u64,
    pub response_size: u64,
    pub is_websocket: bool,
    pub is_sse: bool,
    pub is_tunnel: bool,
    pub socket_status: Option<SocketCounters>,
    pub client_app: Option<String>,
}

/// What the counters read of a recorded exchange.
pub struct MetricTrafficModel {
    pub host: Seq<char>,
    pub protocol: Seq<char>,
    pub request_size: u64,
    pub response_size: u64,
    pub streaming: bool,
    pub socket_status: Option<SocketCounters>,
    pub client_app: Option<Seq<char>>,
}

impl View for MetricTraffic {
    type V = MetricTrafficModel;

    open spec fn view(&self) -> MetricTrafficModel {
        MetricTrafficModel {
            host: self.host@,
            protocol: self.protocol@,
            request_size: self.request_size,
            response_size: self.response_size,
            streaming: self.is_websocket || self.is_sse || self.is_tunnel,
            socket_status: self.socket_status,
            client_app: match self.client_app {
                Some(a) => Some(a@),
                None => None,
            },
        }
    }
}

/// The socket counters a record is counted with: its own, else, for a
/// long-lived connection, what the connection monitor reports.
pub open spec fn effective_status(r: MetricTrafficModel, monitored: Option<SocketCounters>) -> Option<SocketCounters> {
    if r.streaming && r.socket_status is None {
        monitored
    } else {
        r.socket_status
    }
}

/// The bytes sent and received that a record adds: the socket's counters for
/// a long-lived connection that has them, else the message sizes.
pub open spec fn record_bytes(r: MetricTrafficModel, status: Option<SocketCounters>) -> (u64, u64) {
    match status {
        Some(s) => if r.streaming {
            (s.send_bytes, s.receive_bytes)
        } else {
            (r.request_size, r.response_size)
        },
        None => (r.request_size, r.response_size),
    }
}

/// The counters after one more request of the given protocol.
pub open spec fn count_protocol(t: TrafficTotals, p: Seq<char>) -> TrafficTotals {
    if p == "http"@ {
        TrafficTotals { http_requests: wadd(t.http_requests, 1), ..t }
    } else if p == "https"@ {
        TrafficTotals { https_requests: wadd(t.https_requests, 1), ..t }
    } else if p == "tunnel"@ {
        TrafficTotals { tunnel_requests: wadd(t.tunnel_requests, 1), ..t }
    } else if p == "ws"@ {
        TrafficTotals { ws_requests: wadd(t.ws_requests, 1), ..t }
    } else if p == "wss"@ {
        TrafficTotals { wss_requests: wadd(t.wss_requests, 1), ..t }
    } else if p == "h3"@ {
        TrafficTotals { h3_requests: wadd(t.h3_requests, 1), ..t }
    } else if p == "socks5"@ {
        TrafficTotals { socks5_requests: wadd(t.socks5_requests, 1), ..t }
    } else {
        t
    }
}

/// The counters after one more record.
pub open spec fn count_record(t: TrafficTotals, r: MetricTrafficModel, status: Option<SocketCounters>) -> TrafficTotals {
    let (sent, received) = record_bytes(r, status);
    count_protocol(
        TrafficTotals {
            requests: wadd(t.requests, 1),
            bytes_sent: wadd(t.bytes_sent, sent),
            bytes_received: wadd(t.bytes_received, received),
            ..t
        },
        r.protocol,
    )
}

/// `"Unknown"` for a missing or empty name.
pub open spec fn unknown() -> Seq<char> {
    "Unknown"@
}

/// The group of a record: its client application, or its host.
pub open spec fn record_key(r: MetricTrafficModel, by_app: bool) -> Seq<char> {
    if by_app {
        match r.client_app {
            Some(a) => a,
            None => unknown(),
        }
    } else if r.host.len() == 0 {
        unknown()
    } else {
        r.host
    }
}

/// Groups and their counters, in the order the groups were first seen.
pub type Table = Seq<(Seq<char>, TrafficTotals)>;

/// Position of group `k`.
#[verifier::opaque]
pub open spec fn group_pos(tab: Table, k: Seq<char>) -> Option<int> {
    if exists|i: int| 0 <= i < tab.len() && #[trigger] tab[i].0 == k {
        Some(choose|i: int| 0 <= i < tab.len() && tab[i].0 == k && forall|j: int| 0 <= j < i ==> #[trigger] tab[j].0 != k)
    } else {
        None
    }
}

/// The counters of group `k` (zero for a group not seen yet).
pub open spec fn group_totals(tab: Table, k: Seq<char>) -> TrafficTotals {
    match group_pos(tab, k) {
        Some(p) => tab[p].1,
        None => zero_totals(),
    }
}

/// The table with the counters of group `k` replaced (a new group goes last).
pub open spec fn group_put(tab: Table, k: Seq<char>, t: TrafficTotals) -> Table {
    match group_pos(tab, k) {
        Some(p) => tab.update(p, (k, t)),
        None => tab.push((k, t)),
    }
}

/// The table after the recorded exchanges, each with what the connection
/// monitor reports for it.
pub open spec fn table_of_records(rs: Seq<MetricTrafficModel>, monitored: Seq<Option<SocketCounters>>, by_app: bool) -> Table
    decreases rs.len(),
{
    if rs.len() == 0 {
        Seq::empty()
    } else {
        let prev = table_of_records(rs.drop_last(), monitored, by_app);
        let r = rs.last();
        let k = record_key(r, by_app);
        let status = effective_status(r, monitored[rs.len() - 1]);
        group_put(prev, k, count_record(group_totals(prev, k), r, status))
    }
}

/// The table of totals that were grouped already (a later row of the same
/// group replaces an earlier one).
pub open spec fn table_of_rows(rows: Seq<(Seq<char>, TrafficTotals)>) -> Table
    decreases rows.len(),
{
    if rows.len() == 0 {
        Seq::empty()
    } else {
        let prev = table_of_rows(rows.drop_last());
        group_put(prev, rows.last().0, TrafficTotals { active_connections: 0, ..rows.last().1 })
    }
}

/// The table after counting the open connections of the given groups.
pub open spec fn table_with_active(tab: Table, keys: Seq<Seq<char>>) -> Table
    decreases keys.len(),
{
    if keys.len() == 0 {
        tab
    } else {
        let prev = table_with_active(tab, keys.drop_last());
        let k = keys.last();
        let t = group_totals(prev, k);
        group_put(prev, k, TrafficTotals { active_connections: wadd(t.active_connections, 1), ..t })
    }
}

/// `e` inserted into `s` after every group with at least as many requests.
pub open spec fn insert_by_requests(s: Table, e: (Seq<char>, TrafficTotals)) -> Table
    decreases s.len(),
{
    if s.len() == 0 {
        seq![e]
    } else if s.last().1.requests >= e.1.requests {
        s.push(e)
    } else {
        insert_by_requests(s.drop_last(), e).push(s.last())
    }
}

/// The groups with the most requests first; groups with as many requests
/// keep their order (a stable sort).
pub open spec fn by_requests(tab: Table) -> Table
    decreases tab.len(),
{
    if tab.len() == 0 {
        tab
    } else {
        insert_by_requests(by_requests(tab.drop_last()), tab.last())
    }
}

/// The view of a table.
pub open spec fn table_view(v: Seq<(String, TrafficTotals)>) -> Table {
    v.map_values(|e: (String, TrafficTotals)| (e.0@, e.1))
}

/// Position of group `k` in an exec table.
fn find_group(tab: &Vec<(String, TrafficTotals)>, k: &[char]) -> (r: Option<usize>)
    ensures
        match r {
            Some(p) => group_pos(table_view(tab@), k@) == Some(p as int) && p < tab@.len(),
            None => group_pos(table_view(tab@), k@) is None,
        },
{
    reveal(group_pos);
    let ghost v = table_view(tab@);
    let mut i: usize = 0;
    while i < tab.len()
        invariant
            i <= tab@.len(),
            v == table_view(tab@),
            forall|j: int| 0 <= j < i ==> #[trigger] v[j].0 != k@,
        decreases tab@.len() - i,
    {
        let c = str_chars(tab[i].0.as_str());
        if chars_eq(&c, k) {
            proof {
                reveal(group_pos);
                assert(v[i as int].0 == k@);
                let p = choose|p: int| 0 <= p < v.len() && v[p].0 == k@ && forall|j: int| 0 <= j < p ==> #[trigger] v[j].0 != k@;
                if p < i {
                } else if p > i {
                    assert(v[i as int].0 != k@);
                }
            }
            return Some(i);
        }
        i = i + 1;
    }
    None
}

/// The counters of group `k` of an exec table.
fn totals_of(tab: &Vec<(String, TrafficTotals)>, k: &str) -> (t: TrafficTotals)
    ensures
        t == group_totals(table_view(tab@), k@),
{
    let kc = str_chars(k);
    match find_group(tab, &kc) {
        Some(p) => tab[p].1,
        None => TrafficTotals::zero(),
    }
}

/// Replaces the counters of group `k` of an exec table.
fn put_totals(tab: &mut Vec<(String, TrafficTotals)>, k: String, t: TrafficTotals)
    ensures
        table_view(final(tab)@) == group_put(table_view(old(tab)@), k@, t),
{
    let kc = str_chars(k.as_str());
    match find_group(tab, &kc) {
        Some(p) => {
            tab.set(p, (k, t));
            proof {
                assert(table_view(tab@) =~= table_view(old(tab)@).update(p as int, (kc@, t)));
            }
        },
        None => {
            tab.push((k, t));
            proof {
                assert(table_view(tab@) =~= table_view(old(tab)@).push((kc@, t)));
            }
        },
    }
}

/// The counters after one more request of the given protocol.
fn count_protocol_exec(t: TrafficTotals, p: &str) -> (r: TrafficTotals)
    ensures
        r == count_protocol(t, p@),
{
    let pc = str_chars(p);
    let mut r = t;
    if chars_eq_literal(&pc, "http") {
        r.http_requests = t.http_requests.wrapping_add(1);
    } else if chars_eq_literal(&pc, "https") {
        r.https_requests = t.https_requests.wrapping_add(1);
    } else if chars_eq_literal(&pc, "tunnel") {
        r.tunnel_requests = t.tunnel_requests.wrapping_add(1);
    } else if chars_eq_literal(&pc, "ws") {
        r.ws_requests = t.ws_requests.wrapping_add(1);
    } else if chars_eq_literal(&pc, "wss") {
        r.wss_requests = t.wss_requests.wrapping_add(1);
    } else if chars_eq_literal(&pc, "h3") {
        r.h3_requests = t.h3_requests.wrapping_add(1);
    } else if chars_eq_literal(&pc, "socks5") {
        r.socks5_requests = t.socks5_requests.wrapping_add(1);
    }
    r
}

/// Whether the characters spell `lit`.
fn chars_eq_literal(a: &[char], lit: &str) -> (r: bool)
    ensures
        r == (a@ == lit@),
{
    let b = str_chars(lit);
    chars_eq(a, &b)
}

/// The counters after one more record, counted with the given socket counters.
fn count_record_exec(t: TrafficTotals, r: &MetricTraffic, status: Option<SocketCounters>) -> (n: TrafficTotals)
    ensures
        n == count_record(t, r@, status),
{
    let streaming = r.is_websocket || r.is_sse || r.is_tunnel;
    let (sent, received) = match status {
        Some(s) => if streaming {
            (s.send_bytes, s.receive_bytes)
        } else {
            (r.request_size, r.response_size)
        },
        None => (r.request_size, r.response_size),
    };
    let mut n = t;
    n.requests = t.requests.wrapping_add(1);
    n.bytes_sent = t.bytes_sent.wrapping_add(sent);
    n.bytes_received = t.bytes_received.wrapping_add(received);
    count_protocol_exec(n, r.protocol.as_str())
}

/// `"Unknown"`.
fn unknown_name() -> (s: String)
    ensures
        s@ == unknown(),
{
    to_owned_string("Unknown")
}

/// The group of an application name (`"Unknown"` for none).
pub open spec fn app_key(a: Option<Seq<char>>) -> Seq<char> {
    match a {
        Some(x) => x,
        None => unknown(),
    }
}

/// The group of a host name (`"Unknown"` for an empty one).
pub open spec fn host_key(h: Seq<char>) -> Seq<char> {
    if h.len() == 0 {
        unknown()
    } else {
        h
    }
}

/// The group of an application name.
fn app_key_exec(a: &Option<String>) -> (k: String)
    ensures
        k@ == app_key(match a { Some(x) => Some(x@), None => None }),
{
    match a {
        Some(x) => x.clone(),
        None => unknown_name(),
    }
}

/// The group of a host name.
fn host_key_exec(h: &String) -> (k: String)
    ensures
        k@ == host_key(h@),
{
    if h.as_str().is_empty() {
        unknown_name()
    } else {
        h.clone()
    }
}

/// The group of a record.
fn record_key_exec(r: &MetricTraffic, by_app: bool) -> (k: String)
    ensures
        k@ == record_key(r@, by_app),
{
    if by_app {
        app_key_exec(&r.client_app)
    } else {
        host_key_exec(&r.host)
    }
}

/// The table of the recorded exchanges; `monitored[i]` is what the
/// connection monitor reports for record `i`.
pub fn table_from_records(records: &Vec<MetricTraffic>, monitored: &Vec<Option<SocketCounters>>, by_app: bool) -> (tab: Vec<(String, TrafficTotals)>)
    requires
        monitored@.len() == records@.len(),
    ensures
        table_view(tab@) == table_of_records(records@.map_values(|r: MetricTraffic| r@), monitored@, by_app),
{
    let ghost rs = records@.map_values(|r: MetricTraffic| r@);
    let mut tab: Vec<(String, TrafficTotals)> = Vec::new();
    let mut i: usize = 0;
    proof {
        assert(table_view(tab@) =~= Seq::<(Seq<char>, TrafficTotals)>::empty());
        assert(rs.take(0) =~= Seq::<MetricTrafficModel>::empty());
    }
    while i < records.len()
        invariant
            i <= records@.len(),
            monitored@.len() == records@.len(),
            rs == records@.map_values(|r: MetricTraffic| r@),
            table_view(tab@) == table_of_records(rs.take(i as int), monitored@, by_app),
        decreases records@.len() - i,
    {
        proof {
            assert(rs.take(i + 1).drop_last() =~= rs.take(i as int));
            assert(rs.take(i + 1).last() == records@[i as int]@);
        }
        let r = &records[i];
        let k = record_key_exec(r, by_app);
        let status = if (r.is_websocket || r.is_sse || r.is_tunnel) && r.socket_status.is_none() {
            monitored[i]
        } else {
            r.socket_status
        };
        let t = totals_of(&tab, k.as_str());
        let n = count_record_exec(t, r, status);
        put_totals(&mut tab, k, n);
        i = i + 1;
    }
    proof {
        assert(rs.take(i as int) =~= rs);
    }
    tab
}

/// The table of totals that were grouped already.
pub fn table_from_rows(rows: Vec<(String, TrafficTotals)>) -> (tab: Vec<(String, TrafficTotals)>)
    ensures
        table_view(tab@) == table_of_rows(table_view(rows@)),
{
    let ghost rv = table_view(rows@);
    let n = rows.len();
    let mut rest = rows;
    let mut tab: Vec<(String, TrafficTotals)> = Vec::new();
    let mut k: usize = 0;
    proof {
        assert(table_view(tab@) =~= Seq::<(Seq<char>, TrafficTotals)>::empty());
        assert(rv.take(0) =~= Seq::<(Seq<char>, TrafficTotals)>::empty());
        assert(table_view(rest@) =~= rv.skip(0));
    }
    while rest.len() > 0
        invariant
            k <= rv.len(),
            k + rest@.len() == rv.len(),
            rv.len() == n,
            table_view(rest@) == rv.skip(k as int),
            table_view(tab@) == table_of_rows(rv.take(k as int)),
        decreases rest@.len(),
    {
        let ghost before = rest@;
        let (name, totals) = rest.remove(0);
        proof {
            assert(table_view(before)[0] == (name@, totals));
            assert(rv[k as int] == (name@, totals));
            assert(rv.take(k + 1).drop_last() =~= rv.take(k as int));
            assert(rv.take(k + 1).last() == (name@, totals));
            assert forall|j: int| 0 <= j < rest@.len() implies #[trigger] table_view(rest@)[j] == rv.skip(k + 1)[j] by {
                assert(rest@[j] == before[j + 1]);
                assert(table_view(before)[j + 1] == rv.skip(k as int)[j + 1]);
            }
            assert(table_view(rest@) =~= rv.skip(k + 1));
        }
        let mut t = totals;
        t.active_connections = 0;
        put_totals(&mut tab, name, t);
        k = k + 1;
    }
    proof {
        assert(rv.take(k as int) =~= rv);
    }
    tab
}

/// Counts one open connection for each of the given groups.
pub fn add_active_connections(tab: &mut Vec<(String, TrafficTotals)>, keys: &Vec<String>)
    ensures
        table_view(final(tab)@) == table_with_active(table_view(old(tab)@), keys@.map_values(|k: String| k@)),
{
    let ghost t0 = table_view(tab@);
    let ghost kv = keys@.map_values(|k: String| k@);
    let mut i: usize = 0;
    proof {
        assert(kv.take(0) =~= Seq::<Seq<char>>::empty());
    }
    while i < keys.len()
        invariant
            i <= keys@.len(),
            kv == keys@.map_values(|k: String| k@),
            table_view(tab@) == table_with_active(t0, kv.take(i as int)),
        decreases keys@.len() - i,
    {
        proof {
            assert(kv.take(i + 1).drop_last() =~= kv.take(i as int));
            assert(kv.take(i + 1).last() == keys@[i as int]@);
        }
        let t = totals_of(tab, keys[i].as_str());
        let mut n = t;
        n.active_connections = t.active_connections.wrapping_add(1);
        put_totals(tab, keys[i].clone(), n);
        i = i + 1;
    }
    proof {
        assert(kv.take(i as int) =~= kv);
    }
}

/// `insert_by_requests` on a prefix, with the rest after it.
proof fn lemma_insert_by_requests_split(v: Table, e: (Seq<char>, TrafficTotals), p: int)
    requires
        0 < p <= v.len(),
        v[p - 1].1.requests < e.1.requests,
    ensures
        insert_by_requests(v.take(p), e) + v.skip(p) == insert_by_requests(v.take(p - 1), e) + v.skip(p - 1),
{
    let a = v.take(p);
    assert(a.drop_last() =~= v.take(p - 1));
    assert(a.last() == v[p - 1]);
    let b = insert_by_requests(v.take(p - 1), e);
    assert(b.push(v[p - 1]) + v.skip(p) =~= b + v.skip(p - 1));
}

/// Inserts a group after every group with at least as many requests.
fn insert_group_by_requests(out: &mut Vec<(String, TrafficTotals)>, e: (String, TrafficTotals))
    ensures
        table_view(final(out)@) == insert_by_requests(table_view(old(out)@), (e.0@, e.1)),
{
    let ghost v = table_view(out@);
    let ghost ev = (e.0@, e.1);
    let mut p: usize = out.len();
    proof {
        assert(v.take(v.len() as int) =~= v);
        assert(insert_by_requests(v, ev) + v.skip(v.len() as int) =~= insert_by_requests(v, ev));
    }
    while p > 0 && out[p - 1].1.requests < e.1.requests
        invariant
            p <= out@.len(),
            v == table_view(out@),
            ev == (e.0@, e.1),
            insert_by_requests(v, ev) == insert_by_requests(v.take(p as int), ev) + v.skip(p as int),
        decreases p,
    {
        proof {
            assert(v[p - 1].1 == out@[p - 1].1);
            lemma_insert_by_requests_split(v, ev, p as int);
        }
        p = p - 1;
    }
    proof {
        let a = v.take(p as int);
        if p > 0 {
            assert(a.last() == v[p - 1]);
            assert(v[p - 1].1 == out@[p - 1].1);
            assert(insert_by_requests(a, ev) == a.push(ev));
        } else {
            assert(insert_by_requests(a, ev) == seq![ev]);
        }
        assert(insert_by_requests(v, ev) =~= v.insert(p as int, ev));
    }
    out.insert(p, e);
    proof {
        assert(table_view(out@) =~= v.insert(p as int, ev));
    }
}

/// The groups with the most requests first, stably.
fn sort_by_requests(tab: Vec<(String, TrafficTotals)>) -> (r: Vec<(String, TrafficTotals)>)
    ensures
        table_view(r@) == by_requests(table_view(tab@)),
{
    let ghost v = table_view(tab@);
    let n = tab.len();
    let mut rest = tab;
    let mut out: Vec<(String, TrafficTotals)> = Vec::new();
    let mut k: usize = 0;
    proof {
        assert(v.take(0) =~= Seq::<(Seq<char>, TrafficTotals)>::empty());
        assert(table_view(out@) =~= Seq::<(Seq<char>, TrafficTotals)>::empty());
        assert(table_view(rest@) =~= v.skip(0));
    }
    while rest.len() > 0
        invariant
            k <= v.len(),
            k + rest@.len() == v.len(),
            v.len() == n,
            table_view(rest@) == v.skip(k as int),
            table_view(out@) == by_requests(v.take(k as int)),
        decreases rest@.len(),
    {
        let ghost before = rest@;
        let e = rest.remove(0);
        proof {
            assert(table_view(before)[0] == (e.0@, e.1));
            assert(v[k as int] == (e.0@, e.1));
            assert(v.take(k + 1).drop_last() =~= v.take(k as int));
            assert(v.take(k + 1).last() == (e.0@, e.1));
            assert forall|j: int| 0 <= j < rest@.len() implies #[trigger] table_view(rest@)[j] == v.skip(k + 1)[j] by {
                assert(rest@[j] == before[j + 1]);
                assert(table_view(before)[j + 1] == v.skip(k as int)[j + 1]);
            }
            assert(table_view(rest@) =~= v.skip(k + 1));
        }
        insert_group_by_requests(&mut out, e);
        k = k + 1;
    }
    proof {
        assert(v.take(k as int) =~= v);
    }
    out
}

/// What an application's counters say.
pub open spec fn app_row(m: AppMetrics) -> (Seq<char>, TrafficTotals) {
    (m.app_name@, TrafficTotals {
        requests: m.requests,
        active_connections: m.active_connections,
        bytes_sent: m.bytes_sent,
        bytes_received: m.bytes_received,
        http_requests: m.http_requests,
        https_requests: m.https_requests,
        tunnel_requests: m.tunnel_requests,
        ws_requests: m.ws_requests,
        wss_requests: m.wss_requests,
        h3_requests: m.h3_requests,
        socks5_requests: m.socks5_requests,
    })
}

/// What a host's counters say.
pub open spec fn host_row(m: HostMetrics) -> (Seq<char>, TrafficTotals) {
    (m.host@, TrafficTotals {
        requests: m.requests,
        active_connections: m.active_connections,
        bytes_sent: m.bytes_sent,
        bytes_received: m.bytes_received,
        http_requests: m.http_requests,
        https_requests: m.https_requests,
        tunnel_requests: m.tunnel_requests,
        ws_requests: m.ws_requests,
        wss_requests: m.wss_requests,
        h3_requests: m.h3_requests,
        socks5_requests: m.socks5_requests,
    })
}

/// The groups, busiest first, as application counters.
fn app_list(tab: Vec<(String, TrafficTotals)>) -> (r: Vec<AppMetrics>)
    ensures
        r@.map_values(|m: AppMetrics| app_row(m)) == by_requests(table_view(tab@)),
{
    let sorted = sort_by_requests(tab);
    let ghost v = table_view(sorted@);
    let n = sorted.len();
    let mut rest = sorted;
    let mut out: Vec<AppMetrics> = Vec::new();
    let mut k: usize = 0;
    proof {
        assert(table_view(rest@) =~= v.skip(0));
    }
    while rest.len() > 0
        invariant
            k <= v.len(),
            k + rest@.len() == v.len(),
            v.len() == n,
            out@.len() == k,
            table_view(rest@) == v.skip(k as int),
            forall|j: int| 0 <= j < k ==> #[trigger] app_row(out@[j]) == v[j],
        decreases rest@.len(),
    {
        let ghost before = rest@;
        let (name, t) = rest.remove(0);
        proof {
            assert(table_view(before)[0] == (name@, t));
            assert(v[k as int] == (name@, t));
            assert forall|j: int| 0 <= j < rest@.len() implies #[trigger] table_view(rest@)[j] == v.skip(k + 1)[j] by {
                assert(rest@[j] == before[j + 1]);
                assert(table_view(before)[j + 1] == v.skip(k as int)[j + 1]);
            }
            assert(table_view(rest@) =~= v.skip(k + 1));
        }
        out.push(AppMetrics {
            app_name: name,
            requests: t.requests,
            active_connections: t.active_connections,
            bytes_sent: t.bytes_sent,
            bytes_received: t.bytes_received,
            http_requests: t.http_requests,
            https_requests: t.https_requests,
            tunnel_requests: t.tunnel_requests,
            ws_requests: t.ws_requests,
            wss_requests: t.wss_requests,
            h3_requests: t.h3_requests,
            socks5_requests: t.socks5_requests,
        });
        k = k + 1;
    }
    proof {
        assert(out@.map_values(|m: AppMetrics| app_row(m)) =~= v);
    }
    out
}

/// The groups, busiest first, as host counters.
fn host_list(tab: Vec<(String, TrafficTotals)>) -> (r: Vec<HostMetrics>)
    ensures
        r@.map_values(|m: HostMetrics| host_row(m)) == by_requests(table_view(tab@)),
{
    let sorted = sort_by_requests(tab);
    let ghost v = table_view(sorted@);
    let n = sorted.len();
    let mut rest = sorted;
    let mut out: Vec<HostMetrics> = Vec::new();
    let mut k: usize = 0;
    proof {
        assert(table_view(rest@) =~= v.skip(0));
    }
    while rest.len() > 0
        invariant
            k <= v.len(),
            k + rest@.len() == v.len(),
            v.len() == n,
            out@.len() == k,
            table_view(rest@) == v.skip(k as int),
            forall|j: int| 0 <= j < k ==> #[trigger] host_row(out@[j]) == v[j],
        decreases rest@.len(),
    {
        let ghost before = rest@;
        let (name, t) = rest.remove(0);
        proof {
            assert(table_view(before)[0] == (name@, t));
            assert(v[k as int] == (name@, t));
            assert forall|j: int| 0 <= j < rest@.len() implies #[trigger] table_view(rest@)[j] == v.skip(k + 1)[j] by {
                assert(rest@[j] == before[j + 1]);
                assert(table_view(before)[j + 1] == v.skip(k as int)[j + 1]);
            }
            assert(table_view(rest@) =~= v.skip(k + 1));
        }
        out.push(HostMetrics {
            host: name,
            requests: t.requests,
            active_connections: t.active_connections,
            bytes_sent: t.bytes_sent,
            bytes_received: t.bytes_received,
            http_requests: t.http_requests,
            https_requests: t.https_requests,
            tunnel_requests: t.tunnel_requests,
            ws_requests: t.ws_requests,
            wss_requests: t.wss_requests,
            h3_requests: t.h3_requests,
            socks5_requests: t.socks5_requests,
        });
        k = k + 1;
    }
    proof {
        assert(out@.map_values(|m: HostMetrics| host_row(m)) =~= v);
    }
    out
}

/// The groups of the open connections' applications.
fn app_keys(apps: &Vec<Option<String>>) -> (keys: Vec<String>)
    ensures
        keys@.map_values(|k: String| k@) == apps@.map_values(|a: Option<String>| app_key(match a { Some(x) => Some(x@), None => None })),
{
    let mut keys: Vec<String> = Vec::new();
    let mut i: usize = 0;
    while i < apps.len()
        invariant
            i <= apps@.len(),
            keys@.len() == i,
            forall|j: int| 0 <= j < i ==> #[trigger] keys@[j]@ == app_key(match apps@[j] { Some(x) => Some(x@), None => None }),
        decreases apps@.len() - i,
    {
        keys.push(app_key_exec(&apps[i]));
        i = i + 1;
    }
    proof {
        assert(keys@.map_values(|k: String| k@) =~= apps@.map_values(|a: Option<String>| app_key(match a { Some(x) => Some(x@), None => None })));
    }
    keys
}

/// The groups of the open connections' hosts.
fn host_keys(hosts: &Vec<String>) -> (keys: Vec<String>)
    ensures
        keys@.map_values(|k: String| k@) == hosts@.map_values(|h: String| host_key(h@)),
{
    let mut keys: Vec<String> = Vec::new();
    let mut i: usize = 0;
    while i < hosts.len()
        invariant
            i <= hosts@.len(),
            keys@.len() == i,
            forall|j: int| 0 <= j < i ==> #[trigger] keys@[j]@ == host_key(hosts@[j]@),
        decreases hosts@.len() - i,
    {
        keys.push(host_key_exec(&hosts[i]));
        i = i + 1;
    }
    proof {
        assert(keys@.map_values(|k: String| k@) =~= hosts@.map_values(|h: String| host_key(h@)));
    }
    keys
}

/// The views of the recorded exchanges.
pub open spec fn records_view(rs: Seq<MetricTraffic>) -> Seq<MetricTrafficModel> {
    rs.map_values(|r: MetricTraffic| r@)
}

/// The application groups of the open connections.
pub open spec fn active_app_keys(apps: Seq<Option<String>>) -> Seq<Seq<char>> {
    apps.map_values(|a: Option<String>| app_key(match a { Some(x) => Some(x@), None => None }))
}

/// The host groups of the open connections.
pub open spec fn active_host_keys(hosts: Seq<String>) -> Seq<Seq<char>> {
    hosts.map_values(|h: String| host_key(h@))
}

/// Counters per client application from the recorded exchanges
/// (`monitored[i]` is what the connection monitor reports for record `i`)
/// and the applications of the open connections, busiest first.
pub fn app_metrics_from_records(records: &Vec<MetricTraffic>, monitored: &Vec<Option<SocketCounters>>, active_apps: &Vec<Option<String>>) -> (r: Vec<AppMetrics>)
    requires
        monitored@.len() == records@.len(),
    ensures
        r@.map_values(|m: AppMetrics| app_row(m)) == by_requests(table_with_active(table_of_records(records_view(records@), monitored@, true), active_app_keys(active_apps@))),
{
    let mut tab = table_from_records(records, monitored, true);
    let keys = app_keys(active_apps);
    add_active_connections(&mut tab, &keys);
    app_list(tab)
}

/// Counters per client application from totals the traffic database grouped
/// already and the applications of the open connections, busiest first.
pub fn app_metrics_from_rows(rows: Vec<(String, TrafficTotals)>, active_apps: &Vec<Option<String>>) -> (r: Vec<AppMetrics>)
    ensures
        r@.map_values(|m: AppMetrics| app_row(m)) == by_requests(table_with_active(table_of_rows(table_view(rows@)), active_app_keys(active_apps@))),
{
    let mut tab = table_from_rows(rows);
    let keys = app_keys(active_apps);
    add_active_connections(&mut tab, &keys);
    app_list(tab)
}

/// Counters per host from the recorded exchanges and the hosts of the open
/// connections, busiest first.
pub fn host_metrics_from_records(records: &Vec<MetricTraffic>, monitored: &Vec<Option<SocketCounters>>, active_hosts: &Vec<String>) -> (r: Vec<HostMetrics>)
    requires
        monitored@.len() == records@.len(),
    ensures
        r@.map_values(|m: HostMetrics| host_row(m)) == by_requests(table_with_active(table_of_records(records_view(records@), monitored@, false), active_host_keys(active_hosts@))),
{
    let mut tab = table_from_records(records, monitored, false);
    let keys = host_keys(active_hosts);
    add_active_connections(&mut tab, &keys);
    host_list(tab)
}

/// Counters per host from totals the traffic database grouped already and
/// the hosts of the open connections, busiest first.
pub fn host_metrics_from_rows(rows: Vec<(String, TrafficTotals)>, active_hosts: &Vec<String>) -> (r: Vec<HostMetrics>)
    ensures
        r@.map_values(|m: HostMetrics| host_row(m)) == by_requests(table_with_active(table_of_rows(table_view(rows@)), active_host_keys(active_hosts@))),
{
    let mut tab = table_from_rows(rows);
    let keys = host_keys(active_hosts);
    add_active_connections(&mut tab, &keys);
    host_list(tab)
}

// ---------------------------------------------------------------------------
// Laws
// ---------------------------------------------------------------------------

/// No group has more requests than one before it.
pub open spec fn busiest_first(tab: Table) -> bool {
    forall|i: int, j: int| 0 <= i < j < tab.len() ==> (#[trigger] tab[i]).1.requests >= (#[trigger] tab[j]).1.requests
}

/// Inserting keeps a lower bound on the requests, and adds one group.
proof fn lemma_insert_lower_bound(s: Table, e: (Seq<char>, TrafficTotals), lo: u64)
    requires
        forall|i: int| 0 <= i < s.len() ==> (#[trigger] s[i]).1.requests >= lo,
        e.1.requests >= lo,
    ensures
        insert_by_requests(s, e).len() == s.len() + 1,
        forall|i: int| 0 <= i < insert_by_requests(s, e).len() ==> (#[trigger] insert_by_requests(s, e)[i]).1.requests >= lo,
    decreases s.len(),
{
    if s.len() > 0 && s.last().1.requests < e.1.requests {
        lemma_insert_lower_bound(s.drop_last(), e, lo);
    }
}

/// Inserting into a list with the busiest first keeps it so.
proof fn lemma_insert_keeps_order(s: Table, e: (Seq<char>, TrafficTotals))
    requires
        busiest_first(s),
    ensures
        busiest_first(insert_by_requests(s, e)),
        insert_by_requests(s, e).len() == s.len() + 1,
    decreases s.len(),
{
    if s.len() == 0 {
    } else if s.last().1.requests >= e.1.requests {
    } else {
        let d = s.drop_last();
        lemma_insert_keeps_order(d, e);
        let lo = s.last().1.requests;
        assert forall|i: int| 0 <= i < d.len() implies (#[trigger] d[i]).1.requests >= lo by {
            assert(s[i] == d[i]);
            assert(s[s.len() - 1] == s.last());
        }
        lemma_insert_lower_bound(d, e, lo);
        let r = insert_by_requests(d, e).push(s.last());
        assert forall|i: int, j: int| 0 <= i < j < r.len() implies (#[trigger] r[i]).1.requests >= (#[trigger] r[j]).1.requests by {
            if j == r.len() - 1 {
                assert(r[i] == insert_by_requests(d, e)[i]);
            } else {
                assert(r[i] == insert_by_requests(d, e)[i]);
                assert(r[j] == insert_by_requests(d, e)[j]);
            }
        }
    }
}

/// The counters come out with the busiest group first, and with as many
/// groups as were counted.
pub proof fn lemma_by_requests_busiest_first(tab: Table)
    ensures
        busiest_first(by_requests(tab)),
        by_requests(tab).len() == tab.len(),
    decreases tab.len(),
{
    if tab.len() > 0 {
        lemma_by_requests_busiest_first(tab.drop_last());
        lemma_insert_keeps_order(by_requests(tab.drop_last()), tab.last());
    }
}

/// The requests of all groups together.
pub open spec fn total_requests(tab: Table) -> int
    decreases tab.len(),
{
    if tab.len() == 0 {
        0
    } else {
        total_requests(tab.drop_last()) + tab.last().1.requests
    }
}

/// Replacing one group's counters changes the total by the difference.
proof fn lemma_total_update(tab: Table, p: int, e: (Seq<char>, TrafficTotals))
    requires
        0 <= p < tab.len(),
    ensures
        total_requests(tab.update(p, e)) == total_requests(tab) - tab[p].1.requests + e.1.requests,
    decreases tab.len(),
{
    let u = tab.update(p, e);
    if p == tab.len() - 1 {
        assert(u.drop_last() =~= tab.drop_last());
    } else {
        lemma_total_update(tab.drop_last(), p, e);
        assert(u.drop_last() =~= tab.drop_last().update(p, e));
    }
}

/// One group's requests are part of the total.
proof fn lemma_group_le_total(tab: Table, p: int)
    requires
        0 <= p < tab.len(),
    ensures
        tab[p].1.requests <= total_requests(tab),
        total_requests(tab) >= 0,
    decreases tab.len(),
{
    lemma_total_nonneg(tab.drop_last());
    if p < tab.len() - 1 {
        lemma_group_le_total(tab.drop_last(), p);
    }
}

proof fn lemma_total_nonneg(tab: Table)
    ensures
        total_requests(tab) >= 0,
    decreases tab.len(),
{
    if tab.len() > 0 {
        lemma_total_nonneg(tab.drop_last());
    }
}

/// A group that occurs has a first occurrence.
proof fn lemma_first_occurrence(tab: Table, k: Seq<char>, w: int)
    requires
        0 <= w < tab.len(),
        tab[w].0 == k,
    ensures
        exists|i: int| 0 <= i < tab.len() && tab[i].0 == k && forall|j: int| 0 <= j < i ==> #[trigger] tab[j].0 != k,
    decreases w,
{
    if exists|j: int| 0 <= j < w && #[trigger] tab[j].0 == k {
        let j = choose|j: int| 0 <= j < w && #[trigger] tab[j].0 == k;
        lemma_first_occurrence(tab, k, j);
    } else {
        assert(forall|j: int| 0 <= j < w ==> #[trigger] tab[j].0 != k);
    }
}

/// Where a group is found, it is.
proof fn lemma_group_pos_found(tab: Table, k: Seq<char>)
    ensures
        group_pos(tab, k) matches Some(p) ==> 0 <= p < tab.len() && tab[p].0 == k,
{
    reveal(group_pos);
    if exists|i: int| 0 <= i < tab.len() && #[trigger] tab[i].0 == k {
        let w = choose|i: int| 0 <= i < tab.len() && #[trigger] tab[i].0 == k;
        lemma_first_occurrence(tab, k, w);
    }
}

/// Every recorded exchange is counted as exactly one request, in exactly one
/// group (while the count fits in a `u64`).
pub proof fn lemma_each_record_counted_once(rs: Seq<MetricTrafficModel>, monitored: Seq<Option<SocketCounters>>, by_app: bool)
    requires
        rs.len() <= u64::MAX,
    ensures
        total_requests(table_of_records(rs, monitored, by_app)) == rs.len(),
    decreases rs.len(),
{
    if rs.len() > 0 {
        let d = rs.drop_last();
        lemma_each_record_counted_once(d, monitored, by_app);
        let prev = table_of_records(d, monitored, by_app);
        let r = rs.last();
        let k = record_key(r, by_app);
        let t = group_totals(prev, k);
        let status = effective_status(r, monitored[rs.len() - 1]);
        let n = count_record(t, r, status);
        lemma_group_pos_found(prev, k);
        match group_pos(prev, k) {
            Some(p) => {
                lemma_group_le_total(prev, p);
                assert(t.requests + 1 < 0x1_0000_0000_0000_0000);
                assert(wadd(t.requests, 1) == t.requests + 1) by {
                    vstd::arithmetic::div_mod::lemma_small_mod((t.requests + 1) as nat, 0x1_0000_0000_0000_0000nat);
                }
                assert(n.requests == t.requests + 1);
                lemma_total_update(prev, p, (k, n));
            },
            None => {
                assert(wadd(0, 1) == 1) by {
                    vstd::arithmetic::div_mod::lemma_small_mod(1nat, 0x1_0000_0000_0000_0000nat);
                }
                assert(n.requests == 1);
                assert(prev.push((k, n)).drop_last() =~= prev);
            },
        }
    }
}

} // verus!
