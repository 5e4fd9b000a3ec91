//! The live tunnel connections, and which of them a configuration change
//! affects.
use vstd::prelude::*;
use crate::text::{starts_with, ends_with, str_chars, starts_with_str, ends_with_chars, chars_eq, slice_chars};

verus! {

/// A change of the interception configuration.
#[derive(Debug, Clone)]
pub enum ConfigChangeEvent {
    GlobalInterceptionChanged { enabled: bool },
    ExcludeListChanged { added: Vec<String>, removed: Vec<String> },
    IncludeListChanged { added: Vec<String>, removed: Vec<String> },
    RulesChanged,
}

/// A domain pattern covers a host: `*.example.com` covers `example.com` and
/// every host ending in `.example.com`; any other pattern covers only the
/// host it names.
pub open spec fn pattern_covers(pattern: Seq<char>, host: Seq<char>) -> bool {
    if starts_with(pattern, "*."@) {
        ends_with(host, pattern.skip(1)) || host == pattern.skip(2)
    } else {
        pattern == host
    }
}

pub open spec fn domain_matched(host: Seq<char>, patterns: Seq<String>) -> bool {
    exists|i: int| 0 <= i < patterns.len() && pattern_covers(#[trigger] patterns[i]@, host)
}

fn pattern_covers_exec(pattern: &str, host: &[char]) -> (r: bool)
    ensures
        r == pattern_covers(pattern@, host@),
{
    let p = str_chars(pattern);
    if starts_with_str(&p, "*.") {
        proof {
            reveal_strlit("*.");
        }
        let suffix = slice_chars(&p, 1, p.len());
        let bare = slice_chars(&p, 2, p.len());
        assert(suffix@ =~= p@.skip(1));
        assert(bare@ =~= p@.skip(2));
        ends_with_chars(host, &suffix) || chars_eq(host, &bare)
    } else {
        chars_eq(&p, host)
    }
}

/// Whether a host is covered by one of the domain patterns.
pub fn is_domain_matched(host: &str, patterns: &[String]) -> (r: bool)
    ensures
        r == domain_matched(host@, patterns@),
{
    let h = str_chars(host);
    let mut i: usize = 0;
    while i < patterns.len()
        invariant
            i <= patterns@.len(),
            h@ == host@,
            forall|k: int| 0 <= k < i ==> !pattern_covers(#[trigger] patterns@[k]@, host@),
        decreases patterns@.len() - i,
    {
        if pattern_covers_exec(patterns[i].as_str(), &h) {
            return true;
        }
        i = i + 1;
    }
    false
}

/// What the registry knows of a live connection.
#[derive(Debug, Clone)]
pub struct ConnectionSummary {
    pub req_id: String,
    pub host: String,
    pub port: u16,
    pub intercept_mode: bool,
    pub client_app: Option<String>,
}

/// Which connections a change concerns.
#[derive(Debug, Clone)]
pub enum DisconnectCriterion {
    /// Hosts covered by any of the patterns.
    HostPatterns(Vec<String>),
    /// Hosts covered by the pattern, in the given interception mode.
    HostPatternWithMode(String, bool),
    /// Every connection in the given interception mode.
    AllWithMode(bool),
    /// Connections of the named client application.
    App(String),
}

pub open spec fn criterion_holds(c: DisconnectCriterion, conn: ConnectionSummary) -> bool {
    match c {
        DisconnectCriterion::HostPatterns(ps) => domain_matched(conn.host@, ps@),
        DisconnectCriterion::HostPatternWithMode(p, mode) => conn.intercept_mode == mode && pattern_covers(p@, conn.host@),
        DisconnectCriterion::AllWithMode(mode) => conn.intercept_mode == mode,
        DisconnectCriterion::App(a) => conn.client_app matches Some(x) && x@ == a@,
    }
}

/// Whether a connection is affected by a change.
pub fn should_disconnect(criterion: &DisconnectCriterion, conn: &ConnectionSummary) -> (r: bool)
    ensures
        r == criterion_holds(*criterion, *conn),
{
    match criterion {
        DisconnectCriterion::HostPatterns(ps) => is_domain_matched(conn.host.as_str(), ps.as_slice()),
        DisconnectCriterion::HostPatternWithMode(p, mode) => {
            if conn.intercept_mode != *mode {
                return false;
            }
            let h = str_chars(conn.host.as_str());
            pattern_covers_exec(p.as_str(), &h)
        },
        DisconnectCriterion::AllWithMode(mode) => conn.intercept_mode == *mode,
        DisconnectCriterion::App(a) => match &conn.client_app {
            Some(x) => {
                let xc = str_chars(x.as_str());
                let ac = str_chars(a.as_str());
                chars_eq(&xc, &ac)
            },
            None => false,
        },
    }
}

/// The positions of the connections to cancel: none when disconnecting on
/// configuration changes is turned off, else every affected one, in order.
pub fn affected_connections(enabled: bool, conns: &[ConnectionSummary], criterion: &DisconnectCriterion) -> (r: Vec<usize>)
    ensures
        !enabled ==> r@.len() == 0,
        enabled ==> (forall|k: int| 0 <= k < r@.len() ==> r@[k] < conns@.len() && criterion_holds(*criterion, conns@[r@[k] as int])),
        enabled ==> (forall|i: int| 0 <= i < conns@.len() && criterion_holds(*criterion, #[trigger] conns@[i]) ==> r@.contains(i as usize)),
        forall|a: int, b: int| 0 <= a < b < r@.len() ==> r@[a] < r@[b],
{
    let mut r: Vec<usize> = Vec::new();
    if !enabled {
        return r;
    }
    let mut i: usize = 0;
    while i < conns.len()
        invariant
            i <= conns@.len(),
            forall|k: int| 0 <= k < r@.len() ==> r@[k] < i && criterion_holds(*criterion, conns@[r@[k] as int]),
            forall|j: int| 0 <= j < i && criterion_holds(*criterion, #[trigger] conns@[j]) ==> r@.contains(j as usize),
            forall|a: int, b: int| 0 <= a < b < r@.len() ==> r@[a] < r@[b],
        decreases conns@.len() - i,
    {
        if should_disconnect(criterion, &conns[i]) {
            let ghost before = r@;
            r.push(i);
            proof {
                assert forall|j: int| 0 <= j <= i && criterion_holds(*criterion, #[trigger] conns@[j]) implies r@.contains(j as usize) by {
                    if j < i {
                        assert(before.contains(j as usize));
                        let w = choose|w: int| 0 <= w < before.len() && before[w] == j as usize;
                        assert(r@[w] == j as usize);
                    } else {
                        assert(r@[r@.len() - 1] == i);
                    }
                }
            }
        }
        i = i + 1;
    }
    r
}

// ---------------------------------------------------------------------------
// The table of live connections
// ---------------------------------------------------------------------------

/// What the table knows of a connection.
pub struct ConnModel {
    pub req_id: Seq<char>,
    pub host: Seq<char>,
    pub port: u16,
    pub intercept_mode: bool,
    pub client_app: Option<Seq<char>>,
}

/// The view of a connection.
pub open spec fn conn_view(c: ConnectionSummary) -> ConnModel {
    ConnModel {
        req_id: c.req_id@,
        host: c.host@,
        port: c.port,
        intercept_mode: c.intercept_mode,
        client_app: match c.client_app {
            Some(a) => Some(a@),
            None => None,
        },
    }
}

/// The views of a list of connections.
pub open spec fn conns_view(cs: Seq<ConnectionSummary>) -> Seq<ConnModel> {
    cs.map_values(|c: ConnectionSummary| conn_view(c))
}

/// No two connections share a request id.
pub open spec fn ids_unique(cs: Seq<ConnModel>) -> bool {
    forall|i: int, j: int| 0 <= i < cs.len() && 0 <= j < cs.len() && i != j ==> (#[trigger] cs[i]).req_id != (#[trigger] cs[j]).req_id
}

/// The position of the connection with request id `id`.
pub open spec fn conn_pos(cs: Seq<ConnModel>, id: Seq<char>) -> Option<int> {
    if exists|i: int| 0 <= i < cs.len() && #[trigger] cs[i].req_id == id {
        Some(choose|i: int| 0 <= i < cs.len() && #[trigger] cs[i].req_id == id)
    } else {
        None
    }
}

/// The connections after registering `c`: it replaces the connection with
/// its request id, or is added.
pub open spec fn after_register(cs: Seq<ConnModel>, c: ConnModel) -> Seq<ConnModel> {
    match conn_pos(cs, c.req_id) {
        Some(p) => cs.update(p, c),
        None => cs.push(c),
    }
}

/// The connections without those whose request id is listed, in order.
pub open spec fn without_ids(cs: Seq<ConnModel>, ids: Seq<Seq<char>>) -> Seq<ConnModel>
    decreases cs.len(),
{
    if cs.len() == 0 {
        cs
    } else if ids.contains(cs.last().req_id) {
        without_ids(cs.drop_last(), ids)
    } else {
        without_ids(cs.drop_last(), ids).push(cs.last())
    }
}

/// The connections without the one with request id `id`.
pub open spec fn without_id(cs: Seq<ConnModel>, id: Seq<char>) -> Seq<ConnModel> {
    without_ids(cs, seq![id])
}

/// A change concerns a connection.
pub open spec fn criterion_holds_m(c: DisconnectCriterion, m: ConnModel) -> bool {
    match c {
        DisconnectCriterion::HostPatterns(ps) => domain_matched(m.host, ps@),
        DisconnectCriterion::HostPatternWithMode(p, mode) => m.intercept_mode == mode && pattern_covers(p@, m.host),
        DisconnectCriterion::AllWithMode(mode) => m.intercept_mode == mode,
        DisconnectCriterion::App(a) => m.client_app matches Some(x) && x == a@,
    }
}

/// The request ids of the connections a change concerns, in order.
pub open spec fn affected_ids(cs: Seq<ConnModel>, c: DisconnectCriterion) -> Seq<Seq<char>>
    decreases cs.len(),
{
    if cs.len() == 0 {
        Seq::empty()
    } else if criterion_holds_m(c, cs.last()) {
        affected_ids(cs.drop_last(), c).push(cs.last().req_id)
    } else {
        affected_ids(cs.drop_last(), c)
    }
}

/// The live tunnel connections, by request id.
pub struct ConnectionTable {
    conns: Vec<ConnectionSummary>,
    disconnect_on_config_change: bool,
}

impl View for ConnectionTable {
    type V = Seq<ConnModel>;

    closed spec fn view(&self) -> Seq<ConnModel> {
        conns_view(self.conns@)
    }
}

/// A lemma: the view of a list with one element pushed.
proof fn lemma_conns_push(cs: Seq<ConnectionSummary>, c: ConnectionSummary)
    ensures
        conns_view(cs.push(c)) == conns_view(cs).push(conn_view(c)),
{
    assert(conns_view(cs.push(c)) =~= conns_view(cs).push(conn_view(c)));
}

impl ConnectionTable {
    /// The table is well formed: no request id twice.
    pub closed spec fn wf(&self) -> bool {
        ids_unique(self@)
    }

    /// Whether configuration changes disconnect affected connections.
    pub closed spec fn disconnects(&self) -> bool {
        self.disconnect_on_config_change
    }

    /// An empty table.
    pub fn new(disconnect_on_config_change: bool) -> (t: ConnectionTable)
        ensures
            t.wf(),
            t@.len() == 0,
            t.disconnects() == disconnect_on_config_change,
    {
        let t = ConnectionTable { conns: Vec::new(), disconnect_on_config_change };
        proof {
            assert(t@ =~= Seq::<ConnModel>::empty());
        }
        t
    }

    /// Position of the connection with request id `id`.
    fn position(&self, id: &str) -> (r: Option<usize>)
        requires
            self.wf(),
        ensures
            match r {
                Some(p) => p < self@.len() && self@[p as int].req_id == id@ && conn_pos(self@, id@) == Some(p as int),
                None => conn_pos(self@, id@) is None,
            },
    {
        let ghost v = self@;
        let k = str_chars(id);
        let mut i: usize = 0;
        while i < self.conns.len()
            invariant
                i <= self.conns@.len(),
                v == conns_view(self.conns@),
                ids_unique(v),
                k@ == id@,
                forall|j: int| 0 <= j < i ==> #[trigger] v[j].req_id != id@,
            decreases self.conns@.len() - i,
        {
            let c = str_chars(self.conns[i].req_id.as_str());
            proof {
                assert(v[i as int] == conn_view(self.conns@[i as int]));
            }
            if chars_eq(&c, &k) {
                proof {
                    assert(v[i as int].req_id == id@);
                    let w = choose|w: int| 0 <= w < v.len() && #[trigger] v[w].req_id == id@;
                    if w != i {
                        assert(v[w].req_id != v[i as int].req_id);
                    }
                }
                return Some(i);
            }
            i = i + 1;
        }
        None
    }

    /// Registers a connection (replacing one with the same request id).
    pub fn register(&mut self, info: ConnectionSummary)
        requires
            old(self).wf(),
        ensures
            final(self).wf(),
            final(self)@ == after_register(old(self)@, conn_view(info)),
            final(self).disconnects() == old(self).disconnects(),
    {
        let ghost v = self@;
        let ghost m = conn_view(info);
        match self.position(info.req_id.as_str()) {
            Some(p) => {
                self.conns.set(p, info);
                proof {
                    assert(self@ =~= v.update(p as int, m));
                    assert forall|i: int, j: int| 0 <= i < self@.len() && 0 <= j < self@.len() && i != j implies (#[trigger] self@[i]).req_id != (#[trigger] self@[j]).req_id by {
                        if i != p && j != p {
                            assert(v[i].req_id != v[j].req_id);
                        } else if i == p {
                            assert(v[j].req_id != v[p as int].req_id);
                        } else {
                            assert(v[i].req_id != v[p as int].req_id);
                        }
                    }
                }
            },
            None => {
                let ghost old_conns = self.conns@;
                self.conns.push(info);
                proof {
                    lemma_conns_push(old_conns, info);
                    assert forall|i: int| 0 <= i < v.len() implies #[trigger] v[i].req_id != m.req_id by {
                        if v[i].req_id == m.req_id {
                            assert(exists|w: int| 0 <= w < v.len() && #[trigger] v[w].req_id == m.req_id);
                        }
                    }
                    assert forall|i: int, j: int| 0 <= i < self@.len() && 0 <= j < self@.len() && i != j implies (#[trigger] self@[i]).req_id != (#[trigger] self@[j]).req_id by {
                        if i < v.len() && j < v.len() {
                            assert(v[i].req_id != v[j].req_id);
                        }
                    }
                }
            },
        }
    }

    /// Forgets the connection with request id `id` (nothing when there is none).
    pub fn unregister(&mut self, id: &str)
        requires
            old(self).wf(),
        ensures
            final(self).wf(),
            final(self)@ == without_id(old(self)@, id@),
            final(self).disconnects() == old(self).disconnects(),
    {
        let ghost v = self@;
        match self.position(id) {
            Some(p) => {
                let ghost old_conns = self.conns@;
                self.conns.remove(p);
                proof {
                    assert(self@ =~= v.remove(p as int));
                    lemma_filter_remove_unique(v, id@, p as int);
                }
            },
            None => {
                proof {
                    assert forall|i: int| 0 <= i < v.len() implies #[trigger] v[i].req_id != id@ by {
                        if v[i].req_id == id@ {
                            assert(exists|w: int| 0 <= w < v.len() && #[trigger] v[w].req_id == id@);
                        }
                    }
                    lemma_filter_all(v, id@);
                }
            },
        }
    }

    /// Sets the client application of the connection with request id `id`.
    pub fn update_client_app(&mut self, id: &str, client_app: String)
        requires
            old(self).wf(),
        ensures
            final(self).wf(),
            final(self).disconnects() == old(self).disconnects(),
            final(self)@ == (match conn_pos(old(self)@, id@) {
                Some(p) => old(self)@.update(p, ConnModel { client_app: Some(client_app@), ..old(self)@[p] }),
                None => old(self)@,
            }),
    {
        let ghost v = self@;
        match self.position(id) {
            Some(p) => {
                let c = &self.conns[p];
                let updated = ConnectionSummary {
                    req_id: c.req_id.clone(),
                    host: c.host.clone(),
                    port: c.port,
                    intercept_mode: c.intercept_mode,
                    client_app: Some(client_app),
                };
                self.conns.set(p, updated);
                proof {
                    assert(self@ =~= v.update(p as int, ConnModel { client_app: Some(client_app@), ..v[p as int] }));
                    assert forall|i: int, j: int| 0 <= i < self@.len() && 0 <= j < self@.len() && i != j implies (#[trigger] self@[i]).req_id != (#[trigger] self@[j]).req_id by {
                        assert(v[i].req_id != v[j].req_id);
                    }
                }
            },
            None => {},
        }
    }

    /// The number of live connections.
    pub fn active_count(&self) -> (n: usize)
        ensures
            n == self@.len(),
    {
        self.conns.len()
    }

    /// Whether configuration changes disconnect affected connections.
    pub fn is_disconnect_enabled(&self) -> (b: bool)
        ensures
            b == self.disconnects(),
    {
        self.disconnect_on_config_change
    }

    /// The connections, as request id, host, port, interception mode and
    /// client application.
    pub fn list_connections_full(&self) -> (r: Vec<ConnectionSummary>)
        ensures
            conns_view(r@) == self@,
    {
        let mut out: Vec<ConnectionSummary> = Vec::new();
        let mut i: usize = 0;
        while i < self.conns.len()
            invariant
                i <= self.conns@.len(),
                out@.len() == i,
                forall|k: int| 0 <= k < i ==> conn_view(#[trigger] out@[k]) == conn_view(self.conns@[k]),
            decreases self.conns@.len() - i,
        {
            let c = &self.conns[i];
            out.push(ConnectionSummary {
                req_id: c.req_id.clone(),
                host: c.host.clone(),
                port: c.port,
                intercept_mode: c.intercept_mode,
                client_app: match &c.client_app {
                    Some(a) => Some(a.clone()),
                    None => None,
                },
            });
            i = i + 1;
        }
        proof {
            assert(conns_view(out@) =~= self@);
        }
        out
    }

    /// The connections, as request id, host, port and interception mode.
    pub fn list_connections(&self) -> (r: Vec<(String, String, u16, bool)>)
        ensures
            r@.len() == self@.len(),
            forall|k: int| 0 <= k < r@.len() ==> (#[trigger] r@[k]).0@ == self@[k].req_id && r@[k].1@ == self@[k].host
                && r@[k].2 == self@[k].port && r@[k].3 == self@[k].intercept_mode,
    {
        let full = self.list_connections_full();
        let mut out: Vec<(String, String, u16, bool)> = Vec::new();
        let mut i: usize = 0;
        while i < full.len()
            invariant
                i <= full@.len(),
                conns_view(full@) == self@,
                out@.len() == i,
                forall|k: int| 0 <= k < i ==> (#[trigger] out@[k]).0@ == self@[k].req_id && out@[k].1@ == self@[k].host
                    && out@[k].2 == self@[k].port && out@[k].3 == self@[k].intercept_mode,
            decreases full@.len() - i,
        {
            let c = &full[i];
            proof {
                assert(self@[i as int] == conn_view(full@[i as int]));
            }
            out.push((c.req_id.clone(), c.host.clone(), c.port, c.intercept_mode));
            i = i + 1;
        }
        out
    }

    /// The request ids of the connections a change concerns: none when
    /// configuration changes do not disconnect.
    pub fn affected(&self, criterion: &DisconnectCriterion) -> (r: Vec<String>)
        ensures
            !self.disconnects() ==> r@.len() == 0,
            self.disconnects() ==> crate::text::strings_view(r@) == affected_ids(self@, *criterion),
    {
        let mut out: Vec<String> = Vec::new();
        if !self.disconnect_on_config_change {
            return out;
        }
        let ghost v = self@;
        let mut i: usize = 0;
        proof {
            assert(v.take(0) =~= Seq::<ConnModel>::empty());
            assert(crate::text::strings_view(out@) =~= Seq::<Seq<char>>::empty());
            assert(affected_ids(v.take(0), *criterion) =~= Seq::<Seq<char>>::empty());
        }
        while i < self.conns.len()
            invariant
                i <= self.conns@.len(),
                v == conns_view(self.conns@),
                crate::text::strings_view(out@) == affected_ids(v.take(i as int), *criterion),
            decreases self.conns@.len() - i,
        {
            let ghost pre = v.take(i as int);
            proof {
                assert(v.take(i + 1) =~= pre.push(v[i as int]));
                lemma_affected_push(pre, v[i as int], *criterion);
            }
            if should_disconnect(criterion, &self.conns[i]) {
                let ghost ob = out@;
                out.push(self.conns[i].req_id.clone());
                proof {
                    assert(crate::text::strings_view(out@) =~= crate::text::strings_view(ob).push(v[i as int].req_id));
                }
            }
            i = i + 1;
        }
        proof {
            assert(v.take(i as int) =~= v);
        }
        out
    }

    /// Forgets the connections whose request ids are listed (those that
    /// were cancelled); returns how many were forgotten.
    pub fn remove_disconnected(&mut self, ids: &Vec<String>)
        requires
            old(self).wf(),
        ensures
            final(self).wf(),
            final(self)@ == without_ids(old(self)@, crate::text::strings_view(ids@)),
            final(self).disconnects() == old(self).disconnects(),
    {
        let ghost v = self@;
        let ghost iv = crate::text::strings_view(ids@);
        let mut kept: Vec<ConnectionSummary> = Vec::new();
        let n = self.conns.len();
        let mut i: usize = 0;
        proof {
            assert(v.take(0) =~= Seq::<ConnModel>::empty());
            assert(conns_view(kept@) =~= Seq::<ConnModel>::empty());
            assert(without_ids(v.take(0), iv) =~= Seq::<ConnModel>::empty());
        }
        while i < self.conns.len()
            invariant
                i <= self.conns@.len(),
                v == conns_view(self.conns@),
                iv == crate::text::strings_view(ids@),
                conns_view(kept@) == without_ids(v.take(i as int), iv),
            decreases self.conns@.len() - i,
        {
            let ghost pre = v.take(i as int);
            proof {
                assert(v.take(i + 1) =~= pre.push(v[i as int]));
                lemma_without_ids_push(pre, v[i as int], iv);
            }
            if !crate::text::strings_contain(ids, self.conns[i].req_id.as_str()) {
                let c = &self.conns[i];
                let ghost kb = kept@;
                let copy = ConnectionSummary {
                    req_id: c.req_id.clone(),
                    host: c.host.clone(),
                    port: c.port,
                    intercept_mode: c.intercept_mode,
                    client_app: match &c.client_app {
                        Some(a) => Some(a.clone()),
                        None => None,
                    },
                };
                kept.push(copy);
                proof {
                    lemma_conns_push(kb, copy);
                }
            }
            i = i + 1;
        }
        proof {
            assert(v.take(i as int) =~= v);
            lemma_without_ids_unique(v, iv);
        }
        self.conns = kept;
    }
}

/// `affected_ids` over a list with one more connection.
proof fn lemma_affected_push(cs: Seq<ConnModel>, m: ConnModel, c: DisconnectCriterion)
    ensures
        affected_ids(cs.push(m), c) == if criterion_holds_m(c, m) { affected_ids(cs, c).push(m.req_id) } else { affected_ids(cs, c) },
{
    assert(cs.push(m).drop_last() =~= cs);
}

/// `without_ids` over a list with one more connection.
proof fn lemma_without_ids_push(cs: Seq<ConnModel>, m: ConnModel, ids: Seq<Seq<char>>)
    ensures
        without_ids(cs.push(m), ids) == if !ids.contains(m.req_id) { without_ids(cs, ids).push(m) } else { without_ids(cs, ids) },
{
    assert(cs.push(m).drop_last() =~= cs);
}

/// What `without_ids` keeps comes from the list.
proof fn lemma_without_ids_from(cs: Seq<ConnModel>, ids: Seq<Seq<char>>)
    ensures
        forall|k: int| 0 <= k < without_ids(cs, ids).len() ==> cs.contains(#[trigger] without_ids(cs, ids)[k]),
        without_ids(cs, ids).len() <= cs.len(),
    decreases cs.len(),
{
    if cs.len() > 0 {
        let d = cs.drop_last();
        lemma_without_ids_from(d, ids);
        let w = without_ids(cs, ids);
        assert forall|k: int| 0 <= k < w.len() implies cs.contains(#[trigger] w[k]) by {
            let wd = without_ids(d, ids);
            if k < wd.len() {
                assert(w[k] == wd[k]);
                assert(d.contains(wd[k]));
                let j = choose|j: int| 0 <= j < d.len() && d[j] == wd[k];
                assert(cs[j] == d[j]);
            } else {
                assert(w[k] == cs.last());
                assert(cs[cs.len() - 1] == cs.last());
            }
        }
    }
}

/// Dropping connections keeps request ids unique.
proof fn lemma_without_ids_unique(cs: Seq<ConnModel>, ids: Seq<Seq<char>>)
    requires
        ids_unique(cs),
    ensures
        ids_unique(without_ids(cs, ids)),
    decreases cs.len(),
{
    if cs.len() > 0 {
        let d = cs.drop_last();
        assert(ids_unique(d)) by {
            assert forall|i: int, j: int| 0 <= i < d.len() && 0 <= j < d.len() && i != j implies (#[trigger] d[i]).req_id != (#[trigger] d[j]).req_id by {
                assert(d[i] == cs[i] && d[j] == cs[j]);
            }
        }
        lemma_without_ids_unique(d, ids);
        lemma_without_ids_from(d, ids);
        let wd = without_ids(d, ids);
        if !ids.contains(cs.last().req_id) {
            let r = wd.push(cs.last());
            assert forall|k: int| 0 <= k < wd.len() implies (#[trigger] wd[k]).req_id != cs.last().req_id by {
                assert(d.contains(wd[k]));
                let j = choose|j: int| 0 <= j < d.len() && d[j] == wd[k];
                assert(cs[j] == d[j]);
                assert(cs[cs.len() - 1] == cs.last());
            }
            assert forall|i: int, j: int| 0 <= i < r.len() && 0 <= j < r.len() && i != j implies (#[trigger] r[i]).req_id != (#[trigger] r[j]).req_id by {
                if i < wd.len() && j < wd.len() {
                    assert(r[i] == wd[i] && r[j] == wd[j]);
                } else if i < wd.len() {
                    assert(r[i] == wd[i]);
                } else {
                    assert(r[j] == wd[j]);
                }
            }
        }
    }
}

/// Removing the only connection with an id is dropping that id.
proof fn lemma_filter_remove_unique(cs: Seq<ConnModel>, id: Seq<char>, p: int)
    requires
        ids_unique(cs),
        0 <= p < cs.len(),
        cs[p].req_id == id,
    ensures
        cs.remove(p) == without_id(cs, id),
        ids_unique(cs.remove(p)),
    decreases cs.len(),
{
    let d = cs.drop_last();
    let ids = seq![id];
    assert(ids_unique(d)) by {
        assert forall|i: int, j: int| 0 <= i < d.len() && 0 <= j < d.len() && i != j implies (#[trigger] d[i]).req_id != (#[trigger] d[j]).req_id by {
            assert(d[i] == cs[i] && d[j] == cs[j]);
        }
    }
    if p == cs.len() - 1 {
        assert(cs.remove(p) =~= d);
        assert(ids.contains(cs.last().req_id)) by {
            assert(ids[0] == id);
        }
        assert forall|i: int| 0 <= i < d.len() implies #[trigger] d[i].req_id != id by {
            assert(cs[i].req_id != cs[p].req_id);
        }
        lemma_filter_all(d, id);
    } else {
        lemma_filter_remove_unique(d, id, p);
        assert(cs.last().req_id != id) by {
            assert(cs[cs.len() - 1].req_id != cs[p].req_id);
        }
        assert(!ids.contains(cs.last().req_id)) by {
            if ids.contains(cs.last().req_id) {
                let j = choose|j: int| 0 <= j < ids.len() && ids[j] == cs.last().req_id;
            }
        }
        assert(cs.remove(p) =~= d.remove(p).push(cs.last()));
    }
    lemma_without_ids_unique(cs, ids);
}

/// Dropping an id no connection has changes nothing.
proof fn lemma_filter_all(cs: Seq<ConnModel>, id: Seq<char>)
    requires
        forall|i: int| 0 <= i < cs.len() ==> #[trigger] cs[i].req_id != id,
    ensures
        without_id(cs, id) == cs,
    decreases cs.len(),
{
    if cs.len() > 0 {
        let d = cs.drop_last();
        assert forall|i: int| 0 <= i < d.len() implies #[trigger] d[i].req_id != id by {
            assert(d[i] == cs[i]);
        }
        lemma_filter_all(d, id);
        assert(!seq![id].contains(cs.last().req_id)) by {
            assert(cs[cs.len() - 1].req_id != id);
            if seq![id].contains(cs.last().req_id) {
                let j = choose|j: int| 0 <= j < 1 && seq![id][j] == cs.last().req_id;
            }
        }
        assert(d.push(cs.last()) =~= cs);
    }
}

/// What `without_ids` keeps: exactly the connections whose id is not listed.
pub proof fn lemma_without_ids_exact(cs: Seq<ConnModel>, ids: Seq<Seq<char>>)
    ensures
        forall|k: int| 0 <= k < without_ids(cs, ids).len() ==> !ids.contains(#[trigger] without_ids(cs, ids)[k].req_id),
        forall|i: int| 0 <= i < cs.len() && !ids.contains(#[trigger] cs[i].req_id) ==> without_ids(cs, ids).contains(cs[i]),
    decreases cs.len(),
{
    if cs.len() > 0 {
        let d = cs.drop_last();
        lemma_without_ids_exact(d, ids);
        let wd = without_ids(d, ids);
        let w = without_ids(cs, ids);
        assert forall|k: int| 0 <= k < w.len() implies !ids.contains(#[trigger] w[k].req_id) by {
            if k < wd.len() {
                assert(w[k] == wd[k]);
            }
        }
        assert forall|i: int| 0 <= i < cs.len() && !ids.contains(#[trigger] cs[i].req_id) implies w.contains(cs[i]) by {
            if i < d.len() {
                assert(cs[i] == d[i]);
                assert(wd.contains(d[i]));
                let j = choose|j: int| 0 <= j < wd.len() && wd[j] == d[i];
                assert(w[j] == wd[j]);
            } else {
                assert(cs[i] == cs.last());
                assert(w[w.len() - 1] == cs.last());
            }
        }
    }
}

/// Disconnecting forgets exactly the cancelled connections: none of the
/// listed ids is left, and every other connection stays.
pub proof fn lemma_disconnect_forgets_exactly(cs: Seq<ConnModel>, ids: Seq<Seq<char>>)
    ensures
        forall|k: int| 0 <= k < without_ids(cs, ids).len() ==> !ids.contains(#[trigger] without_ids(cs, ids)[k].req_id),
        forall|i: int| 0 <= i < cs.len() && !ids.contains(#[trigger] cs[i].req_id) ==> without_ids(cs, ids).contains(cs[i]),
        forall|k: int| 0 <= k < without_ids(cs, ids).len() ==> cs.contains(#[trigger] without_ids(cs, ids)[k]),
{
    lemma_without_ids_exact(cs, ids);
    lemma_without_ids_from(cs, ids);
}

/// The request ids of the connections.
pub open spec fn req_ids(cs: Seq<ConnModel>) -> Seq<Seq<char>>
    decreases cs.len(),
{
    if cs.len() == 0 { Seq::empty() } else { req_ids(cs.drop_last()).push(cs.last().req_id) }
}

proof fn lemma_req_ids_index(cs: Seq<ConnModel>)
    ensures
        req_ids(cs).len() == cs.len(),
        forall|i: int| 0 <= i < cs.len() ==> #[trigger] req_ids(cs)[i] == cs[i].req_id,
    decreases cs.len(),
{
    if cs.len() > 0 {
        lemma_req_ids_index(cs.drop_last());
        assert forall|i: int| 0 <= i < cs.len() implies #[trigger] req_ids(cs)[i] == cs[i].req_id by {
            if i < cs.len() - 1 {
                assert(cs[i] == cs.drop_last()[i]);
            }
        }
    }
}

/// Listing an id that no connection has changes nothing removed.
proof fn lemma_without_ids_absent(cs: Seq<ConnModel>, ids: Seq<Seq<char>>, j: int)
    requires
        0 <= j < ids.len(),
        forall|i: int| 0 <= i < cs.len() ==> (#[trigger] cs[i]).req_id != ids[j],
    ensures
        without_ids(cs, ids) == without_ids(cs, ids.remove(j)),
    decreases cs.len(),
{
    if cs.len() > 0 {
        let d = cs.drop_last();
        assert forall|i: int| 0 <= i < d.len() implies (#[trigger] d[i]).req_id != ids[j] by {
            assert(d[i] == cs[i]);
        }
        lemma_without_ids_absent(d, ids, j);
        let x = cs.last().req_id;
        assert(cs[cs.len() - 1] == cs.last());
        if ids.contains(x) {
            let k = choose|k: int| 0 <= k < ids.len() && ids[k] == x;
            assert(k != j);
            if k < j {
                assert(ids.remove(j)[k] == x);
            } else {
                assert(ids.remove(j)[k - 1] == x);
            }
        }
        if ids.remove(j).contains(x) {
            let k = choose|k: int| 0 <= k < ids.remove(j).len() && ids.remove(j)[k] == x;
            if k < j {
                assert(ids[k] == x);
            } else {
                assert(ids[k + 1] == x);
            }
        }
    }
}

proof fn lemma_without_ids_count(cs: Seq<ConnModel>, done: Seq<Seq<char>>)
    requires
        ids_unique(cs),
        done.no_duplicates(),
        forall|x: Seq<char>| done.contains(x) ==> req_ids(cs).contains(x),
    ensures
        without_ids(cs, done).len() + done.len() == cs.len(),
    decreases cs.len(),
{
    lemma_req_ids_index(cs);
    if cs.len() == 0 {
        if done.len() > 0 {
            assert(done.contains(done[0]));
        }
    } else {
        let d = cs.drop_last();
        let l = cs.last();
        lemma_req_ids_index(d);
        assert(cs[cs.len() - 1] == l);
        assert forall|i: int, k: int| 0 <= i < d.len() && 0 <= k < d.len() && i != k implies (#[trigger] d[i]).req_id != (#[trigger] d[k]).req_id by {
            assert(d[i] == cs[i] && d[k] == cs[k]);
        }
        assert forall|i: int| 0 <= i < d.len() implies (#[trigger] d[i]).req_id != l.req_id by {
            assert(d[i] == cs[i]);
        }
        if done.contains(l.req_id) {
            let j = choose|j: int| 0 <= j < done.len() && done[j] == l.req_id;
            let done2 = done.remove(j);
            assert forall|x: Seq<char>| done2.contains(x) implies req_ids(d).contains(x) by {
                let k = choose|k: int| 0 <= k < done2.len() && done2[k] == x;
                let kk = if k < j { k } else { k + 1 };
                assert(done[kk] == x);
                assert(kk != j);
                assert(x != l.req_id);
                assert(done.contains(x));
                assert(req_ids(cs).contains(x));
                let i = choose|i: int| 0 <= i < req_ids(cs).len() && req_ids(cs)[i] == x;
                assert(i < d.len());
                assert(req_ids(d)[i] == x);
            }
            assert forall|a: int, b: int| 0 <= a < done2.len() && 0 <= b < done2.len() && a != b implies done2[a] != done2[b] by {
                let aa = if a < j { a } else { a + 1 };
                let bb = if b < j { b } else { b + 1 };
                assert(done2[a] == done[aa] && done2[b] == done[bb]);
            }
            lemma_without_ids_count(d, done2);
            lemma_without_ids_absent(d, done, j);
        } else {
            assert forall|x: Seq<char>| done.contains(x) implies req_ids(d).contains(x) by {
                let i = choose|i: int| 0 <= i < req_ids(cs).len() && req_ids(cs)[i] == x;
                assert(i < d.len());
                assert(req_ids(d)[i] == x);
            }
            lemma_without_ids_count(d, done);
        }
    }
}

/// Disconnecting affected connections: when some of the affected ids
/// (those whose cancellation went through, each once) are removed, exactly
/// those connections go, every other stays, and the table shrinks by their
/// number.
pub proof fn lemma_disconnect_affected(cs: Seq<ConnModel>, c: DisconnectCriterion, done: Seq<Seq<char>>)
    requires
        ids_unique(cs),
        done.no_duplicates(),
        forall|x: Seq<char>| done.contains(x) ==> affected_ids(cs, c).contains(x),
    ensures
        without_ids(cs, done).len() == cs.len() - done.len(),
        forall|k: int| 0 <= k < without_ids(cs, done).len() ==> !done.contains(#[trigger] without_ids(cs, done)[k].req_id),
        forall|i: int| 0 <= i < cs.len() && !done.contains(#[trigger] cs[i].req_id) ==> without_ids(cs, done).contains(cs[i]),
{
    lemma_affected_are_ids(cs, c);
    lemma_without_ids_count(cs, done);
    lemma_without_ids_exact(cs, done);
}

proof fn lemma_affected_are_ids(cs: Seq<ConnModel>, c: DisconnectCriterion)
    ensures
        forall|x: Seq<char>| #[trigger] affected_ids(cs, c).contains(x) ==> req_ids(cs).contains(x),
    decreases cs.len(),
{
    if cs.len() > 0 {
        let d = cs.drop_last();
        lemma_affected_are_ids(d, c);
        lemma_req_ids_index(cs);
        lemma_req_ids_index(d);
        assert forall|x: Seq<char>| #[trigger] affected_ids(cs, c).contains(x) implies req_ids(cs).contains(x) by {
            let a = affected_ids(cs, c);
            let k = choose|k: int| 0 <= k < a.len() && a[k] == x;
            if criterion_holds_m(c, cs.last()) && k == a.len() - 1 {
                assert(req_ids(cs)[cs.len() - 1] == x);
            } else {
                assert(affected_ids(d, c)[k] == x);
                assert(affected_ids(d, c).contains(x));
                let i = choose|i: int| 0 <= i < req_ids(d).len() && req_ids(d)[i] == x;
                assert(req_ids(cs)[i] == x);
            }
        }
    }
}

/// After unregistering an id, no connection has it, and the others stay.
pub proof fn lemma_unregister_forgets(cs: Seq<ConnModel>, id: Seq<char>)
    ensures
        forall|k: int| 0 <= k < without_id(cs, id).len() ==> (#[trigger] without_id(cs, id)[k]).req_id != id,
        forall|i: int| 0 <= i < cs.len() && (#[trigger] cs[i]).req_id != id ==> without_id(cs, id).contains(cs[i]),
{
    let ids = seq![id];
    lemma_without_ids_exact(cs, ids);
    assert forall|k: int| 0 <= k < without_id(cs, id).len() implies (#[trigger] without_id(cs, id)[k]).req_id != id by {
        if without_id(cs, id)[k].req_id == id {
            assert(ids[0] == id);
            assert(ids.contains(without_ids(cs, ids)[k].req_id));
        }
    }
    assert forall|i: int| 0 <= i < cs.len() && (#[trigger] cs[i]).req_id != id implies without_id(cs, id).contains(cs[i]) by {
        if ids.contains(cs[i].req_id) {
            let j = choose|j: int| 0 <= j < ids.len() && ids[j] == cs[i].req_id;
        }
    }
}

/// A registered connection is in the table as registered; the table grows
/// by one exactly when its request id is new.
pub proof fn lemma_register_then_listed(cs: Seq<ConnModel>, c: ConnModel)
    ensures
        after_register(cs, c).contains(c),
        after_register(cs, c).len() == cs.len() + (if conn_pos(cs, c.req_id) is None { 1int } else { 0int }),
{
    match conn_pos(cs, c.req_id) {
        Some(p) => {
            assert(0 <= p < cs.len());
            assert(after_register(cs, c)[p] == c);
        },
        None => {
            assert(after_register(cs, c)[cs.len() as int] == c);
        },
    }
}

/// A pattern that does not begin with `*.` covers a host exactly when the
/// host is the pattern itself: no other host, whatever it ends with.
pub proof fn lemma_plain_pattern_exact(pattern: Seq<char>, host: Seq<char>)
    requires
        !(pattern.len() >= 2 && pattern[0] == '*' && pattern[1] == '.'),
    ensures
        pattern_covers(pattern, host) <==> pattern == host,
{
    reveal_strlit("*.");
    if starts_with(pattern, "*."@) {
        assert(pattern[0] == pattern.subrange(0, 2)[0]);
        assert(pattern[1] == pattern.subrange(0, 2)[1]);
    }
}

/// `*.` followed by a domain covers the domain itself and every host that
/// ends in a dot followed by the domain, and nothing else.
pub proof fn lemma_wildcard_pattern(domain: Seq<char>, host: Seq<char>)
    ensures
        pattern_covers(seq!['*', '.'] + domain, host) <==> (host == domain || (host.len()
            > domain.len() && host.subrange(host.len() - domain.len() - 1, host.len() as int)
            == seq!['.'] + domain)),
{
    reveal_strlit("*.");
    let p = seq!['*', '.'] + domain;
    assert(p.subrange(0, 2) =~= "*."@);
    assert(p.skip(2) =~= domain);
    assert(p.skip(1) =~= seq!['.'] + domain);
}

/// With patterns none of which begins with `*.`, a host is matched exactly
/// when it is one of the patterns.
pub proof fn lemma_plain_patterns_match_exactly(host: Seq<char>, patterns: Seq<String>)
    requires
        forall|i: int|
            0 <= i < patterns.len() ==> !(#[trigger] patterns[i]@.len() >= 2 && patterns[i]@[0]
                == '*' && patterns[i]@[1] == '.'),
    ensures
        domain_matched(host, patterns) <==> exists|i: int| 0 <= i < patterns.len() && #[trigger] patterns[i]@ == host,
{
    assert forall|i: int| 0 <= i < patterns.len() implies (pattern_covers(#[trigger] patterns[i]@, host) <==> patterns[i]@ == host) by {
        lemma_plain_pattern_exact(patterns[i]@, host);
    }
}

} // verus!
