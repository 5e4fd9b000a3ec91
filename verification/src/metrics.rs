//! Traffic counters, by kind of traffic, and the bounded history of
//! metric snapshots.
use vstd::prelude::*;
use crate::text::to_owned_string;

verus! {

/// Kinds of proxied traffic.
#[derive(Debug, Clone, Copy, PartialEq, Eq, Structural)]
pub enum TrafficType {
    Http,
    Https,
    Tunnel,
    Ws,
    Wss,
    H3,
    Socks5,
}

/// Counters of one kind of traffic.
#[derive(Debug, Clone, Copy, PartialEq, Eq, Structural)]
pub struct TrafficTypeMetrics {
    pub requests: u64,
    pub bytes_sent: u64,
    pub bytes_received: u64,
    pub active_connections: u64,
}

impl TrafficTypeMetrics {
    pub fn default() -> (m: TrafficTypeMetrics)
        ensures
            m == (TrafficTypeMetrics { requests: 0, bytes_sent: 0, bytes_received: 0, active_connections: 0 }),
    {
        TrafficTypeMetrics { requests: 0, bytes_sent: 0, bytes_received: 0, active_connections: 0 }
    }
}

/// The running counters of one kind of traffic (they wrap around on overflow).
#[derive(Debug, Clone, Copy, PartialEq, Eq, Structural)]
pub struct TrafficTypeCounters {
    pub requests: u64,
    pub bytes_sent: u64,
    pub bytes_received: u64,
    pub active_connections: u64,
}

pub open spec fn zero_counters() -> TrafficTypeCounters {
    TrafficTypeCounters { requests: 0, bytes_sent: 0, bytes_received: 0, active_connections: 0 }
}

impl TrafficTypeCounters {
    pub fn new() -> (c: TrafficTypeCounters)
        ensures
            c == zero_counters(),
    {
        TrafficTypeCounters { requests: 0, bytes_sent: 0, bytes_received: 0, active_connections: 0 }
    }

    /// The counters as reported.
    pub fn to_metrics(&self) -> (m: TrafficTypeMetrics)
        ensures
            m.requests == self.requests,
            m.bytes_sent == self.bytes_sent,
            m.bytes_received == self.bytes_received,
            m.active_connections == self.active_connections,
    {
        TrafficTypeMetrics {
            requests: self.requests,
            bytes_sent: self.bytes_sent,
            bytes_received: self.bytes_received,
            active_connections: self.active_connections,
        }
    }
}

pub open spec fn wadd(a: u64, b: u64) -> u64 {
    ((a + b) % 0x1_0000_0000_0000_0000) as u64
}

pub open spec fn wsub(a: u64, b: u64) -> u64 {
    ((a - b + 0x1_0000_0000_0000_0000) % 0x1_0000_0000_0000_0000) as u64
}

/// The proxy's traffic counters: totals and per kind.
#[derive(Debug, Clone, Copy)]
pub struct MetricsCounters {
    pub total_requests: u64,
    pub active_connections: u64,
    pub bytes_sent: u64,
    pub bytes_received: u64,
    pub http: TrafficTypeCounters,
    pub https: TrafficTypeCounters,
    pub tunnel: TrafficTypeCounters,
    pub ws: TrafficTypeCounters,
    pub wss: TrafficTypeCounters,
    pub h3: TrafficTypeCounters,
    pub socks5: TrafficTypeCounters,
}

impl MetricsCounters {
    pub open spec fn of(&self, t: TrafficType) -> TrafficTypeCounters {
        match t {
            TrafficType::Http => self.http,
            TrafficType::Https => self.https,
            TrafficType::Tunnel => self.tunnel,
            TrafficType::Ws => self.ws,
            TrafficType::Wss => self.wss,
            TrafficType::H3 => self.h3,
            TrafficType::Socks5 => self.socks5,
        }
    }

    /// The other kinds' counters are as in `old`.
    pub open spec fn others_unchanged(&self, old: MetricsCounters, t: TrafficType) -> bool {
        forall|u: TrafficType| u != t ==> self.of(u) == old.of(u)
    }

    pub fn new() -> (m: MetricsCounters)
        ensures
            m.total_requests == 0 && m.active_connections == 0 && m.bytes_sent == 0 && m.bytes_received == 0,
            forall|t: TrafficType| m.of(t) == zero_counters(),
    {
        MetricsCounters {
            total_requests: 0,
            active_connections: 0,
            bytes_sent: 0,
            bytes_received: 0,
            http: TrafficTypeCounters::new(),
            https: TrafficTypeCounters::new(),
            tunnel: TrafficTypeCounters::new(),
            ws: TrafficTypeCounters::new(),
            wss: TrafficTypeCounters::new(),
            h3: TrafficTypeCounters::new(),
            socks5: TrafficTypeCounters::new(),
        }
    }

    fn counters_mut(&mut self, t: TrafficType) -> (c: &mut TrafficTypeCounters)
        ensures
            *c == old(self).of(t),
            final(self).of(t) == *final(c),
            final(self).others_unchanged(*old(self), t),
            final(self).total_requests == old(self).total_requests,
            final(self).active_connections == old(self).active_connections,
            final(self).bytes_sent == old(self).bytes_sent,
            final(self).bytes_received == old(self).bytes_received,
    {
        match t {
            TrafficType::Http => &mut self.http,
            TrafficType::Https => &mut self.https,
            TrafficType::Tunnel => &mut self.tunnel,
            TrafficType::Ws => &mut self.ws,
            TrafficType::Wss => &mut self.wss,
            TrafficType::H3 => &mut self.h3,
            TrafficType::Socks5 => &mut self.socks5,
        }
    }

    /// The counters of one kind.
    pub fn get_counters(&self, t: TrafficType) -> (c: TrafficTypeCounters)
        ensures
            c == self.of(t),
    {
        match t {
            TrafficType::Http => self.http,
            TrafficType::Https => self.https,
            TrafficType::Tunnel => self.tunnel,
            TrafficType::Ws => self.ws,
            TrafficType::Wss => self.wss,
            TrafficType::H3 => self.h3,
            TrafficType::Socks5 => self.socks5,
        }
    }

    pub fn increment_requests(&mut self)
        ensures
            final(self).total_requests == wadd(old(self).total_requests, 1),
            final(self).active_connections == old(self).active_connections,
            final(self).bytes_sent == old(self).bytes_sent,
            final(self).bytes_received == old(self).bytes_received,
            forall|t: TrafficType| final(self).of(t) == old(self).of(t),
    {
        self.total_requests = self.total_requests.wrapping_add(1);
    }

    pub fn increment_requests_by_type(&mut self, t: TrafficType)
        ensures
            final(self).total_requests == wadd(old(self).total_requests, 1),
            final(self).of(t).requests == wadd(old(self).of(t).requests, 1),
            final(self).of(t).bytes_sent == old(self).of(t).bytes_sent,
            final(self).of(t).bytes_received == old(self).of(t).bytes_received,
            final(self).of(t).active_connections == old(self).of(t).active_connections,
            final(self).others_unchanged(*old(self), t),
            final(self).active_connections == old(self).active_connections,
            final(self).bytes_sent == old(self).bytes_sent,
            final(self).bytes_received == old(self).bytes_received,
    {
        self.total_requests = self.total_requests.wrapping_add(1);
        let c = self.counters_mut(t);
        c.requests = c.requests.wrapping_add(1);
    }

    pub fn increment_connections(&mut self)
        ensures
            final(self).active_connections == wadd(old(self).active_connections, 1),
            final(self).total_requests == old(self).total_requests,
            final(self).bytes_sent == old(self).bytes_sent,
            final(self).bytes_received == old(self).bytes_received,
            forall|t: TrafficType| final(self).of(t) == old(self).of(t),
    {
        self.active_connections = self.active_connections.wrapping_add(1);
    }

    pub fn increment_connections_by_type(&mut self, t: TrafficType)
        ensures
            final(self).active_connections == wadd(old(self).active_connections, 1),
            final(self).of(t).active_connections == wadd(old(self).of(t).active_connections, 1),
            final(self).of(t).requests == old(self).of(t).requests,
            final(self).of(t).bytes_sent == old(self).of(t).bytes_sent,
            final(self).of(t).bytes_received == old(self).of(t).bytes_received,
            final(self).others_unchanged(*old(self), t),
            final(self).total_requests == old(self).total_requests,
            final(self).bytes_sent == old(self).bytes_sent,
            final(self).bytes_received == old(self).bytes_received,
    {
        self.active_connections = self.active_connections.wrapping_add(1);
        let c = self.counters_mut(t);
        c.active_connections = c.active_connections.wrapping_add(1);
    }

    pub fn decrement_connections(&mut self)
        ensures
            final(self).active_connections == wsub(old(self).active_connections, 1),
            final(self).total_requests == old(self).total_requests,
            final(self).bytes_sent == old(self).bytes_sent,
            final(self).bytes_received == old(self).bytes_received,
            forall|t: TrafficType| final(self).of(t) == old(self).of(t),
    {
        self.active_connections = self.active_connections.wrapping_sub(1);
    }

    pub fn decrement_connections_by_type(&mut self, t: TrafficType)
        ensures
            final(self).active_connections == wsub(old(self).active_connections, 1),
            final(self).of(t).active_connections == wsub(old(self).of(t).active_connections, 1),
            final(self).of(t).requests == old(self).of(t).requests,
            final(self).of(t).bytes_sent == old(self).of(t).bytes_sent,
            final(self).of(t).bytes_received == old(self).of(t).bytes_received,
            final(self).others_unchanged(*old(self), t),
            final(self).total_requests == old(self).total_requests,
            final(self).bytes_sent == old(self).bytes_sent,
            final(self).bytes_received == old(self).bytes_received,
    {
        self.active_connections = self.active_connections.wrapping_sub(1);
        let c = self.counters_mut(t);
        c.active_connections = c.active_connections.wrapping_sub(1);
    }

    pub fn add_bytes_sent(&mut self, bytes: u64)
        ensures
            final(self).bytes_sent == wadd(old(self).bytes_sent, bytes),
            final(self).total_requests == old(self).total_requests,
            final(self).active_connections == old(self).active_connections,
            final(self).bytes_received == old(self).bytes_received,
            forall|t: TrafficType| final(self).of(t) == old(self).of(t),
    {
        self.bytes_sent = self.bytes_sent.wrapping_add(bytes);
    }

    pub fn add_bytes_sent_by_type(&mut self, t: TrafficType, bytes: u64)
        ensures
            final(self).bytes_sent == wadd(old(self).bytes_sent, bytes),
            final(self).of(t).bytes_sent == wadd(old(self).of(t).bytes_sent, bytes),
            final(self).of(t).requests == old(self).of(t).requests,
            final(self).of(t).bytes_received == old(self).of(t).bytes_received,
            final(self).of(t).active_connections == old(self).of(t).active_connections,
            final(self).others_unchanged(*old(self), t),
            final(self).total_requests == old(self).total_requests,
            final(self).active_connections == old(self).active_connections,
            final(self).bytes_received == old(self).bytes_received,
    {
        self.bytes_sent = self.bytes_sent.wrapping_add(bytes);
        let c = self.counters_mut(t);
        c.bytes_sent = c.bytes_sent.wrapping_add(bytes);
    }

    pub fn add_bytes_received(&mut self, bytes: u64)
        ensures
            final(self).bytes_received == wadd(old(self).bytes_received, bytes),
            final(self).total_requests == old(self).total_requests,
            final(self).active_connections == old(self).active_connections,
            final(self).bytes_sent == old(self).bytes_sent,
            forall|t: TrafficType| final(self).of(t) == old(self).of(t),
    {
        self.bytes_received = self.bytes_received.wrapping_add(bytes);
    }

    pub fn add_bytes_received_by_type(&mut self, t: TrafficType, bytes: u64)
        ensures
            final(self).bytes_received == wadd(old(self).bytes_received, bytes),
            final(self).of(t).bytes_received == wadd(old(self).of(t).bytes_received, bytes),
            final(self).of(t).requests == old(self).of(t).requests,
            final(self).of(t).bytes_sent == old(self).of(t).bytes_sent,
            final(self).of(t).active_connections == old(self).of(t).active_connections,
            final(self).others_unchanged(*old(self), t),
            final(self).total_requests == old(self).total_requests,
            final(self).active_connections == old(self).active_connections,
            final(self).bytes_sent == old(self).bytes_sent,
    {
        self.bytes_received = self.bytes_received.wrapping_add(bytes);
        let c = self.counters_mut(t);
        c.bytes_received = c.bytes_received.wrapping_add(bytes);
    }

    pub fn get_total_requests(&self) -> (n: u64)
        ensures
            n == self.total_requests,
    {
        self.total_requests
    }

    pub fn get_active_connections(&self) -> (n: u64)
        ensures
            n == self.active_connections,
    {
        self.active_connections
    }
}

/// Opening and then closing a connection of a kind leaves every counter as
/// it was.
pub proof fn lemma_connection_open_close(a: u64)
    ensures
        wsub(wadd(a, 1), 1) == a,
{
}

// ---------------------------------------------------------------------------
// History
// ---------------------------------------------------------------------------

/// The most recent snapshots, oldest first, at most `max_history` of them.
pub struct BoundedHistory<T> {
    items: Vec<T>,
    max_history: usize,
}

impl<T> BoundedHistory<T> {
    pub closed spec fn view_items(&self) -> Seq<T> {
        self.items@
    }

    pub closed spec fn capacity(&self) -> nat {
        self.max_history as nat
    }

    pub fn new(max_history: usize) -> (h: BoundedHistory<T>)
        ensures
            h.view_items() == Seq::<T>::empty(),
            h.capacity() == max_history,
    {
        BoundedHistory { items: Vec::new(), max_history }
    }

    /// Appends a snapshot; when the history is full the oldest one goes.
    pub fn push(&mut self, item: T)
        ensures
            final(self).capacity() == old(self).capacity(),
            final(self).view_items() == push_step(old(self).view_items(), old(self).capacity(), item),
    {
        if self.items.len() >= self.max_history && self.items.len() > 0 {
            self.items.remove(0);
        }
        self.items.push(item);
    }

    pub fn len(&self) -> (n: usize)
        ensures
            n == self.view_items().len(),
    {
        self.items.len()
    }

    pub fn get(&self, i: usize) -> (r: &T)
        requires
            i < self.view_items().len(),
        ensures
            *r == self.view_items()[i as int],
    {
        &self.items[i]
    }
}

/// The history after one push: full, the oldest entry goes first.
pub open spec fn push_step<T>(items: Seq<T>, cap: nat, x: T) -> Seq<T> {
    if items.len() >= cap && items.len() > 0 {
        items.drop_first().push(x)
    } else {
        items.push(x)
    }
}

/// The history after pushing `xs` in order.
pub open spec fn pushed_all<T>(items: Seq<T>, cap: nat, xs: Seq<T>) -> Seq<T>
    decreases xs.len(),
{
    if xs.len() == 0 {
        items
    } else {
        push_step(pushed_all(items, cap, xs.drop_last()), cap, xs.last())
    }
}

/// A history of capacity at least one, filled from empty with `xs`, holds
/// the newest `min(|xs|, capacity)` of them, oldest first, so its last entry
/// is the last one pushed.
pub proof fn lemma_history_keeps_newest<T>(cap: nat, xs: Seq<T>)
    requires
        cap >= 1,
    ensures
        pushed_all(Seq::<T>::empty(), cap, xs) == xs.skip(if xs.len() > cap { xs.len() - cap } else { 0 }),
        pushed_all(Seq::<T>::empty(), cap, xs).len() == if xs.len() > cap { cap } else { xs.len() },
        xs.len() > 0 ==> pushed_all(Seq::<T>::empty(), cap, xs).last() == xs.last(),
    decreases xs.len(),
{
    if xs.len() == 0 {
        assert(xs.skip(0) =~= Seq::<T>::empty());
    } else {
        let ys = xs.drop_last();
        lemma_history_keeps_newest(cap, ys);
        let s0: int = if ys.len() > cap { ys.len() - cap } else { 0 };
        let p = pushed_all(Seq::<T>::empty(), cap, ys);
        assert(p == ys.skip(s0));
        if p.len() >= cap && p.len() > 0 {
            assert(p.drop_first().push(xs.last()) =~= xs.skip(s0 + 1));
        } else {
            assert(p.push(xs.last()) =~= xs.skip(s0));
        }
    }
}

/// Which positions of a history of `len` entries a query returns: with a
/// limit, the newest `limit` entries, newest first; without, all of them,
/// oldest first.
pub fn history_positions(len: usize, limit: Option<usize>) -> (r: Vec<usize>)
    ensures
        match limit {
            Some(n) => r@.len() == (if n <= len { n } else { len }) && forall|k: int| 0 <= k < r@.len() ==> r@[k] == len - 1 - k,
            None => r@.len() == len && forall|k: int| 0 <= k < r@.len() ==> r@[k] == k,
        },
{
    let mut r: Vec<usize> = Vec::new();
    match limit {
        Some(n) => {
            let count = if n <= len { n } else { len };
            let mut k: usize = 0;
            while k < count
                invariant
                    count <= len,
                    k <= count,
                    r@.len() == k,
                    forall|j: int| 0 <= j < k ==> r@[j] == len - 1 - j,
                decreases count - k,
            {
                r.push(len - 1 - k);
                k = k + 1;
            }
        },
        None => {
            let mut k: usize = 0;
            while k < len
                invariant
                    k <= len,
                    r@.len() == k,
                    forall|j: int| 0 <= j < k ==> r@[j] == j,
                decreases len - k,
            {
                r.push(k);
                k = k + 1;
            }
        },
    }
    r
}

/// Whether the live rates are recomputed: at least 500 ms after the last time.
pub fn should_update_realtime(now_ms: u64, last_ms: u64) -> (b: bool)
    ensures
        b == (now_ms >= last_ms && now_ms - last_ms >= 500),
{
    now_ms.saturating_sub(last_ms) >= 500
}

/// Facts about the running process.
#[derive(Debug, Clone)]
pub struct SystemInfo {
    pub version: String,
    pub rust_version: String,
    pub os: String,
    pub arch: String,
    pub uptime_secs: u64,
    pub pid: u32,
}

impl SystemInfo {
    /// The process facts, with uptime measured from `start_time` to `now` (seconds).
    pub fn new(start_time: u64, now: u64, version: String, rust_version: String, os: String, arch: String, pid: u32) -> (s: SystemInfo)
        ensures
            s.uptime_secs == if now >= start_time { (now - start_time) as u64 } else { 0 },
            s.version == version && s.rust_version == rust_version && s.os == os && s.arch == arch && s.pid == pid,
    {
        SystemInfo { version, rust_version, os, arch, uptime_secs: now.saturating_sub(start_time), pid }
    }
}

/// The compiler version the program was built with, `unknown` when not recorded.
pub fn rustc_version(recorded: Option<&str>) -> (s: String)
    ensures
        match recorded {
            Some(v) => s@ == v@,
            None => s@ == "unknown"@,
        },
{
    match recorded {
        Some(v) => to_owned_string(v),
        None => to_owned_string("unknown"),
    }
}

} // verus!
