//! Push channels to the admin web interface: which clients are connected
//! under which client key, which keys are kept when too many connect, what
//! each client subscribes to, and the decisions taken when updates are sent.
use vstd::prelude::*;
use crate::keyed::{find_key, has_key};
use crate::text::{
    to_owned_string, str_chars, chars_eq, chars_eq_str, split, split_chars, split_once,
    split_once_chars, string_from_chars, parse_unsigned, parse_usize_chars, push_decimal, decimal,
};
use crate::codec::{percent_decoded, url_decode};
use crate::search::TrafficSummaryCompact;

verus! {

/// Capacity of a client's message queue.
pub const PUSH_CHANNEL_CAPACITY: usize = 64;
/// Most traffic identifiers a client may ask to follow.
pub const MAX_SUBSCRIBED_IDS: usize = 500;
/// Most client keys with open channels; the least recently registered key
/// beyond this loses its channels.
pub const MAX_CLIENT_CHANNELS: usize = 3;
/// Longest traffic identifier accepted in a subscription.
pub const MAX_ID_LEN: usize = 256;
/// Bounds of the metrics interval a client may ask for.
pub const METRICS_INTERVAL_MIN_MS: u64 = 200;
pub const METRICS_INTERVAL_MAX_MS: u64 = 5000;

// ---------------------------------------------------------------------------
// Channels by client key
// ---------------------------------------------------------------------------

/// A client key with the identifiers of its open channels.
pub type Bucket = (Seq<char>, Seq<u64>);

/// The view of an exec bucket list.
pub open spec fn buckets_view(v: Seq<(String, Vec<u64>)>) -> Seq<Bucket> {
    v.map_values(|e: (String, Vec<u64>)| (e.0@, e.1@))
}

/// No key occurs twice.
pub open spec fn bucket_keys_unique(m: Seq<Bucket>) -> bool {
    forall|i: int, j: int| 0 <= i < m.len() && 0 <= j < m.len() && i != j ==> m[i].0 != m[j].0
}

/// Every bucket holds at least one channel.
pub open spec fn buckets_nonempty(m: Seq<Bucket>) -> bool {
    forall|i: int| 0 <= i < m.len() ==> #[trigger] m[i].1.len() > 0
}

/// No channel identifier occurs twice, and all are below `next`.
pub open spec fn ids_fresh_below(m: Seq<Bucket>, next: u64) -> bool {
    &&& forall|i1: int, j1: int, i2: int, j2: int|
        0 <= i1 < m.len() && 0 <= i2 < m.len() && 0 <= j1 < m[i1].1.len() && 0 <= j2 < m[i2].1.len()
            && (i1 != i2 || j1 != j2) ==> #[trigger] m[i1].1[j1] != #[trigger] m[i2].1[j2]
    &&& forall|i: int, j: int| 0 <= i < m.len() && 0 <= j < m[i].1.len() ==> #[trigger] m[i].1[j] < next
}

/// The consistency of the channel table.
pub open spec fn channels_wf(m: Seq<Bucket>, next: u64) -> bool {
    &&& bucket_keys_unique(m)
    &&& buckets_nonempty(m)
    &&& ids_fresh_below(m, next)
}

/// The key occurs in the table.
pub open spec fn has_bucket(m: Seq<Bucket>, key: Seq<char>) -> bool {
    exists|i: int| 0 <= i < m.len() && #[trigger] m[i].0 == key
}

/// Its position.
pub open spec fn bucket_pos(m: Seq<Bucket>, key: Seq<char>) -> int {
    choose|i: int| 0 <= i < m.len() && #[trigger] m[i].0 == key
}

/// The table after a channel `id` opens under `key`, before eviction: the
/// key's bucket, with `id` added, becomes the most recent (last).
pub open spec fn touched(m: Seq<Bucket>, key: Seq<char>, id: u64) -> Seq<Bucket> {
    if has_bucket(m, key) {
        let i = bucket_pos(m, key);
        m.remove(i).push((key, m[i].1.push(id)))
    } else {
        m.push((key, seq![id]))
    }
}

/// How many of the oldest keys go when `n` keys are held.
pub open spec fn evict_count(n: nat) -> nat {
    if n > MAX_CLIENT_CHANNELS {
        (n - MAX_CLIENT_CHANNELS) as nat
    } else {
        0
    }
}

/// The identifiers of a list of buckets, in order.
pub open spec fn flatten(m: Seq<Bucket>) -> Seq<u64>
    decreases m.len(),
{
    if m.len() == 0 {
        Seq::empty()
    } else {
        flatten(m.drop_last()) + m.last().1
    }
}

/// The table after registering channel `id` under `key`.
pub open spec fn after_register(m: Seq<Bucket>, key: Seq<char>, id: u64) -> Seq<Bucket> {
    let t = touched(m, key, id);
    t.skip(evict_count(t.len()) as int)
}

/// The channels closed by registering `id` under `key`: those of the
/// evicted keys, oldest key first.
pub open spec fn evicted_by_register(m: Seq<Bucket>, key: Seq<char>, id: u64) -> Seq<u64> {
    let t = touched(m, key, id);
    flatten(t.take(evict_count(t.len()) as int))
}

/// Channel `id` is open.
pub open spec fn has_channel(m: Seq<Bucket>, id: u64) -> bool {
    exists|p: (int, int)| 0 <= p.0 < m.len() && 0 <= p.1 < m[p.0].1.len() && #[trigger] m[p.0].1[p.1] == id
}

/// Where channel `id` is.
pub open spec fn channel_pos(m: Seq<Bucket>, id: u64) -> (int, int) {
    choose|p: (int, int)| 0 <= p.0 < m.len() && 0 <= p.1 < m[p.0].1.len() && #[trigger] m[p.0].1[p.1] == id
}

/// The table after channel `id` closes: it leaves its bucket, and a bucket
/// left empty goes with its key. Other keys keep their order.
pub open spec fn after_unregister(m: Seq<Bucket>, id: u64) -> Seq<Bucket> {
    if has_channel(m, id) {
        let p = channel_pos(m, id);
        let b = m[p.0].1.remove(p.1);
        if b.len() == 0 {
            m.remove(p.0)
        } else {
            m.update(p.0, (m[p.0].0, b))
        }
    } else {
        m
    }
}

/// Open channels under client keys, the least recently registered key first.
pub struct PushManager {
    buckets: Vec<(String, Vec<u64>)>,
    next_id: u64,
}

/// What registering a channel gives: its identifier and the channels closed
/// to make room.
pub struct Registration {
    pub client_id: u64,
    pub evicted: Vec<u64>,
}

impl PushManager {
    /// The buckets, least recent first.
    pub closed spec fn channels(&self) -> Seq<Bucket> {
        buckets_view(self.buckets@)
    }

    /// The identifier the next channel gets.
    pub closed spec fn next_id(&self) -> u64 {
        self.next_id
    }

    /// The table is consistent.
    pub closed spec fn wf(&self) -> bool {
        channels_wf(self.channels(), self.next_id)
    }

    /// No channels; identifiers start at 1.
    pub fn new() -> (p: PushManager)
        ensures
            p.wf(),
            p.channels().len() == 0,
            p.next_id() == 1,
    {
        let p = PushManager { buckets: Vec::new(), next_id: 1 };
        proof {
            assert(p.channels() =~= Seq::<Bucket>::empty());
        }
        p
    }

    /// A fresh channel identifier.
    fn generate_client_id(&mut self) -> (id: u64)
        requires
            old(self).next_id < u64::MAX,
        ensures
            id == old(self).next_id,
            final(self).next_id == old(self).next_id + 1,
            final(self).buckets == old(self).buckets,
    {
        let id = self.next_id;
        self.next_id = self.next_id + 1;
        id
    }

    /// Registers a channel under `client_key`. The key becomes the most
    /// recent; beyond `MAX_CLIENT_CHANNELS` keys, the least recent keys lose
    /// their channels, which are returned so that they can be told to
    /// disconnect.
    pub fn register_client(&mut self, client_key: &str) -> (r: Registration)
        requires
            old(self).wf(),
            old(self).next_id() < u64::MAX,
        ensures
            final(self).wf(),
            r.client_id == old(self).next_id(),
            final(self).next_id() == old(self).next_id() + 1,
            final(self).channels() == after_register(old(self).channels(), client_key@, r.client_id),
            r.evicted@ == evicted_by_register(old(self).channels(), client_key@, r.client_id),
    {
        let ghost m = self.channels();
        let id = self.generate_client_id();
        proof {
            lemma_touched_wf(m, client_key@, id);
        }
        match find_key(&self.buckets, client_key) {
            Some(i) => {
                proof {
                    assert(m[i as int] == (self.buckets@[i as int].0@, self.buckets@[i as int].1@));
                    lemma_bucket_pos(m, client_key@, i as int);
                }
                let (k, mut ids) = self.buckets.remove(i);
                ids.push(id);
                self.buckets.push((k, ids));
                proof {
                    let t = touched(m, client_key@, id);
                    assert(self.channels() =~= t) by {
                        assert forall|a: int| 0 <= a < t.len() implies #[trigger] self.channels()[a] == t[a] by {
                            if a < i {
                                assert(self.channels()[a] == (old(self).buckets@[a].0@, old(self).buckets@[a].1@));
                            } else if a < t.len() - 1 {
                                assert(self.channels()[a] == (old(self).buckets@[a + 1].0@, old(self).buckets@[a + 1].1@));
                            }
                        }
                    }
                }
            },
            None => {
                proof {
                    if has_bucket(m, client_key@) {
                        let j = choose|j: int| 0 <= j < m.len() && #[trigger] m[j].0 == client_key@;
                        assert(self.buckets@[j].0@ == client_key@);
                        assert(has_key(self.buckets@, client_key@));
                    }
                }
                let k = to_owned_string(client_key);
                let mut ids: Vec<u64> = Vec::new();
                ids.push(id);
                self.buckets.push((k, ids));
                proof {
                    let t = touched(m, client_key@, id);
                    assert(self.channels() =~= t) by {
                        assert forall|a: int| 0 <= a < t.len() implies #[trigger] self.channels()[a] == t[a] by {
                            if a < m.len() {
                                assert(self.channels()[a] == (old(self).buckets@[a].0@, old(self).buckets@[a].1@));
                            } else {
                                assert(ids@ =~= seq![id]);
                            }
                        }
                    }
                }
            },
        }
        let ghost t = self.channels();
        assert(t == touched(m, client_key@, id));
        let mut evicted: Vec<u64> = Vec::new();
        let ghost mut j: int = 0;
        proof {
            assert(t.take(0) =~= Seq::<Bucket>::empty());
            assert(t.skip(0) =~= t);
        }
        while self.buckets.len() > MAX_CLIENT_CHANNELS
            invariant
                0 <= j <= t.len(),
                self.channels() == t.skip(j),
                evicted@ == flatten(t.take(j)),
                j <= evict_count(t.len()),
                self.buckets@.len() + j == t.len(),
                self.next_id == id + 1,
                channels_wf(t, (id + 1) as u64),
            decreases self.buckets@.len(),
        {
            let ghost before = self.channels();
            let (_, ids) = self.buckets.remove(0);
            let mut q: usize = 0;
            let ghost ev0 = evicted@;
            while q < ids.len()
                invariant
                    q <= ids@.len(),
                    evicted@ == ev0 + ids@.take(q as int),
                decreases ids@.len() - q,
            {
                evicted.push(ids[q]);
                q = q + 1;
                proof {
                    assert(ids@.take(q as int) =~= ids@.take(q - 1).push(ids@[q - 1]));
                }
            }
            proof {
                assert(ids@.take(q as int) =~= ids@);
                assert(before[0] == t[j]);
                assert(t.take(j + 1).drop_last() =~= t.take(j));
                assert(t.take(j + 1).last() == t[j]);
                assert(self.channels() =~= t.skip(j + 1)) by {
                    assert forall|a: int| 0 <= a < t.len() - (j + 1) implies #[trigger] self.channels()[a] == t.skip(j + 1)[a] by {
                        assert(self.channels()[a] == before[a + 1]);
                    }
                }
                j = j + 1;
            }
        }
        proof {
            assert(j == evict_count(t.len()));
            lemma_skip_wf(t, j, self.next_id);
        }
        Registration { client_id: id, evicted }
    }

    /// Closes channel `client_id`. Returns whether it was open.
    pub fn unregister_client(&mut self, client_id: u64) -> (found: bool)
        requires
            old(self).wf(),
        ensures
            final(self).wf(),
            final(self).next_id() == old(self).next_id(),
            found == has_channel(old(self).channels(), client_id),
            final(self).channels() == after_unregister(old(self).channels(), client_id),
    {
        let ghost m = self.channels();
        let mut i: usize = 0;
        while i < self.buckets.len()
            invariant
                i <= self.buckets@.len(),
                m == self.channels(),
                self.channels().len() == self.buckets@.len(),
                forall|a: int, b: int| 0 <= a < i && 0 <= b < m[a].1.len() ==> #[trigger] m[a].1[b] != client_id,
                old(self).buckets == self.buckets,
                old(self).next_id == self.next_id,
                channels_wf(m, self.next_id),
            decreases self.buckets@.len() - i,
        {
            let mut j: usize = 0;
            while j < self.buckets[i].1.len()
                invariant
                    i < self.buckets@.len(),
                    j <= self.buckets@[i as int].1@.len(),
                    m == self.channels(),
                    self.channels().len() == self.buckets@.len(),
                    m[i as int].1 == self.buckets@[i as int].1@,
                    forall|b: int| 0 <= b < j ==> #[trigger] m[i as int].1[b] != client_id,
                    old(self).buckets == self.buckets,
                    old(self).next_id == self.next_id,
                    channels_wf(m, self.next_id),
                decreases self.buckets@[i as int].1@.len() - j,
            {
                if self.buckets[i].1[j] == client_id {
                    proof {
                        lemma_channel_pos(m, self.next_id, client_id, i as int, j as int);
                    }
                    let n = self.buckets[i].1.len();
                    if n == 1 {
                        self.buckets.remove(i);
                        proof {
                            let want = after_unregister(m, client_id);
                            assert(self.channels() =~= want) by {
                                assert forall|a: int| 0 <= a < want.len() implies #[trigger] self.channels()[a] == want[a] by {
                                    if a < i {
                                        assert(self.channels()[a] == (old(self).buckets@[a].0@, old(self).buckets@[a].1@));
                                    } else {
                                        assert(self.channels()[a] == (old(self).buckets@[a + 1].0@, old(self).buckets@[a + 1].1@));
                                    }
                                }
                            }
                            lemma_unregister_wf(m, self.next_id, client_id);
                        }
                    } else {
                        let k = self.buckets[i].0.clone();
                        let mut rest: Vec<u64> = Vec::new();
                        let mut q: usize = 0;
                        while q < n
                            invariant
                                n == self.buckets@[i as int].1@.len(),
                                i < self.buckets@.len(),
                                j < n,
                                q <= n,
                                rest@ == self.buckets@[i as int].1@.remove(j as int).take(if q <= j { q as int } else { q - 1 }),
                            decreases n - q,
                        {
                            if q != j {
                                rest.push(self.buckets[i].1[q]);
                            }
                            proof {
                                let s = self.buckets@[i as int].1@.remove(j as int);
                                let q2: int = if q + 1 <= j { q + 1 } else { q as int };
                                let q1: int = if q <= j { q as int } else { q - 1 };
                                if q != j {
                                    assert(s.take(q2) =~= s.take(q1).push(self.buckets@[i as int].1@[q as int]));
                                } else {
                                    assert(q2 == q1);
                                }
                            }
                            q = q + 1;
                        }
                        proof {
                            assert(rest@ =~= self.buckets@[i as int].1@.remove(j as int));
                        }
                        self.buckets.set(i, (k, rest));
                        proof {
                            let want = after_unregister(m, client_id);
                            assert(self.channels() =~= want) by {
                                assert forall|a: int| 0 <= a < want.len() implies #[trigger] self.channels()[a] == want[a] by {
                                    if a != i {
                                        assert(self.channels()[a] == (old(self).buckets@[a].0@, old(self).buckets@[a].1@));
                                    }
                                }
                            }
                            lemma_unregister_wf(m, self.next_id, client_id);
                        }
                    }
                    return true;
                }
                j = j + 1;
            }
            i = i + 1;
        }
        proof {
            if has_channel(m, client_id) {
                let p = choose|p: (int, int)| 0 <= p.0 < m.len() && 0 <= p.1 < m[p.0].1.len() && #[trigger] m[p.0].1[p.1] == client_id;
                assert(m[p.0].1[p.1] != client_id);
            }
        }
        false
    }

    /// Number of open channels (saturating at `usize::MAX`, a count no
    /// memory can hold).
    pub fn client_count(&self) -> (n: usize)
        ensures
            n == if flatten(self.channels()).len() <= usize::MAX { flatten(self.channels()).len() } else { usize::MAX as nat },
    {
        let mut n: usize = 0;
        let mut i: usize = 0;
        while i < self.buckets.len()
            invariant
                i <= self.buckets@.len(),
                self.channels().len() == self.buckets@.len(),
                n == if flatten(self.channels().take(i as int)).len() <= usize::MAX {
                    flatten(self.channels().take(i as int)).len()
                } else {
                    usize::MAX as nat
                },
            decreases self.buckets@.len() - i,
        {
            proof {
                let c = self.channels();
                assert(c.take(i + 1).drop_last() =~= c.take(i as int));
                assert(c[i as int].1 == self.buckets@[i as int].1@);
                assert(c.take(i + 1).last() == c[i as int]);
            }
            n = n.saturating_add(self.buckets[i].1.len());
            i = i + 1;
        }
        proof {
            assert(self.channels().take(i as int) =~= self.channels());
        }
        n
    }
}

// ---------------------------------------------------------------------------
// Proofs about the channel table
// ---------------------------------------------------------------------------

proof fn lemma_bucket_pos(m: Seq<Bucket>, key: Seq<char>, i: int)
    requires
        bucket_keys_unique(m),
        0 <= i < m.len(),
        m[i].0 == key,
    ensures
        has_bucket(m, key),
        bucket_pos(m, key) == i,
{
    assert(has_bucket(m, key));
    let p = bucket_pos(m, key);
    if p != i {
        assert(m[p].0 != m[i].0);
    }
}

proof fn lemma_channel_pos(m: Seq<Bucket>, next: u64, id: u64, i: int, j: int)
    requires
        channels_wf(m, next),
        0 <= i < m.len(),
        0 <= j < m[i].1.len(),
        m[i].1[j] == id,
    ensures
        has_channel(m, id),
        channel_pos(m, id) == (i, j),
{
    let w = (i, j);
    assert(0 <= w.0 < m.len() && 0 <= w.1 < m[w.0].1.len() && m[w.0].1[w.1] == id);
    assert(has_channel(m, id));
    let p = channel_pos(m, id);
    if p.0 != i || p.1 != j {
        assert(m[p.0].1[p.1] != m[i].1[j]);
    }
}

/// Opening a fresh channel keeps the table consistent, with the next
/// identifier one higher.
proof fn lemma_touched_wf(m: Seq<Bucket>, key: Seq<char>, id: u64)
    requires
        channels_wf(m, id),
        id < u64::MAX,
    ensures
        channels_wf(touched(m, key, id), (id + 1) as u64),
{
    let t = touched(m, key, id);
    if has_bucket(m, key) {
        let i = bucket_pos(m, key);
        let r = m.remove(i);
        let nb = m[i].1.push(id);
        // Position map: t[a] is m[a] for a < i, m[a + 1] for i <= a < len - 1, the new bucket last.
        assert forall|a: int, b: int| 0 <= a < t.len() && 0 <= b < t.len() && a != b implies t[a].0 != t[b].0 by {
            let oa = if a < i { a } else if a < t.len() - 1 { a + 1 } else { i };
            let ob = if b < i { b } else if b < t.len() - 1 { b + 1 } else { i };
            assert(t[a].0 == m[oa].0);
            assert(t[b].0 == m[ob].0);
        }
        assert forall|a: int| 0 <= a < t.len() implies #[trigger] t[a].1.len() > 0 by {
            if a < i {
                assert(t[a] == m[a]);
            } else if a < t.len() - 1 {
                assert(t[a] == m[a + 1]);
            }
        }
        assert forall|i1: int, j1: int, i2: int, j2: int|
            0 <= i1 < t.len() && 0 <= i2 < t.len() && 0 <= j1 < t[i1].1.len() && 0 <= j2 < t[i2].1.len()
                && (i1 != i2 || j1 != j2) implies #[trigger] t[i1].1[j1] != #[trigger] t[i2].1[j2] by {
            let last = t.len() - 1;
            let o1 = if i1 < i { i1 } else if i1 < last { i1 + 1 } else { i };
            let o2 = if i2 < i { i2 } else if i2 < last { i2 + 1 } else { i };
            if i1 == last && j1 == m[i].1.len() {
                assert(t[i1].1[j1] == id);
                if !(i2 == last && j2 == m[i].1.len()) {
                    assert(t[i2].1[j2] == m[o2].1[j2]);
                    assert(m[o2].1[j2] < id);
                }
            } else if i2 == last && j2 == m[i].1.len() {
                assert(t[i1].1[j1] == m[o1].1[j1]);
                assert(m[o1].1[j1] < id);
            } else {
                assert(t[i1].1[j1] == m[o1].1[j1]);
                assert(t[i2].1[j2] == m[o2].1[j2]);
                if o1 == o2 {
                    assert(j1 != j2);
                }
            }
        }
        assert forall|a: int, b: int| 0 <= a < t.len() && 0 <= b < t[a].1.len() implies #[trigger] t[a].1[b] < (id + 1) as u64 by {
            let last = t.len() - 1;
            let o = if a < i { a } else if a < last { a + 1 } else { i };
            if !(a == last && b == m[i].1.len()) {
                assert(t[a].1[b] == m[o].1[b]);
            }
        }
    } else {
        assert forall|a: int, b: int| 0 <= a < t.len() && 0 <= b < t.len() && a != b implies t[a].0 != t[b].0 by {
            if a < m.len() && b < m.len() {
            } else if a == m.len() {
                assert(t[b] == m[b]);
            } else {
                assert(t[a] == m[a]);
            }
        }
        assert forall|a: int| 0 <= a < t.len() implies #[trigger] t[a].1.len() > 0 by {
            if a < m.len() {
                assert(t[a] == m[a]);
            }
        }
        assert forall|i1: int, j1: int, i2: int, j2: int|
            0 <= i1 < t.len() && 0 <= i2 < t.len() && 0 <= j1 < t[i1].1.len() && 0 <= j2 < t[i2].1.len()
                && (i1 != i2 || j1 != j2) implies #[trigger] t[i1].1[j1] != #[trigger] t[i2].1[j2] by {
            if i1 < m.len() && i2 < m.len() {
                assert(t[i1] == m[i1] && t[i2] == m[i2]);
            } else if i1 == m.len() {
                assert(t[i2] == m[i2]);
                assert(m[i2].1[j2] < id);
            } else {
                assert(t[i1] == m[i1]);
                assert(m[i1].1[j1] < id);
            }
        }
        assert forall|a: int, b: int| 0 <= a < t.len() && 0 <= b < t[a].1.len() implies #[trigger] t[a].1[b] < (id + 1) as u64 by {
            if a < m.len() {
                assert(t[a] == m[a]);
            }
        }
    }
}

/// Dropping the oldest buckets keeps the table consistent.
proof fn lemma_skip_wf(t: Seq<Bucket>, k: int, next: u64)
    requires
        channels_wf(t, next),
        0 <= k <= t.len(),
    ensures
        channels_wf(t.skip(k), next),
{
    let s = t.skip(k);
    assert forall|a: int, b: int| 0 <= a < s.len() && 0 <= b < s.len() && a != b implies s[a].0 != s[b].0 by {
        assert(s[a] == t[a + k] && s[b] == t[b + k]);
    }
    assert forall|a: int| 0 <= a < s.len() implies #[trigger] s[a].1.len() > 0 by {
        assert(s[a] == t[a + k]);
    }
    assert forall|i1: int, j1: int, i2: int, j2: int|
        0 <= i1 < s.len() && 0 <= i2 < s.len() && 0 <= j1 < s[i1].1.len() && 0 <= j2 < s[i2].1.len()
            && (i1 != i2 || j1 != j2) implies #[trigger] s[i1].1[j1] != #[trigger] s[i2].1[j2] by {
        assert(s[i1] == t[i1 + k] && s[i2] == t[i2 + k]);
    }
    assert forall|a: int, b: int| 0 <= a < s.len() && 0 <= b < s[a].1.len() implies #[trigger] s[a].1[b] < next by {
        assert(s[a] == t[a + k]);
    }
}

/// Closing a channel keeps the table consistent.
proof fn lemma_unregister_wf(m: Seq<Bucket>, next: u64, id: u64)
    requires
        channels_wf(m, next),
    ensures
        channels_wf(after_unregister(m, id), next),
{
    if has_channel(m, id) {
        let p = channel_pos(m, id);
        let (i, j) = (p.0, p.1);
        let b = m[i].1.remove(j);
        let u = after_unregister(m, id);
        if b.len() == 0 {
            assert forall|a: int, c: int| 0 <= a < u.len() && 0 <= c < u.len() && a != c implies u[a].0 != u[c].0 by {
                let oa = if a < i { a } else { a + 1 };
                let oc = if c < i { c } else { c + 1 };
                assert(u[a] == m[oa] && u[c] == m[oc]);
            }
            assert forall|a: int| 0 <= a < u.len() implies #[trigger] u[a].1.len() > 0 by {
                let oa = if a < i { a } else { a + 1 };
                assert(u[a] == m[oa]);
            }
            assert forall|i1: int, j1: int, i2: int, j2: int|
                0 <= i1 < u.len() && 0 <= i2 < u.len() && 0 <= j1 < u[i1].1.len() && 0 <= j2 < u[i2].1.len()
                    && (i1 != i2 || j1 != j2) implies #[trigger] u[i1].1[j1] != #[trigger] u[i2].1[j2] by {
                let o1 = if i1 < i { i1 } else { i1 + 1 };
                let o2 = if i2 < i { i2 } else { i2 + 1 };
                assert(u[i1] == m[o1] && u[i2] == m[o2]);
            }
            assert forall|a: int, c: int| 0 <= a < u.len() && 0 <= c < u[a].1.len() implies #[trigger] u[a].1[c] < next by {
                let oa = if a < i { a } else { a + 1 };
                assert(u[a] == m[oa]);
            }
        } else {
            assert forall|a: int, c: int| 0 <= a < u.len() && 0 <= c < u.len() && a != c implies u[a].0 != u[c].0 by {
                assert(u[a].0 == m[a].0 && u[c].0 == m[c].0);
            }
            assert forall|a: int| 0 <= a < u.len() implies #[trigger] u[a].1.len() > 0 by {
                if a != i {
                    assert(u[a] == m[a]);
                }
            }
            assert forall|i1: int, j1: int, i2: int, j2: int|
                0 <= i1 < u.len() && 0 <= i2 < u.len() && 0 <= j1 < u[i1].1.len() && 0 <= j2 < u[i2].1.len()
                    && (i1 != i2 || j1 != j2) implies #[trigger] u[i1].1[j1] != #[trigger] u[i2].1[j2] by {
                let c1 = if i1 == i && j1 >= j { j1 + 1 } else { j1 };
                let c2 = if i2 == i && j2 >= j { j2 + 1 } else { j2 };
                assert(u[i1].1[j1] == m[i1].1[c1]);
                assert(u[i2].1[j2] == m[i2].1[c2]);
            }
            assert forall|a: int, c: int| 0 <= a < u.len() && 0 <= c < u[a].1.len() implies #[trigger] u[a].1[c] < next by {
                let cc = if a == i && c >= j { c + 1 } else { c };
                assert(u[a].1[c] == m[a].1[cc]);
            }
        }
    }
}

// ---------------------------------------------------------------------------
// Laws
// ---------------------------------------------------------------------------

/// After a registration at most `MAX_CLIENT_CHANNELS` keys hold channels,
/// the registering key is the most recent one, and its newest channel is the
/// one just opened.
pub proof fn lemma_register_bounds_and_recency(m: Seq<Bucket>, key: Seq<char>, id: u64)
    requires
        channels_wf(m, id),
        id < u64::MAX,
    ensures
        after_register(m, key, id).len() <= MAX_CLIENT_CHANNELS,
        after_register(m, key, id).len() > 0,
        after_register(m, key, id).last().0 == key,
        after_register(m, key, id).last().1.last() == id,
        channels_wf(after_register(m, key, id), (id + 1) as u64),
{
    let t = touched(m, key, id);
    lemma_touched_wf(m, key, id);
    lemma_skip_wf(t, evict_count(t.len()) as int, (id + 1) as u64);
    let s = after_register(m, key, id);
    assert(s.last() == t.last());
}

/// A key that registers again keeps its earlier channels.
pub proof fn lemma_reregister_keeps_channels(m: Seq<Bucket>, key: Seq<char>, id: u64)
    requires
        channels_wf(m, id),
        has_bucket(m, key),
    ensures
        after_register(m, key, id).last().1 == m[bucket_pos(m, key)].1.push(id),
        evicted_by_register(m, key, id).len() + flatten(after_register(m, key, id)).len() == flatten(m).len() + 1,
{
    let t = touched(m, key, id);
    let s = after_register(m, key, id);
    assert(s.last() == t.last());
    lemma_flatten_split(t, evict_count(t.len()) as int);
    lemma_flatten_remove_push(m, bucket_pos(m, key), id);
}

/// Closing a channel that is open removes exactly that channel.
pub proof fn lemma_unregister_removes(m: Seq<Bucket>, next: u64, id: u64)
    requires
        channels_wf(m, next),
        has_channel(m, id),
    ensures
        !has_channel(after_unregister(m, id), id),
{
    let p = channel_pos(m, id);
    let (i, j) = (p.0, p.1);
    let u = after_unregister(m, id);
    if has_channel(u, id) {
        let q = choose|q: (int, int)| 0 <= q.0 < u.len() && 0 <= q.1 < u[q.0].1.len() && #[trigger] u[q.0].1[q.1] == id;
        let (a, c) = (q.0, q.1);
        let b = m[i].1.remove(j);
        if b.len() == 0 {
            let oa = if a < i { a } else { a + 1 };
            assert(u[a] == m[oa]);
            assert(m[oa].1[c] != m[i].1[j]);
        } else {
            let cc = if a == i && c >= j { c + 1 } else { c };
            assert(u[a].1[c] == m[a].1[cc]);
            assert(m[a].1[cc] != m[i].1[j]);
        }
    }
}

/// Flattening a list split in two.
proof fn lemma_flatten_split(t: Seq<Bucket>, k: int)
    requires
        0 <= k <= t.len(),
    ensures
        flatten(t) == flatten(t.take(k)) + flatten(t.skip(k)),
    decreases t.len() - k,
{
    if k == t.len() {
        assert(t.take(k) =~= t);
        assert(t.skip(k) =~= Seq::<Bucket>::empty());
        assert(flatten(t) + Seq::<u64>::empty() =~= flatten(t));
    } else {
        lemma_flatten_split(t, k + 1);
        assert(t.take(k + 1).drop_last() =~= t.take(k));
        assert(t.take(k + 1).last() == t[k]);
        lemma_flatten_cons(t.skip(k));
        assert(t.skip(k).drop_first() =~= t.skip(k + 1));
        assert(t.skip(k)[0] == t[k]);
        assert(flatten(t.take(k)) + t[k].1 + flatten(t.skip(k + 1)) =~= flatten(t.take(k)) + (t[k].1 + flatten(t.skip(k + 1))));
    }
}

/// Flattening from the front.
proof fn lemma_flatten_cons(t: Seq<Bucket>)
    requires
        t.len() > 0,
    ensures
        flatten(t) == t[0].1 + flatten(t.drop_first()),
    decreases t.len(),
{
    if t.len() == 1 {
        assert(t.drop_last() =~= Seq::<Bucket>::empty());
        assert(t.drop_first() =~= Seq::<Bucket>::empty());
        assert(Seq::<u64>::empty() + t[0].1 =~= t[0].1 + Seq::<u64>::empty());
    } else {
        lemma_flatten_cons(t.drop_last());
        assert(t.drop_last().drop_first() =~= t.drop_first().drop_last());
        assert(t.drop_first().last() == t.last());
        assert(t[0].1 + flatten(t.drop_first().drop_last()) + t.last().1 =~= t[0].1 + (flatten(t.drop_first().drop_last()) + t.last().1));
    }
}

/// Moving a bucket to the end with one more identifier adds that identifier
/// to the count.
proof fn lemma_flatten_remove_push(m: Seq<Bucket>, i: int, id: u64)
    requires
        0 <= i < m.len(),
    ensures
        flatten(m.remove(i).push((m[i].0, m[i].1.push(id)))).len() == flatten(m).len() + 1,
{
    lemma_flatten_split(m, i);
    lemma_flatten_cons(m.skip(i));
    assert(m.skip(i).drop_first() =~= m.skip(i + 1));
    let r = m.remove(i);
    assert(r =~= m.take(i) + m.skip(i + 1));
    lemma_flatten_split(r, i);
    assert(r.take(i) =~= m.take(i));
    assert(r.skip(i) =~= m.skip(i + 1));
    let p = r.push((m[i].0, m[i].1.push(id)));
    assert(p.drop_last() =~= r);
}

// ---------------------------------------------------------------------------
// Messages
// ---------------------------------------------------------------------------

/// New and changed traffic after a client's last record identifier, with
/// the number of records kept; `S` is the summary type of the traffic store.
#[derive(Debug, Clone)]
pub struct TrafficUpdatesData<S> {
    pub new_records: Vec<S>,
    pub updated_records: Vec<S>,
    pub has_more: bool,
    pub server_total: usize,
}

/// New and changed traffic since a client's cursor.
#[derive(Debug, Clone)]
pub struct TrafficDeltaData {
    pub inserts: Vec<TrafficSummaryCompact>,
    pub updates: Vec<TrafficSummaryCompact>,
    pub has_more: bool,
    pub server_total: usize,
    pub server_sequence: u64,
}

/// Traffic records that were deleted.
#[derive(Debug, Clone)]
pub struct TrafficDeletedData {
    pub ids: Vec<String>,
}

/// Rule counts for the overview.
#[derive(Debug, Clone)]
pub struct RulesInfo {
    pub total: usize,
    pub enabled: usize,
}

/// Traffic counts for the overview.
#[derive(Debug, Clone)]
pub struct TrafficInfo {
    pub recorded: usize,
}

/// The proxy's address for the overview.
#[derive(Debug, Clone)]
pub struct ServerInfo {
    pub port: u16,
    pub admin_url: String,
}

/// A saved replay request changed.
#[derive(Debug, Clone)]
pub struct ReplayRequestUpdatedData {
    pub action: String,
    pub request_id: Option<String>,
    pub group_id: Option<String>,
}

/// The replay history changed.
#[derive(Debug, Clone)]
pub struct ReplayHistoryUpdatedData {
    pub action: String,
    pub request_id: String,
    pub history_id: Option<String>,
}

/// The first message on a channel.
#[derive(Debug, Clone)]
pub struct ConnectedData {
    pub client_id: u64,
    pub message: String,
}

/// An error told to a client.
#[derive(Debug, Clone)]
pub struct ErrorData {
    pub message: String,
}

/// Why a channel is closed.
#[derive(Debug, Clone)]
pub struct DisconnectData {
    pub reason: String,
}

/// The reason given to channels closed to make room.
pub fn eviction_notice() -> (d: DisconnectData)
    ensures
        d.reason@ == "Too many active client channels"@,
{
    DisconnectData { reason: to_owned_string("Too many active client channels") }
}

/// The address of the admin interface for a proxy port.
pub fn admin_url(port: u16) -> (s: String)
    ensures
        s@ == "http://127.0.0.1:"@ + decimal(port as nat) + "/_bifrost/"@,
{
    let mut s = to_owned_string("http://127.0.0.1:");
    push_decimal(&mut s, port as u64);
    crate::text::push_str(&mut s, "/_bifrost/");
    s
}

/// The overview's server section.
pub fn server_info(port: u16) -> (i: ServerInfo)
    ensures
        i.port == port,
        i.admin_url@ == "http://127.0.0.1:"@ + decimal(port as nat) + "/_bifrost/"@,
{
    ServerInfo { port, admin_url: admin_url(port) }
}

// ---------------------------------------------------------------------------
// Subscriptions
// ---------------------------------------------------------------------------

/// What a client asks to be sent.
#[derive(Debug, Clone)]
pub struct ClientSubscription {
    pub last_traffic_id: Option<String>,
    pub last_sequence: Option<u64>,
    pub pending_ids: Vec<String>,
    pub need_overview: bool,
    pub need_metrics: bool,
    pub need_history: bool,
    pub history_limit: usize,
    pub metrics_interval_ms: u64,
}

/// The metrics history length when none is asked for.
pub fn default_history_limit() -> (n: usize)
    ensures
        n == 60,
{
    60
}

/// The metrics interval when none is asked for.
pub fn default_metrics_interval_ms() -> (n: u64)
    ensures
        n == 1000,
{
    1000
}

/// The model of a subscription.
pub struct SubscriptionModel {
    pub last_traffic_id: Option<Seq<char>>,
    pub last_sequence: Option<u64>,
    pub pending_ids: Seq<Seq<char>>,
    pub need_overview: bool,
    pub need_metrics: bool,
    pub need_history: bool,
    pub history_limit: usize,
    pub metrics_interval_ms: u64,
}

impl ClientSubscription {
    pub open spec fn model(&self) -> SubscriptionModel {
        SubscriptionModel {
            last_traffic_id: match self.last_traffic_id {
                Some(s) => Some(s@),
                None => None,
            },
            last_sequence: self.last_sequence,
            pending_ids: self.pending_ids@.map_values(|s: String| s@),
            need_overview: self.need_overview,
            need_metrics: self.need_metrics,
            need_history: self.need_history,
            history_limit: self.history_limit,
            metrics_interval_ms: self.metrics_interval_ms,
        }
    }
}

/// The subscription of a client that asked for nothing.
pub open spec fn default_subscription() -> SubscriptionModel {
    SubscriptionModel {
        last_traffic_id: None,
        last_sequence: None,
        pending_ids: Seq::empty(),
        need_overview: false,
        need_metrics: false,
        need_history: false,
        history_limit: 60,
        metrics_interval_ms: 1000,
    }
}

impl Default for ClientSubscription {
    fn default() -> (s: ClientSubscription)
        ensures
            s.model() == default_subscription(),
    {
        let s = ClientSubscription {
            last_traffic_id: None,
            last_sequence: None,
            pending_ids: Vec::new(),
            need_overview: false,
            need_metrics: false,
            need_history: false,
            history_limit: default_history_limit(),
            metrics_interval_ms: default_metrics_interval_ms(),
        };
        proof {
            assert(s.model().pending_ids =~= Seq::<Seq<char>>::empty());
        }
        s
    }
}

/// A flag given in a query reads as set: `true` or `1`.
pub open spec fn query_flag(v: Seq<char>) -> bool {
    v == "true"@ || v == "1"@
}

/// The subscription after one `key=value` pair of the connection query,
/// `value` already decoded. Unknown keys, empty identifiers and unreadable
/// limits change nothing.
pub open spec fn subscription_after_pair(m: SubscriptionModel, key: Seq<char>, value: Seq<char>) -> SubscriptionModel {
    if key == "last_traffic_id"@ {
        if value.len() > 0 { SubscriptionModel { last_traffic_id: Some(value), ..m } } else { m }
    } else if key == "pending_ids"@ {
        if value.len() > 0 { SubscriptionModel { pending_ids: split(value, ','), ..m } } else { m }
    } else if key == "need_overview"@ {
        SubscriptionModel { need_overview: query_flag(value), ..m }
    } else if key == "need_metrics"@ {
        SubscriptionModel { need_metrics: query_flag(value), ..m }
    } else if key == "need_history"@ {
        SubscriptionModel { need_history: query_flag(value), ..m }
    } else if key == "history_limit"@ {
        match parse_unsigned(value, usize::MAX as nat) {
            Some(n) => SubscriptionModel { history_limit: n as usize, ..m },
            None => m,
        }
    } else {
        m
    }
}

/// What a query value decodes to; an undecodable value reads as empty.
pub open spec fn decoded_or_empty(v: Seq<char>) -> Seq<char> {
    match percent_decoded(v) {
        Some(d) => d,
        None => Seq::empty(),
    }
}

/// The subscription after the `&`-separated pairs of a connection query;
/// a piece without `=` is ignored.
pub open spec fn subscription_after_pairs(m: SubscriptionModel, pairs: Seq<Seq<char>>) -> SubscriptionModel
    decreases pairs.len(),
{
    if pairs.len() == 0 {
        m
    } else {
        let prev = subscription_after_pairs(m, pairs.drop_last());
        match split_once(pairs.last(), '=') {
            Some((k, v)) => subscription_after_pair(prev, k, decoded_or_empty(v)),
            None => prev,
        }
    }
}

/// Applies one `key=value` pair of a connection query, `value` already
/// decoded, to a subscription.
pub fn apply_subscription_pair(sub: &mut ClientSubscription, key: &str, value: &str)
    ensures
        final(sub).model() == subscription_after_pair(old(sub).model(), key@, value@),
{
    let k = str_chars(key);
    let v = str_chars(value);
    if chars_eq_str(&k, "last_traffic_id") {
        if v.len() > 0 {
            sub.last_traffic_id = Some(to_owned_string(value));
        }
    } else if chars_eq_str(&k, "pending_ids") {
        if v.len() > 0 {
            let parts = split_chars(&v, ',');
            let mut ids: Vec<String> = Vec::new();
            let mut i: usize = 0;
            while i < parts.len()
                invariant
                    i <= parts@.len(),
                    ids@.len() == i,
                    forall|j: int| 0 <= j < i ==> #[trigger] ids@[j]@ == parts@[j]@,
                decreases parts@.len() - i,
            {
                ids.push(string_from_chars(&parts[i]));
                i = i + 1;
            }
            sub.pending_ids = ids;
            proof {
                assert(sub.model().pending_ids =~= split(value@, ','));
            }
        }
    } else if chars_eq_str(&k, "need_overview") {
        sub.need_overview = chars_eq_str(&v, "true") || chars_eq_str(&v, "1");
    } else if chars_eq_str(&k, "need_metrics") {
        sub.need_metrics = chars_eq_str(&v, "true") || chars_eq_str(&v, "1");
    } else if chars_eq_str(&k, "need_history") {
        sub.need_history = chars_eq_str(&v, "true") || chars_eq_str(&v, "1");
    } else if chars_eq_str(&k, "history_limit") {
        if let Some(n) = parse_usize_chars(&v) {
            sub.history_limit = n;
        }
    }
    proof {
        assert(final(sub).model().pending_ids =~= subscription_after_pair(old(sub).model(), key@, value@).pending_ids);
    }
}

/// The subscription a client asks for in the query of its connection
/// request, starting from the default.
pub fn parse_subscription_from_query(query: &str) -> (sub: ClientSubscription)
    ensures
        sub.model() == subscription_after_pairs(default_subscription(), split(query@, '&')),
{
    let mut sub = ClientSubscription::default();
    let q = str_chars(query);
    let pairs = split_chars(&q, '&');
    let ghost ps = split(query@, '&');
    let mut i: usize = 0;
    while i < pairs.len()
        invariant
            i <= pairs@.len(),
            pairs@.len() == ps.len(),
            forall|k: int| 0 <= k < pairs@.len() ==> #[trigger] pairs@[k]@ == ps[k],
            sub.model() == subscription_after_pairs(default_subscription(), ps.take(i as int)),
        decreases pairs@.len() - i,
    {
        proof {
            assert(ps.take(i + 1).drop_last() =~= ps.take(i as int));
            assert(ps.take(i + 1).last() == ps[i as int]);
        }
        match split_once_chars(&pairs[i], '=') {
            Some((kc, vc)) => {
                let key = string_from_chars(&kc);
                let raw = string_from_chars(&vc);
                let value = match url_decode(raw.as_str()) {
                    Some(d) => d,
                    None => String::new(),
                };
                apply_subscription_pair(&mut sub, key.as_str(), value.as_str());
            },
            None => {},
        }
        i = i + 1;
    }
    proof {
        assert(ps.take(i as int) =~= ps);
    }
    sub
}

// ---------------------------------------------------------------------------
// Decisions when sending
// ---------------------------------------------------------------------------

/// A record is still pending (worth following) while it has no response
/// status, or while it is a stream (WebSocket, SSE, tunnel) whose socket is
/// open.
pub open spec fn pending_spec(status: u16, is_stream: bool, socket_open: Option<bool>) -> bool {
    status == 0 || (is_stream && socket_open == Some(true))
}

/// Whether a record is still pending.
pub fn record_is_pending(status: u16, is_websocket: bool, is_sse: bool, is_tunnel: bool, socket_open: Option<bool>) -> (b: bool)
    ensures
        b == pending_spec(status, is_websocket || is_sse || is_tunnel, socket_open),
{
    status == 0 || ((is_websocket || is_sse || is_tunnel) && match socket_open {
        Some(o) => o,
        None => false,
    })
}

/// Whether `x` is one of the strings of `v`.
fn contains_string(v: &Vec<String>, x: &str) -> (b: bool)
    ensures
        b == exists|i: int| 0 <= i < v@.len() && #[trigger] v@[i]@ == x@,
{
    let xc = str_chars(x);
    let mut i: usize = 0;
    while i < v.len()
        invariant
            i <= v@.len(),
            xc@ == x@,
            forall|j: int| 0 <= j < i ==> #[trigger] v@[j]@ != x@,
        decreases v@.len() - i,
    {
        let c = str_chars(v[i].as_str());
        if chars_eq(&c, &xc) {
            return true;
        }
        i = i + 1;
    }
    false
}

/// Whether some `(id, pending)` entry has identifier `x` and flag `flag`.
fn contains_flagged(v: &Vec<(String, bool)>, x: &str, flag: bool) -> (b: bool)
    ensures
        b == exists|i: int| 0 <= i < v@.len() && #[trigger] v@[i].0@ == x@ && v@[i].1 == flag,
{
    let xc = str_chars(x);
    let mut i: usize = 0;
    while i < v.len()
        invariant
            i <= v@.len(),
            xc@ == x@,
            forall|j: int| 0 <= j < i ==> !(#[trigger] v@[j].0@ == x@ && v@[j].1 == flag),
        decreases v@.len() - i,
    {
        if v[i].1 == flag {
            let c = str_chars(v[i].0.as_str());
            if chars_eq(&c, &xc) {
                return true;
            }
        }
        i = i + 1;
    }
    false
}

/// The identifiers a client follows after a delta: those it followed, less
/// the updated records that are no longer pending, plus the new records that
/// are pending. `updated` and `inserted` pair each identifier with whether
/// its record is pending.
pub open spec fn next_pending_contains(
    pending: Seq<Seq<char>>,
    updated: Seq<(Seq<char>, bool)>,
    inserted: Seq<(Seq<char>, bool)>,
    x: Seq<char>,
) -> bool {
    ||| (pending.contains(x) && !updated.contains((x, false)))
    ||| inserted.contains((x, true))
}

/// The views of a list of strings.
pub open spec fn ids_view(v: Seq<String>) -> Seq<Seq<char>> {
    v.map_values(|s: String| s@)
}

/// The view of `(String, bool)` pairs.
pub open spec fn flagged_view(v: Seq<(String, bool)>) -> Seq<(Seq<char>, bool)> {
    v.map_values(|e: (String, bool)| (e.0@, e.1))
}

/// The identifiers to follow after a delta, each once.
pub fn next_pending_ids(pending: &Vec<String>, updated: &Vec<(String, bool)>, inserted: &Vec<(String, bool)>) -> (r: Vec<String>)
    ensures
        ids_view(r@).no_duplicates(),
        forall|x: Seq<char>| #[trigger] ids_view(r@).contains(x) <==> next_pending_contains(
            ids_view(pending@),
            flagged_view(updated@),
            flagged_view(inserted@),
            x,
        ),
{
    let mut r: Vec<String> = Vec::new();
    let ghost pv = ids_view(pending@);
    let ghost uv = flagged_view(updated@);
    let ghost iv = flagged_view(inserted@);
    let mut i: usize = 0;
    while i < pending.len()
        invariant
            i <= pending@.len(),
            pv == ids_view(pending@),
            uv == flagged_view(updated@),
            ids_view(r@).no_duplicates(),
            forall|x: Seq<char>| #[trigger] ids_view(r@).contains(x) <==> (pv.take(i as int).contains(x) && !uv.contains((x, false))),
        decreases pending@.len() - i,
    {
        let ghost rv0 = ids_view(r@);
        let ghost t0 = pv.take(i as int);
        proof {
            assert(forall|x: Seq<char>| #[trigger] rv0.contains(x) <==> (t0.contains(x) && !uv.contains((x, false))));
        }
        let id = &pending[i];
        let dropped = contains_flagged(updated, id.as_str(), false);
        let seen = contains_string(&r, id.as_str());
        proof {
            if dropped {
                let k = choose|k: int| 0 <= k < updated@.len() && #[trigger] updated@[k].0@ == id@ && updated@[k].1 == false;
                assert(uv[k] == (id@, false));
            } else {
                if uv.contains((id@, false)) {
                    let k = choose|k: int| 0 <= k < uv.len() && uv[k] == (id@, false);
                    assert(updated@[k].0@ == id@ && updated@[k].1 == false);
                }
            }
            if seen {
                let k = choose|k: int| 0 <= k < r@.len() && #[trigger] r@[k]@ == id@;
                assert(rv0[k] == id@);
            } else {
                if rv0.contains(id@) {
                    let k = choose|k: int| 0 <= k < rv0.len() && rv0[k] == id@;
                    assert(r@[k]@ == id@);
                }
            }
            assert(pv.take(i + 1) =~= t0.push(id@));
        }
        let ghost pushed = !dropped && !seen;
        if !dropped && !seen {
            r.push(id.clone());
            proof {
                let rv = ids_view(r@);
                assert(rv =~= rv0.push(id@));
            }
        }
        proof {
            let rv = ids_view(r@);
            assert forall|x: Seq<char>| #[trigger] rv.contains(x) <==> (pv.take(i + 1).contains(x) && !uv.contains((x, false))) by {
                lemma_push_contains(t0, id@, x);
                if pushed {
                    lemma_push_contains(rv0, id@, x);
                } else {
                    assert(rv == rv0);
                }
                let _ = rv0.contains(x);
            }
        }
        i = i + 1;
    }
    proof {
        assert(pv.take(i as int) =~= pv);
    }
    let mut j: usize = 0;
    while j < inserted.len()
        invariant
            j <= inserted@.len(),
            pv == ids_view(pending@),
            uv == flagged_view(updated@),
            iv == flagged_view(inserted@),
            ids_view(r@).no_duplicates(),
            forall|x: Seq<char>| #[trigger] ids_view(r@).contains(x) <==> (
                (pv.contains(x) && !uv.contains((x, false))) || iv.take(j as int).contains((x, true))),
        decreases inserted@.len() - j,
    {
        let ghost rv0 = ids_view(r@);
        let ghost e = iv[j as int];
        let ghost t0 = iv.take(j as int);
        proof {
            assert(forall|x: Seq<char>| #[trigger] rv0.contains(x) <==> ((pv.contains(x) && !uv.contains((x, false))) || t0.contains((x, true))));
            assert(e == (inserted@[j as int].0@, inserted@[j as int].1));
            assert(iv.take(j + 1) =~= t0.push(e));
        }
        let mut pushed = false;
        if inserted[j].1 {
            let id = &inserted[j].0;
            let seen = contains_string(&r, id.as_str());
            proof {
                if seen {
                    let k = choose|k: int| 0 <= k < r@.len() && #[trigger] r@[k]@ == id@;
                    assert(rv0[k] == id@);
                } else {
                    if rv0.contains(id@) {
                        let k = choose|k: int| 0 <= k < rv0.len() && rv0[k] == id@;
                        assert(r@[k]@ == id@);
                    }
                }
            }
            if !seen {
                r.push(id.clone());
                pushed = true;
                proof {
                    let rv = ids_view(r@);
                    assert(rv =~= rv0.push(id@));
                }
            }
        }
        proof {
            let rv = ids_view(r@);
            assert forall|x: Seq<char>| #[trigger] rv.contains(x) <==> (
                (pv.contains(x) && !uv.contains((x, false))) || iv.take(j + 1).contains((x, true))) by {
                lemma_push_contains(t0, e, (x, true));
                if pushed {
                    lemma_push_contains(rv0, e.0, x);
                } else {
                    assert(rv == rv0);
                }
                let _ = rv0.contains(x);
            }
        }
        j = j + 1;
    }
    proof {
        assert(iv.take(j as int) =~= iv);
    }
    r
}

/// An element of a sequence with one more element at its end.
proof fn lemma_push_contains<A>(s: Seq<A>, a: A, x: A)
    ensures
        s.push(a).contains(x) <==> (s.contains(x) || x == a),
{
    let p = s.push(a);
    if p.contains(x) {
        let k = choose|k: int| 0 <= k < p.len() && p[k] == x;
        if k < s.len() {
            assert(s[k] == x);
        }
    }
    if s.contains(x) {
        let k = choose|k: int| 0 <= k < s.len() && s[k] == x;
        assert(p[k] == x);
    }
    if x == a {
        assert(p[s.len() as int] == x);
    }
}

/// The metrics interval a client gets: what it asked for, within bounds.
pub open spec fn clamped_interval(asked: u64) -> u64 {
    if asked < METRICS_INTERVAL_MIN_MS {
        METRICS_INTERVAL_MIN_MS
    } else if asked > METRICS_INTERVAL_MAX_MS {
        METRICS_INTERVAL_MAX_MS
    } else {
        asked
    }
}

/// Whether metrics go to a client on a tick `elapsed_ms` after the start of
/// the metrics task: always on the first tick, then when the elapsed time is
/// within half a second past a multiple of the client's interval.
pub fn should_send_metrics(elapsed_ms: u64, interval_ms: u64) -> (b: bool)
    ensures
        b == (elapsed_ms == 0 || elapsed_ms % clamped_interval(interval_ms) < 500),
{
    let iv = if interval_ms < METRICS_INTERVAL_MIN_MS {
        METRICS_INTERVAL_MIN_MS
    } else if interval_ms > METRICS_INTERVAL_MAX_MS {
        METRICS_INTERVAL_MAX_MS
    } else {
        interval_ms
    };
    elapsed_ms == 0 || elapsed_ms % iv < 500
}

/// The message announcing a changed replay request.
pub fn replay_request_updated(action: &str, request_id: Option<&str>, group_id: Option<&str>) -> (d: ReplayRequestUpdatedData)
    ensures
        d.action@ == action@,
        match request_id {
            Some(x) => (d.request_id matches Some(y) && y@ == x@),
            None => d.request_id is None,
        },
        match group_id {
            Some(x) => (d.group_id matches Some(y) && y@ == x@),
            None => d.group_id is None,
        },
{
    ReplayRequestUpdatedData {
        action: to_owned_string(action),
        request_id: match request_id {
            Some(x) => Some(to_owned_string(x)),
            None => None,
        },
        group_id: match group_id {
            Some(x) => Some(to_owned_string(x)),
            None => None,
        },
    }
}

/// The message announcing a changed replay history.
pub fn replay_history_updated(action: &str, request_id: &str, history_id: Option<&str>) -> (d: ReplayHistoryUpdatedData)
    ensures
        d.action@ == action@,
        d.request_id@ == request_id@,
        match history_id {
            Some(x) => (d.history_id matches Some(y) && y@ == x@),
            None => d.history_id is None,
        },
{
    ReplayHistoryUpdatedData {
        action: to_owned_string(action),
        request_id: to_owned_string(request_id),
        history_id: match history_id {
            Some(x) => Some(to_owned_string(x)),
            None => None,
        },
    }
}


/// Whether a traffic round has anything for the client.
pub fn has_traffic_news(inserted: usize, updated: usize) -> (b: bool)
    ensures
        b == (inserted > 0 || updated > 0),
{
    inserted > 0 || updated > 0
}

/// The subscription after a traffic delta reached the client: its sequence
/// cursor moves to the last inserted record's sequence number, if any, and
/// it follows the identifiers still pending.
pub fn subscription_after_delta(
    sub: &mut ClientSubscription,
    inserted_seqs: &[u64],
    inserted: &Vec<(String, bool)>,
    updated: &Vec<(String, bool)>,
)
    ensures
        final(sub).last_sequence == if inserted_seqs@.len() > 0 {
            Some(inserted_seqs@.last())
        } else {
            old(sub).last_sequence
        },
        ids_view(final(sub).pending_ids@).no_duplicates(),
        forall|x: Seq<char>| #[trigger] ids_view(final(sub).pending_ids@).contains(x) <==> next_pending_contains(
            ids_view(old(sub).pending_ids@),
            flagged_view(updated@),
            flagged_view(inserted@),
            x,
        ),
        final(sub).last_traffic_id == old(sub).last_traffic_id,
        final(sub).need_overview == old(sub).need_overview,
        final(sub).need_metrics == old(sub).need_metrics,
        final(sub).need_history == old(sub).need_history,
        final(sub).history_limit == old(sub).history_limit,
        final(sub).metrics_interval_ms == old(sub).metrics_interval_ms,
{
    let next = next_pending_ids(&sub.pending_ids, updated, inserted);
    if inserted_seqs.len() > 0 {
        sub.last_sequence = Some(inserted_seqs[inserted_seqs.len() - 1]);
    }
    sub.pending_ids = next;
}

/// The subscription after a traffic update (by record identifier) reached
/// the client: its identifier cursor moves to the last new record, if any,
/// and it follows the identifiers still pending.
pub fn subscription_after_updates(
    sub: &mut ClientSubscription,
    inserted: &Vec<(String, bool)>,
    updated: &Vec<(String, bool)>,
)
    ensures
        final(sub).last_traffic_id == if inserted@.len() > 0 {
            Some(inserted@.last().0)
        } else {
            old(sub).last_traffic_id
        },
        ids_view(final(sub).pending_ids@).no_duplicates(),
        forall|x: Seq<char>| #[trigger] ids_view(final(sub).pending_ids@).contains(x) <==> next_pending_contains(
            ids_view(old(sub).pending_ids@),
            flagged_view(updated@),
            flagged_view(inserted@),
            x,
        ),
        final(sub).last_sequence == old(sub).last_sequence,
        final(sub).need_overview == old(sub).need_overview,
        final(sub).need_metrics == old(sub).need_metrics,
        final(sub).need_history == old(sub).need_history,
        final(sub).history_limit == old(sub).history_limit,
        final(sub).metrics_interval_ms == old(sub).metrics_interval_ms,
{
    let next = next_pending_ids(&sub.pending_ids, updated, inserted);
    if inserted.len() > 0 {
        let last = inserted[inserted.len() - 1].0.clone();
        sub.last_traffic_id = Some(last);
    }
    sub.pending_ids = next;
}

} // verus!
