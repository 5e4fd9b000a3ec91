//! Client addresses waiting for a decision on TLS interception.
//!
//! An address is first seen, then waits in a list of pending addresses until
//! it is approved or skipped; either way it is then decided for the rest of
//! the session and never waits again. Addresses are held in their canonical
//! text form.
use vstd::prelude::*;
use crate::text::{str_chars, chars_eq, to_owned_string};
use crate::trust::wrap_inc;

verus! {

/// An address waiting for a decision.
pub struct PendingIpTls {
    pub ip: String,
    pub first_seen: u64,
    pub attempt_count: u32,
}

/// A change of the pending list, for the subscribers of the manager.
pub struct PendingIpTlsEvent {
    pub event_type: String,
    pub pending: PendingIpTls,
    pub total_pending: usize,
}

/// A pending entry: address, time first seen (seconds), attempts seen.
pub type PendingEntry = (Seq<char>, u64, u32);

/// The state of the manager: the pending entries in arrival order, and the
/// addresses decided in this session.
pub struct PendingModel {
    pub pending: Seq<PendingEntry>,
    pub decided: Set<Seq<char>>,
}

/// Some pending entry has address `ip`.
pub open spec fn is_pending(s: Seq<PendingEntry>, ip: Seq<char>) -> bool {
    exists|i: int| 0 <= i < s.len() && #[trigger] s[i].0 == ip
}

/// The position of the pending entry of `ip`.
pub open spec fn pending_pos(s: Seq<PendingEntry>, ip: Seq<char>) -> int {
    choose|i: int| 0 <= i < s.len() && #[trigger] s[i].0 == ip
}

/// No address is pending twice, and no decided address is pending.
pub open spec fn model_wf(m: PendingModel) -> bool {
    &&& forall|i: int, j: int| 0 <= i < m.pending.len() && 0 <= j < m.pending.len() && i != j
        ==> m.pending[i].0 != m.pending[j].0
    &&& forall|i: int| 0 <= i < m.pending.len() ==> !m.decided.contains(#[trigger] m.pending[i].0)
}

/// The address is pending or already decided.
pub open spec fn pending_or_decided(m: PendingModel, ip: Seq<char>) -> bool {
    m.decided.contains(ip) || is_pending(m.pending, ip)
}

/// The state after a connection from `ip` at time `now`: a decided address
/// is left alone, a pending one counts one more attempt, a new one starts
/// waiting with one attempt.
pub open spec fn after_seen(m: PendingModel, ip: Seq<char>, now: u64) -> PendingModel {
    if m.decided.contains(ip) {
        m
    } else if is_pending(m.pending, ip) {
        let i = pending_pos(m.pending, ip);
        PendingModel {
            pending: m.pending.update(i, (ip, m.pending[i].1, wrap_inc(m.pending[i].2))),
            decided: m.decided,
        }
    } else {
        PendingModel { pending: m.pending.push((ip, now, 1u32)), decided: m.decided }
    }
}

/// The state after a decision (approve or skip) on `ip`: a pending address
/// leaves the list and becomes decided; anything else is left alone.
pub open spec fn after_decision(m: PendingModel, ip: Seq<char>) -> PendingModel {
    if is_pending(m.pending, ip) {
        PendingModel {
            pending: m.pending.remove(pending_pos(m.pending, ip)),
            decided: m.decided.insert(ip),
        }
    } else {
        m
    }
}

/// The view of an exec entry.
pub open spec fn entry_view(e: (String, u64, u32)) -> PendingEntry {
    (e.0@, e.1, e.2)
}

/// The view of the exec pending list.
pub open spec fn entries_view(es: Seq<(String, u64, u32)>) -> Seq<PendingEntry> {
    es.map_values(|e: (String, u64, u32)| entry_view(e))
}

/// The view of the exec decided list.
pub open spec fn decided_view(ds: Seq<String>) -> Set<Seq<char>> {
    Set::new(|k: Seq<char>| exists|i: int| 0 <= i < ds.len() && #[trigger] ds[i]@ == k)
}

impl PendingIpTls {
    /// The entry this record shows.
    pub open spec fn entry(&self) -> PendingEntry {
        (self.ip@, self.first_seen, self.attempt_count)
    }
}

/// Manager of the addresses awaiting a TLS interception decision.
pub struct IpTlsPendingManager {
    pending: Vec<(String, u64, u32)>,
    session_decided: Vec<String>,
}

impl View for IpTlsPendingManager {
    type V = PendingModel;

    closed spec fn view(&self) -> PendingModel {
        PendingModel {
            pending: entries_view(self.pending@),
            decided: decided_view(self.session_decided@),
        }
    }
}

/// Position of the pending entry with address `ip`.
fn find_pending(es: &Vec<(String, u64, u32)>, ip: &str) -> (r: Option<usize>)
    ensures
        r matches Some(i) ==> i < es@.len() && es@[i as int].0@ == ip@,
        r is None ==> !is_pending(entries_view(es@), ip@),
{
    let kc = str_chars(ip);
    let mut i: usize = 0;
    while i < es.len()
        invariant
            i <= es@.len(),
            kc@ == ip@,
            forall|j: int| 0 <= j < i ==> #[trigger] es@[j].0@ != ip@,
        decreases es@.len() - i,
    {
        let ec = str_chars(es[i].0.as_str());
        if chars_eq(&ec, &kc) {
            return Some(i);
        }
        i = i + 1;
    }
    proof {
        let v = entries_view(es@);
        if is_pending(v, ip@) {
            let j = choose|j: int| 0 <= j < v.len() && #[trigger] v[j].0 == ip@;
            assert(v[j] == entry_view(es@[j]));
        }
    }
    None
}

/// Whether `ip` is among the decided addresses.
fn is_decided(ds: &Vec<String>, ip: &str) -> (r: bool)
    ensures
        r == decided_view(ds@).contains(ip@),
{
    let kc = str_chars(ip);
    let mut i: usize = 0;
    while i < ds.len()
        invariant
            i <= ds@.len(),
            kc@ == ip@,
            forall|j: int| 0 <= j < i ==> #[trigger] ds@[j]@ != ip@,
        decreases ds@.len() - i,
    {
        let ec = str_chars(ds[i].as_str());
        if chars_eq(&ec, &kc) {
            proof {
                assert(ds@[i as int]@ == ip@);
            }
            return true;
        }
        i = i + 1;
    }
    false
}

/// With addresses unique, the entry found at `i` is the one `pending_pos` names.
proof fn lemma_pos_is(s: Seq<PendingEntry>, ip: Seq<char>, i: int)
    requires
        forall|a: int, b: int| 0 <= a < s.len() && 0 <= b < s.len() && a != b ==> s[a].0 != s[b].0,
        0 <= i < s.len(),
        s[i].0 == ip,
    ensures
        is_pending(s, ip),
        pending_pos(s, ip) == i,
{
    assert(is_pending(s, ip));
    let p = pending_pos(s, ip);
    if p != i {
        assert(s[p].0 != s[i].0);
    }
}

impl IpTlsPendingManager {
    /// The manager's list and decided set are consistent.
    pub closed spec fn wf(&self) -> bool {
        model_wf(self@)
    }

    /// A manager with nothing pending and nothing decided.
    pub fn new() -> (m: IpTlsPendingManager)
        ensures
            m.wf(),
            m@.pending.len() == 0,
            m@.decided == Set::<Seq<char>>::empty(),
    {
        let m = IpTlsPendingManager { pending: Vec::new(), session_decided: Vec::new() };
        proof {
            assert(m@.pending =~= Seq::<PendingEntry>::empty());
            assert(m@.decided =~= Set::<Seq<char>>::empty());
        }
        m
    }

    /// A connection from `ip` at time `now` (seconds). Returns `true`, with
    /// the event to announce, when the address starts waiting; `false` with
    /// no event when it was already pending (one more attempt is counted) or
    /// already decided.
    pub fn check_and_add_pending(&mut self, ip: &str, now: u64) -> (r: (bool, Option<PendingIpTlsEvent>))
        requires
            old(self).wf(),
        ensures
            final(self).wf(),
            final(self)@ == after_seen(old(self)@, ip@, now),
            r.0 == !pending_or_decided(old(self)@, ip@),
            r.0 == r.1 is Some,
            r.1 matches Some(e) ==> e.event_type@ == "new"@
                && e.pending.entry() == (ip@, now, 1u32)
                && e.total_pending as int == final(self)@.pending.len(),
    {
        proof {
            assert(entries_view(self.pending@).len() == self.pending@.len());
        }
        if is_decided(&self.session_decided, ip) {
            return (false, None);
        }
        match find_pending(&self.pending, ip) {
            Some(i) => {
                let ghost old_v = self@;
                let k = self.pending[i].0.clone();
                let first = self.pending[i].1;
                let count = self.pending[i].2;
                let e = (k, first, count.wrapping_add(1));
                proof {
                    assert(old_v.pending[i as int] == entry_view(self.pending@[i as int]));
                    lemma_pos_is(old_v.pending, ip@, i as int);
                    assert(wrap_inc(count) == count.wrapping_add(1)) by {
                        if count == u32::MAX {
                        } else {
                        }
                    }
                }
                self.pending.set(i, e);
                proof {
                    let nv = self@;
                    let want = after_seen(old_v, ip@, now);
                    assert(nv.pending =~= want.pending);
                    assert(nv.decided =~= want.decided);
                    assert forall|a: int, b: int|
                        0 <= a < nv.pending.len() && 0 <= b < nv.pending.len() && a != b implies nv.pending[a].0 != nv.pending[b].0 by {
                        assert(nv.pending[a].0 == old_v.pending[a].0);
                        assert(nv.pending[b].0 == old_v.pending[b].0);
                    }
                    assert forall|a: int| 0 <= a < nv.pending.len() implies !nv.decided.contains(#[trigger] nv.pending[a].0) by {
                        assert(nv.pending[a].0 == old_v.pending[a].0);
                    }
                    assert(is_pending(old_v.pending, ip@));
                }
                (false, None)
            },
            None => {
                let ghost old_v = self@;
                let k = to_owned_string(ip);
                self.pending.push((k, now, 1u32));
                let total = self.pending.len();
                proof {
                    let nv = self@;
                    let want = after_seen(old_v, ip@, now);
                    assert(nv.pending =~= want.pending) by {
                        assert forall|a: int| 0 <= a < nv.pending.len() implies nv.pending[a] == want.pending[a] by {
                            if a < old_v.pending.len() {
                                assert(nv.pending[a] == entry_view(self.pending@[a]));
                                assert(old_v.pending[a] == entry_view(old(self).pending@[a]));
                            }
                        }
                    }
                    assert(nv.decided =~= want.decided);
                    assert forall|a: int, b: int|
                        0 <= a < nv.pending.len() && 0 <= b < nv.pending.len() && a != b implies nv.pending[a].0 != nv.pending[b].0 by {
                        if a < old_v.pending.len() && b < old_v.pending.len() {
                        } else if a == old_v.pending.len() {
                            assert(nv.pending[b] == old_v.pending[b]);
                        } else {
                            assert(nv.pending[a] == old_v.pending[a]);
                        }
                    }
                    assert forall|a: int| 0 <= a < nv.pending.len() implies !nv.decided.contains(#[trigger] nv.pending[a].0) by {
                        if a < old_v.pending.len() {
                            assert(nv.pending[a] == old_v.pending[a]);
                        }
                    }
                }
                let event = PendingIpTlsEvent {
                    event_type: to_owned_string("new"),
                    pending: PendingIpTls { ip: to_owned_string(ip), first_seen: now, attempt_count: 1 },
                    total_pending: total,
                };
                (true, Some(event))
            },
        }
    }

    /// The pending addresses, in arrival order.
    pub fn get_pending_list(&self) -> (v: Vec<PendingIpTls>)
        ensures
            v@.len() == self@.pending.len(),
            forall|i: int| 0 <= i < v@.len() ==> #[trigger] v@[i].entry() == self@.pending[i],
    {
        let mut v: Vec<PendingIpTls> = Vec::new();
        let mut i: usize = 0;
        while i < self.pending.len()
            invariant
                i <= self.pending@.len(),
                v@.len() == i,
                forall|j: int| 0 <= j < i ==> #[trigger] v@[j].entry() == entry_view(self.pending@[j]),
            decreases self.pending@.len() - i,
        {
            let k = self.pending[i].0.clone();
            v.push(PendingIpTls { ip: k, first_seen: self.pending[i].1, attempt_count: self.pending[i].2 });
            i = i + 1;
        }
        v
    }

    /// Number of pending addresses.
    pub fn pending_count(&self) -> (n: usize)
        ensures
            n as int == self@.pending.len(),
    {
        self.pending.len()
    }

    /// Removes `ip` from the pending list and marks it decided, announcing
    /// the event named `kind`.
    fn decide(&mut self, ip: &str, kind: &str) -> (r: (bool, Option<PendingIpTlsEvent>))
        requires
            old(self).wf(),
        ensures
            final(self).wf(),
            final(self)@ == after_decision(old(self)@, ip@),
            r.0 == is_pending(old(self)@.pending, ip@),
            r.0 == r.1 is Some,
            r.1 matches Some(e) ==> e.event_type@ == kind@
                && e.pending.entry() == old(self)@.pending[pending_pos(old(self)@.pending, ip@)]
                && e.total_pending as int == final(self)@.pending.len(),
    {
        match find_pending(&self.pending, ip) {
            None => (false, None),
            Some(i) => {
                let ghost old_v = self@;
                proof {
                    assert(old_v.pending[i as int] == entry_view(self.pending@[i as int]));
                    lemma_pos_is(old_v.pending, ip@, i as int);
                }
                let (_, first, count) = self.pending.remove(i);
                let total = self.pending.len();
                let k = to_owned_string(ip);
                self.session_decided.push(k);
                proof {
                    let nv = self@;
                    let want = after_decision(old_v, ip@);
                    assert(nv.pending =~= want.pending) by {
                        assert forall|a: int| 0 <= a < nv.pending.len() implies nv.pending[a] == want.pending[a] by {
                            if a < i {
                                assert(nv.pending[a] == entry_view(old(self).pending@[a]));
                            } else {
                                assert(nv.pending[a] == entry_view(old(self).pending@[a + 1]));
                            }
                        }
                    }
                    assert(nv.decided =~= want.decided) by {
                        let ds = self.session_decided@;
                        let ods = old(self).session_decided@;
                        assert forall|kk: Seq<char>| nv.decided.contains(kk) == want.decided.contains(kk) by {
                            if nv.decided.contains(kk) {
                                let j = choose|j: int| 0 <= j < ds.len() && #[trigger] ds[j]@ == kk;
                                if j < ods.len() {
                                    assert(ods[j]@ == kk);
                                }
                            }
                            if old_v.decided.contains(kk) {
                                let j = choose|j: int| 0 <= j < ods.len() && #[trigger] ods[j]@ == kk;
                                assert(ds[j]@ == kk);
                            }
                            if kk == ip@ {
                                assert(ds[ods.len() as int]@ == kk);
                            }
                        }
                    }
                    assert forall|a: int, b: int|
                        0 <= a < nv.pending.len() && 0 <= b < nv.pending.len() && a != b implies nv.pending[a].0 != nv.pending[b].0 by {
                        let a2 = if a < i { a } else { a + 1 };
                        let b2 = if b < i { b } else { b + 1 };
                        assert(nv.pending[a] == old_v.pending[a2]);
                        assert(nv.pending[b] == old_v.pending[b2]);
                    }
                    assert forall|a: int| 0 <= a < nv.pending.len() implies !nv.decided.contains(#[trigger] nv.pending[a].0) by {
                        let a2 = if a < i { a } else { a + 1 };
                        assert(nv.pending[a] == old_v.pending[a2]);
                        assert(a2 != i);
                    }
                }
                let event = PendingIpTlsEvent {
                    event_type: to_owned_string(kind),
                    pending: PendingIpTls { ip: to_owned_string(ip), first_seen: first, attempt_count: count },
                    total_pending: total,
                };
                (true, Some(event))
            },
        }
    }

    /// Approves interception for a pending `ip`: it leaves the list and is
    /// decided. Returns `false`, changing nothing, when `ip` is not pending.
    pub fn approve(&mut self, ip: &str) -> (r: (bool, Option<PendingIpTlsEvent>))
        requires
            old(self).wf(),
        ensures
            final(self).wf(),
            final(self)@ == after_decision(old(self)@, ip@),
            r.0 == is_pending(old(self)@.pending, ip@),
            r.0 == r.1 is Some,
            r.1 matches Some(e) ==> e.event_type@ == "approved"@
                && e.pending.entry() == old(self)@.pending[pending_pos(old(self)@.pending, ip@)]
                && e.total_pending as int == final(self)@.pending.len(),
    {
        self.decide(ip, "approved")
    }

    /// Skips interception for a pending `ip`: it leaves the list and is
    /// decided. Returns `false`, changing nothing, when `ip` is not pending.
    pub fn skip(&mut self, ip: &str) -> (r: (bool, Option<PendingIpTlsEvent>))
        requires
            old(self).wf(),
        ensures
            final(self).wf(),
            final(self)@ == after_decision(old(self)@, ip@),
            r.0 == is_pending(old(self)@.pending, ip@),
            r.0 == r.1 is Some,
            r.1 matches Some(e) ==> e.event_type@ == "skipped"@
                && e.pending.entry() == old(self)@.pending[pending_pos(old(self)@.pending, ip@)]
                && e.total_pending as int == final(self)@.pending.len(),
    {
        self.decide(ip, "skipped")
    }

    /// Empties the pending list; decisions are kept.
    pub fn clear_pending(&mut self)
        requires
            old(self).wf(),
        ensures
            final(self).wf(),
            final(self)@.pending.len() == 0,
            final(self)@.decided == old(self)@.decided,
    {
        self.pending = Vec::new();
        proof {
            assert(self@.pending =~= Seq::<PendingEntry>::empty());
        }
    }

    /// Whether `ip` is pending or already decided.
    pub fn is_pending_or_decided(&self, ip: &str) -> (b: bool)
        ensures
            b == pending_or_decided(self@, ip@),
    {
        if is_decided(&self.session_decided, ip) {
            return true;
        }
        match find_pending(&self.pending, ip) {
            Some(i) => {
                proof {
                    assert(self@.pending.len() == self.pending@.len());
                    assert(self@.pending[i as int] == entry_view(self.pending@[i as int]));
                    assert(self@.pending[i as int].0 == ip@);
                }
                true
            },
            None => false,
        }
    }
}

// ---------------------------------------------------------------------------
// Laws
// ---------------------------------------------------------------------------

/// After a connection from an address, the address is pending or decided.
pub proof fn lemma_seen_is_pending_or_decided(m: PendingModel, ip: Seq<char>, now: u64)
    requires
        model_wf(m),
    ensures
        pending_or_decided(after_seen(m, ip, now), ip),
{
    let n = after_seen(m, ip, now);
    if m.decided.contains(ip) {
    } else if is_pending(m.pending, ip) {
        let i = pending_pos(m.pending, ip);
        assert(n.pending[i].0 == ip);
    } else {
        assert(n.pending[m.pending.len() as int].0 == ip);
    }
}

/// A decided address is never pending again: further connections from it
/// change nothing.
pub proof fn lemma_decided_never_pending_again(m: PendingModel, ip: Seq<char>, now: u64)
    requires
        model_wf(m),
        m.decided.contains(ip),
    ensures
        after_seen(m, ip, now) == m,
        !is_pending(m.pending, ip),
{
}

/// Approving or skipping a pending address takes it off the list and marks it
/// decided, so that it is still "pending or decided".
pub proof fn lemma_decision_removes_and_decides(m: PendingModel, ip: Seq<char>)
    requires
        model_wf(m),
        is_pending(m.pending, ip),
    ensures
        !is_pending(after_decision(m, ip).pending, ip),
        after_decision(m, ip).decided.contains(ip),
        after_decision(m, ip).pending.len() + 1 == m.pending.len(),
        pending_or_decided(after_decision(m, ip), ip),
{
    let i = pending_pos(m.pending, ip);
    let n = after_decision(m, ip);
    if is_pending(n.pending, ip) {
        let j = choose|j: int| 0 <= j < n.pending.len() && #[trigger] n.pending[j].0 == ip;
        let j2 = if j < i { j } else { j + 1 };
        assert(n.pending[j] == m.pending[j2]);
    }
}

/// A second connection from a pending address counts one more attempt and
/// adds no entry.
pub proof fn lemma_repeat_counts_attempt(m: PendingModel, ip: Seq<char>, now: u64)
    requires
        model_wf(m),
        is_pending(m.pending, ip),
    ensures
        after_seen(m, ip, now).pending.len() == m.pending.len(),
        after_seen(m, ip, now).pending[pending_pos(m.pending, ip)].2 == wrap_inc(m.pending[pending_pos(m.pending, ip)].2),
        after_seen(m, ip, now).pending[pending_pos(m.pending, ip)].1 == m.pending[pending_pos(m.pending, ip)].1,
{
}

} // verus!
