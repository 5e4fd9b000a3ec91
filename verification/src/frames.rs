//! The bookkeeping of the WebSocket frame store: file names, per-connection
//! metadata, paging through stored frames and expiry.
use vstd::prelude::*;
use crate::text::{str_chars, to_owned_string, push_str, string_from_chars, ends_with, ends_with_chars, slice_chars};

verus! {

/// What the store keeps about one connection's frames.
#[derive(Debug, Clone)]
pub struct FrameStoreMetadata {
    pub connection_id: String,
    pub created_at: u64,
    pub updated_at: u64,
    pub frame_count: u64,
    pub last_frame_id: u64,
    pub is_closed: bool,
}

impl FrameStoreMetadata {
    /// Fresh metadata for a connection, stamped `now_ms`.
    pub fn new(connection_id: &str, now_ms: u64) -> (m: FrameStoreMetadata)
        ensures
            m.connection_id@ == connection_id@,
            m.created_at == now_ms,
            m.updated_at == now_ms,
            m.frame_count == 0,
            m.last_frame_id == 0,
            !m.is_closed,
    {
        FrameStoreMetadata {
            connection_id: to_owned_string(connection_id),
            created_at: now_ms,
            updated_at: now_ms,
            frame_count: 0,
            last_frame_id: 0,
            is_closed: false,
        }
    }

    /// Accounts for frames written to the file at `now_ms`: `written` more
    /// frames, the last of them `last_frame_id`.
    pub fn record_flush(&mut self, written: u64, last_frame_id: u64, now_ms: u64)
        ensures
            final(self).frame_count == (old(self).frame_count + written) % 0x1_0000_0000_0000_0000,
            final(self).last_frame_id == last_frame_id,
            final(self).updated_at == now_ms,
            final(self).connection_id == old(self).connection_id,
            final(self).created_at == old(self).created_at,
            final(self).is_closed == old(self).is_closed,
    {
        self.frame_count = self.frame_count.wrapping_add(written);
        self.last_frame_id = last_frame_id;
        self.updated_at = now_ms;
    }

    /// Marks the connection closed at `now_ms`.
    pub fn mark_closed(&mut self, now_ms: u64)
        ensures
            final(self).is_closed,
            final(self).updated_at == now_ms,
            final(self).frame_count == old(self).frame_count,
            final(self).last_frame_id == old(self).last_frame_id,
            final(self).connection_id == old(self).connection_id,
            final(self).created_at == old(self).created_at,
    {
        self.is_closed = true;
        self.updated_at = now_ms;
    }
}

/// Characters that may not appear in a file name.
pub open spec fn unsafe_name_char(c: char) -> bool {
    c == '/' || c == '\\' || c == ':' || c == '*' || c == '?' || c == '"' || c == '<' || c == '>' || c == '|'
}

pub open spec fn safe_id_spec(id: Seq<char>) -> Seq<char> {
    id.map_values(|c: char| if unsafe_name_char(c) { '_' } else { c })
}

/// A connection id with file-name-unsafe characters replaced by `_`.
pub fn safe_id(connection_id: &str) -> (r: String)
    ensures
        r@ == safe_id_spec(connection_id@),
{
    let v = str_chars(connection_id);
    let mut out: Vec<char> = Vec::new();
    let mut i: usize = 0;
    while i < v.len()
        invariant
            i <= v@.len(),
            out@ == safe_id_spec(v@.take(i as int)),
        decreases v@.len() - i,
    {
        let c = v[i];
        let d = if c == '/' || c == '\\' || c == ':' || c == '*' || c == '?' || c == '"' || c == '<' || c == '>' || c == '|' {
            '_'
        } else {
            c
        };
        out.push(d);
        i = i + 1;
        assert(out@ =~= safe_id_spec(v@.take(i as int)));
    }
    assert(v@.take(v@.len() as int) =~= v@);
    string_from_chars(&out)
}

/// The frames file of a connection: `{safe id}.jsonl`.
pub fn connection_file_name(connection_id: &str) -> (r: String)
    ensures
        r@ == safe_id_spec(connection_id@) + ".jsonl"@,
{
    let mut s = safe_id(connection_id);
    push_str(&mut s, ".jsonl");
    s
}

/// The metadata file of a connection: `{safe id}.meta.json`.
pub fn metadata_file_name(connection_id: &str) -> (r: String)
    ensures
        r@ == safe_id_spec(connection_id@) + ".meta.json"@,
{
    let mut s = safe_id(connection_id);
    push_str(&mut s, ".meta.json");
    s
}

/// The connection id of a file in the frames directory (`.jsonl` or
/// `.meta.json` removed), `None` for other files.
pub open spec fn file_id_spec(name: Seq<char>) -> Option<Seq<char>> {
    if ends_with(name, ".jsonl"@) {
        Some(name.take(name.len() - 6))
    } else if ends_with(name, ".meta.json"@) {
        Some(name.take(name.len() - 10))
    } else {
        None
    }
}

pub fn file_id(name: &str) -> (r: Option<String>)
    ensures
        match file_id_spec(name@) {
            Some(x) => (r matches Some(s) && s@ == x),
            None => r is None,
        },
{
    let v = str_chars(name);
    let a = str_chars(".jsonl");
    let b = str_chars(".meta.json");
    proof {
        reveal_strlit(".jsonl");
        reveal_strlit(".meta.json");
    }
    if ends_with_chars(&v, &a) {
        let p = slice_chars(&v, 0, v.len() - 6);
        assert(p@ =~= v@.take(v@.len() - 6));
        Some(string_from_chars(&p))
    } else if ends_with_chars(&v, &b) {
        let p = slice_chars(&v, 0, v.len() - 10);
        assert(p@ =~= v@.take(v@.len() - 10));
        Some(string_from_chars(&p))
    } else {
        None
    }
}

/// A frame is wanted when it comes after `after` (or `after` is not given).
pub open spec fn wanted(id: u64, after: Option<u64>) -> bool {
    match after {
        Some(a) => id > a,
        None => true,
    }
}

/// Number of wanted frames among `ids`.
pub open spec fn wanted_count(ids: Seq<u64>, after: Option<u64>) -> nat
    decreases ids.len(),
{
    if ids.len() == 0 {
        0
    } else {
        wanted_count(ids.drop_last(), after) + if wanted(ids.last(), after) { 1nat } else { 0nat }
    }
}

/// The positions of the wanted frames among `ids`, in order.
pub open spec fn wanted_positions(ids: Seq<u64>, after: Option<u64>) -> Seq<usize>
    decreases ids.len(),
{
    if ids.len() == 0 {
        Seq::empty()
    } else if wanted(ids.last(), after) {
        wanted_positions(ids.drop_last(), after).push((ids.len() - 1) as usize)
    } else {
        wanted_positions(ids.drop_last(), after)
    }
}

/// The first `limit` of a list.
pub open spec fn first_n<A>(s: Seq<A>, limit: usize) -> Seq<A> {
    if s.len() > limit {
        s.take(limit as int)
    } else {
        s
    }
}

/// The wanted positions of a prefix are a prefix of the wanted positions.
proof fn lemma_wanted_positions_prefix(ids: Seq<u64>, after: Option<u64>, k: int)
    requires
        0 <= k <= ids.len(),
    ensures
        wanted_positions(ids.take(k), after).len() <= wanted_positions(ids, after).len(),
        wanted_positions(ids.take(k), after) == wanted_positions(ids, after).take(wanted_positions(ids.take(k), after).len() as int),
    decreases ids.len() - k,
{
    if k < ids.len() {
        lemma_wanted_positions_prefix(ids, after, k + 1);
        let a = ids.take(k + 1);
        assert(a.drop_last() =~= ids.take(k));
        let wk = wanted_positions(ids.take(k), after);
        let wk1 = wanted_positions(a, after);
        let w = wanted_positions(ids, after);
        assert(wk == wk1.take(wk.len() as int)) by {
            if wanted(a.last(), after) {
                assert(wk1 == wk.push(k as usize));
                assert(wk1.take(wk.len() as int) =~= wk);
            } else {
                assert(wk1.take(wk.len() as int) =~= wk);
            }
        }
        assert(w.take(wk1.len() as int).take(wk.len() as int) =~= w.take(wk.len() as int));
    } else {
        assert(ids.take(k) =~= ids);
        assert(wanted_positions(ids, after).take(wanted_positions(ids, after).len() as int) =~= wanted_positions(ids, after));
    }
}

/// The wanted positions count the wanted frames.
proof fn lemma_wanted_positions_len(ids: Seq<u64>, after: Option<u64>)
    ensures
        wanted_positions(ids, after).len() == wanted_count(ids, after),
        forall|k: int| 0 <= k < wanted_positions(ids, after).len() ==> (#[trigger] wanted_positions(ids, after)[k]) < ids.len(),
    decreases ids.len(),
{
    if ids.len() > 0 {
        lemma_wanted_positions_len(ids.drop_last(), after);
    }
}

/// A page of stored frames: the positions of the first `limit` frames after
/// `after`, in file order, and whether a further wanted frame exists.
pub fn page_frames(ids: &[u64], after: Option<u64>, limit: usize) -> (r: (Vec<usize>, bool))
    ensures
        r.0@ == first_n(wanted_positions(ids@, after), limit),
        r.1 == (wanted_count(ids@, after) > limit),
        r.0@.len() <= limit,
        forall|k: int| 0 <= k < r.0@.len() ==> r.0@[k] < ids@.len() && wanted(ids@[r.0@[k] as int], after),
        forall|a: int, b: int| 0 <= a < b < r.0@.len() ==> r.0@[a] < r.0@[b],
{
    let mut out: Vec<usize> = Vec::new();
    let mut i: usize = 0;
    proof {
        assert(ids@.take(0) =~= Seq::<u64>::empty());
    }
    while i < ids.len()
        invariant
            i <= ids@.len(),
            out@ == wanted_positions(ids@.take(i as int), after),
            out@.len() == wanted_count(ids@.take(i as int), after),
            out@.len() <= limit,
            forall|k: int| 0 <= k < out@.len() ==> out@[k] < i && wanted(ids@[out@[k] as int], after),
            forall|a: int, b: int| 0 <= a < b < out@.len() ==> out@[a] < out@[b],
        decreases ids@.len() - i,
    {
        proof {
            assert(ids@.take(i + 1).drop_last() =~= ids@.take(i as int));
            assert(ids@.take(i + 1).last() == ids@[i as int]);
        }
        let take_it = match after {
            Some(a) => ids[i] > a,
            None => true,
        };
        if take_it {
            if out.len() < limit {
                out.push(i);
            } else {
                proof {
                    lemma_wanted_count_grows(ids@, after, i + 1);
                    lemma_wanted_positions_prefix(ids@, after, i as int);
                    lemma_wanted_positions_len(ids@, after);
                    lemma_wanted_positions_len(ids@.take(i as int), after);
                }
                return (out, true);
            }
        }
        i = i + 1;
    }
    proof {
        assert(ids@.take(ids@.len() as int) =~= ids@);
    }
    (out, false)
}

proof fn lemma_wanted_count_grows(ids: Seq<u64>, after: Option<u64>, k: int)
    requires
        0 <= k <= ids.len(),
    ensures
        wanted_count(ids, after) >= wanted_count(ids.take(k), after),
    decreases ids.len() - k,
{
    if k < ids.len() {
        lemma_wanted_count_grows(ids, after, k + 1);
        assert(ids.take(k + 1).drop_last() =~= ids.take(k));
    } else {
        assert(ids.take(k) =~= ids);
    }
}

/// The frames still buffered for a connection: the positions of the first
/// `limit` frames after `after`.
pub fn pending_page(ids: &[u64], after: Option<u64>, limit: usize) -> (r: Vec<usize>)
    ensures
        r@ == first_n(wanted_positions(ids@, after), limit),
{
    let (page, _) = page_frames(ids, after, limit);
    page
}

/// Whether the frames of a connection are due for removal: it is closed and
/// was last updated more than `retention_hours` before `now_ms`.
pub fn is_expired(updated_at_ms: u64, now_ms: u64, retention_hours: u64, is_closed: bool) -> (b: bool)
    requires
        retention_hours * 3600 <= u64::MAX,
    ensures
        b == (is_closed && updated_at_ms <= now_ms && now_ms - updated_at_ms > retention_hours * 3_600_000),
{
    if updated_at_ms > now_ms {
        return false;
    }
    let age = (now_ms - updated_at_ms) as u128;
    is_closed && age > (retention_hours as u128) * 3_600_000
}

/// The default retention of frames, in hours.
pub const DEFAULT_RETENTION_HOURS: u64 = 24;

/// Whether pending frames should be written out: enough of them, or enough
/// time since the last write.
pub fn should_flush_pending(total_frames: usize, elapsed_ms: u64) -> (b: bool)
    ensures
        b == (total_frames >= 50 || elapsed_ms >= 500),
{
    total_frames >= 50 || elapsed_ms >= 500
}

/// What the frame store reports about itself.
#[derive(Debug, Clone)]
pub struct FrameStoreStats {
    pub connection_count: usize,
    pub total_size: u64,
    pub frames_dir: String,
    pub retention_hours: u64,
}

// ---------------------------------------------------------------------------
// The frames of a connection, from the store, its buffer and memory
// ---------------------------------------------------------------------------

/// Where a frame of a page comes from.
#[derive(Debug, Clone, Copy, PartialEq, Eq, Structural)]
pub enum FrameSource {
    File,
    Pending,
    Memory,
}

/// A frame of a page: its id, where it comes from, and its position there.
pub type FrameRef = (u64, FrameSource, usize);

/// The frames of one source, each with its position.
pub open spec fn tag_all(ids: Seq<u64>, src: FrameSource) -> Seq<FrameRef>
    decreases ids.len(),
{
    if ids.len() == 0 {
        Seq::empty()
    } else {
        tag_all(ids.drop_last(), src).push((ids.last(), src, (ids.len() - 1) as usize))
    }
}

/// The wanted frames of one source, each with its position.
pub open spec fn tag_wanted(ids: Seq<u64>, src: FrameSource, after: Option<u64>) -> Seq<FrameRef>
    decreases ids.len(),
{
    if ids.len() == 0 {
        Seq::empty()
    } else if wanted(ids.last(), after) {
        tag_wanted(ids.drop_last(), src, after).push((ids.last(), src, (ids.len() - 1) as usize))
    } else {
        tag_wanted(ids.drop_last(), src, after)
    }
}

/// Some frame of the list has the id.
pub open spec fn has_frame_id(s: Seq<FrameRef>, id: u64) -> bool {
    exists|i: int| 0 <= i < s.len() && (#[trigger] s[i]).0 == id
}

/// The frames with the first of each id kept.
pub open spec fn dedup_frames(s: Seq<FrameRef>) -> Seq<FrameRef>
    decreases s.len(),
{
    if s.len() == 0 {
        s
    } else if has_frame_id(s.drop_last(), s.last().0) {
        dedup_frames(s.drop_last())
    } else {
        dedup_frames(s.drop_last()).push(s.last())
    }
}

/// `e` inserted after every frame whose id is not above its own.
pub open spec fn insert_by_frame_id(s: Seq<FrameRef>, e: FrameRef) -> Seq<FrameRef>
    decreases s.len(),
{
    if s.len() == 0 {
        seq![e]
    } else if s.last().0 <= e.0 {
        s.push(e)
    } else {
        insert_by_frame_id(s.drop_last(), e).push(s.last())
    }
}

/// The frames in order of id (a stable sort).
pub open spec fn sort_by_frame_id(s: Seq<FrameRef>) -> Seq<FrameRef>
    decreases s.len(),
{
    if s.len() == 0 {
        s
    } else {
        insert_by_frame_id(sort_by_frame_id(s.drop_last()), s.last())
    }
}

/// The frames of a connection: those read from the store, then those still
/// buffered, then the wanted ones held in memory; each id once (the first
/// source wins), in order of id.
pub open spec fn merged_frames(file: Seq<u64>, pending: Seq<u64>, memory: Seq<u64>, after: Option<u64>) -> Seq<FrameRef> {
    sort_by_frame_id(dedup_frames(tag_all(file, FrameSource::File) + tag_all(pending, FrameSource::Pending) + tag_wanted(memory, FrameSource::Memory, after)))
}

/// Appends the frames of one source.
fn push_tagged(out: &mut Vec<FrameRef>, ids: &[u64], src: FrameSource, after: Option<u64>, filter: bool)
    ensures
        final(out)@ == old(out)@ + (if filter { tag_wanted(ids@, src, after) } else { tag_all(ids@, src) }),
{
    let ghost start = out@;
    let mut i: usize = 0;
    proof {
        assert(ids@.take(0) =~= Seq::<u64>::empty());
        assert(start + Seq::<FrameRef>::empty() =~= start);
    }
    while i < ids.len()
        invariant
            i <= ids@.len(),
            out@ == start + (if filter { tag_wanted(ids@.take(i as int), src, after) } else { tag_all(ids@.take(i as int), src) }),
        decreases ids@.len() - i,
    {
        let ghost t = ids@.take(i + 1);
        proof {
            assert(t.drop_last() =~= ids@.take(i as int));
            assert(t.last() == ids@[i as int]);
        }
        let id = ids[i];
        let keep = if filter {
            match after {
                Some(a) => id > a,
                None => true,
            }
        } else {
            true
        };
        if keep {
            let ghost before = out@;
            out.push((id, src, i));
            proof {
                if filter {
                    assert(out@ =~= start + tag_wanted(t, src, after));
                } else {
                    assert(out@ =~= start + tag_all(t, src));
                }
            }
        } else {
            proof {
                assert(tag_wanted(t, src, after) == tag_wanted(ids@.take(i as int), src, after));
            }
        }
        i = i + 1;
    }
    proof {
        assert(ids@.take(i as int) =~= ids@);
    }
}

/// Keeps the first frame of each id.
fn dedup_frames_exec(all: &Vec<FrameRef>) -> (r: Vec<FrameRef>)
    ensures
        r@ == dedup_frames(all@),
        forall|k: int| 0 <= k < r@.len() ==> has_frame_id(all@, (#[trigger] r@[k]).0),
        forall|id: u64| has_frame_id(all@, id) ==> has_frame_id(r@, id),
{
    let mut out: Vec<FrameRef> = Vec::new();
    let mut i: usize = 0;
    proof {
        assert(all@.take(0) =~= Seq::<FrameRef>::empty());
    }
    while i < all.len()
        invariant
            i <= all@.len(),
            out@ == dedup_frames(all@.take(i as int)),
            forall|id: u64| has_frame_id(out@, id) <==> has_frame_id(all@.take(i as int), id),
        decreases all@.len() - i,
    {
        let ghost t = all@.take(i + 1);
        proof {
            assert(t.drop_last() =~= all@.take(i as int));
            assert(t.last() == all@[i as int]);
        }
        let e = all[i];
        let mut seen = false;
        let mut j: usize = 0;
        while j < out.len()
            invariant
                j <= out@.len(),
                seen == (exists|k: int| 0 <= k < j && (#[trigger] out@[k]).0 == e.0),
            decreases out@.len() - j,
        {
            if out[j].0 == e.0 {
                seen = true;
            }
            j = j + 1;
        }
        proof {
            assert(seen == has_frame_id(out@, e.0));
        }
        let ghost before = out@;
        if !seen {
            out.push(e);
        }
        proof {
            assert forall|id: u64| has_frame_id(out@, id) <==> has_frame_id(t, id) by {
                if has_frame_id(t, id) {
                    let w = choose|w: int| 0 <= w < t.len() && (#[trigger] t[w]).0 == id;
                    if w < i {
                        assert(all@.take(i as int)[w] == t[w]);
                        assert(has_frame_id(all@.take(i as int), id));
                        assert(has_frame_id(before, id));
                        let v = choose|v: int| 0 <= v < before.len() && (#[trigger] before[v]).0 == id;
                        assert(out@[v] == before[v]);
                    } else {
                        if seen {
                            assert(has_frame_id(before, id));
                            let v = choose|v: int| 0 <= v < before.len() && (#[trigger] before[v]).0 == id;
                            assert(out@[v] == before[v]);
                        } else {
                            assert(out@[before.len() as int] == e);
                        }
                    }
                }
                if has_frame_id(out@, id) {
                    let v = choose|v: int| 0 <= v < out@.len() && (#[trigger] out@[v]).0 == id;
                    if v < before.len() {
                        assert(before[v] == out@[v]);
                        assert(has_frame_id(before, id));
                        assert(has_frame_id(all@.take(i as int), id));
                        let w = choose|w: int| 0 <= w < i && (#[trigger] all@.take(i as int)[w]).0 == id;
                        assert(t[w] == all@.take(i as int)[w]);
                    } else {
                        assert(t[i as int] == e);
                    }
                }
            }
        }
        i = i + 1;
    }
    proof {
        assert(all@.take(i as int) =~= all@);
        assert forall|k: int| 0 <= k < out@.len() implies has_frame_id(all@, (#[trigger] out@[k]).0) by {
            assert(has_frame_id(out@, out@[k].0));
        }
    }
    out
}

/// `insert_by_frame_id` on a prefix, with the rest after it.
proof fn lemma_insert_by_frame_id_split(v: Seq<FrameRef>, e: FrameRef, p: int)
    requires
        0 < p <= v.len(),
        v[p - 1].0 > e.0,
    ensures
        insert_by_frame_id(v.take(p), e) + v.skip(p) == insert_by_frame_id(v.take(p - 1), e) + v.skip(p - 1),
{
    let a = v.take(p);
    assert(a.drop_last() =~= v.take(p - 1));
    assert(a.last() == v[p - 1]);
    let b = insert_by_frame_id(v.take(p - 1), e);
    assert(b.push(v[p - 1]) + v.skip(p) =~= b + v.skip(p - 1));
}

/// Inserts a frame after every frame whose id is not above its own.
fn insert_frame_by_id(out: &mut Vec<FrameRef>, e: FrameRef)
    ensures
        final(out)@ == insert_by_frame_id(old(out)@, e),
{
    let ghost v = out@;
    let mut p: usize = out.len();
    proof {
        assert(v.take(v.len() as int) =~= v);
        assert(insert_by_frame_id(v, e) + v.skip(v.len() as int) =~= insert_by_frame_id(v, e));
    }
    while p > 0 && out[p - 1].0 > e.0
        invariant
            p <= out@.len(),
            v == out@,
            insert_by_frame_id(v, e) == insert_by_frame_id(v.take(p as int), e) + v.skip(p as int),
        decreases p,
    {
        proof {
            lemma_insert_by_frame_id_split(v, e, p as int);
        }
        p = p - 1;
    }
    proof {
        let a = v.take(p as int);
        if p > 0 {
            assert(a.last() == v[p - 1]);
            assert(insert_by_frame_id(a, e) == a.push(e));
        } else {
            assert(insert_by_frame_id(a, e) == seq![e]);
        }
        assert(insert_by_frame_id(v, e) =~= v.insert(p as int, e));
    }
    out.insert(p, e);
}

/// The frames in order of id.
fn sort_frames_by_id(s: &Vec<FrameRef>) -> (r: Vec<FrameRef>)
    ensures
        r@ == sort_by_frame_id(s@),
{
    let mut out: Vec<FrameRef> = Vec::new();
    let mut i: usize = 0;
    proof {
        assert(s@.take(0) =~= Seq::<FrameRef>::empty());
    }
    while i < s.len()
        invariant
            i <= s@.len(),
            out@ == sort_by_frame_id(s@.take(i as int)),
        decreases s@.len() - i,
    {
        proof {
            assert(s@.take(i + 1).drop_last() =~= s@.take(i as int));
            assert(s@.take(i + 1).last() == s@[i as int]);
        }
        insert_frame_by_id(&mut out, s[i]);
        i = i + 1;
    }
    proof {
        assert(s@.take(i as int) =~= s@);
    }
    out
}

/// A page of a connection's frames: the first `limit` of the merged frames
/// (from the store, its buffer, and memory after `after`), and whether
/// there are more.
pub fn merge_frame_pages(file_ids: &[u64], pending_ids: &[u64], memory_ids: &[u64], after: Option<u64>, limit: usize) -> (r: (Vec<FrameRef>, bool))
    ensures
        r.0@ == first_n(merged_frames(file_ids@, pending_ids@, memory_ids@, after), limit),
        r.1 == (merged_frames(file_ids@, pending_ids@, memory_ids@, after).len() > limit),
{
    let mut all: Vec<FrameRef> = Vec::new();
    push_tagged(&mut all, file_ids, FrameSource::File, after, false);
    push_tagged(&mut all, pending_ids, FrameSource::Pending, after, false);
    push_tagged(&mut all, memory_ids, FrameSource::Memory, after, true);
    proof {
        assert(all@ =~= tag_all(file_ids@, FrameSource::File) + tag_all(pending_ids@, FrameSource::Pending) + tag_wanted(memory_ids@, FrameSource::Memory, after));
    }
    let unique = dedup_frames_exec(&all);
    let sorted = sort_frames_by_id(&unique);
    let has_more = sorted.len() > limit;
    if has_more {
        let mut page: Vec<FrameRef> = Vec::new();
        let mut k: usize = 0;
        while k < limit
            invariant
                k <= limit,
                limit < sorted@.len(),
                page@ == sorted@.take(k as int),
            decreases limit - k,
        {
            page.push(sorted[k]);
            proof {
                assert(sorted@.take(k + 1) =~= sorted@.take(k as int).push(sorted@[k as int]));
            }
            k = k + 1;
        }
        (page, true)
    } else {
        (sorted, false)
    }
}

/// The id of a connection's last frame: the page's last, else what the
/// connection monitor knows, else what the store knows, else 0.
pub fn last_frame_id(page_last: Option<u64>, monitor_last: Option<u64>, store_last: Option<u64>) -> (id: u64)
    ensures
        id == (match page_last {
            Some(x) => x,
            None => match monitor_last {
                Some(y) => y,
                None => match store_last {
                    Some(z) => z,
                    None => 0,
                },
            },
        }),
{
    match page_last {
        Some(x) => x,
        None => match monitor_last {
            Some(y) => y,
            None => match store_last {
                Some(z) => z,
                None => 0,
            },
        },
    }
}

// ---------------------------------------------------------------------------
// Laws of the merged page
// ---------------------------------------------------------------------------

/// No two frames share an id.
pub open spec fn frame_ids_unique(s: Seq<FrameRef>) -> bool {
    forall|i: int, j: int| 0 <= i < s.len() && 0 <= j < s.len() && i != j ==> (#[trigger] s[i]).0 != (#[trigger] s[j]).0
}

/// The frames come in order of id.
pub open spec fn ids_ascending(s: Seq<FrameRef>) -> bool {
    forall|i: int, j: int| 0 <= i < j < s.len() ==> (#[trigger] s[i]).0 <= (#[trigger] s[j]).0
}

/// Dropping repeated ids keeps every id, and no id twice.
proof fn lemma_dedup(s: Seq<FrameRef>)
    ensures
        frame_ids_unique(dedup_frames(s)),
        forall|id: u64| #![trigger has_frame_id(dedup_frames(s), id)] #![trigger has_frame_id(s, id)]
            has_frame_id(dedup_frames(s), id) <==> has_frame_id(s, id),
    decreases s.len(),
{
    if s.len() > 0 {
        let d = s.drop_last();
        lemma_dedup(d);
        let dd = dedup_frames(d);
        let r = dedup_frames(s);
        if has_frame_id(d, s.last().0) {
            assert(r == dd);
        } else {
            assert(r == dd.push(s.last()));
        }
        assert forall|id: u64| has_frame_id(r, id) <==> has_frame_id(s, id) by {
            if has_frame_id(s, id) {
                let w = choose|w: int| 0 <= w < s.len() && (#[trigger] s[w]).0 == id;
                if w < d.len() {
                    assert(d[w] == s[w]);
                    assert(has_frame_id(d, id));
                    assert(has_frame_id(dd, id));
                    let v = choose|v: int| 0 <= v < dd.len() && (#[trigger] dd[v]).0 == id;
                    assert(r[v] == dd[v]);
                } else if has_frame_id(d, s.last().0) {
                    assert(has_frame_id(dd, id));
                    let v = choose|v: int| 0 <= v < dd.len() && (#[trigger] dd[v]).0 == id;
                    assert(r[v] == dd[v]);
                } else {
                    assert(r[dd.len() as int] == s.last());
                }
            }
            if has_frame_id(r, id) {
                let v = choose|v: int| 0 <= v < r.len() && (#[trigger] r[v]).0 == id;
                if v < dd.len() {
                    assert(r[v] == dd[v]);
                    assert(has_frame_id(dd, id));
                    let w = choose|w: int| 0 <= w < d.len() && (#[trigger] d[w]).0 == id;
                    assert(s[w] == d[w]);
                } else {
                    assert(s[s.len() - 1] == s.last());
                }
            }
        }
        if !has_frame_id(d, s.last().0) {
            assert forall|i: int, j: int| 0 <= i < r.len() && 0 <= j < r.len() && i != j implies (#[trigger] r[i]).0 != (#[trigger] r[j]).0 by {
                if i < dd.len() && j < dd.len() {
                    assert(r[i] == dd[i] && r[j] == dd[j]);
                } else if i < dd.len() {
                    assert(r[i] == dd[i]);
                    if dd[i].0 == s.last().0 {
                        assert(has_frame_id(dd, s.last().0));
                    }
                } else {
                    assert(r[j] == dd[j]);
                    if dd[j].0 == s.last().0 {
                        assert(has_frame_id(dd, s.last().0));
                    }
                }
            }
        }
    }
}

/// Inserting by id adds the frame to the others.
proof fn lemma_insert_frame(s: Seq<FrameRef>, e: FrameRef)
    ensures
        insert_by_frame_id(s, e).len() == s.len() + 1,
        forall|id: u64| #![trigger has_frame_id(insert_by_frame_id(s, e), id)] #![trigger has_frame_id(s, id)]
            has_frame_id(insert_by_frame_id(s, e), id) <==> (has_frame_id(s, id) || id == e.0),
        ids_ascending(s) ==> ids_ascending(insert_by_frame_id(s, e)),
        frame_ids_unique(s) && !has_frame_id(s, e.0) ==> frame_ids_unique(insert_by_frame_id(s, e)),
    decreases s.len(),
{
    let r = insert_by_frame_id(s, e);
    if s.len() == 0 {
        assert forall|id: u64| has_frame_id(r, id) <==> (has_frame_id(s, id) || id == e.0) by {
            if id == e.0 {
                assert(r[0] == e);
            }
        }
    } else if s.last().0 <= e.0 {
        assert forall|id: u64| has_frame_id(r, id) <==> (has_frame_id(s, id) || id == e.0) by {
            if has_frame_id(s, id) {
                let w = choose|w: int| 0 <= w < s.len() && (#[trigger] s[w]).0 == id;
                assert(r[w] == s[w]);
            }
            if id == e.0 {
                assert(r[s.len() as int] == e);
            }
            if has_frame_id(r, id) {
                let v = choose|v: int| 0 <= v < r.len() && (#[trigger] r[v]).0 == id;
                if v < s.len() {
                    assert(r[v] == s[v]);
                }
            }
        }
        if ids_ascending(s) {
            assert forall|i: int, j: int| 0 <= i < j < r.len() implies (#[trigger] r[i]).0 <= (#[trigger] r[j]).0 by {
                if j == s.len() {
                    assert(s[i].0 <= s[s.len() - 1].0);
                } else {
                    assert(r[i] == s[i] && r[j] == s[j]);
                }
            }
        }
        if frame_ids_unique(s) && !has_frame_id(s, e.0) {
            assert forall|i: int, j: int| 0 <= i < r.len() && 0 <= j < r.len() && i != j implies (#[trigger] r[i]).0 != (#[trigger] r[j]).0 by {
                if i < s.len() && j < s.len() {
                    assert(r[i] == s[i] && r[j] == s[j]);
                } else if i < s.len() {
                    assert(r[i] == s[i]);
                } else {
                    assert(r[j] == s[j]);
                }
            }
        }
    } else {
        let d = s.drop_last();
        lemma_insert_frame(d, e);
        let rd = insert_by_frame_id(d, e);
        assert(r == rd.push(s.last()));
        assert forall|id: u64| has_frame_id(r, id) <==> (has_frame_id(s, id) || id == e.0) by {
            if has_frame_id(s, id) {
                let w = choose|w: int| 0 <= w < s.len() && (#[trigger] s[w]).0 == id;
                if w < d.len() {
                    assert(d[w] == s[w]);
                    assert(has_frame_id(d, id));
                    assert(has_frame_id(rd, id));
                    let v = choose|v: int| 0 <= v < rd.len() && (#[trigger] rd[v]).0 == id;
                    assert(r[v] == rd[v]);
                } else {
                    assert(r[rd.len() as int] == s.last());
                }
            }
            if id == e.0 {
                assert(has_frame_id(rd, id));
                let v = choose|v: int| 0 <= v < rd.len() && (#[trigger] rd[v]).0 == id;
                assert(r[v] == rd[v]);
            }
            if has_frame_id(r, id) {
                let v = choose|v: int| 0 <= v < r.len() && (#[trigger] r[v]).0 == id;
                if v < rd.len() {
                    assert(r[v] == rd[v]);
                    assert(has_frame_id(rd, id));
                    if has_frame_id(d, id) {
                        let w = choose|w: int| 0 <= w < d.len() && (#[trigger] d[w]).0 == id;
                        assert(s[w] == d[w]);
                    }
                } else {
                    assert(s[s.len() - 1] == s.last());
                }
            }
        }
        if ids_ascending(s) {
            assert(ids_ascending(d)) by {
                assert forall|i: int, j: int| 0 <= i < j < d.len() implies (#[trigger] d[i]).0 <= (#[trigger] d[j]).0 by {
                    assert(d[i] == s[i] && d[j] == s[j]);
                }
            }
            let lo = s.last().0;
            assert forall|k: int| 0 <= k < d.len() implies (#[trigger] d[k]).0 <= lo by {
                assert(d[k] == s[k]);
                assert(s[k].0 <= s[s.len() - 1].0);
            }
            assert forall|k: int| 0 <= k < rd.len() implies (#[trigger] rd[k]).0 <= lo by {
                if rd[k] != e {
                    assert(has_frame_id(rd, rd[k].0));
                }
                lemma_insert_upper(d, e, lo);
            }
            assert forall|i: int, j: int| 0 <= i < j < r.len() implies (#[trigger] r[i]).0 <= (#[trigger] r[j]).0 by {
                if j == rd.len() {
                    assert(r[i] == rd[i]);
                } else {
                    assert(r[i] == rd[i] && r[j] == rd[j]);
                }
            }
        }
        if frame_ids_unique(s) && !has_frame_id(s, e.0) {
            assert(frame_ids_unique(d)) by {
                assert forall|i: int, j: int| 0 <= i < d.len() && 0 <= j < d.len() && i != j implies (#[trigger] d[i]).0 != (#[trigger] d[j]).0 by {
                    assert(d[i] == s[i] && d[j] == s[j]);
                }
            }
            assert(!has_frame_id(d, e.0)) by {
                if has_frame_id(d, e.0) {
                    let w = choose|w: int| 0 <= w < d.len() && (#[trigger] d[w]).0 == e.0;
                    assert(s[w] == d[w]);
                }
            }
            assert(!has_frame_id(rd, s.last().0)) by {
                if has_frame_id(rd, s.last().0) {
                    if s.last().0 == e.0 {
                        assert(s[s.len() - 1] == s.last());
                    } else {
                        assert(has_frame_id(d, s.last().0));
                        let w = choose|w: int| 0 <= w < d.len() && (#[trigger] d[w]).0 == s.last().0;
                        assert(s[w] == d[w]);
                        assert(s[s.len() - 1] == s.last());
                    }
                }
            }
            assert forall|i: int, j: int| 0 <= i < r.len() && 0 <= j < r.len() && i != j implies (#[trigger] r[i]).0 != (#[trigger] r[j]).0 by {
                if i < rd.len() && j < rd.len() {
                    assert(r[i] == rd[i] && r[j] == rd[j]);
                } else if i < rd.len() {
                    assert(r[i] == rd[i]);
                    if rd[i].0 == s.last().0 {
                        assert(has_frame_id(rd, s.last().0));
                    }
                } else {
                    assert(r[j] == rd[j]);
                    if rd[j].0 == s.last().0 {
                        assert(has_frame_id(rd, s.last().0));
                    }
                }
            }
        }
    }
}

/// Inserting keeps an upper bound that the frame respects too.
proof fn lemma_insert_upper(s: Seq<FrameRef>, e: FrameRef, hi: u64)
    requires
        forall|k: int| 0 <= k < s.len() ==> (#[trigger] s[k]).0 <= hi,
        e.0 <= hi,
    ensures
        forall|k: int| 0 <= k < insert_by_frame_id(s, e).len() ==> (#[trigger] insert_by_frame_id(s, e)[k]).0 <= hi,
    decreases s.len(),
{
    if s.len() > 0 && s.last().0 > e.0 {
        let d = s.drop_last();
        assert forall|k: int| 0 <= k < d.len() implies (#[trigger] d[k]).0 <= hi by {
            assert(d[k] == s[k]);
        }
        lemma_insert_upper(d, e, hi);
        lemma_insert_frame(d, e);
        let rd = insert_by_frame_id(d, e);
        assert forall|k: int| 0 <= k < insert_by_frame_id(s, e).len() implies (#[trigger] insert_by_frame_id(s, e)[k]).0 <= hi by {
            if k < rd.len() {
                assert(insert_by_frame_id(s, e)[k] == rd[k]);
            } else {
                assert(s[s.len() - 1] == s.last());
            }
        }
    } else if s.len() > 0 {
        assert forall|k: int| 0 <= k < insert_by_frame_id(s, e).len() implies (#[trigger] insert_by_frame_id(s, e)[k]).0 <= hi by {
            if k < s.len() {
                assert(insert_by_frame_id(s, e)[k] == s[k]);
            }
        }
    }
}

/// Sorting by id keeps the ids and puts them in order.
proof fn lemma_sort_frames(s: Seq<FrameRef>)
    requires
        frame_ids_unique(s),
    ensures
        frame_ids_unique(sort_by_frame_id(s)),
        ids_ascending(sort_by_frame_id(s)),
        forall|id: u64| #![trigger has_frame_id(sort_by_frame_id(s), id)] #![trigger has_frame_id(s, id)]
            has_frame_id(sort_by_frame_id(s), id) <==> has_frame_id(s, id),
    decreases s.len(),
{
    if s.len() > 0 {
        let d = s.drop_last();
        assert(frame_ids_unique(d)) by {
            assert forall|i: int, j: int| 0 <= i < d.len() && 0 <= j < d.len() && i != j implies (#[trigger] d[i]).0 != (#[trigger] d[j]).0 by {
                assert(d[i] == s[i] && d[j] == s[j]);
            }
        }
        lemma_sort_frames(d);
        let sd = sort_by_frame_id(d);
        lemma_insert_frame(sd, s.last());
        assert(!has_frame_id(sd, s.last().0)) by {
            if has_frame_id(d, s.last().0) {
                let w = choose|w: int| 0 <= w < d.len() && (#[trigger] d[w]).0 == s.last().0;
                assert(s[w] == d[w]);
                assert(s[s.len() - 1] == s.last());
            }
        }
        assert forall|id: u64| has_frame_id(sort_by_frame_id(s), id) <==> has_frame_id(s, id) by {
            if has_frame_id(s, id) {
                let w = choose|w: int| 0 <= w < s.len() && (#[trigger] s[w]).0 == id;
                if w < d.len() {
                    assert(d[w] == s[w]);
                    assert(has_frame_id(d, id));
                }
            }
            if has_frame_id(d, id) {
                let w = choose|w: int| 0 <= w < d.len() && (#[trigger] d[w]).0 == id;
                assert(s[w] == d[w]);
            }
            if id == s.last().0 {
                assert(s[s.len() - 1] == s.last());
            }
        }
    }
}

/// The frames of a page come each once, in rising order of id, and every
/// stored, buffered or wanted in-memory frame's id is among the merged
/// frames.
pub proof fn lemma_merged_frames_ordered(file: Seq<u64>, pending: Seq<u64>, memory: Seq<u64>, after: Option<u64>)
    ensures
        forall|i: int, j: int| 0 <= i < j < merged_frames(file, pending, memory, after).len()
            ==> (#[trigger] merged_frames(file, pending, memory, after)[i]).0 < (#[trigger] merged_frames(file, pending, memory, after)[j]).0,
        forall|id: u64| has_frame_id(merged_frames(file, pending, memory, after), id)
            <==> has_frame_id(tag_all(file, FrameSource::File) + tag_all(pending, FrameSource::Pending) + tag_wanted(memory, FrameSource::Memory, after), id),
{
    let all = tag_all(file, FrameSource::File) + tag_all(pending, FrameSource::Pending) + tag_wanted(memory, FrameSource::Memory, after);
    lemma_dedup(all);
    lemma_sort_frames(dedup_frames(all));
    let m = merged_frames(file, pending, memory, after);
    assert forall|i: int, j: int| 0 <= i < j < m.len() implies (#[trigger] m[i]).0 < (#[trigger] m[j]).0 by {
        assert(m[i].0 <= m[j].0);
        assert(m[i].0 != m[j].0);
    }
}

} // verus!
