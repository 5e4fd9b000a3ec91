//! The full payload of one recorded frame: how stored payload bytes are
//! shown, and how the frames of a server-sent-events body are cut out of the
//! stored response body.
use vstd::prelude::*;
use crate::text::{str_chars, split, split_chars, lemma_split_nonempty, string_from_chars, decimal, push_decimal, push_str, to_owned_string};
use crate::frames::{FrameSource, FrameRef};
use crate::codec::{lossy_text, utf8_lossy, base64_standard, base64_encode};

verus! {

/// The kind of a recorded frame: a WebSocket opcode, or one server-sent
/// event of a streamed response.
#[derive(Debug, Clone, Copy, PartialEq, Eq, Structural)]
pub enum FrameType {
    Continuation,
    Text,
    Binary,
    Close,
    Ping,
    Pong,
    Sse,
}

/// Whether the payload of a frame of this kind is shown as text; the others
/// are shown as Base64.
pub open spec fn shown_as_text(kind: FrameType) -> bool {
    kind == FrameType::Text || kind == FrameType::Close || kind == FrameType::Sse
}

/// The text shown for a frame's stored payload bytes: text, close and SSE
/// frames decoded (invalid UTF-8 replaced), the others in standard Base64.
pub fn frame_payload_text(kind: FrameType, payload: &[u8]) -> (r: String)
    ensures
        r@ == if shown_as_text(kind) { lossy_text(payload@) } else { base64_standard(payload@) },
{
    match kind {
        FrameType::Text | FrameType::Close | FrameType::Sse => utf8_lossy(payload),
        _ => base64_encode(payload),
    }
}

/// Position of the first frame with the given id.
pub open spec fn first_with_id(ids: Seq<u64>, id: u64) -> Option<int> {
    if exists|i: int| 0 <= i < ids.len() && ids[i] == id {
        Some(choose|i: int| 0 <= i < ids.len() && ids[i] == id && forall|j: int| 0 <= j < i ==> ids[j] != id)
    } else {
        None
    }
}

/// Finds the first frame with the given id among frames listed by id.
pub fn find_frame(ids: &[u64], id: u64) -> (r: Option<usize>)
    ensures
        match r {
            Some(i) => i < ids@.len() && ids@[i as int] == id
                && forall|j: int| 0 <= j < i ==> ids@[j] != id,
            None => forall|j: int| 0 <= j < ids@.len() ==> ids@[j] != id,
        },
        r matches Some(i) ==> first_with_id(ids@, id) == Some(i as int),
        r is None <==> first_with_id(ids@, id) is None,
{
    let mut i: usize = 0;
    while i < ids.len()
        invariant
            i <= ids@.len(),
            forall|j: int| 0 <= j < i ==> ids@[j] != id,
        decreases ids.len() - i,
    {
        if ids[i] == id {
            proof {
                let w = choose|k: int| 0 <= k < ids@.len() && ids@[k] == id
                    && forall|j: int| 0 <= j < k ==> ids@[j] != id;
                assert(0 <= i < ids@.len() && ids@[i as int] == id
                    && forall|j: int| 0 <= j < i ==> ids@[j] != id);
                if w < i {
                } else if w > i {
                }
            }
            return Some(i);
        }
        i = i + 1;
    }
    None
}

/// The frame ids of a list the lookup may search, or none when that
/// source is not there.
pub open spec fn opt_ids(o: Option<&[u64]>) -> Option<Seq<u64>> {
    match o {
        Some(v) => Some(v@),
        None => None,
    }
}

/// Where a frame is found: first in the connection monitor's frames, then
/// in the frame store's buffered frames, then in its file; the first frame
/// with the id in the first source that has one.
pub open spec fn frame_location(memory: Option<Seq<u64>>, pending: Option<Seq<u64>>, file: Option<Seq<u64>>, id: u64) -> Option<FrameRef> {
    let in_memory = match memory { Some(m) => first_with_id(m, id), None => None };
    let in_pending = match pending { Some(p) => first_with_id(p, id), None => None };
    let in_file = match file { Some(f) => first_with_id(f, id), None => None };
    match in_memory {
        Some(i) => Some((id, FrameSource::Memory, i as usize)),
        None => match in_pending {
            Some(i) => Some((id, FrameSource::Pending, i as usize)),
            None => match in_file {
                Some(i) => Some((id, FrameSource::File, i as usize)),
                None => None,
            },
        },
    }
}

/// The answer when no source holds the frame.
pub open spec fn frame_not_found_message(id: u64, connection_id: Seq<char>) -> Seq<char> {
    "Frame "@ + decimal(id as nat) + " not found in connection "@ + connection_id
}

fn find_in(o: Option<&[u64]>, id: u64) -> (r: Option<usize>)
    ensures
        match r {
            Some(i) => opt_ids(o) matches Some(v) && first_with_id(v, id) == Some(i as int),
            None => match opt_ids(o) { Some(v) => first_with_id(v, id) is None, None => true },
        },
{
    match o {
        Some(v) => find_frame(v, id),
        None => None,
    }
}

/// Looks a frame up in the connection monitor's frames, the frame store's
/// buffered frames and its file, in that order (each given by its frame
/// ids, `None` where that source is not there). Gives where it is, or 404
/// with "Frame {id} not found in connection {connection_id}".
pub fn locate_frame(
    memory: Option<&[u64]>,
    pending: Option<&[u64]>,
    file: Option<&[u64]>,
    frame_id: u64,
    connection_id: &str,
) -> (r: Result<FrameRef, (u16, String)>)
    ensures
        match frame_location(opt_ids(memory), opt_ids(pending), opt_ids(file), frame_id) {
            Some(f) => r == Ok::<FrameRef, (u16, String)>(f),
            None => r matches Err(e) && e.0 == 404 && e.1@ == frame_not_found_message(frame_id, connection_id@),
        },
{
    if let Some(i) = find_in(memory, frame_id) {
        return Ok((frame_id, FrameSource::Memory, i));
    }
    if let Some(i) = find_in(pending, frame_id) {
        return Ok((frame_id, FrameSource::Pending, i));
    }
    if let Some(i) = find_in(file, frame_id) {
        return Ok((frame_id, FrameSource::File, i));
    }
    let mut m = to_owned_string("Frame ");
    push_decimal(&mut m, frame_id);
    push_str(&mut m, " not found in connection ");
    push_str(&mut m, connection_id);
    proof {
        reveal_strlit("Frame ");
        reveal_strlit(" not found in connection ");
    }
    Err((404, m))
}

/// A line as `str::lines` yields it: the `\r` before its `\n` removed.
pub open spec fn strip_cr(line: Seq<char>) -> Seq<char> {
    if line.len() > 0 && line.last() == '\r' { line.drop_last() } else { line }
}

/// The lines of a text, as `str::lines` yields them: split at each `\n`, a
/// `\r` before a `\n` dropped, and no empty line after a final `\n`.
pub open spec fn text_lines(s: Seq<char>) -> Seq<Seq<char>> {
    let pieces = split(s, '\n');
    let body = Seq::new((pieces.len() - 1) as nat, |i: int| strip_cr(pieces[i]));
    if pieces.last().len() == 0 { body } else { body.push(pieces.last()) }
}

/// Events finished so far, and the lines of the event being read.
pub type EventCut = (Seq<Seq<char>>, Seq<char>);

/// One line of the stored body: a blank line ends the event being read
/// (if it holds anything); another line joins it, with a `\n` after it.
pub open spec fn event_step(st: EventCut, line: Seq<char>) -> EventCut {
    if line.len() == 0 {
        if st.1.len() > 0 { (st.0.push(st.1), Seq::empty()) } else { st }
    } else {
        (st.0, st.1 + line.push('\n'))
    }
}

/// The state after reading the given lines.
pub open spec fn event_fold(lines: Seq<Seq<char>>) -> EventCut
    decreases lines.len(),
{
    if lines.len() == 0 {
        (Seq::empty(), Seq::empty())
    } else {
        event_step(event_fold(lines.drop_last()), lines.last())
    }
}

/// The events of a stored SSE body: its lines grouped between blank lines,
/// each event the text of its lines with a `\n` after each.
pub open spec fn sse_events(raw: Seq<char>) -> Seq<Seq<char>> {
    let st = event_fold(text_lines(raw));
    if st.1.len() > 0 { st.0.push(st.1) } else { st.0 }
}

fn strip_cr_exec(line: &Vec<char>) -> (r: Vec<char>)
    ensures
        r@ == strip_cr(line@),
{
    let mut r = line.clone();
    if r.len() > 0 && r[r.len() - 1] == '\r' {
        r.pop();
    }
    proof {
        if line@.len() > 0 && line@.last() == '\r' {
            assert(r@ =~= line@.drop_last());
        } else {
            assert(r@ =~= line@);
        }
    }
    r
}

fn apply_event_line(done: &mut Vec<Vec<char>>, cur: &mut Vec<char>, line: &Vec<char>)
    ensures
        (final(done)@.map_values(|e: Vec<char>| e@), final(cur)@)
            == event_step((old(done)@.map_values(|e: Vec<char>| e@), old(cur)@), line@),
{
    let ghost d0 = old(done)@.map_values(|e: Vec<char>| e@);
    if line.len() == 0 {
        if cur.len() > 0 {
            let mut taken: Vec<char> = Vec::new();
            std::mem::swap(&mut taken, cur);
            done.push(taken);
            proof {
                assert(done@.map_values(|e: Vec<char>| e@) =~= d0.push(old(cur)@));
                assert(cur@ =~= Seq::<char>::empty());
            }
        }
    } else {
        let mut k: usize = 0;
        let ghost c0 = cur@;
        while k < line.len()
            invariant
                k <= line@.len(),
                cur@ == c0 + line@.take(k as int),
            decreases line.len() - k,
        {
            cur.push(line[k]);
            k = k + 1;
            proof {
                assert(line@.take(k as int) =~= line@.take(k - 1).push(line@[k - 1]));
            }
        }
        cur.push('\n');
        proof {
            assert(line@.take(line@.len() as int) =~= line@);
            assert(cur@ =~= c0 + line@.push('\n'));
        }
    }
}

/// Cuts a stored SSE response body into its events, as the frames of the
/// stream were numbered: lines grouped between blank lines, each event the
/// text of its lines with a `\n` after each.
pub fn split_sse_events(raw: &str) -> (r: Vec<String>)
    ensures
        r@.len() == sse_events(raw@).len(),
        forall|k: int| 0 <= k < r@.len() ==> #[trigger] r@[k]@ == sse_events(raw@)[k],
{
    let chars = str_chars(raw);
    let pieces = split_chars(&chars, '\n');
    proof {
        lemma_split_nonempty(raw@, '\n');
    }
    let ghost ps = split(raw@, '\n');
    let ghost lines = text_lines(raw@);
    let n = pieces.len();
    let mut done: Vec<Vec<char>> = Vec::new();
    let mut cur: Vec<char> = Vec::new();
    let mut i: usize = 0;
    proof {
        assert(lines.take(0) =~= Seq::<Seq<char>>::empty());
        assert(done@.map_values(|e: Vec<char>| e@) =~= Seq::<Seq<char>>::empty());
    }
    while i + 1 < n
        invariant
            n == pieces@.len(),
            n == ps.len(),
            n >= 1,
            ps == split(raw@, '\n'),
            lines == text_lines(raw@),
            forall|k: int| 0 <= k < n ==> #[trigger] pieces@[k]@ == ps[k],
            i + 1 <= n,
            (done@.map_values(|e: Vec<char>| e@), cur@) == event_fold(lines.take(i as int)),
        decreases n - i,
    {
        let line = strip_cr_exec(&pieces[i]);
        assert(line@ == lines[i as int]);
        apply_event_line(&mut done, &mut cur, &line);
        proof {
            assert(lines.take(i + 1).drop_last() =~= lines.take(i as int));
            assert(lines.take(i + 1).last() == lines[i as int]);
        }
        i = i + 1;
    }
    proof {
        assert(i + 1 == n);
    }
    let last = &pieces[n - 1];
    if last.len() > 0 {
        apply_event_line(&mut done, &mut cur, last);
        proof {
            assert(lines.len() == n);
            assert(lines.drop_last() =~= lines.take((n - 1) as int));
            assert(lines.take(n as int) =~= lines);
        }
    } else {
        proof {
            assert(lines.take((n - 1) as int) =~= lines);
        }
    }
    if cur.len() > 0 {
        let mut taken: Vec<char> = Vec::new();
        std::mem::swap(&mut taken, &mut cur);
        done.push(taken);
    }
    let ghost evs = done@.map_values(|e: Vec<char>| e@);
    assert(evs =~= sse_events(raw@));
    let mut out: Vec<String> = Vec::new();
    let mut j: usize = 0;
    while j < done.len()
        invariant
            j <= done@.len(),
            evs == done@.map_values(|e: Vec<char>| e@),
            out@.len() == j,
            forall|k: int| 0 <= k < j ==> #[trigger] out@[k]@ == evs[k],
        decreases done.len() - j,
    {
        let s = string_from_chars(&done[j]);
        out.push(s);
        j = j + 1;
    }
    out
}

/// The full payload of frame `frame_id` of an SSE stream, read from the
/// stored response body: the event at that position, if there is one.
pub fn sse_event_payload(raw: &str, frame_id: u64) -> (r: Option<String>)
    ensures
        match r {
            Some(p) => frame_id < sse_events(raw@).len() && p@ == sse_events(raw@)[frame_id as int],
            None => frame_id >= sse_events(raw@).len(),
        },
{
    let mut events = split_sse_events(raw);
    let n = events.len();
    if (frame_id as u128) < (n as u128) {
        let i = frame_id as usize;
        Some(events.swap_remove(i))
    } else {
        None
    }
}


/// A text that is empty or ends with a line break.
pub open spec fn closed_lines(t: Seq<char>) -> bool {
    t.len() == 0 || t.last() == '\n'
}

proof fn lemma_event_fold_shape(lines: Seq<Seq<char>>)
    ensures
        closed_lines(event_fold(lines).1),
        forall|k: int| 0 <= k < event_fold(lines).0.len() ==> {
            let e = #[trigger] event_fold(lines).0[k];
            e.len() > 0 && e.last() == '\n'
        },
    decreases lines.len(),
{
    if lines.len() > 0 {
        lemma_event_fold_shape(lines.drop_last());
        let st = event_fold(lines.drop_last());
        let line = lines.last();
        if line.len() == 0 {
            if st.1.len() > 0 {
                let d = st.0.push(st.1);
                assert forall|k: int| 0 <= k < d.len() implies {
                    let e = #[trigger] d[k];
                    e.len() > 0 && e.last() == '\n'
                } by {
                    if k < st.0.len() {
                        assert(d[k] == st.0[k]);
                    }
                }
            }
        } else {
            let c = st.1 + line.push('\n');
            assert(c.last() == '\n');
        }
    }
}

/// Every event cut out of a stored SSE body holds text and ends with a line
/// break.
pub proof fn lemma_sse_events_end_with_newline(raw: Seq<char>)
    ensures
        forall|k: int| 0 <= k < sse_events(raw).len() ==> {
            let e = #[trigger] sse_events(raw)[k];
            e.len() > 0 && e.last() == '\n'
        },
{
    let st = event_fold(text_lines(raw));
    lemma_event_fold_shape(text_lines(raw));
    if st.1.len() > 0 {
        let d = st.0.push(st.1);
        assert forall|k: int| 0 <= k < d.len() implies {
            let e = #[trigger] d[k];
            e.len() > 0 && e.last() == '\n'
        } by {
            if k < st.0.len() {
                assert(d[k] == st.0[k]);
            }
        }
    }
}

} // verus!
