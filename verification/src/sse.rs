//! Server-sent events: reading one event block, cutting a text stream into
//! event blocks, and keeping per-connection stream state.
use vstd::prelude::*;
use crate::text::{push_str, split, trim, trim_start, starts_with, parse_unsigned, str_chars, split_chars, trim_chars, trim_start_chars, starts_with_str, chars_eq_str, slice_chars, string_from_chars, to_owned_string, parse_u64_chars, lemma_split_nonempty, decimal, lemma_decimal_digits, lemma_decimal_parses, is_digit, is_space, lead_ws};
use crate::ws_handshake::join;
use crate::ws_handshake::join_exec;
use crate::keyed::{keys_unique, has_key, lookup, find_key, lemma_update_value, lemma_push_new, lemma_pos_unique, lemma_remove_at};
use crate::chat::{JsonValue, Jv, parse_json, pretty_json, json_parse, json_pretty};
use crate::completion::{assemble_chat_completion, assembled, payloads_view, oval};

verus! {

/// One server-sent event.
#[derive(Debug)]
pub struct SseEvent {
    pub seq: u64,
    pub ts: u64,
    pub id: Option<String>,
    pub event: Option<String>,
    pub retry: Option<u64>,
    pub data: String,
    pub raw: Option<String>,
    pub parse_error: bool,
}

pub struct SseEventModel {
    pub seq: u64,
    pub ts: u64,
    pub id: Option<Seq<char>>,
    pub event: Option<Seq<char>>,
    pub retry: Option<u64>,
    pub data: Seq<char>,
    pub raw: Option<Seq<char>>,
    pub parse_error: bool,
}

pub open spec fn opt_chars(o: Option<String>) -> Option<Seq<char>> {
    match o {
        Some(s) => Some(s@),
        None => None,
    }
}

impl View for SseEvent {
    type V = SseEventModel;

    open spec fn view(&self) -> SseEventModel {
        SseEventModel {
            seq: self.seq,
            ts: self.ts,
            id: opt_chars(self.id),
            event: opt_chars(self.event),
            retry: self.retry,
            data: self.data@,
            raw: opt_chars(self.raw),
            parse_error: self.parse_error,
        }
    }
}

// ---------------------------------------------------------------------------
// One event block
// ---------------------------------------------------------------------------

/// Number of trailing carriage returns.
pub open spec fn trailing_cr(l: Seq<char>) -> nat
    decreases l.len(),
{
    if l.len() > 0 && l.last() == '\r' {
        1 + trailing_cr(l.drop_last())
    } else {
        0
    }
}

/// A line without its trailing carriage returns (`trim_end_matches('\r')`).
pub open spec fn strip_crs(l: Seq<char>) -> Seq<char> {
    l.take(l.len() - trailing_cr(l))
}

/// The fields collected from the lines of an event block so far.
pub struct Fields {
    pub id: Option<Seq<char>>,
    pub event: Option<Seq<char>>,
    pub retry: Option<u64>,
    pub data: Seq<Seq<char>>,
}

pub open spec fn no_fields() -> Fields {
    Fields { id: None, event: None, retry: None, data: Seq::empty() }
}

/// The effect of one line: `data:` adds a data line; `event:` and `id:` set
/// their field when the value is not empty; `retry:` sets the retry time
/// when the value is a number; comments (`:`), empty and other lines are
/// ignored. Values lose their leading white space.
pub open spec fn field_step(f: Fields, raw_line: Seq<char>) -> Fields {
    let line = strip_crs(raw_line);
    if line.len() == 0 || line[0] == ':' {
        f
    } else if starts_with(line, "data:"@) {
        Fields { data: f.data.push(trim_start(line.skip(5))), ..f }
    } else if starts_with(line, "event:"@) {
        let v = trim_start(line.skip(6));
        if v.len() > 0 {
            Fields { event: Some(v), ..f }
        } else {
            f
        }
    } else if starts_with(line, "id:"@) {
        let v = trim_start(line.skip(3));
        if v.len() > 0 {
            Fields { id: Some(v), ..f }
        } else {
            f
        }
    } else if starts_with(line, "retry:"@) {
        match parse_unsigned(trim_start(line.skip(6)), u64::MAX as nat) {
            Some(n) => Fields { retry: Some(n as u64), ..f },
            None => f,
        }
    } else {
        f
    }
}

pub open spec fn fold_fields(ls: Seq<Seq<char>>) -> Fields
    decreases ls.len(),
{
    if ls.len() == 0 {
        no_fields()
    } else {
        field_step(fold_fields(ls.drop_last()), ls.last())
    }
}

/// What an event block reads as. Without `data:` lines the whole block is
/// the data; a `[DONE]` message with no event name is a `finish` event.
pub open spec fn parse_event_spec(raw: Seq<char>, parse_error: bool) -> SseEventModel {
    let f = fold_fields(split(raw, '\n'));
    let data = if f.data.len() > 0 {
        join(f.data, seq!['\n'])
    } else {
        raw
    };
    let event = if f.event is None && trim(data) == "[DONE]"@ {
        Some("finish"@)
    } else {
        f.event
    };
    SseEventModel {
        seq: 0,
        ts: 0,
        id: f.id,
        event,
        retry: f.retry,
        data,
        raw: if parse_error {
            Some(raw)
        } else {
            None
        },
        parse_error,
    }
}

fn strip_crs_exec(l: &[char]) -> (r: Vec<char>)
    ensures
        r@ == strip_crs(l@),
{
    let mut end: usize = l.len();
    assert(l@.take(l@.len() as int) =~= l@);
    while end > 0 && l[end - 1] == '\r'
        invariant
            end <= l.len(),
            trailing_cr(l@) == (l.len() - end) + trailing_cr(l@.take(end as int)),
        decreases end,
    {
        proof {
            assert(l@.take(end as int).drop_last() =~= l@.take(end - 1));
        }
        end = end - 1;
    }
    proof {
        assert(l@.len() - trailing_cr(l@) == end);
    }
    slice_chars(l, 0, end)
}

/// The rest of `line` after its first `n` characters.
fn skip_chars(line: &[char], n: usize) -> (r: Vec<char>)
    requires
        n <= line.len(),
    ensures
        r@ == line@.skip(n as int),
{
    let r = slice_chars(line, n, line.len());
    assert(r@ =~= line@.skip(n as int));
    r
}

struct FieldsExec {
    id: Option<Vec<char>>,
    event: Option<Vec<char>>,
    retry: Option<u64>,
    data: Vec<Vec<char>>,
}

spec fn opt_vec(o: Option<Vec<char>>) -> Option<Seq<char>> {
    match o {
        Some(v) => Some(v@),
        None => None,
    }
}

spec fn fields_view(f: FieldsExec) -> Fields {
    Fields {
        id: opt_vec(f.id),
        event: opt_vec(f.event),
        retry: f.retry,
        data: f.data@.map_values(|v: Vec<char>| v@),
    }
}

fn field_step_exec(f: FieldsExec, raw_line: &[char]) -> (r: FieldsExec)
    ensures
        fields_view(r) == field_step(fields_view(f), raw_line@),
{
    let line = strip_crs_exec(raw_line);
    if line.len() == 0 || line[0] == ':' {
        return f;
    }
    let mut f = f;
    if starts_with_str(&line, "data:") {
        proof {
            reveal_strlit("data:");
        }
        let rest = skip_chars(&line, 5);
        let v = trim_start_chars(&rest);
        let ghost before = f.data@;
        f.data.push(v);
        proof {
            assert(f.data@.map_values(|v: Vec<char>| v@) =~= before.map_values(|v: Vec<char>| v@).push(v@));
        }
        return f;
    }
    if starts_with_str(&line, "event:") {
        proof {
            reveal_strlit("event:");
        }
        let rest = skip_chars(&line, 6);
        let v = trim_start_chars(&rest);
        if v.len() > 0 {
            f.event = Some(v);
        }
        return f;
    }
    if starts_with_str(&line, "id:") {
        proof {
            reveal_strlit("id:");
        }
        let rest = skip_chars(&line, 3);
        let v = trim_start_chars(&rest);
        if v.len() > 0 {
            f.id = Some(v);
        }
        return f;
    }
    if starts_with_str(&line, "retry:") {
        proof {
            reveal_strlit("retry:");
        }
        let rest = skip_chars(&line, 6);
        let v = trim_start_chars(&rest);
        match parse_u64_chars(&v) {
            Some(n) => {
                f.retry = Some(n);
            },
            None => {},
        }
        return f;
    }
    f
}

/// Reads an event block given as characters.
pub fn parse_sse_event_chars(raw: &[char], parse_error: bool) -> (e: SseEvent)
    ensures
        e@ == parse_event_spec(raw@, parse_error),
{
    let lines = split_chars(raw, '\n');
    proof {
        lemma_split_nonempty(raw@, '\n');
    }
    let ghost ls = split(raw@, '\n');
    let mut f = FieldsExec { id: None, event: None, retry: None, data: Vec::new() };
    proof {
        assert(f.data@.map_values(|v: Vec<char>| v@) =~= Seq::<Seq<char>>::empty());
        assert(fields_view(f) == no_fields());
        assert(ls.take(0) =~= Seq::<Seq<char>>::empty());
    }
    let mut i: usize = 0;
    while i < lines.len()
        invariant
            i <= lines@.len(),
            ls == split(raw@, '\n'),
            lines@.len() == ls.len(),
            forall|k: int| 0 <= k < lines@.len() ==> #[trigger] lines@[k]@ == ls[k],
            fields_view(f) == fold_fields(ls.take(i as int)),
        decreases lines@.len() - i,
    {
        proof {
            assert(ls.take(i + 1).drop_last() =~= ls.take(i as int));
            assert(ls.take(i + 1).last() == lines@[i as int]@);
        }
        f = field_step_exec(f, &lines[i]);
        i = i + 1;
    }
    proof {
        assert(ls.take(lines@.len() as int) =~= ls);
    }
    let ghost fv = fields_view(f);
    assert(fv == fold_fields(split(raw@, '\n')));
    let data: Vec<char> = if f.data.len() > 0 {
        let nl = vec!['\n'];
        assert(nl@ =~= seq!['\n']);
        join_exec(&f.data, &nl)
    } else {
        slice_chars(raw, 0, raw.len())
    };
    proof {
        assert(raw@.subrange(0, raw@.len() as int) =~= raw@);
        assert(data@ == if fv.data.len() > 0 { join(fv.data, seq!['\n']) } else { raw@ });
    }
    let trimmed = trim_chars(&data);
    let event = if f.event.is_none() && chars_eq_str(&trimmed, "[DONE]") {
        Some(to_owned_string("finish"))
    } else {
        match f.event {
            Some(v) => Some(string_from_chars(&v)),
            None => None,
        }
    };
    let id = match f.id {
        Some(v) => Some(string_from_chars(&v)),
        None => None,
    };
    let raw_copy = if parse_error {
        Some(string_from_chars(raw))
    } else {
        None
    };
    SseEvent {
        seq: 0,
        ts: 0,
        id,
        event,
        retry: f.retry,
        data: string_from_chars(&data),
        raw: raw_copy,
        parse_error,
    }
}

/// Reads an event block, recording the raw text when it is marked as a
/// parse error.
pub fn parse_sse_event_with_error(raw: &str, parse_error: bool) -> (e: SseEvent)
    ensures
        e@ == parse_event_spec(raw@, parse_error),
{
    let rc = str_chars(raw);
    parse_sse_event_chars(&rc, parse_error)
}

/// Reads an event block.
pub fn parse_sse_event(raw: &str) -> (e: SseEvent)
    ensures
        e@ == parse_event_spec(raw@, false),
{
    parse_sse_event_with_error(raw, false)
}

// ---------------------------------------------------------------------------
// Cutting a stream into event blocks
// ---------------------------------------------------------------------------

/// Where the scan of a stream stands: the blocks found so far, the text of
/// the block being read, and whether the last character kept was a newline.
pub struct ScanState {
    pub blocks: Seq<Seq<char>>,
    pub buffer: Seq<char>,
    pub prev_nl: bool,
}

/// Number of trailing newlines.
pub open spec fn trailing_nl(l: Seq<char>) -> nat
    decreases l.len(),
{
    if l.len() > 0 && l.last() == '\n' {
        1 + trailing_nl(l.drop_last())
    } else {
        0
    }
}

/// One character of the stream, with the one after it: `\r` before `\n` is
/// dropped; a second newline in a row ends the block (without its trailing
/// newlines; empty blocks are dropped).
pub open spec fn scan_step(st: ScanState, ch: char, next: Option<char>) -> ScanState {
    if ch == '\r' && next == Some('\n') {
        st
    } else if ch == '\n' {
        if st.prev_nl {
            let chunk = st.buffer.take(st.buffer.len() - trailing_nl(st.buffer));
            ScanState {
                blocks: if chunk.len() > 0 {
                    st.blocks.push(chunk)
                } else {
                    st.blocks
                },
                buffer: Seq::empty(),
                prev_nl: false,
            }
        } else {
            ScanState { buffer: st.buffer.push('\n'), prev_nl: true, ..st }
        }
    } else {
        ScanState { buffer: st.buffer.push(ch), prev_nl: false, ..st }
    }
}

/// The scan state after the first `n` characters of `s`.
pub open spec fn scan(s: Seq<char>, n: nat) -> ScanState
    recommends
        n <= s.len(),
    decreases n,
{
    if n == 0 {
        ScanState { blocks: Seq::empty(), buffer: Seq::empty(), prev_nl: false }
    } else {
        scan_step(
            scan(s, (n - 1) as nat),
            s[n - 1],
            if n < s.len() {
                Some(s[n as int])
            } else {
                None
            },
        )
    }
}

/// The first `n` characters of `s` with each `\r` that comes before a `\n`
/// dropped.
pub open spec fn lf_form(s: Seq<char>, n: nat) -> Seq<char>
    decreases n,
{
    if n == 0 {
        Seq::empty()
    } else {
        let prev = lf_form(s, (n - 1) as nat);
        let i = n - 1;
        if s[i] == '\r' && n < s.len() && s[n as int] == '\n' {
            prev
        } else {
            prev.push(s[i])
        }
    }
}

/// A text holds a blank line: two newlines in a row.
pub open spec fn has_blank_line(t: Seq<char>) -> bool {
    exists|i: int| 0 <= i && i + 1 < t.len() && #[trigger] t[i] == '\n' && t[i + 1] == '\n'
}

proof fn lemma_scan_shape(s: Seq<char>, n: nat)
    requires
        n <= s.len(),
    ensures
        scan(s, n).prev_nl == (scan(s, n).buffer.len() > 0 && scan(s, n).buffer.last() == '\n'),
        !has_blank_line(scan(s, n).buffer),
        !has_blank_line(lf_form(s, n)) ==> scan(s, n).blocks.len() == 0 && scan(s, n).buffer == lf_form(s, n),
    decreases n,
{
    if n > 0 {
        let m = (n - 1) as nat;
        lemma_scan_shape(s, m);
        let st = scan(s, m);
        let ch = s[m as int];
        let next: Option<char> = if n < s.len() { Some(s[n as int]) } else { None };
        let st2 = scan(s, n);
        assert(st2 == scan_step(st, ch, next));
        if ch == '\r' && next == Some('\n') {
        } else if ch == '\n' {
            if st.prev_nl {
                assert(st2.buffer =~= Seq::<char>::empty());
            } else {
                let b = st.buffer;
                assert(st2.buffer == b.push('\n'));
                assert forall|i: int| 0 <= i && i + 1 < st2.buffer.len() && #[trigger] st2.buffer[i] == '\n' implies st2.buffer[i + 1] != '\n' by {
                    if i + 1 < b.len() {
                        assert(st2.buffer[i] == b[i] && st2.buffer[i + 1] == b[i + 1]);
                    } else {
                        assert(st2.buffer[i] == b[i]);
                    }
                }
            }
        } else {
            let b = st.buffer;
            assert(st2.buffer == b.push(ch));
            assert forall|i: int| 0 <= i && i + 1 < st2.buffer.len() && #[trigger] st2.buffer[i] == '\n' implies st2.buffer[i + 1] != '\n' by {
                if i + 1 < b.len() {
                    assert(st2.buffer[i] == b[i] && st2.buffer[i + 1] == b[i + 1]);
                }
            }
        }
        let prev = lf_form(s, m);
        let cur = lf_form(s, n);
        if !has_blank_line(cur) {
            assert(!has_blank_line(prev)) by {
                if has_blank_line(prev) {
                    let i = choose|i: int| 0 <= i && i + 1 < prev.len() && #[trigger] prev[i] == '\n' && prev[i + 1] == '\n';
                    if !(ch == '\r' && n < s.len() && s[n as int] == '\n') {
                        assert(cur[i] == prev[i] && cur[i + 1] == prev[i + 1]);
                    }
                }
            }
            if ch == '\n' && !(ch == '\r' && next == Some('\n')) {
                if st.prev_nl {
                    let i = prev.len() - 1;
                    assert(cur[i] == '\n' && cur[i + 1] == '\n');
                }
            }
        }
    }
}

/// Scanning a stream never leaves two newlines in a row in its unfinished
/// rest; and a text without a blank line (once each `\r` before a `\n` is
/// dropped) yields no event block and leaves that text as the rest.
pub proof fn lemma_scan_without_blank_lines(s: Seq<char>)
    ensures
        !has_blank_line(scan(s, s.len()).buffer),
        !has_blank_line(lf_form(s, s.len())) ==> scan(s, s.len()).blocks.len() == 0
            && scan(s, s.len()).buffer == lf_form(s, s.len()),
{
    lemma_scan_shape(s, s.len());
}

proof fn lemma_lf_form_prefix(s: Seq<char>, k: nat, j: nat)
    requires
        k <= j <= s.len(),
    ensures
        lf_form(s, k).len() <= lf_form(s, j).len(),
        lf_form(s, j).take(lf_form(s, k).len() as int) == lf_form(s, k),
    decreases j,
{
    if k < j {
        lemma_lf_form_prefix(s, k, (j - 1) as nat);
        let a = lf_form(s, k);
        let b = lf_form(s, (j - 1) as nat);
        let c = lf_form(s, j);
        if c != b {
            assert(c == b.push(s[j - 1]));
            assert(c.take(a.len() as int) =~= b.take(a.len() as int));
        }
    } else {
        assert(lf_form(s, j).take(lf_form(s, j).len() as int) =~= lf_form(s, j));
    }
}

proof fn lemma_scan_lf_step(s: Seq<char>, k: nat)
    requires
        k <= s.len(),
        forall|i: int| 0 <= i && i + 1 < s.len() && #[trigger] s[i] == '\r' ==> s[i + 1] != '\r',
    ensures
        scan(s, k) == scan(lf_form(s, s.len()), lf_form(s, k).len()),
    decreases k,
{
    let n = lf_form(s, s.len());
    lemma_lf_form_prefix(s, k, s.len());
    if k > 0 {
        let m = (k - 1) as nat;
        lemma_scan_lf_step(s, m);
        lemma_lf_form_prefix(s, m, s.len());
        let pm = lf_form(s, m);
        let pk = lf_form(s, k);
        let ch = s[m as int];
        let next_s: Option<char> = if k < s.len() { Some(s[k as int]) } else { None };
        assert(scan(s, k) == scan_step(scan(s, m), ch, next_s));
        if ch == '\r' && k < s.len() && s[k as int] == '\n' {
            assert(pk == pm);
        } else {
            assert(pk == pm.push(ch));
            let mk = pm.len();
            assert(n[mk as int] == ch) by {
                assert(n.take(pk.len() as int)[mk as int] == pk[mk as int]);
            }
            let next_n: Option<char> = if mk + 1 < n.len() { Some(n[mk + 1int]) } else { None };
            assert(scan(n, mk + 1) == scan_step(scan(n, mk), ch, next_n));
            if ch == '\r' {
                if mk + 1 < n.len() {
                    assert(k < s.len()) by {
                        if k >= s.len() {
                            assert(k == s.len());
                            assert(pk == n);
                        }
                    }
                    assert(s[k as int] != '\r');
                    let pk1 = lf_form(s, k + 1);
                    lemma_lf_form_prefix(s, k + 1, s.len());
                    assert(pk1 == pk.push(s[k as int]));
                    assert(n[mk + 1int] == s[k as int]) by {
                        assert(n.take(pk1.len() as int)[mk + 1int] == pk1[mk + 1int]);
                    }
                }
            }
        }
    }
}

/// Reading a stream whose text has no `\r\r` cuts the same event blocks,
/// and leaves the same rest, as reading its text with each `\r\n` turned
/// into `\n`.
pub proof fn lemma_scan_crlf_as_lf(s: Seq<char>)
    requires
        forall|i: int| 0 <= i && i + 1 < s.len() && #[trigger] s[i] == '\r' ==> s[i + 1] != '\r',
    ensures
        scan(s, s.len()) == scan(lf_form(s, s.len()), lf_form(s, s.len()).len()),
{
    lemma_scan_lf_step(s, s.len());
}

/// Splits a text stream into event blocks: the events of the complete
/// blocks, and the unfinished rest.
pub fn parse_sse_events_from_text(input: &str) -> (r: (Vec<SseEvent>, String))
    ensures
        r.0@.len() == scan(input@, input@.len()).blocks.len(),
        forall|k: int| 0 <= k < r.0@.len() ==> #[trigger] r.0@[k]@ == parse_event_spec(scan(input@, input@.len()).blocks[k], false),
        r.1@ == scan(input@, input@.len()).buffer,
{
    let s = str_chars(input);
    let mut events: Vec<SseEvent> = Vec::new();
    let mut buffer: Vec<char> = Vec::new();
    let mut prev_nl = false;
    let mut i: usize = 0;
    while i < s.len()
        invariant
            i <= s@.len(),
            s@ == input@,
            events@.len() == scan(s@, i as nat).blocks.len(),
            forall|k: int| 0 <= k < events@.len() ==> #[trigger] events@[k]@ == parse_event_spec(scan(s@, i as nat).blocks[k], false),
            buffer@ == scan(s@, i as nat).buffer,
            prev_nl == scan(s@, i as nat).prev_nl,
        decreases s@.len() - i,
    {
        let ch = s[i];
        let next: Option<char> = if i + 1 < s.len() { Some(s[i + 1]) } else { None };
        let ghost st = scan(s@, i as nat);
        proof {
            assert(scan(s@, (i + 1) as nat) == scan_step(st, ch, next));
        }
        if ch == '\r' && next == Some('\n') {
        } else if ch == '\n' {
            if prev_nl {
                let mut end: usize = buffer.len();
                assert(buffer@.take(buffer@.len() as int) =~= buffer@);
                while end > 0 && buffer[end - 1] == '\n'
                    invariant
                        end <= buffer@.len(),
                        trailing_nl(buffer@) == (buffer@.len() - end) + trailing_nl(buffer@.take(end as int)),
                    decreases end,
                {
                    proof {
                        assert(buffer@.take(end as int).drop_last() =~= buffer@.take(end - 1));
                    }
                    end = end - 1;
                }
                let chunk = slice_chars(&buffer, 0, end);
                proof {
                    assert(chunk@ =~= buffer@.take(buffer@.len() - trailing_nl(buffer@)));
                }
                if chunk.len() > 0 {
                    let ev = parse_sse_event_chars(&chunk, false);
                    events.push(ev);
                }
                buffer = Vec::new();
                prev_nl = false;
            } else {
                buffer.push('\n');
                prev_nl = true;
            }
        } else {
            prev_nl = false;
            buffer.push(ch);
        }
        i = i + 1;
    }
    (events, string_from_chars(&buffer))
}

// ---------------------------------------------------------------------------
// Per-connection state
// ---------------------------------------------------------------------------

/// The stream state of one SSE connection.
#[derive(Debug, Clone, Copy, PartialEq, Eq, Structural)]
pub struct SseConnectionState {
    pub is_open: bool,
    pub receive_bytes: u64,
    pub receive_count: u64,
    /// Until when (milliseconds) the raw stream should be flushed eagerly,
    /// because someone is watching it.
    pub force_flush_until_ms: u64,
}

impl SseConnectionState {
    pub fn new() -> (s: SseConnectionState)
        ensures
            s == (SseConnectionState { is_open: true, receive_bytes: 0, receive_count: 0, force_flush_until_ms: 0 }),
    {
        SseConnectionState { is_open: true, receive_bytes: 0, receive_count: 0, force_flush_until_ms: 0 }
    }
}

pub open spec fn fresh_state() -> SseConnectionState {
    SseConnectionState { is_open: true, receive_bytes: 0, receive_count: 0, force_flush_until_ms: 0 }
}

pub open spec fn sat_add(a: u64, b: u64) -> u64 {
    if a + b > u64::MAX {
        u64::MAX
    } else {
        (a + b) as u64
    }
}

/// What a socket reports about its traffic.
#[derive(Debug, Clone, Copy, PartialEq, Eq, Structural)]
pub struct SocketCounters {
    pub is_open: bool,
    pub send_count: u64,
    pub receive_count: u64,
    pub send_bytes: u64,
    pub receive_bytes: u64,
    pub frame_count: u64,
}

/// SSE connections by connection id.
pub struct SseHub {
    connections: Vec<(String, SseConnectionState)>,
}

impl SseHub {
    pub closed spec fn wf(&self) -> bool {
        keys_unique(self.connections@)
    }

    /// The state of a connection, if registered.
    pub closed spec fn state(&self, id: Seq<char>) -> Option<SseConnectionState> {
        lookup(self.connections@, id)
    }

    /// The ids of the registered connections.
    pub closed spec fn ids(&self) -> Set<Seq<char>> {
        Set::new(|k: Seq<char>| has_key(self.connections@, k))
    }

    pub fn new() -> (h: SseHub)
        ensures
            h.wf(),
            forall|k: Seq<char>| h.state(k) is None,
    {
        SseHub { connections: Vec::new() }
    }

    /// Applies `f` to the state of `id`, when registered.
    fn update_with(&mut self, id: &str, op: u8, amount: u64)
        requires
            old(self).wf(),
        ensures
            final(self).wf(),
            match old(self).state(id@) {
                Some(s) => final(self).state(id@) == Some(apply_op(s, op, amount)),
                None => final(self).state(id@) is None,
            },
            forall|k: Seq<char>| k != id@ ==> final(self).state(k) == old(self).state(k),
    {
        match find_key(&self.connections, id) {
            Some(i) => {
                proof {
                    lemma_pos_unique(self.connections@, id@, i as int);
                }
                let st = self.connections[i].1;
                let next = apply_op_exec(st, op, amount);
                let k = self.connections[i].0.clone();
                proof {
                    lemma_update_value(self.connections@, i as int, (k, next));
                }
                self.connections.set(i, (k, next));
            },
            None => {},
        }
    }

    /// Starts tracking a connection (a connection already tracked keeps its state).
    pub fn register(&mut self, connection_id: &str)
        requires
            old(self).wf(),
        ensures
            final(self).wf(),
            final(self).state(connection_id@) == Some(match old(self).state(connection_id@) {
                Some(s) => s,
                None => fresh_state(),
            }),
            forall|k: Seq<char>| k != connection_id@ ==> final(self).state(k) == old(self).state(k),
    {
        match find_key(&self.connections, connection_id) {
            Some(i) => {
                proof {
                    lemma_pos_unique(self.connections@, connection_id@, i as int);
                }
            },
            None => {
                let k = to_owned_string(connection_id);
                let st = SseConnectionState::new();
                proof {
                    lemma_push_new(self.connections@, (k, st));
                }
                self.connections.push((k, st));
            },
        }
    }

    /// Marks a connection closed.
    pub fn set_closed(&mut self, connection_id: &str)
        requires
            old(self).wf(),
        ensures
            final(self).wf(),
            match old(self).state(connection_id@) {
                Some(s) => final(self).state(connection_id@) == Some(SseConnectionState { is_open: false, ..s }),
                None => final(self).state(connection_id@) is None,
            },
            forall|k: Seq<char>| k != connection_id@ ==> final(self).state(k) == old(self).state(k),
    {
        self.update_with(connection_id, 0, 0);
    }

    /// Stops tracking a connection.
    pub fn unregister(&mut self, connection_id: &str)
        requires
            old(self).wf(),
        ensures
            final(self).wf(),
            final(self).state(connection_id@) is None,
            forall|k: Seq<char>| k != connection_id@ ==> final(self).state(k) == old(self).state(k),
    {
        match find_key(&self.connections, connection_id) {
            Some(i) => {
                proof {
                    lemma_pos_unique(self.connections@, connection_id@, i as int);
                }
                let ghost before = self.connections@;
                self.connections.remove(i);
                proof {
                    lemma_remove_at(before, i as int);
                }
            },
            None => {},
        }
    }

    /// Counts received bytes (saturating).
    pub fn add_receive_bytes(&mut self, connection_id: &str, bytes: usize)
        requires
            old(self).wf(),
        ensures
            final(self).wf(),
            match old(self).state(connection_id@) {
                Some(s) => final(self).state(connection_id@) == Some(SseConnectionState { receive_bytes: sat_add(s.receive_bytes, bytes as u64), ..s }),
                None => final(self).state(connection_id@) is None,
            },
            forall|k: Seq<char>| k != connection_id@ ==> final(self).state(k) == old(self).state(k),
    {
        self.update_with(connection_id, 1, bytes as u64);
    }

    /// Counts one received event (saturating).
    pub fn add_receive_event(&mut self, connection_id: &str)
        requires
            old(self).wf(),
        ensures
            final(self).wf(),
            match old(self).state(connection_id@) {
                Some(s) => final(self).state(connection_id@) == Some(SseConnectionState { receive_count: sat_add(s.receive_count, 1), ..s }),
                None => final(self).state(connection_id@) is None,
            },
            forall|k: Seq<char>| k != connection_id@ ==> final(self).state(k) == old(self).state(k),
    {
        self.update_with(connection_id, 2, 1);
    }

    /// Asks for eager flushing until `now_ms + duration_ms` (saturating); the
    /// connection is registered if it was not. A later deadline never moves back.
    pub fn request_force_flush(&mut self, connection_id: &str, now_ms: u64, duration_ms: u64)
        requires
            old(self).wf(),
        ensures
            final(self).wf(),
            final(self).state(connection_id@) == Some({
                let s = match old(self).state(connection_id@) {
                    Some(s) => s,
                    None => fresh_state(),
                };
                let until = sat_add(now_ms, duration_ms);
                SseConnectionState {
                    force_flush_until_ms: if s.force_flush_until_ms >= until { s.force_flush_until_ms } else { until },
                    ..s
                }
            }),
            forall|k: Seq<char>| k != connection_id@ ==> final(self).state(k) == old(self).state(k),
    {
        self.register(connection_id);
        let until = now_ms.saturating_add(duration_ms);
        self.update_with(connection_id, 3, until);
    }

    /// Whether the stream should be flushed eagerly at `now_ms`.
    pub fn should_force_flush(&self, connection_id: &str, now_ms: u64) -> (b: bool)
        requires
            self.wf(),
        ensures
            b == match self.state(connection_id@) {
                Some(s) => s.force_flush_until_ms > now_ms,
                None => false,
            },
    {
        match self.get(connection_id) {
            Some(s) => s.force_flush_until_ms > now_ms,
            None => false,
        }
    }

    /// The state of a connection.
    pub fn get(&self, connection_id: &str) -> (r: Option<SseConnectionState>)
        requires
            self.wf(),
        ensures
            r == self.state(connection_id@),
    {
        match find_key(&self.connections, connection_id) {
            Some(i) => {
                proof {
                    lemma_pos_unique(self.connections@, connection_id@, i as int);
                }
                Some(self.connections[i].1)
            },
            None => None,
        }
    }

    /// Whether a connection is open; `None` when not registered.
    pub fn is_open(&self, connection_id: &str) -> (r: Option<bool>)
        requires
            self.wf(),
        ensures
            r == match self.state(connection_id@) {
                Some(s) => Some(s.is_open),
                None => None,
            },
    {
        match self.get(connection_id) {
            Some(s) => Some(s.is_open),
            None => None,
        }
    }

    /// The traffic counters of a connection, as a socket reports them.
    pub fn get_socket_status(&self, connection_id: &str) -> (r: Option<SocketCounters>)
        requires
            self.wf(),
        ensures
            r == match self.state(connection_id@) {
                Some(s) => Some(SocketCounters {
                    is_open: s.is_open,
                    send_count: 0,
                    receive_count: s.receive_count,
                    send_bytes: 0,
                    receive_bytes: s.receive_bytes,
                    frame_count: s.receive_count,
                }),
                None => None,
            },
    {
        match self.get(connection_id) {
            Some(s) => Some(SocketCounters {
                is_open: s.is_open,
                send_count: 0,
                receive_count: s.receive_count,
                send_bytes: 0,
                receive_bytes: s.receive_bytes,
                frame_count: s.receive_count,
            }),
            None => None,
        }
    }

    /// Number of registered connections.
    pub fn connection_count(&self) -> (n: usize)
        ensures
            n == self.connections_len(),
    {
        self.connections.len()
    }

    /// Number of open connections.
    pub closed spec fn open_total(&self) -> nat {
        open_count(self.connections@)
    }

    pub closed spec fn connections_len(&self) -> nat {
        self.connections@.len()
    }

    /// Number of registered connections that are open.
    pub fn open_connection_count(&self) -> (n: usize)
        ensures
            n == self.open_total(),
    {
        let mut n: usize = 0;
        let mut i: usize = 0;
        while i < self.connections.len()
            invariant
                i <= self.connections@.len(),
                n == open_count(self.connections@.take(i as int)),
                n <= i,
            decreases self.connections@.len() - i,
        {
            proof {
                assert(self.connections@.take(i + 1).drop_last() =~= self.connections@.take(i as int));
            }
            if self.connections[i].1.is_open {
                n = n + 1;
            }
            i = i + 1;
        }
        assert(self.connections@.take(self.connections@.len() as int) =~= self.connections@);
        n
    }
}

/// Number of open connections among the entries.
pub open spec fn open_count(es: Seq<(String, SseConnectionState)>) -> nat
    decreases es.len(),
{
    if es.len() == 0 {
        0
    } else {
        open_count(es.drop_last()) + if es.last().1.is_open {
            1nat
        } else {
            0nat
        }
    }
}

/// The state changes that the hub applies: close, add bytes, add one event,
/// raise the flush deadline.
pub open spec fn apply_op(s: SseConnectionState, op: u8, amount: u64) -> SseConnectionState {
    if op == 0 {
        SseConnectionState { is_open: false, ..s }
    } else if op == 1 {
        SseConnectionState { receive_bytes: sat_add(s.receive_bytes, amount), ..s }
    } else if op == 2 {
        SseConnectionState { receive_count: sat_add(s.receive_count, amount), ..s }
    } else {
        SseConnectionState {
            force_flush_until_ms: if s.force_flush_until_ms >= amount {
                s.force_flush_until_ms
            } else {
                amount
            },
            ..s
        }
    }
}

fn apply_op_exec(s: SseConnectionState, op: u8, amount: u64) -> (r: SseConnectionState)
    ensures
        r == apply_op(s, op, amount),
{
    if op == 0 {
        SseConnectionState { is_open: false, ..s }
    } else if op == 1 {
        SseConnectionState { receive_bytes: s.receive_bytes.saturating_add(amount), ..s }
    } else if op == 2 {
        SseConnectionState { receive_count: s.receive_count.saturating_add(amount), ..s }
    } else {
        SseConnectionState {
            force_flush_until_ms: if s.force_flush_until_ms >= amount {
                s.force_flush_until_ms
            } else {
                amount
            },
            ..s
        }
    }
}

/// `\n` written as the two characters `\` and `n`.
pub open spec fn escape_newlines(s: Seq<char>) -> Seq<char>
    decreases s.len(),
{
    if s.len() == 0 {
        Seq::empty()
    } else {
        escape_newlines(s.drop_last()) + if s.last() == '\n' { seq!['\\', 'n'] } else { seq![s.last()] }
    }
}

/// One server-sent event: `event: <name>`, then `data: <json>` with its line
/// breaks escaped so that the frame stays whole, then a blank line.
pub fn sse_event(event: &str, json_data: &str) -> (r: String)
    ensures
        r@ == "event: "@ + event@ + "\ndata: "@ + escape_newlines(json_data@) + "\n\n"@,
{
    let c = str_chars(json_data);
    let mut out: Vec<char> = Vec::new();
    let mut i: usize = 0;
    while i < c.len()
        invariant
            i <= c@.len(),
            c@ == json_data@,
            out@ == escape_newlines(c@.take(i as int)),
        decreases c@.len() - i,
    {
        proof {
            assert(c@.take(i + 1).drop_last() =~= c@.take(i as int));
            assert(c@.take(i + 1).last() == c@[i as int]);
        }
        if c[i] == '\n' {
            out.push('\\');
            out.push('n');
            proof {
                assert(out@ =~= escape_newlines(c@.take(i as int)) + seq!['\\', 'n']);
            }
        } else {
            out.push(c[i]);
            proof {
                assert(out@ =~= escape_newlines(c@.take(i as int)) + seq![c@[i as int]]);
            }
        }
        i = i + 1;
    }
    proof {
        assert(c@.take(i as int) =~= c@);
    }
    let mut s = to_owned_string("event: ");
    push_str(&mut s, event);
    push_str(&mut s, "\ndata: ");
    let data = string_from_chars(&out);
    push_str(&mut s, data.as_str());
    push_str(&mut s, "\n\n");
    s
}

// ---------------------------------------------------------------------------
// A streamed chat completion, assembled
// ---------------------------------------------------------------------------

/// Largest stream text, in bytes, that is assembled into a completion.
pub const MAX_OPENAI_LIKE_SSE_ASSEMBLY_INPUT_BYTES: usize = 512 * 1024;

/// The data of the events of a stream text.
pub open spec fn stream_datas(input: Seq<char>) -> Seq<Seq<char>> {
    let blocks = scan(input, input.len()).blocks;
    Seq::new(blocks.len(), |k: int| parse_event_spec(blocks[k], false).data)
}

/// The chunks that event data carry: each data trimmed, empty data and
/// `[DONE]` left out, the rest parsed as JSON.
pub open spec fn data_payloads(ds: Seq<Seq<char>>) -> Seq<Option<Jv>>
    decreases ds.len(),
{
    if ds.len() == 0 {
        Seq::empty()
    } else {
        let prev = data_payloads(ds.drop_last());
        let d = trim(ds.last());
        if d.len() == 0 || d == "[DONE]"@ {
            prev
        } else {
            prev.push(json_parse(d))
        }
    }
}

/// The completion assembled from a stream text: none for a text over the
/// size limit.
pub open spec fn assembled_from_text(input: &str) -> Option<Jv> {
    if input.len() > MAX_OPENAI_LIKE_SSE_ASSEMBLY_INPUT_BYTES {
        None
    } else {
        assembled(data_payloads(stream_datas(input@)))
    }
}

/// The chat completion that a streamed OpenAI-style response amounts to,
/// as indented JSON text; `None` when the text is too large or is not such
/// a stream.
pub fn assemble_openai_like_response_body_from_text(input: &str) -> (r: Option<String>)
    ensures
        match assembled_from_text(input) {
            Some(v) => r matches Some(s) && s@ == json_pretty(v),
            None => r is None,
        },
{
    if input.len() > MAX_OPENAI_LIKE_SSE_ASSEMBLY_INPUT_BYTES {
        return None;
    }
    let (events, _) = parse_sse_events_from_text(input);
    let ghost ds = stream_datas(input@);
    let mut payloads: Vec<Option<JsonValue>> = Vec::new();
    let mut i: usize = 0;
    proof {
        assert(ds.take(0) =~= Seq::<Seq<char>>::empty());
        assert(payloads_view(payloads@) =~= Seq::<Option<Jv>>::empty());
        assert forall|k: int| 0 <= k < events@.len() implies #[trigger] events@[k].data@ == ds[k] by {
            assert(events@[k]@ == parse_event_spec(scan(input@, input@.len()).blocks[k], false));
        }
    }
    while i < events.len()
        invariant
            i <= events@.len(),
            events@.len() == ds.len(),
            ds == stream_datas(input@),
            forall|k: int| 0 <= k < events@.len() ==> #[trigger] events@[k].data@ == ds[k],
            payloads_view(payloads@) == data_payloads(ds.take(i as int)),
        decreases events@.len() - i,
    {
        proof {
            assert(ds.take(i + 1).drop_last() =~= ds.take(i as int));
            assert(ds.take(i + 1).last() == ds[i as int]);
        }
        let raw = str_chars(events[i].data.as_str());
        let d = trim_chars(&raw);
        if d.len() > 0 && !chars_eq_str(&d, "[DONE]") {
            let text = string_from_chars(&d);
            let p = parse_json(text.as_str());
            let ghost before = payloads@;
            payloads.push(p);
            proof {
                assert(oval(p) == json_parse(d@));
                assert(payloads_view(payloads@) =~= payloads_view(before).push(oval(p)));
            }
        }
        i = i + 1;
    }
    proof {
        assert(ds.take(i as int) =~= ds);
    }
    match assemble_chat_completion(&payloads) {
        Some(v) => pretty_json(&v),
        None => None,
    }
}

// ---------------------------------------------------------------------------
// The retry field
// ---------------------------------------------------------------------------

proof fn lemma_trailing_cr_bound(l: Seq<char>)
    ensures
        trailing_cr(l) <= l.len(),
    decreases l.len(),
{
    if l.len() > 0 && l.last() == '\r' {
        lemma_trailing_cr_bound(l.drop_last());
    }
}

/// A line that does not start with `retry` leaves the retry time as it was.
proof fn lemma_step_keeps_retry(f: Fields, l: Seq<char>)
    requires
        !starts_with(l, "retry"@),
    ensures
        field_step(f, l).retry == f.retry,
{
    reveal_strlit("retry:");
    reveal_strlit("retry");
    let line = strip_crs(l);
    lemma_trailing_cr_bound(l);
    if starts_with(line, "retry:"@) {
        assert(l.subrange(0, 5) =~= "retry"@) by {
            assert forall|i: int| 0 <= i < 5 implies l.subrange(0, 5)[i] == "retry"@[i] by {
                assert(line[i] == l[i]);
                assert(line.subrange(0, 6)[i] == line[i]);
                assert("retry:"@[i] == "retry"@[i]);
            }
        }
    }
}

/// The line `retry: ` followed by the decimal text of a number sets the
/// retry time to that number.
proof fn lemma_step_sets_retry(f: Fields, n: u64)
    ensures
        field_step(f, "retry: "@ + decimal(n as nat)).retry == Some(n),
{
    reveal_strlit("retry: ");
    reveal_strlit("retry:");
    reveal_strlit("data:");
    reveal_strlit("event:");
    reveal_strlit("id:");
    let d = decimal(n as nat);
    lemma_decimal_digits(n as nat);
    let l = "retry: "@ + d;
    assert(is_digit(d[d.len() - 1]));
    assert(l.last() == d[d.len() - 1]);
    assert(trailing_cr(l) == 0);
    assert(strip_crs(l) =~= l);
    assert(l[0] == 'r');
    assert(!starts_with(l, "data:"@)) by {
        assert(l.subrange(0, 5)[0] != "data:"@[0]);
    }
    assert(!starts_with(l, "event:"@)) by {
        assert(l.subrange(0, 6)[0] != "event:"@[0]);
    }
    assert(!starts_with(l, "id:"@)) by {
        assert(l.subrange(0, 3)[0] != "id:"@[0]);
    }
    assert(l.subrange(0, 6) =~= "retry:"@);
    let v = l.skip(6);
    assert(v.drop_first() =~= d);
    assert(is_digit(d[0]));
    assert(lead_ws(d) == 0);
    assert(is_space(v[0]));
    assert(lead_ws(v) == 1);
    assert(trim_start(v) =~= d);
    lemma_decimal_parses(n as nat, u64::MAX as nat);
}

/// The retry time of the lines read so far is that of the last `retry`
/// line, where that line holds a number.
proof fn lemma_fold_retry(ls: Seq<Seq<char>>, j: int, n: u64)
    requires
        0 <= j < ls.len(),
        ls[j] == "retry: "@ + decimal(n as nat),
        forall|k: int| j < k < ls.len() ==> !starts_with(#[trigger] ls[k], "retry"@),
    ensures
        fold_fields(ls).retry == Some(n),
    decreases ls.len(),
{
    let prev = fold_fields(ls.drop_last());
    if j == ls.len() - 1 {
        lemma_step_sets_retry(prev, n);
    } else {
        let p = ls.drop_last();
        assert forall|k: int| j < k < p.len() implies !starts_with(#[trigger] p[k], "retry"@) by {
            assert(p[k] == ls[k]);
        }
        lemma_fold_retry(p, j, n);
        lemma_step_keeps_retry(prev, ls.last());
    }
}

/// An event block with a line `retry: N`, N the decimal text of a number of
/// 64 bits, and no later line starting with `retry`, reads with retry time N.
pub proof fn lemma_retry_line_sets_retry(raw: Seq<char>, j: int, n: u64, parse_error: bool)
    requires
        0 <= j < split(raw, '\n').len(),
        split(raw, '\n')[j] == "retry: "@ + decimal(n as nat),
        forall|k: int| j < k < split(raw, '\n').len() ==> !starts_with(#[trigger] split(raw, '\n')[k], "retry"@),
    ensures
        parse_event_spec(raw, parse_error).retry == Some(n),
{
    lemma_fold_retry(split(raw, '\n'), j, n);
}

// ---------------------------------------------------------------------------
// The event name and the id
// ---------------------------------------------------------------------------

/// A value that starts with no white space and ends with no carriage return,
/// after `prefix` and one space, is what the line's field takes.
proof fn lemma_spaced_value(prefix: Seq<char>, v: Seq<char>)
    requires
        v.len() > 0,
        !is_space(v[0]),
        v.last() != '\r',
    ensures
        strip_crs(prefix + seq![' '] + v) == prefix + seq![' '] + v,
        trim_start((prefix + seq![' '] + v).skip(prefix.len() as int)) == v,
{
    let l = prefix + seq![' '] + v;
    assert(l.last() == v.last());
    assert(trailing_cr(l) == 0);
    assert(strip_crs(l) =~= l);
    let w = l.skip(prefix.len() as int);
    assert(w =~= seq![' '] + v);
    assert(w.drop_first() =~= v);
    assert(lead_ws(v) == 0);
    assert(is_space(w[0]));
    assert(lead_ws(w) == 1);
    assert(trim_start(w) =~= v);
}

proof fn lemma_step_keeps_event_id(f: Fields, l: Seq<char>)
    ensures
        !starts_with(l, "event"@) ==> field_step(f, l).event == f.event,
        !starts_with(l, "id"@) ==> field_step(f, l).id == f.id,
{
    reveal_strlit("event:");
    reveal_strlit("event");
    reveal_strlit("id:");
    reveal_strlit("id");
    let line = strip_crs(l);
    lemma_trailing_cr_bound(l);
    if starts_with(line, "event:"@) {
        assert(l.subrange(0, 5) =~= "event"@) by {
            assert forall|i: int| 0 <= i < 5 implies l.subrange(0, 5)[i] == "event"@[i] by {
                assert(line[i] == l[i]);
                assert(line.subrange(0, 6)[i] == line[i]);
                assert("event:"@[i] == "event"@[i]);
            }
        }
    }
    if starts_with(line, "id:"@) {
        assert(l.subrange(0, 2) =~= "id"@) by {
            assert forall|i: int| 0 <= i < 2 implies l.subrange(0, 2)[i] == "id"@[i] by {
                assert(line[i] == l[i]);
                assert(line.subrange(0, 3)[i] == line[i]);
                assert("id:"@[i] == "id"@[i]);
            }
        }
    }
}

proof fn lemma_step_sets_event(f: Fields, v: Seq<char>)
    requires
        v.len() > 0,
        !is_space(v[0]),
        v.last() != '\r',
    ensures
        field_step(f, "event: "@ + v).event == Some(v),
{
    reveal_strlit("event: ");
    reveal_strlit("event:");
    reveal_strlit("data:");
    lemma_spaced_value("event:"@, v);
    let l = "event: "@ + v;
    assert(l =~= "event:"@ + seq![' '] + v);
    assert(!starts_with(l, "data:"@)) by {
        assert(l.subrange(0, 5)[0] != "data:"@[0]);
    }
    assert(l.subrange(0, 6) =~= "event:"@);
}

proof fn lemma_step_sets_id(f: Fields, v: Seq<char>)
    requires
        v.len() > 0,
        !is_space(v[0]),
        v.last() != '\r',
    ensures
        field_step(f, "id: "@ + v).id == Some(v),
{
    reveal_strlit("id: ");
    reveal_strlit("id:");
    reveal_strlit("data:");
    reveal_strlit("event:");
    lemma_spaced_value("id:"@, v);
    let l = "id: "@ + v;
    assert(l =~= "id:"@ + seq![' '] + v);
    assert(!starts_with(l, "data:"@)) by {
        assert(l.subrange(0, 5)[0] != "data:"@[0]);
    }
    assert(!starts_with(l, "event:"@)) by {
        if l.len() >= 6 {
            assert(l.subrange(0, 6)[0] != "event:"@[0]);
        }
    }
    assert(l.subrange(0, 3) =~= "id:"@);
}

proof fn lemma_fold_event(ls: Seq<Seq<char>>, j: int, v: Seq<char>)
    requires
        0 <= j < ls.len(),
        v.len() > 0,
        !is_space(v[0]),
        v.last() != '\r',
        ls[j] == "event: "@ + v,
        forall|k: int| j < k < ls.len() ==> !starts_with(#[trigger] ls[k], "event"@),
    ensures
        fold_fields(ls).event == Some(v),
    decreases ls.len(),
{
    let prev = fold_fields(ls.drop_last());
    if j == ls.len() - 1 {
        lemma_step_sets_event(prev, v);
    } else {
        let p = ls.drop_last();
        assert forall|k: int| j < k < p.len() implies !starts_with(#[trigger] p[k], "event"@) by {
            assert(p[k] == ls[k]);
        }
        lemma_fold_event(p, j, v);
        lemma_step_keeps_event_id(prev, ls.last());
    }
}

proof fn lemma_fold_id(ls: Seq<Seq<char>>, j: int, v: Seq<char>)
    requires
        0 <= j < ls.len(),
        v.len() > 0,
        !is_space(v[0]),
        v.last() != '\r',
        ls[j] == "id: "@ + v,
        forall|k: int| j < k < ls.len() ==> !starts_with(#[trigger] ls[k], "id"@),
    ensures
        fold_fields(ls).id == Some(v),
    decreases ls.len(),
{
    let prev = fold_fields(ls.drop_last());
    if j == ls.len() - 1 {
        lemma_step_sets_id(prev, v);
    } else {
        let p = ls.drop_last();
        assert forall|k: int| j < k < p.len() implies !starts_with(#[trigger] p[k], "id"@) by {
            assert(p[k] == ls[k]);
        }
        lemma_fold_id(p, j, v);
        lemma_step_keeps_event_id(prev, ls.last());
    }
}

/// An event block with a line `event: NAME` (NAME not empty, not starting
/// with white space, not ending in a carriage return) and no later line
/// starting with `event` reads as an event of that name.
pub proof fn lemma_event_line_names_event(raw: Seq<char>, j: int, v: Seq<char>, parse_error: bool)
    requires
        0 <= j < split(raw, '\n').len(),
        v.len() > 0,
        !is_space(v[0]),
        v.last() != '\r',
        split(raw, '\n')[j] == "event: "@ + v,
        forall|k: int| j < k < split(raw, '\n').len() ==> !starts_with(#[trigger] split(raw, '\n')[k], "event"@),
    ensures
        parse_event_spec(raw, parse_error).event == Some(v),
{
    lemma_fold_event(split(raw, '\n'), j, v);
}

/// An event block with a line `id: ID` (ID not empty, not starting with
/// white space, not ending in a carriage return) and no later line starting
/// with `id` reads with that id.
pub proof fn lemma_id_line_sets_id(raw: Seq<char>, j: int, v: Seq<char>, parse_error: bool)
    requires
        0 <= j < split(raw, '\n').len(),
        v.len() > 0,
        !is_space(v[0]),
        v.last() != '\r',
        split(raw, '\n')[j] == "id: "@ + v,
        forall|k: int| j < k < split(raw, '\n').len() ==> !starts_with(#[trigger] split(raw, '\n')[k], "id"@),
    ensures
        parse_event_spec(raw, parse_error).id == Some(v),
{
    lemma_fold_id(split(raw, '\n'), j, v);
}

// ---------------------------------------------------------------------------
// The data
// ---------------------------------------------------------------------------

proof fn lemma_step_keeps_data(f: Fields, l: Seq<char>)
    requires
        !starts_with(l, "data:"@),
    ensures
        field_step(f, l).data == f.data,
{
    reveal_strlit("data:");
    let line = strip_crs(l);
    lemma_trailing_cr_bound(l);
    if starts_with(line, "data:"@) {
        assert(l.subrange(0, 5) =~= "data:"@) by {
            assert forall|i: int| 0 <= i < 5 implies l.subrange(0, 5)[i] == "data:"@[i] by {
                assert(line[i] == l[i]);
                assert(line.subrange(0, 5)[i] == line[i]);
            }
        }
    }
}

proof fn lemma_step_adds_data(f: Fields, d: Seq<char>)
    requires
        d.len() > 0,
        !is_space(d[0]),
        d.last() != '\r',
    ensures
        field_step(f, "data: "@ + d).data == f.data.push(d),
{
    reveal_strlit("data: ");
    reveal_strlit("data:");
    lemma_spaced_value("data:"@, d);
    let l = "data: "@ + d;
    assert(l =~= "data:"@ + seq![' '] + d);
    assert(l.subrange(0, 5) =~= "data:"@);
}

proof fn lemma_fold_no_data(ls: Seq<Seq<char>>)
    requires
        forall|k: int| 0 <= k < ls.len() ==> !starts_with(#[trigger] ls[k], "data:"@),
    ensures
        fold_fields(ls).data.len() == 0,
    decreases ls.len(),
{
    if ls.len() > 0 {
        let p = ls.drop_last();
        assert forall|k: int| 0 <= k < p.len() implies !starts_with(#[trigger] p[k], "data:"@) by {
            assert(p[k] == ls[k]);
        }
        lemma_fold_no_data(p);
        lemma_step_keeps_data(fold_fields(p), ls.last());
    }
}

/// The data lines of a block with nothing but `data: ` lines.
pub open spec fn data_lines(ds: Seq<Seq<char>>) -> Seq<Seq<char>> {
    ds.map_values(|d: Seq<char>| "data: "@ + d)
}

proof fn lemma_fold_data_lines(ds: Seq<Seq<char>>)
    requires
        forall|i: int| 0 <= i < ds.len() ==> (#[trigger] ds[i]).len() > 0 && !is_space(ds[i][0]) && ds[i].last() != '\r',
    ensures
        fold_fields(data_lines(ds)).data == ds,
    decreases ds.len(),
{
    if ds.len() > 0 {
        let p = ds.drop_last();
        assert(data_lines(ds).drop_last() =~= data_lines(p));
        lemma_fold_data_lines(p);
        assert(data_lines(ds).last() == "data: "@ + ds.last());
        lemma_step_adds_data(fold_fields(data_lines(p)), ds.last());
        assert(p.push(ds.last()) =~= ds);
    } else {
        assert(data_lines(ds) =~= Seq::<Seq<char>>::empty());
    }
}

/// A block with no line starting with `data:` has the whole block as its
/// data.
pub proof fn lemma_block_without_data_lines(raw: Seq<char>, parse_error: bool)
    requires
        forall|k: int| 0 <= k < split(raw, '\n').len() ==> !starts_with(#[trigger] split(raw, '\n')[k], "data:"@),
    ensures
        parse_event_spec(raw, parse_error).data == raw,
{
    lemma_fold_no_data(split(raw, '\n'));
}

/// A block whose lines are `data: ` lines, each value not empty, not starting
/// with white space and not ending in a carriage return, has those values
/// joined by newlines, in order, as its data.
pub proof fn lemma_data_lines_joined(raw: Seq<char>, ds: Seq<Seq<char>>, parse_error: bool)
    requires
        ds.len() > 0,
        forall|i: int| 0 <= i < ds.len() ==> (#[trigger] ds[i]).len() > 0 && !is_space(ds[i][0]) && ds[i].last() != '\r',
        split(raw, '\n') == data_lines(ds),
    ensures
        parse_event_spec(raw, parse_error).data == join(ds, seq!['\n']),
{
    lemma_fold_data_lines(ds);
}

} // verus!
