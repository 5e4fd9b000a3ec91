//! The HTTP side of a WebSocket client handshake: reading the upgrade
//! response, looking up headers, and agreeing on sub-protocol and extensions.
use vstd::prelude::*;
use vstd::utf8::{valid_utf8, decode_utf8, encode_utf8};
use crate::bytes::utf8_to_string;
use crate::codec::{base64_standard, sha1_of, sha1_digest, base64_encode};
use crate::ws_frame::append_bytes;
use crate::text::{lower, split, split_once, trim, starts_with, parse_unsigned, lemma_split_nonempty, str_chars, lower_chars, chars_eq, split_chars, split_once_chars, trim_chars, string_from_chars, to_owned_string, parse_u16_chars, starts_with_str};

verus! {

// ---------------------------------------------------------------------------
// Specifications
// ---------------------------------------------------------------------------

/// `data[i..i + 4]` is the blank line `\r\n\r\n` that ends an HTTP head.
pub open spec fn blank_line_at(data: Seq<u8>, i: int) -> bool {
    &&& 0 <= i
    &&& i + 4 <= data.len()
    &&& data[i] == 13u8
    &&& data[i + 1] == 10u8
    &&& data[i + 2] == 13u8
    &&& data[i + 3] == 10u8
}

/// The position of the first `\r\n\r\n`, if any.
#[verifier::opaque]
pub open spec fn header_end_spec(data: Seq<u8>) -> Option<int> {
    if exists|i: int| blank_line_at(data, i) {
        Some(
            choose|i: int|
                blank_line_at(data, i) && forall|j: int| 0 <= j < i ==> !blank_line_at(data, j),
        )
    } else {
        None
    }
}

/// One line with a trailing carriage return removed.
pub open spec fn strip_cr(l: Seq<char>) -> Seq<char> {
    if l.len() > 0 && l.last() == '\r' {
        l.drop_last()
    } else {
        l
    }
}

/// What `str::lines` yields: the pieces between `\n`s, each losing a `\r`
/// that stood right before its `\n`; a final empty piece is not a line.
pub open spec fn lines(s: Seq<char>) -> Seq<Seq<char>> {
    let p = split(s, '\n');
    let body = Seq::new((p.len() - 1) as nat, |i: int| strip_cr(p[i]));
    if p.last().len() == 0 {
        body
    } else {
        body.push(p.last())
    }
}

/// The status code and reason text of a status line
/// (`HTTP/1.1 101 Switching Protocols`).
pub open spec fn status_line_spec(line: Seq<char>) -> Option<(u16, Seq<char>)> {
    match split_once(line, ' ') {
        None => None,
        Some((_, rest)) => {
            let (code, text) = match split_once(rest, ' ') {
                None => (rest, Seq::<char>::empty()),
                Some((b, c)) => (b, c),
            };
            match parse_unsigned(code, u16::MAX as nat) {
                Some(n) => Some((n as u16, text)),
                None => None,
            }
        },
    }
}

/// The header fields of the lines after the status line, up to the first
/// empty line; lines without a colon are skipped.
pub open spec fn header_fields(ls: Seq<Seq<char>>) -> Seq<(Seq<char>, Seq<char>)>
    decreases ls.len(),
{
    if ls.len() == 0 || ls[0].len() == 0 {
        Seq::empty()
    } else {
        match split_once(ls[0], ':') {
            Some((k, v)) => seq![(trim(k), trim(v))] + header_fields(ls.drop_first()),
            None => header_fields(ls.drop_first()),
        }
    }
}

pub struct ResponseModel {
    pub status_code: u16,
    pub status_text: Seq<char>,
    pub headers: Seq<(Seq<char>, Seq<char>)>,
}

/// The response that the lines of a head describe.
pub open spec fn response_from_lines_spec(ls: Seq<Seq<char>>) -> Option<ResponseModel> {
    if ls.len() == 0 {
        None
    } else {
        match status_line_spec(ls[0]) {
            None => None,
            Some((code, text)) => Some(
                ResponseModel {
                    status_code: code,
                    status_text: text,
                    headers: header_fields(ls.drop_first()),
                },
            ),
        }
    }
}

/// Reading an HTTP response head from the start of `data`: the response and
/// the number of bytes the head takes, blank line included.
pub open spec fn parse_response_spec(data: Seq<u8>) -> Option<(ResponseModel, nat)> {
    match header_end_spec(data) {
        None => None,
        Some(e) => {
            let head = data.take(e);
            if !valid_utf8(head) {
                None
            } else {
                match response_from_lines_spec(lines(decode_utf8(head))) {
                    Some(m) => Some((m, (e + 4) as nat)),
                    None => None,
                }
            }
        },
    }
}

/// Header names compare without regard to ASCII case.
pub open spec fn same_name(a: Seq<char>, b: Seq<char>) -> bool {
    lower(a) == lower(b)
}

/// The values of all fields called `name`, in order.
pub open spec fn values_named(hs: Seq<(Seq<char>, Seq<char>)>, name: Seq<char>) -> Seq<Seq<char>>
    decreases hs.len(),
{
    if hs.len() == 0 {
        Seq::empty()
    } else {
        let rest = values_named(hs.drop_last(), name);
        if same_name(hs.last().0, name) {
            rest.push(hs.last().1)
        } else {
            rest
        }
    }
}

/// The trimmed, non-empty items of a comma-separated list.
pub open spec fn list_item(s: Seq<char>, i: int) -> Seq<char> {
    trim(split(s, ',')[i])
}

pub open spec fn list_has(s: Seq<char>, item: Seq<char>) -> bool {
    exists|i: int| 0 <= i < split(s, ',').len() && #[trigger] list_item(s, i) == item
}

/// The sub-protocol both sides agree on: the upstream's choice, when the
/// client offered it.
pub open spec fn negotiate_protocol_spec(client: Option<Seq<char>>, upstream: Option<Seq<char>>) -> Option<
    Seq<char>,
> {
    match upstream {
        None => None,
        Some(u) => {
            let sel = trim(u);
            if sel.len() == 0 {
                None
            } else {
                match client {
                    None => None,
                    Some(c) => if list_has(c, sel) {
                        Some(sel)
                    } else {
                        None
                    },
                }
            }
        },
    }
}

/// The name of an extension item (`permessage-deflate; client_max_window_bits`).
pub open spec fn ext_name(item: Seq<char>) -> Seq<char> {
    lower(trim(split(item, ';')[0]))
}

/// `name` is an extension that the client offered.
pub open spec fn offered(client: Seq<char>, name: Seq<char>) -> bool {
    exists|i: int|
        0 <= i < split(client, ',').len() && list_item(client, i).len() > 0 && #[trigger] ext_name(
            list_item(client, i),
        ) == name
}

pub open spec fn offers_any(client: Seq<char>) -> bool {
    exists|i: int| 0 <= i < split(client, ',').len() && #[trigger] list_item(client, i).len() > 0
}

/// The items of `pieces` (already split at commas) that the client offered.
pub open spec fn accepted_items(client: Seq<char>, pieces: Seq<Seq<char>>) -> Seq<Seq<char>>
    decreases pieces.len(),
{
    if pieces.len() == 0 {
        Seq::empty()
    } else {
        let rest = accepted_items(client, pieces.drop_last());
        let t = trim(pieces.last());
        if t.len() > 0 && offered(client, ext_name(t)) {
            rest.push(t)
        } else {
            rest
        }
    }
}

/// The accepted items over all upstream header values, in order.
pub open spec fn accepted_all(client: Seq<char>, values: Seq<Seq<char>>) -> Seq<Seq<char>>
    decreases values.len(),
{
    if values.len() == 0 {
        Seq::empty()
    } else {
        accepted_all(client, values.drop_last()) + accepted_items(client, split(values.last(), ','))
    }
}

pub open spec fn join(parts: Seq<Seq<char>>, sep: Seq<char>) -> Seq<char>
    decreases parts.len(),
{
    if parts.len() == 0 {
        Seq::empty()
    } else if parts.len() == 1 {
        parts[0]
    } else {
        join(parts.drop_last(), sep) + sep + parts.last()
    }
}

/// The extensions to report to the client: the upstream's items whose names
/// the client offered, joined with `", "`.
pub open spec fn negotiate_extensions_spec(client: Option<Seq<char>>, values: Seq<Seq<char>>) -> Option<
    Seq<char>,
> {
    match client {
        None => None,
        Some(c) => {
            let acc = accepted_all(c, values);
            if !offers_any(c) || acc.len() == 0 {
                None
            } else {
                Some(join(acc, seq![',', ' ']))
            }
        },
    }
}

pub open spec fn has_permessage_deflate(ext: Seq<char>) -> bool {
    exists|i: int|
        0 <= i < split(ext, ',').len() && #[trigger] starts_with(
            list_item(ext, i),
            "permessage-deflate"@,
        )
}

// ---------------------------------------------------------------------------
// Executable code
// ---------------------------------------------------------------------------

/// Position of the first `\r\n\r\n` in `data`.
pub fn find_header_end(data: &[u8]) -> (r: Option<usize>)
    ensures
        r matches Some(e) ==> e + 4 <= data.len() && header_end_spec(data@) == Some(e as int),
        r is None ==> header_end_spec(data@) is None,
{
    reveal(header_end_spec);
    if data.len() < 4 {
        proof {
            assert forall|j: int| !blank_line_at(data@, j) by {}
        }
        return None;
    }
    let mut i: usize = 0;
    while i <= data.len() - 4
        invariant
            data.len() >= 4,
            forall|j: int| 0 <= j < i ==> !blank_line_at(data@, j),
        decreases data.len() - i,
    {
        if data[i] == 13 && data[i + 1] == 10 && data[i + 2] == 13 && data[i + 3] == 10 {
            proof {
                reveal(header_end_spec);
                assert(blank_line_at(data@, i as int));
                assert(blank_line_at(data@, i as int) && forall|j: int| 0 <= j < i ==> !blank_line_at(data@, j));
                let w = choose|k: int|
                    blank_line_at(data@, k) && forall|j: int| 0 <= j < k ==> !blank_line_at(data@, j);
                assert(blank_line_at(data@, w) && forall|j: int| 0 <= j < w ==> !blank_line_at(data@, j));
                if w < i {
                    assert(!blank_line_at(data@, w));
                } else if w > i {
                    assert(!blank_line_at(data@, i as int));
                }
                assert(w == i);
                assert(header_end_spec(data@) == Some(i as int));
            }
            return Some(i);
        }
        i = i + 1;
    }
    proof {
        assert forall|j: int| !blank_line_at(data@, j) by {
            if blank_line_at(data@, j) {
                assert(j < i);
            }
        }
    }
    None
}

fn strip_cr_exec(l: Vec<char>) -> (r: Vec<char>)
    ensures
        r@ == strip_cr(l@),
{
    let mut l = l;
    if l.len() > 0 && l[l.len() - 1] == '\r' {
        l.pop();
    }
    l
}

/// `str::lines` on a character sequence.
pub fn lines_exec(s: &[char]) -> (r: Vec<Vec<char>>)
    ensures
        r@.len() == lines(s@).len(),
        forall|k: int| 0 <= k < r@.len() ==> #[trigger] r@[k]@ == lines(s@)[k],
{
    let pieces = split_chars(s, '\n');
    proof {
        lemma_split_nonempty(s@, '\n');
    }
    let n = pieces.len();
    let mut r: Vec<Vec<char>> = Vec::new();
    let mut i: usize = 0;
    while i + 1 < n
        invariant
            n == pieces@.len(),
            n == split(s@, '\n').len(),
            n >= 1,
            i + 1 <= n,
            forall|k: int| 0 <= k < n ==> #[trigger] pieces@[k]@ == split(s@, '\n')[k],
            r@.len() == i,
            forall|k: int| 0 <= k < i ==> #[trigger] r@[k]@ == strip_cr(split(s@, '\n')[k]),
        decreases n - i,
    {
        let piece = pieces[i].clone();
        proof {
            assert(piece@ == pieces@[i as int]@);
        }
        r.push(strip_cr_exec(piece));
        i = i + 1;
    }
    let last = pieces[n - 1].clone();
    assert(last@ == split(s@, '\n').last());
    if last.len() > 0 {
        r.push(last);
    }
    proof {
        let p = split(s@, '\n');
        let body = Seq::new((p.len() - 1) as nat, |j: int| strip_cr(p[j]));
        assert(lines(s@) == if p.last().len() == 0 {
            body
        } else {
            body.push(p.last())
        });
        assert forall|k: int| 0 <= k < r@.len() implies #[trigger] r@[k]@ == lines(s@)[k] by {}
    }
    r
}

/// Reads the status line: its code and reason text.
pub fn parse_status_line(line: &[char]) -> (r: Option<(u16, Vec<char>)>)
    ensures
        match status_line_spec(line@) {
            Some((c, t)) => (r matches Some((c2, t2)) && c2 == c && t2@ == t),
            None => r is None,
        },
{
    match split_once_chars(line, ' ') {
        None => None,
        Some((_, rest)) => {
            let (code, text) = match split_once_chars(&rest, ' ') {
                None => (rest, Vec::new()),
                Some((b, c)) => (b, c),
            };
            assert(text@ == (match split_once(rest@, ' ') {
                None => Seq::<char>::empty(),
                Some((b, c)) => c,
            }));
            match parse_u16_chars(&code) {
                Some(n) => Some((n, text)),
                None => None,
            }
        },
    }
}

/// Reads the header fields from the lines after the status line.
fn parse_header_fields(ls: &Vec<Vec<char>>, from: usize) -> (r: Vec<(String, String)>)
    requires
        from <= ls@.len(),
    ensures
        r@.len() == header_fields(view_lines(ls@).skip(from as int)).len(),
        forall|k: int|
            0 <= k < r@.len() ==> (#[trigger] r@[k]).0@ == header_fields(
                view_lines(ls@).skip(from as int),
            )[k].0 && r@[k].1@ == header_fields(view_lines(ls@).skip(from as int))[k].1,
    decreases ls@.len() - from,
{
    let ghost rest = view_lines(ls@).skip(from as int);
    if from == ls.len() || ls[from].len() == 0 {
        proof {
            if from < ls@.len() {
                assert(rest[0] == ls@[from as int]@);
            }
        }
        return Vec::new();
    }
    proof {
        assert(rest[0] == ls@[from as int]@);
        assert(rest.drop_first() =~= view_lines(ls@).skip(from + 1));
    }
    let tail = parse_header_fields(ls, from + 1);
    match split_once_chars(&ls[from], ':') {
        Some((k, v)) => {
            let kt = trim_chars(&k);
            let vt = trim_chars(&v);
            let mut out: Vec<(String, String)> = Vec::new();
            out.push((string_from_chars(&kt), string_from_chars(&vt)));
            let mut i: usize = 0;
            while i < tail.len()
                invariant
                    i <= tail@.len(),
                    out@.len() == i + 1,
                    out@[0].0@ == trim(k@) && out@[0].1@ == trim(v@),
                    forall|j: int| 1 <= j <= i ==> (#[trigger] out@[j]).0@ == tail@[j - 1].0@ && out@[j].1@ == tail@[j - 1].1@,
                decreases tail@.len() - i,
            {
                let (a, b) = (to_owned_string(tail[i].0.as_str()), to_owned_string(tail[i].1.as_str()));
                out.push((a, b));
                i = i + 1;
            }
            out
        },
        None => tail,
    }
}

/// The contents of a list of lines.
pub open spec fn view_lines(ls: Seq<Vec<char>>) -> Seq<Seq<char>> {
    ls.map_values(|l: Vec<char>| l@)
}

/// The characters of `data[..e]`, when those bytes are UTF-8.
fn head_chars(data: &[u8], e: usize) -> (r: Option<Vec<char>>)
    requires
        e <= data.len(),
    ensures
        valid_utf8(data@.take(e as int)) ==> (r matches Some(t) && t@ == decode_utf8(data@.take(e as int))),
        !valid_utf8(data@.take(e as int)) ==> r is None,
{
    let mut head: Vec<u8> = Vec::new();
    let mut i: usize = 0;
    while i < e
        invariant
            e <= data.len(),
            i <= e,
            head@ == data@.take(i as int),
        decreases e - i,
    {
        head.push(data[i]);
        i = i + 1;
        assert(head@ =~= data@.take(i as int));
    }
    match utf8_to_string(&head) {
        Some(t) => Some(str_chars(t.as_str())),
        None => None,
    }
}

/// The response that a head's lines describe.
fn response_from_lines(ls: &Vec<Vec<char>>) -> (r: Option<HttpResponse>)
    ensures
        match response_from_lines_spec(view_lines(ls@)) {
            None => r is None,
            Some(m) => (r matches Some(resp) && resp@ == m),
        },
{
    if ls.len() == 0 {
        return None;
    }
    proof {
        assert(view_lines(ls@)[0] == ls@[0]@);
    }
    let (code, status_text) = match parse_status_line(&ls[0]) {
        Some(p) => p,
        None => return None,
    };
    let headers = parse_header_fields(ls, 1);
    proof {
        assert(view_lines(ls@).skip(1) =~= view_lines(ls@).drop_first());
        assert(view_headers(headers@) =~= header_fields(view_lines(ls@).drop_first()));
    }
    Some(HttpResponse { status_code: code, status_text: string_from_chars(&status_text), headers })
}

/// A WebSocket upgrade response head.
#[derive(Debug, Clone)]
pub struct HttpResponse {
    pub status_code: u16,
    pub status_text: String,
    pub headers: Vec<(String, String)>,
}

pub open spec fn view_headers(hs: Seq<(String, String)>) -> Seq<(Seq<char>, Seq<char>)> {
    hs.map_values(|p: (String, String)| (p.0@, p.1@))
}

impl View for HttpResponse {
    type V = ResponseModel;

    open spec fn view(&self) -> ResponseModel {
        ResponseModel {
            status_code: self.status_code,
            status_text: self.status_text@,
            headers: view_headers(self.headers@),
        }
    }
}

impl HttpResponse {
    /// Reads a response head from the start of `data`, with the number of
    /// bytes it takes; `None` while the head is incomplete or malformed.
    #[verifier::rlimit(40)]
    pub fn parse(data: &[u8]) -> (r: Option<(HttpResponse, usize)>)
        ensures
            match parse_response_spec(data@) {
                Some((m, n)) => (r matches Some((resp, k)) && resp@ == m && k == n),
                None => r is None,
            },
    {
        let e = match find_header_end(data) {
            Some(e) => e,
            None => {
                assert(header_end_spec(data@) is None);
                return None;
            },
        };
        assert(header_end_spec(data@) == Some(e as int));
        let text = match head_chars(data, e) {
            Some(t) => t,
            None => return None,
        };
        let ls = lines_exec(&text);
        proof {
            assert(view_lines(ls@) =~= lines(decode_utf8(data@.take(e as int))));
        }
        match response_from_lines(&ls) {
            Some(resp) => Some((resp, e + 4)),
            None => None,
        }
    }

    /// The value of the first field called `key`, ignoring ASCII case.
    pub fn header(&self, key: &str) -> (r: Option<String>)
        ensures
            match r {
                Some(v) => exists|i: int|
                    0 <= i < self.headers@.len() && same_name(self.headers@[i].0@, key@)
                        && v@ == self.headers@[i].1@ && forall|j: int|
                        0 <= j < i ==> !same_name(#[trigger] self.headers@[j].0@, key@),
                None => forall|i: int|
                    0 <= i < self.headers@.len() ==> !same_name(#[trigger] self.headers@[i].0@, key@),
            },
    {
        let kc = str_chars(key);
        let kl = lower_chars(&kc);
        let mut i: usize = 0;
        while i < self.headers.len()
            invariant
                i <= self.headers@.len(),
                kl@ == lower(key@),
                forall|j: int| 0 <= j < i ==> !same_name(#[trigger] self.headers@[j].0@, key@),
            decreases self.headers@.len() - i,
        {
            let nc = str_chars(self.headers[i].0.as_str());
            let nl = lower_chars(&nc);
            if chars_eq(&nl, &kl) {
                return Some(to_owned_string(self.headers[i].1.as_str()));
            }
            i = i + 1;
        }
        None
    }
}

/// The values of all fields called `name`, ignoring ASCII case, in order.
pub fn header_values(resp: &HttpResponse, name: &str) -> (r: Vec<String>)
    ensures
        r@.len() == values_named(view_headers(resp.headers@), name@).len(),
        forall|k: int|
            0 <= k < r@.len() ==> #[trigger] r@[k]@ == values_named(view_headers(resp.headers@), name@)[k],
{
    let nc = str_chars(name);
    let nl = lower_chars(&nc);
    let mut r: Vec<String> = Vec::new();
    let mut i: usize = 0;
    while i < resp.headers.len()
        invariant
            i <= resp.headers@.len(),
            nl@ == lower(name@),
            r@.len() == values_named(view_headers(resp.headers@).take(i as int), name@).len(),
            forall|k: int|
                0 <= k < r@.len() ==> #[trigger] r@[k]@ == values_named(
                    view_headers(resp.headers@).take(i as int),
                    name@,
                )[k],
        decreases resp.headers@.len() - i,
    {
        let ghost hs = view_headers(resp.headers@);
        proof {
            assert(hs.take(i + 1).drop_last() =~= hs.take(i as int));
            assert(hs.take(i + 1).last() == (resp.headers@[i as int].0@, resp.headers@[i as int].1@));
        }
        let kc = str_chars(resp.headers[i].0.as_str());
        let kl = lower_chars(&kc);
        if chars_eq(&kl, &nl) {
            r.push(to_owned_string(resp.headers[i].1.as_str()));
        }
        i = i + 1;
    }
    proof {
        assert(view_headers(resp.headers@).take(resp.headers@.len() as int) =~= view_headers(resp.headers@));
    }
    r
}

/// The trimmed items of a comma-separated list.
fn list_items(s: &[char]) -> (r: Vec<Vec<char>>)
    ensures
        r@.len() == split(s@, ',').len(),
        forall|k: int| 0 <= k < r@.len() ==> #[trigger] r@[k]@ == list_item(s@, k),
{
    let pieces = split_chars(s, ',');
    let mut r: Vec<Vec<char>> = Vec::new();
    let mut i: usize = 0;
    while i < pieces.len()
        invariant
            i <= pieces@.len(),
            pieces@.len() == split(s@, ',').len(),
            forall|k: int| 0 <= k < pieces@.len() ==> #[trigger] pieces@[k]@ == split(s@, ',')[k],
            r@.len() == i,
            forall|k: int| 0 <= k < i ==> #[trigger] r@[k]@ == list_item(s@, k),
        decreases pieces@.len() - i,
    {
        r.push(trim_chars(&pieces[i]));
        i = i + 1;
    }
    r
}

/// The sub-protocol to report to the client: the upstream's choice when the
/// client offered it.
pub fn negotiate_protocol(client_offer: Option<&str>, upstream_selected: Option<&str>) -> (r: Option<String>)
    ensures
        match negotiate_protocol_spec(
            match client_offer { Some(c) => Some(c@), None => None },
            match upstream_selected { Some(u) => Some(u@), None => None },
        ) {
            Some(p) => (r matches Some(s) && s@ == p),
            None => r is None,
        },
{
    let up = match upstream_selected {
        Some(u) => u,
        None => return None,
    };
    let uc = str_chars(up);
    let sel = trim_chars(&uc);
    if sel.len() == 0 {
        return None;
    }
    let c = match client_offer {
        Some(c) => c,
        None => return None,
    };
    let cc = str_chars(c);
    let items = list_items(&cc);
    let mut i: usize = 0;
    while i < items.len()
        invariant
            i <= items@.len(),
            items@.len() == split(cc@, ',').len(),
            forall|k: int| 0 <= k < items@.len() ==> #[trigger] items@[k]@ == list_item(cc@, k),
            forall|k: int| 0 <= k < i ==> list_item(cc@, k) != sel@,
            sel@ == trim(up@),
            sel@.len() > 0,
            client_offer == Some(c),
            upstream_selected == Some(up),
            cc@ == c@,
        decreases items@.len() - i,
    {
        if chars_eq(&items[i], &sel) {
            proof {
                assert(items@[i as int]@ == list_item(cc@, i as int));
                assert(list_item(cc@, i as int) == sel@);
                assert(list_has(cc@, sel@));
                assert(sel@ == trim(up@));
                assert(cc@ == c@);
                assert(negotiate_protocol_spec(Some(c@), Some(up@)) == Some(sel@));
            }
            let res = string_from_chars(&sel);
            assert(res@ == sel@);
            return Some(res);
        }
        i = i + 1;
    }
    proof {
        assert forall|k: int| 0 <= k < split(cc@, ',').len() implies #[trigger] list_item(cc@, k)
            != sel@ by {
            assert(list_item(cc@, k) == items@[k]@);
        }
    }
    None
}

/// The name of an extension item.
fn ext_name_exec(item: &[char]) -> (r: Vec<char>)
    ensures
        r@ == ext_name(item@),
{
    let parts = split_chars(item, ';');
    proof {
        lemma_split_nonempty(item@, ';');
    }
    let first = trim_chars(&parts[0]);
    lower_chars(&first)
}

/// Joins parts with a separator.
pub fn join_exec(parts: &Vec<Vec<char>>, sep: &[char]) -> (r: Vec<char>)
    ensures
        r@ == join(parts@.map_values(|p: Vec<char>| p@), sep@),
{
    let ghost ps = parts@.map_values(|p: Vec<char>| p@);
    let mut r: Vec<char> = Vec::new();
    let mut i: usize = 0;
    while i < parts.len()
        invariant
            i <= parts@.len(),
            ps == parts@.map_values(|p: Vec<char>| p@),
            r@ == join(ps.take(i as int), sep@),
        decreases parts@.len() - i,
    {
        proof {
            assert(ps.take(i + 1).drop_last() =~= ps.take(i as int));
        }
        if i > 0 {
            let mut k: usize = 0;
            let ghost before = r@;
            while k < sep.len()
                invariant
                    k <= sep.len(),
                    r@ == before + sep@.take(k as int),
                decreases sep.len() - k,
            {
                r.push(sep[k]);
                k = k + 1;
                assert(r@ =~= before + sep@.take(k as int));
            }
            assert(sep@.take(sep@.len() as int) =~= sep@);
        }
        let ghost mid = r@;
        let mut k: usize = 0;
        while k < parts[i].len()
            invariant
                i < parts@.len(),
                k <= parts@[i as int]@.len(),
                r@ == mid + parts@[i as int]@.take(k as int),
            decreases parts@[i as int]@.len() - k,
        {
            r.push(parts[i][k]);
            k = k + 1;
            assert(r@ =~= mid + parts@[i as int]@.take(k as int));
        }
        assert(parts@[i as int]@.take(parts@[i as int]@.len() as int) =~= parts@[i as int]@);
        proof {
            if i == 0 {
                assert(ps.take(1) =~= seq![ps[0]]);
            }
        }
        i = i + 1;
    }
    assert(ps.take(parts@.len() as int) =~= ps);
    r
}

/// Whether the client offered an extension called `name`.
fn offered_exec(cc: &[char], items: &Vec<Vec<char>>, name: &[char]) -> (r: bool)
    requires
        items@.len() == split(cc@, ',').len(),
        forall|k: int| 0 <= k < items@.len() ==> #[trigger] items@[k]@ == list_item(cc@, k),
    ensures
        r == offered(cc@, name@),
{
    let mut i: usize = 0;
    while i < items.len()
        invariant
            i <= items@.len(),
            items@.len() == split(cc@, ',').len(),
            forall|k: int| 0 <= k < items@.len() ==> #[trigger] items@[k]@ == list_item(cc@, k),
            forall|k: int| 0 <= k < i && list_item(cc@, k).len() > 0 ==> #[trigger] ext_name(list_item(cc@, k)) != name@,
        decreases items@.len() - i,
    {
        if items[i].len() > 0 {
            let nm = ext_name_exec(&items[i]);
            if chars_eq(&nm, name) {
                proof {
                    assert(ext_name(list_item(cc@, i as int)) == name@);
                }
                return true;
            }
        }
        i = i + 1;
    }
    proof {
        assert forall|k: int| 0 <= k < split(cc@, ',').len() && list_item(cc@, k).len() > 0 implies #[trigger] ext_name(list_item(cc@, k)) != name@ by {}
    }
    false
}

/// The accepted items of one upstream header value, appended to `acc`.
fn accept_items_of(cc: &[char], items: &Vec<Vec<char>>, value: &str, acc: &mut Vec<Vec<char>>)
    requires
        items@.len() == split(cc@, ',').len(),
        forall|k: int| 0 <= k < items@.len() ==> #[trigger] items@[k]@ == list_item(cc@, k),
    ensures
        final(acc)@.map_values(|p: Vec<char>| p@) == old(acc)@.map_values(|p: Vec<char>| p@) + accepted_items(cc@, split(value@, ',')),
{
    let vc = str_chars(value);
    let segs = split_chars(&vc, ',');
    let ghost before = acc@.map_values(|p: Vec<char>| p@);
    let mut si: usize = 0;
    while si < segs.len()
        invariant
            si <= segs@.len(),
            vc@ == value@,
            items@.len() == split(cc@, ',').len(),
            forall|k: int| 0 <= k < items@.len() ==> #[trigger] items@[k]@ == list_item(cc@, k),
            segs@.len() == split(vc@, ',').len(),
            forall|k: int| 0 <= k < segs@.len() ==> #[trigger] segs@[k]@ == split(vc@, ',')[k],
            before == old(acc)@.map_values(|p: Vec<char>| p@),
            acc@.map_values(|p: Vec<char>| p@) == before + accepted_items(cc@, split(vc@, ',').take(si as int)),
        decreases segs@.len() - si,
    {
        proof {
            assert(split(vc@, ',').take(si + 1).drop_last() =~= split(vc@, ',').take(si as int));
        }
        let t = trim_chars(&segs[si]);
        proof {
            assert(split(vc@, ',').take(si + 1).last() == split(vc@, ',')[si as int]);
            assert(t@ == trim(split(vc@, ',').take(si + 1).last()));
        }
        if t.len() > 0 {
            let nm = ext_name_exec(&t);
            if offered_exec(cc, items, &nm) {
                let ghost pre = acc@;
                acc.push(t);
                proof {
                    assert(acc@.map_values(|p: Vec<char>| p@) =~= pre.map_values(|p: Vec<char>| p@).push(t@));
                }
            }
        }
        si = si + 1;
        proof {
            assert(acc@.map_values(|p: Vec<char>| p@) =~= before + accepted_items(cc@, split(vc@, ',').take(si as int)));
        }
    }
    proof {
        assert(split(vc@, ',').take(segs@.len() as int) =~= split(vc@, ','));
    }
}

/// The extensions to report to the client: the upstream's items whose names
/// the client offered.
pub fn negotiate_extensions(client_offer: Option<&str>, upstream_values: &[String]) -> (r: Option<String>)
    ensures
        match negotiate_extensions_spec(
            match client_offer { Some(c) => Some(c@), None => None },
            upstream_values@.map_values(|v: String| v@),
        ) {
            Some(p) => (r matches Some(s) && s@ == p),
            None => r is None,
        },
{
    let c = match client_offer {
        Some(c) => c,
        None => return None,
    };
    let cc = str_chars(c);
    let items = list_items(&cc);
    let mut any = false;
    let mut i: usize = 0;
    while i < items.len()
        invariant
            i <= items@.len(),
            items@.len() == split(cc@, ',').len(),
            forall|k: int| 0 <= k < items@.len() ==> #[trigger] items@[k]@ == list_item(cc@, k),
            any == exists|k: int| 0 <= k < i && #[trigger] list_item(cc@, k).len() > 0,
        decreases items@.len() - i,
    {
        if items[i].len() > 0 {
            proof {
                assert(list_item(cc@, i as int).len() > 0);
            }
            any = true;
        }
        i = i + 1;
    }
    if !any {
        return None;
    }
    let mut accepted: Vec<Vec<char>> = Vec::new();
    let ghost vals = upstream_values@.map_values(|v: String| v@);
    let mut vi: usize = 0;
    while vi < upstream_values.len()
        invariant
            vi <= upstream_values@.len(),
            vals == upstream_values@.map_values(|v: String| v@),
            items@.len() == split(cc@, ',').len(),
            forall|k: int| 0 <= k < items@.len() ==> #[trigger] items@[k]@ == list_item(cc@, k),
            accepted@.map_values(|p: Vec<char>| p@) == accepted_all(cc@, vals.take(vi as int)),
        decreases upstream_values@.len() - vi,
    {
        proof {
            assert(vals.take(vi + 1).drop_last() =~= vals.take(vi as int));
            assert(vals.take(vi + 1).last() == upstream_values@[vi as int]@);
        }
        accept_items_of(&cc, &items, upstream_values[vi].as_str(), &mut accepted);
        vi = vi + 1;
    }
    proof {
        assert(vals.take(upstream_values@.len() as int) =~= vals);
    }
    if accepted.len() == 0 {
        return None;
    }
    let sep = str_chars(", ");
    let joined = join_exec(&accepted, &sep);
    proof {
        reveal_strlit(", ");
        assert(sep@ =~= seq![',', ' ']);
    }
    Some(string_from_chars(&joined))
}

/// Whether the negotiated extensions include `permessage-deflate`.
pub fn parse_permessage_deflate(extensions: &str) -> (r: bool)
    ensures
        r == has_permessage_deflate(extensions@),
{
    let ec = str_chars(extensions);
    let items = list_items(&ec);
    let mut i: usize = 0;
    while i < items.len()
        invariant
            i <= items@.len(),
            items@.len() == split(ec@, ',').len(),
            ec@ == extensions@,
            forall|k: int| 0 <= k < items@.len() ==> #[trigger] items@[k]@ == list_item(ec@, k),
            forall|k: int| 0 <= k < i ==> !starts_with(#[trigger] list_item(ec@, k), "permessage-deflate"@),
        decreases items@.len() - i,
    {
        if starts_with_str(&items[i], "permessage-deflate") {
            proof {
                assert(items@[i as int]@ == list_item(ec@, i as int));
                assert(starts_with(list_item(ec@, i as int), "permessage-deflate"@));
                assert(has_permessage_deflate(ec@));
            }
            return true;
        }
        i = i + 1;
    }
    proof {
        assert forall|k: int| 0 <= k < split(ec@, ',').len() implies !starts_with(#[trigger] list_item(ec@, k), "permessage-deflate"@) by {
            assert(list_item(ec@, k) == items@[k]@);
        }
    }
    false
}

/// The `Sec-WebSocket-Accept` value for a client key: the Base64 text of
/// the SHA-1 digest of the key followed by the protocol GUID.
pub fn compute_accept_key(key: &str) -> (r: String)
    ensures
        r@ == base64_standard(sha1_of(encode_utf8(key@) + encode_utf8("258EAFA5-E914-47DA-95CA-C5AB0DC85B11"@))),
{
    let mut data: Vec<u8> = Vec::new();
    append_bytes(&mut data, key.as_bytes());
    append_bytes(&mut data, "258EAFA5-E914-47DA-95CA-C5AB0DC85B11".as_bytes());
    let digest = sha1_digest(&data);
    base64_encode(&digest)
}

} // verus!
