//! Header lists of replayed requests: looking a header up, reading header
//! lists written in rule values, and decoding a response body by its
//! content encoding.
use vstd::prelude::*;
use crate::text::{
    str_chars, lower, lower_chars, chars_eq, chars_eq_str, trim, trim_chars, split, split_chars,
    index_of, index_of_exec, slice_chars, string_from_chars, contains, contains_chars, lemma_split_nonempty,
};
use crate::search::{unicode_lower, to_lowercase};
use crate::codec::{
    gunzip, inflate_zlib, unbrotli, unzstd, lossy_text, gzip_decode, zlib_decode, brotli_decode,
    zstd_decode, utf8_lossy,
};

verus! {

/// The view of a header list.
pub open spec fn headers_view(hs: Seq<(String, String)>) -> Seq<(Seq<char>, Seq<char>)> {
    hs.map_values(|h: (String, String)| (h.0@, h.1@))
}

/// The value of the first header whose name equals `name` ignoring ASCII case.
pub open spec fn header_lookup(hs: Seq<(Seq<char>, Seq<char>)>, name: Seq<char>) -> Option<Seq<char>>
    decreases hs.len(),
{
    if hs.len() == 0 {
        None
    } else if lower(hs[0].0) == lower(name) {
        Some(hs[0].1)
    } else {
        header_lookup(hs.drop_first(), name)
    }
}

/// Looks up a header by name, ignoring ASCII case; the first match wins.
pub fn get_header_value<'a>(headers: &'a [(String, String)], name: &str) -> (r: Option<&'a str>)
    ensures
        match header_lookup(headers_view(headers@), name@) {
            Some(v) => (r matches Some(s) && s@ == v),
            None => r is None,
        },
{
    let ghost hv = headers_view(headers@);
    let n = str_chars(name);
    let nl = lower_chars(&n);
    let mut i: usize = 0;
    proof {
        assert(hv.skip(0) =~= hv);
    }
    while i < headers.len()
        invariant
            i <= headers@.len(),
            hv == headers_view(headers@),
            nl@ == lower(name@),
            header_lookup(hv, name@) == header_lookup(hv.skip(i as int), name@),
        decreases headers@.len() - i,
    {
        let k = str_chars(headers[i].0.as_str());
        let kl = lower_chars(&k);
        proof {
            assert(hv.skip(i as int)[0] == hv[i as int]);
            assert(hv.skip(i as int).drop_first() =~= hv.skip(i + 1));
        }
        if chars_eq(&kl, &nl) {
            return Some(headers[i].1.as_str());
        }
        i = i + 1;
    }
    proof {
        assert(hv.skip(i as int) =~= Seq::<(Seq<char>, Seq<char>)>::empty());
    }
    None
}

/// The content of a rule value written between braces, or the value itself.
pub open spec fn inline_content(v: Seq<char>) -> Seq<char> {
    if v.len() >= 2 && v[0] == '{' && v.last() == '}' {
        v.subrange(1, v.len() - 1)
    } else {
        v
    }
}

/// Strips the braces around an inline rule value.
pub fn extract_inline_content(value: &str) -> (r: String)
    ensures
        r@ == inline_content(value@),
{
    let c = str_chars(value);
    if c.len() >= 2 && c[0] == '{' && c[c.len() - 1] == '}' {
        let inner = slice_chars(&c, 1, c.len() - 1);
        string_from_chars(&inner)
    } else {
        string_from_chars(&c)
    }
}

/// The header one piece of a header list gives: the piece trimmed, split at
/// the first separator, name and value trimmed; nothing for an empty piece,
/// a piece without the separator, or an empty name.
pub open spec fn header_of_part(part: Seq<char>, sep: char) -> Option<(Seq<char>, Seq<char>)> {
    let p = trim(part);
    if p.len() == 0 {
        None
    } else {
        match index_of(p, sep) {
            Some(pos) => {
                let k = trim(p.take(pos));
                if k.len() > 0 {
                    Some((k, trim(p.skip(pos + 1))))
                } else {
                    None
                }
            },
            None => None,
        }
    }
}

/// The headers of the pieces of a header list, in order.
pub open spec fn header_pairs(parts: Seq<Seq<char>>, sep: char) -> Seq<(Seq<char>, Seq<char>)>
    decreases parts.len(),
{
    if parts.len() == 0 {
        Seq::empty()
    } else {
        let prev = header_pairs(parts.drop_last(), sep);
        match header_of_part(parts.last(), sep) {
            Some(h) => prev.push(h),
            None => prev,
        }
    }
}

/// The header of one piece.
fn header_of_part_exec(part: &[char], sep: char) -> (r: Option<(String, String)>)
    ensures
        match header_of_part(part@, sep) {
            Some(h) => (r matches Some(x) && x.0@ == h.0 && x.1@ == h.1),
            None => r is None,
        },
{
    let p = trim_chars(part);
    if p.len() == 0 {
        return None;
    }
    match index_of_exec(&p, sep) {
        Some(pos) => {
            let kpart = slice_chars(&p, 0, pos);
            let k = trim_chars(&kpart);
            proof {
                assert(kpart@ =~= p@.take(pos as int));
            }
            if k.len() > 0 {
                let vpart = slice_chars(&p, pos + 1, p.len());
                let v = trim_chars(&vpart);
                proof {
                    assert(vpart@ =~= p@.skip(pos + 1));
                }
                Some((string_from_chars(&k), string_from_chars(&v)))
            } else {
                None
            }
        },
        None => None,
    }
}

/// A header list as rule values write it: `(Name: value, ...)` in
/// parentheses, or lines or commas of `Name: value` (when a colon or a line
/// break occurs) or else `name=value`. `None` when no header is read.
pub open spec fn parse_headers_spec(value: Seq<char>) -> Option<Seq<(Seq<char>, Seq<char>)>> {
    let t = trim(value);
    if t.len() == 0 {
        None
    } else {
        let paren = t.len() >= 2 && t[0] == '(' && t.last() == ')';
        let content = if paren { t.subrange(1, t.len() - 1) } else { t };
        let use_colon = paren || contains(t, seq!['\n']) || contains(t, seq![':']);
        let delim = if contains(content, seq!['\n']) { '\n' } else { ',' };
        let hs = header_pairs(split(content, delim), if use_colon { ':' } else { '=' });
        if hs.len() == 0 {
            None
        } else {
            Some(hs)
        }
    }
}

/// Reads a header list from a rule value.
pub fn parse_headers(value: &str) -> (r: Option<Vec<(String, String)>>)
    ensures
        match parse_headers_spec(value@) {
            Some(hs) => (r matches Some(v) && headers_view(v@) == hs),
            None => r is None,
        },
{
    let c = str_chars(value);
    let t = trim_chars(&c);
    if t.len() == 0 {
        return None;
    }
    let paren = t.len() >= 2 && t[0] == '(' && t[t.len() - 1] == ')';
    let content = if paren { slice_chars(&t, 1, t.len() - 1) } else { slice_chars(&t, 0, t.len()) };
    proof {
        assert(t@.subrange(0, t@.len() as int) =~= t@);
    }
    let nl: Vec<char> = vec!['\n'];
    let colon: Vec<char> = vec![':'];
    proof {
        assert(nl@ =~= seq!['\n']);
        assert(colon@ =~= seq![':']);
    }
    let use_colon = paren || contains_chars(&t, &nl) || contains_chars(&t, &colon);
    let delim = if contains_chars(&content, &nl) { '\n' } else { ',' };
    let sep = if use_colon { ':' } else { '=' };
    let parts = split_chars(&content, delim);
    let ghost ps = split(content@, delim);
    let mut hs: Vec<(String, String)> = Vec::new();
    let mut i: usize = 0;
    while i < parts.len()
        invariant
            i <= parts@.len(),
            parts@.len() == ps.len(),
            forall|k: int| 0 <= k < parts@.len() ==> #[trigger] parts@[k]@ == ps[k],
            headers_view(hs@) == header_pairs(ps.take(i as int), sep),
        decreases parts@.len() - i,
    {
        proof {
            assert(ps.take(i + 1).drop_last() =~= ps.take(i as int));
            assert(ps.take(i + 1).last() == ps[i as int]);
        }
        match header_of_part_exec(&parts[i], sep) {
            Some(h) => {
                let ghost before = hs@;
                hs.push(h);
                proof {
                    assert(headers_view(hs@) =~= headers_view(before).push((hs@.last().0@, hs@.last().1@)));
                }
            },
            None => {},
        }
        i = i + 1;
    }
    proof {
        assert(ps.take(i as int) =~= ps);
    }
    if hs.len() == 0 {
        None
    } else {
        Some(hs)
    }
}

/// The content encoding of a response: the first entry of its
/// `Content-Encoding` header, trimmed and lower-cased (empty when absent).
pub open spec fn encoding_token(hs: Seq<(Seq<char>, Seq<char>)>) -> Seq<char> {
    let v = match header_lookup(hs, "content-encoding"@) {
        Some(v) => v,
        None => Seq::empty(),
    };
    unicode_lower(trim(split(v, ',')[0]))
}

/// The bytes of a body after undoing a content encoding; an unknown encoding
/// leaves the body as it is.
pub open spec fn undo_encoding(enc: Seq<char>, body: Seq<u8>) -> Option<Seq<u8>> {
    if enc == "gzip"@ {
        gunzip(body)
    } else if enc == "deflate"@ {
        inflate_zlib(body)
    } else if enc == "br"@ {
        unbrotli(body)
    } else if enc == "zstd"@ {
        unzstd(body)
    } else {
        Some(body)
    }
}

/// The text of a replayed response body: `None` for an empty body or one
/// whose encoding does not decode; otherwise the decoded bytes read as UTF-8,
/// invalid sequences replaced.
pub fn decode_replay_body(headers: &[(String, String)], body: &[u8]) -> (r: Option<String>)
    ensures
        body@.len() == 0 ==> r is None,
        body@.len() > 0 ==> match undo_encoding(encoding_token(headers_view(headers@)), body@) {
            Some(d) => (r matches Some(s) && s@ == lossy_text(d)),
            None => r is None,
        },
{
    if body.len() == 0 {
        return None;
    }
    let raw = match get_header_value(headers, "content-encoding") {
        Some(v) => str_chars(v),
        None => Vec::new(),
    };
    let pieces = split_chars(&raw, ',');
    proof {
        lemma_split_nonempty(raw@, ',');
    }
    let first = trim_chars(&pieces[0]);
    let first_s = string_from_chars(&first);
    let enc = to_lowercase(first_s.as_str());
    let e = str_chars(enc.as_str());
    proof {
        reveal_strlit("content-encoding");
        assert(raw@.len() == 0 ==> raw@ =~= Seq::<char>::empty());
    }
    let decoded = if chars_eq_str(&e, "gzip") {
        gzip_decode(body)
    } else if chars_eq_str(&e, "deflate") {
        zlib_decode(body)
    } else if chars_eq_str(&e, "br") {
        brotli_decode(body)
    } else if chars_eq_str(&e, "zstd") {
        zstd_decode(body)
    } else {
        let mut v: Vec<u8> = Vec::new();
        let mut i: usize = 0;
        while i < body.len()
            invariant
                i <= body@.len(),
                v@ == body@.take(i as int),
            decreases body@.len() - i,
        {
            v.push(body[i]);
            i = i + 1;
            proof {
                assert(v@ =~= body@.take(i as int));
            }
        }
        proof {
            assert(body@.take(i as int) =~= body@);
        }
        Some(v)
    };
    match decoded {
        Some(d) => Some(utf8_lossy(&d)),
        None => None,
    }
}

} // verus!
