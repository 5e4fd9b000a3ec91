//! Client application names: file-name-safe forms, the spelling variants
//! under which an application bundle is looked up, and whether a bundle name
//! matches.
use vstd::prelude::*;
use crate::text::{
    str_chars, chars_eq, is_space, is_space_exec, trim, trim_start, trim_chars, trim_start_chars,
    slice_chars, string_from_chars, starts_with, starts_with_chars, contains, find_chars,
    is_first_occurrence, occurs_at, strings_view, chars_eq_str, starts_with_str,
};
use crate::search::{unicode_lower, to_lowercase};
use crate::codec::{percent_decoded, url_decode};

verus! {

// ---------------------------------------------------------------------------
// Safe names
// ---------------------------------------------------------------------------

/// Whether a character is alphabetic or numeric in the Unicode sense.
pub uninterp spec fn unicode_alnum(c: char) -> bool;

/// An ASCII letter or digit.
pub open spec fn ascii_alnum(c: char) -> bool {
    ('a' <= c && c <= 'z') || ('A' <= c && c <= 'Z') || ('0' <= c && c <= '9')
}

/// `char::is_alphanumeric`: claims that the result is the Unicode property,
/// which for ASCII characters (as std documents) holds of letters and digits
/// only.
#[verifier::external_body]
fn char_is_alphanumeric(c: char) -> (b: bool)
    ensures
        b == unicode_alnum(c),
        (c as u32) < 128 ==> b == ascii_alnum(c),
{
    c.is_alphanumeric()
}

/// A character kept in a safe name; others become `_`.
pub open spec fn safe_char(c: char) -> char {
    if unicode_alnum(c) || c == '-' || c == '_' {
        c
    } else {
        '_'
    }
}

/// An application name made safe for a file name.
pub open spec fn sanitized(name: Seq<char>) -> Seq<char> {
    name.map_values(|c: char| safe_char(c))
}

/// Replaces every character of `name` other than letters, digits, `-` and
/// `_` by `_`.
pub fn sanitize_app_name(name: &str) -> (r: String)
    ensures
        r@ == sanitized(name@),
{
    let c = str_chars(name);
    let mut out: Vec<char> = Vec::new();
    let mut i: usize = 0;
    while i < c.len()
        invariant
            i <= c@.len(),
            c@ == name@,
            out@ == sanitized(c@.take(i as int)),
        decreases c@.len() - i,
    {
        let ch = c[i];
        let keep = char_is_alphanumeric(ch) || ch == '-' || ch == '_';
        out.push(if keep { ch } else { '_' });
        proof {
            assert(sanitized(c@.take(i + 1)) =~= sanitized(c@.take(i as int)).push(safe_char(ch)));
        }
        i = i + 1;
    }
    proof {
        assert(c@.take(i as int) =~= c@);
    }
    string_from_chars(&out)
}

// ---------------------------------------------------------------------------
// Spelling variants
// ---------------------------------------------------------------------------

/// `s` with every occurrence of `pat` removed, scanning left to right
/// (what `str::replace(pat, "")` gives).
pub open spec fn remove_all(s: Seq<char>, pat: Seq<char>) -> Seq<char>
    recommends
        pat.len() > 0,
    decreases s.len(),
{
    if pat.len() > 0 && contains(s, pat) {
        let i = choose|i: int| is_first_occurrence(s, pat, i);
        if 0 <= i && i + pat.len() <= s.len() {
            s.take(i) + remove_all(s.skip(i + pat.len()), pat)
        } else {
            s
        }
    } else {
        s
    }
}

/// Removes every occurrence of `pat`.
fn remove_all_exec(s: &[char], pat: &[char]) -> (r: Vec<char>)
    requires
        pat@.len() > 0,
    ensures
        r@ == remove_all(s@, pat@),
    decreases s@.len(),
{
    match find_chars(s, pat) {
        None => slice_chars(s, 0, s.len()),
        Some(i) => {
            proof {
                assert(contains(s@, pat@));
                let j = choose|j: int| is_first_occurrence(s@, pat@, j);
                if j < i {
                    assert(!occurs_at(s@, pat@, j));
                } else if j > i {
                    assert(!occurs_at(s@, pat@, i as int));
                }
            }
            let head = slice_chars(s, 0, i);
            let n = s.len();
            let k0 = pat.len();
            proof {
                assert(occurs_at(s@, pat@, i as int));
                assert(i + k0 <= n);
            }
            let tail = slice_chars(s, i + k0, n);
            let rest = remove_all_exec(&tail, pat);
            proof {
                assert(head@ =~= s@.take(i as int));
                assert(tail@ =~= s@.skip(i + pat@.len()));
            }
            let mut out = head;
            let mut k: usize = 0;
            let ghost h = out@;
            while k < rest.len()
                invariant
                    k <= rest@.len(),
                    out@ == h + rest@.take(k as int),
                decreases rest@.len() - k,
            {
                out.push(rest[k]);
                k = k + 1;
                proof {
                    assert(out@ =~= h + rest@.take(k as int));
                }
            }
            proof {
                assert(rest@.take(k as int) =~= rest@);
            }
            out
        },
    }
}

/// Position of the first white-space character.
pub open spec fn first_space(s: Seq<char>) -> Option<int> {
    if exists|i: int| 0 <= i < s.len() && is_space(s[i]) {
        Some(choose|i: int| 0 <= i < s.len() && is_space(s[i]) && forall|j: int| 0 <= j < i ==> !is_space(s[j]))
    } else {
        None
    }
}

/// Position of the first white-space character.
fn first_space_exec(s: &[char]) -> (r: Option<usize>)
    ensures
        match r {
            Some(i) => first_space(s@) == Some(i as int) && i < s@.len(),
            None => first_space(s@) is None,
        },
{
    let mut i: usize = 0;
    while i < s.len()
        invariant
            i <= s@.len(),
            forall|j: int| 0 <= j < i ==> !is_space(s@[j]),
        decreases s@.len() - i,
    {
        if is_space_exec(s[i]) {
            proof {
                assert(exists|k: int| 0 <= k < s@.len() && is_space(s@[k]));
                let k = choose|k: int| 0 <= k < s@.len() && is_space(s@[k]) && forall|j: int| 0 <= j < k ==> !is_space(s@[j]);
                assert(0 <= i < s@.len() && is_space(s@[i as int]) && forall|j: int| 0 <= j < i ==> !is_space(s@[j]));
                if k < i {
                    assert(!is_space(s@[k]));
                } else if k > i {
                    assert(!is_space(s@[i as int]));
                }
            }
            return Some(i);
        }
        i = i + 1;
    }
    None
}

/// The first word of a text (what `split_whitespace().next()` gives).
pub open spec fn first_word(s: Seq<char>) -> Option<Seq<char>> {
    let t = trim_start(s);
    if t.len() == 0 {
        None
    } else {
        match first_space(t) {
            Some(p) => Some(t.take(p)),
            None => Some(t),
        }
    }
}

/// The helper-process suffixes dropped from an application name.
pub open spec fn without_helpers(name: Seq<char>) -> Seq<char> {
    trim(remove_all(remove_all(remove_all(remove_all(remove_all(remove_all(
        name, " Helper (Renderer)"@), " Helper (GPU)"@), " Helper (Plugin)"@), " Helper EH"@),
        " Helper NP"@), " Helper"@))
}

/// The spellings under which an application is looked up: its name without
/// helper-process suffixes; that name without ` Browser` / ` browser` when
/// this changes it and leaves something; and the name's first word when it
/// has several. (The base name has no white space at its ends, so it has
/// several words exactly when it holds white space, and its first word is
/// what precedes that.)
pub open spec fn name_variants(name: Seq<char>) -> Seq<Seq<char>> {
    let base = without_helpers(name);
    let nb = trim(remove_all(remove_all(base, " Browser"@), " browser"@));
    let v1 = if nb != base && nb.len() > 0 { seq![base, nb] } else { seq![base] };
    match first_space(base) {
        Some(p) => v1.push(base.take(p)),
        None => v1,
    }
}

/// Removes every occurrence of a literal.
fn remove_lit(s: &[char], pat: &str) -> (r: Vec<char>)
    requires
        pat@.len() > 0,
    ensures
        r@ == remove_all(s@, pat@),
{
    let p = str_chars(pat);
    remove_all_exec(s, &p)
}

/// The spellings under which an application bundle is looked up.
pub fn normalize_app_name(name: &str) -> (r: Vec<String>)
    ensures
        strings_view(r@) == name_variants(name@),
{
    proof {
        reveal_strlit(" Helper (Renderer)");
        reveal_strlit(" Helper (GPU)");
        reveal_strlit(" Helper (Plugin)");
        reveal_strlit(" Helper EH");
        reveal_strlit(" Helper NP");
        reveal_strlit(" Helper");
        reveal_strlit(" Browser");
        reveal_strlit(" browser");
    }
    let c = str_chars(name);
    let a1 = remove_lit(&c, " Helper (Renderer)");
    let a2 = remove_lit(&a1, " Helper (GPU)");
    let a3 = remove_lit(&a2, " Helper (Plugin)");
    let a4 = remove_lit(&a3, " Helper EH");
    let a5 = remove_lit(&a4, " Helper NP");
    let a6 = remove_lit(&a5, " Helper");
    let base = trim_chars(&a6);
    let b1 = remove_lit(&base, " Browser");
    let b2 = remove_lit(&b1, " browser");
    let nb = trim_chars(&b2);
    let mut variants: Vec<String> = Vec::new();
    variants.push(string_from_chars(&base));
    if !chars_eq(&nb, &base) && nb.len() > 0 {
        variants.push(string_from_chars(&nb));
    }
    match first_space_exec(&base) {
        Some(p) => {
            let w = slice_chars(&base, 0, p);
            proof {
                assert(w@ =~= base@.take(p as int));
            }
            variants.push(string_from_chars(&w));
        },
        None => {},
    }
    proof {
        assert(strings_view(variants@) =~= name_variants(name@));
    }
    variants
}

// ---------------------------------------------------------------------------
// Matching
// ---------------------------------------------------------------------------

/// A bundle name matches a lower-cased variant: equal, or one a prefix of
/// the other.
pub open spec fn prefix_match(bundle_lower: Seq<char>, variant_lower: Seq<char>) -> bool {
    bundle_lower == variant_lower || starts_with(variant_lower, bundle_lower) || starts_with(bundle_lower, variant_lower)
}

/// Both names have a first word, and it is the same.
pub open spec fn same_first_word(a: Seq<char>, b: Seq<char>) -> bool {
    first_word(a) is Some && first_word(a) == first_word(b)
}

/// Whether a bundle name matches an application: compared in lower case, it
/// equals the original name, or it matches a variant by prefix, or it shares
/// its first word with a variant.
pub open spec fn app_name_matches(bundle: Seq<char>, variants: Seq<Seq<char>>, original: Seq<char>) -> bool {
    let bl = unicode_lower(bundle);
    ||| bl == unicode_lower(original)
    ||| exists|k: int| 0 <= k < variants.len() && prefix_match(bl, unicode_lower(#[trigger] variants[k]))
    ||| exists|k: int| 0 <= k < variants.len() && same_first_word(bl, unicode_lower(#[trigger] variants[k]))
}

/// The first word of a text.
fn first_word_exec(s: &[char]) -> (r: Option<Vec<char>>)
    ensures
        match first_word(s@) {
            Some(w) => (r matches Some(v) && v@ == w),
            None => r is None,
        },
{
    let t = trim_start_chars(s);
    if t.len() == 0 {
        return None;
    }
    match first_space_exec(&t) {
        Some(p) => {
            let w = slice_chars(&t, 0, p);
            proof {
                assert(w@ =~= t@.take(p as int));
            }
            Some(w)
        },
        None => Some(t),
    }
}

/// Whether a bundle name matches an application name or one of its variants.
pub fn matches_app_name(bundle_name: &str, normalized_variants: &[String], original_name: &str) -> (b: bool)
    ensures
        b == app_name_matches(bundle_name@, strings_view(normalized_variants@), original_name@),
{
    let ghost vs = strings_view(normalized_variants@);
    let bl_s = to_lowercase(bundle_name);
    let ol_s = to_lowercase(original_name);
    let bl = str_chars(bl_s.as_str());
    let ol = str_chars(ol_s.as_str());
    if chars_eq(&bl, &ol) {
        return true;
    }
    let mut i: usize = 0;
    while i < normalized_variants.len()
        invariant
            i <= normalized_variants@.len(),
            vs == strings_view(normalized_variants@),
            bl@ == unicode_lower(bundle_name@),
            forall|k: int| 0 <= k < i ==> !prefix_match(bl@, unicode_lower(#[trigger] vs[k])),
        decreases normalized_variants@.len() - i,
    {
        let vl_s = to_lowercase(normalized_variants[i].as_str());
        let vl = str_chars(vl_s.as_str());
        proof {
            assert(vs[i as int] == normalized_variants@[i as int]@);
        }
        if chars_eq(&bl, &vl) || starts_with_chars(&vl, &bl) || starts_with_chars(&bl, &vl) {
            proof {
                assert(prefix_match(bl@, unicode_lower(vs[i as int])));
            }
            return true;
        }
        i = i + 1;
    }
    let bw = first_word_exec(&bl);
    let mut j: usize = 0;
    while j < normalized_variants.len()
        invariant
            j <= normalized_variants@.len(),
            vs == strings_view(normalized_variants@),
            bl@ == unicode_lower(bundle_name@),
            match first_word(bl@) {
                Some(w) => (bw matches Some(v) && v@ == w),
                None => bw is None,
            },
            forall|k: int| 0 <= k < j ==> !same_first_word(bl@, unicode_lower(#[trigger] vs[k])),
        decreases normalized_variants@.len() - j,
    {
        let vl_s = to_lowercase(normalized_variants[j].as_str());
        let vl = str_chars(vl_s.as_str());
        proof {
            assert(vs[j as int] == normalized_variants@[j as int]@);
        }
        let vw = first_word_exec(&vl);
        match (&bw, &vw) {
            (Some(x), Some(y)) => {
                if chars_eq(x, y) {
                    proof {
                        assert(same_first_word(bl@, unicode_lower(vs[j as int])));
                    }
                    return true;
                }
            },
            _ => {},
        }
        j = j + 1;
    }
    false
}

// ---------------------------------------------------------------------------
// The app icon API
// ---------------------------------------------------------------------------

/// A refused icon request: HTTP status and message.
pub struct IconRefusal {
    pub status: u16,
    pub message: &'static str,
}

/// The application an icon request names: what follows `/api/app-icon/`,
/// trimmed and percent-decoded (kept as it is when it does not decode).
pub open spec fn icon_app_name(path: Seq<char>) -> Seq<char> {
    let raw = trim(if starts_with(path, "/api/app-icon/"@) { path.skip(14) } else { Seq::empty() });
    match percent_decoded(raw) {
        Some(d) => d,
        None => raw,
    }
}

/// The application an icon request names, or why the request is refused:
/// 405 for a method other than GET, 400 for a missing name.
pub fn app_icon_request(path: &str, method: &str) -> (r: Result<String, IconRefusal>)
    ensures
        match r {
            Ok(name) => method@ == "GET"@ && name@ == icon_app_name(path@)
                && trim(if starts_with(path@, "/api/app-icon/"@) { path@.skip(14) } else { Seq::empty() }).len() > 0,
            Err(e) => if method@ != "GET"@ {
                e.status == 405 && e.message@ == "Method not allowed"@
            } else {
                trim(if starts_with(path@, "/api/app-icon/"@) { path@.skip(14) } else { Seq::empty() }).len() == 0
                    && e.status == 400 && e.message@ == "App name is required"@
            },
        },
{
    let m = str_chars(method);
    if !chars_eq_str(&m, "GET") {
        return Err(IconRefusal { status: 405, message: "Method not allowed" });
    }
    let p = str_chars(path);
    proof {
        reveal_strlit("/api/app-icon/");
    }
    let sub: Vec<char> = if starts_with_str(&p, "/api/app-icon/") {
        slice_chars(&p, 14, p.len())
    } else {
        Vec::new()
    };
    proof {
        assert(sub@ =~= (if starts_with(p@, "/api/app-icon/"@) { p@.skip(14) } else { Seq::<char>::empty() }));
    }
    let raw = trim_chars(&sub);
    if raw.len() == 0 {
        return Err(IconRefusal { status: 400, message: "App name is required" });
    }
    let raw_s = string_from_chars(&raw);
    match url_decode(raw_s.as_str()) {
        Some(d) => Ok(d),
        None => Ok(raw_s),
    }
}

/// The path of the application that the latest recorded exchange of the
/// named application came from, among those with a path.
pub open spec fn app_path_in(records: Seq<(Option<Seq<char>>, Option<Seq<char>>)>, name: Seq<char>) -> Option<Seq<char>>
    decreases records.len(),
{
    if records.len() == 0 {
        None
    } else {
        match records.last() {
            (Some(app), Some(path)) => if app == name {
                Some(path)
            } else {
                app_path_in(records.drop_last(), name)
            },
            _ => app_path_in(records.drop_last(), name),
        }
    }
}

/// The views of recorded (application, path) pairs.
pub open spec fn app_paths_view(rs: Seq<(Option<String>, Option<String>)>) -> Seq<(Option<Seq<char>>, Option<Seq<char>>)> {
    rs.map_values(|r: (Option<String>, Option<String>)| (
        match r.0 { Some(a) => Some(a@), None => None },
        match r.1 { Some(p) => Some(p@), None => None },
    ))
}

/// The path of the named application in the recorded traffic (the latest
/// record of it that has a path).
pub fn app_path_from_records(records: &Vec<(Option<String>, Option<String>)>, app_name: &str) -> (r: Option<String>)
    ensures
        match app_path_in(app_paths_view(records@), app_name@) {
            Some(p) => (r matches Some(s) && s@ == p),
            None => r is None,
        },
{
    let ghost rv = app_paths_view(records@);
    let name = str_chars(app_name);
    let mut i: usize = records.len();
    proof {
        assert(rv.take(rv.len() as int) =~= rv);
    }
    while i > 0
        invariant
            i <= records@.len(),
            rv == app_paths_view(records@),
            name@ == app_name@,
            app_path_in(rv, app_name@) == app_path_in(rv.take(i as int), app_name@),
        decreases i,
    {
        let ghost pre = rv.take(i as int);
        proof {
            assert(pre.drop_last() =~= rv.take(i - 1));
            assert(pre.last() == rv[i - 1]);
        }
        let r = &records[i - 1];
        match (&r.0, &r.1) {
            (Some(app), Some(path)) => {
                let a = str_chars(app.as_str());
                if chars_eq(&a, &name) {
                    return Some(path.clone());
                }
            },
            _ => {},
        }
        i = i - 1;
    }
    None
}

} // verus!
