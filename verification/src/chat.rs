//! Assembling a streamed chat completion: the chunks of an OpenAI-style
//! event stream are merged into the single completion object that a
//! non-streaming request would have returned.
//!
//! JSON values are held in the library's own tree; objects are lists of
//! entries whose keys are looked up by name.
use vstd::prelude::*;
use crate::text::{str_chars, chars_eq, chars_eq_str, contains, contains_str, to_owned_string, push_str};

verus! {

// ---------------------------------------------------------------------------
// JSON values
// ---------------------------------------------------------------------------

/// A JSON number: its text and, when it is a non-negative integer that fits,
/// its value.
#[derive(Debug)]
pub struct JsonNumber {
    pub text: String,
    pub as_u64: Option<u64>,
}

/// A JSON value.
#[derive(Debug)]
pub enum JsonValue {
    Null,
    Bool(bool),
    Number(JsonNumber),
    Str(String),
    Array(Vec<JsonValue>),
    Object(Vec<(String, JsonValue)>),
}

/// The mathematical content of a JSON value.
pub enum Jv {
    Null,
    Bool(bool),
    Num(Seq<char>, Option<u64>),
    Str(Seq<char>),
    Arr(Seq<Jv>),
    Obj(Seq<(Seq<char>, Jv)>),
}

/// The entries of an object.
pub type JObj = Seq<(Seq<char>, Jv)>;

/// The content of a value.
pub open spec fn jv(v: JsonValue) -> Jv
    decreases v, 0nat,
{
    match v {
        JsonValue::Null => Jv::Null,
        JsonValue::Bool(b) => Jv::Bool(b),
        JsonValue::Number(n) => Jv::Num(n.text@, n.as_u64),
        JsonValue::Str(s) => Jv::Str(s@),
        JsonValue::Array(xs) => Jv::Arr(jv_seq(xs@)),
        JsonValue::Object(es) => Jv::Obj(jv_entries(es@)),
    }
}

/// The contents of a list of values.
pub open spec fn jv_seq(xs: Seq<JsonValue>) -> Seq<Jv>
    decreases xs, 1nat,
{
    if xs.len() == 0 {
        Seq::empty()
    } else {
        jv_seq(xs.drop_last()).push(jv(xs.last()))
    }
}

/// The contents of a list of entries.
pub open spec fn jv_entries(es: Seq<(String, JsonValue)>) -> JObj
    decreases es, 1nat,
{
    if es.len() == 0 {
        Seq::empty()
    } else {
        jv_entries(es.drop_last()).push((es.last().0@, jv(es.last().1)))
    }
}

pub(crate) proof fn lemma_jv_seq_index(xs: Seq<JsonValue>, i: int)
    requires
        0 <= i < xs.len(),
    ensures
        jv_seq(xs).len() == xs.len(),
        jv_seq(xs)[i] == jv(xs[i]),
    decreases xs.len(),
{
    lemma_jv_seq_len(xs);
    if i < xs.len() - 1 {
        lemma_jv_seq_index(xs.drop_last(), i);
    }
}

pub(crate) proof fn lemma_jv_seq_len(xs: Seq<JsonValue>)
    ensures
        jv_seq(xs).len() == xs.len(),
    decreases xs.len(),
{
    if xs.len() > 0 {
        lemma_jv_seq_len(xs.drop_last());
    }
}

pub(crate) proof fn lemma_jv_entries_index(es: Seq<(String, JsonValue)>, i: int)
    requires
        0 <= i < es.len(),
    ensures
        jv_entries(es).len() == es.len(),
        jv_entries(es)[i] == (es[i].0@, jv(es[i].1)),
    decreases es.len(),
{
    lemma_jv_entries_len(es);
    if i < es.len() - 1 {
        lemma_jv_entries_index(es.drop_last(), i);
    }
}

pub(crate) proof fn lemma_jv_entries_len(es: Seq<(String, JsonValue)>)
    ensures
        jv_entries(es).len() == es.len(),
    decreases es.len(),
{
    if es.len() > 0 {
        lemma_jv_entries_len(es.drop_last());
    }
}

/// The view of a list of entries is fixed by the view of each entry.
pub(crate) proof fn lemma_jv_entries_ext(es: Seq<(String, JsonValue)>, o: JObj)
    requires
        o.len() == es.len(),
        forall|i: int| 0 <= i < es.len() ==> #[trigger] o[i] == (es[i].0@, jv(es[i].1)),
    ensures
        jv_entries(es) == o,
{
    lemma_jv_entries_len(es);
    assert forall|i: int| 0 <= i < es.len() implies jv_entries(es)[i] == o[i] by {
        lemma_jv_entries_index(es, i);
    }
    assert(jv_entries(es) =~= o);
}

/// The view of a list of values is fixed by the view of each value.
pub(crate) proof fn lemma_jv_seq_ext(xs: Seq<JsonValue>, o: Seq<Jv>)
    requires
        o.len() == xs.len(),
        forall|i: int| 0 <= i < xs.len() ==> #[trigger] o[i] == jv(xs[i]),
    ensures
        jv_seq(xs) == o,
{
    lemma_jv_seq_len(xs);
    assert forall|i: int| 0 <= i < xs.len() implies jv_seq(xs)[i] == o[i] by {
        lemma_jv_seq_index(xs, i);
    }
    assert(jv_seq(xs) =~= o);
}

impl JsonValue {
    /// A copy of the value.
    pub fn duplicate(&self) -> (r: JsonValue)
        ensures
            jv(r) == jv(*self),
        decreases *self,
    {
        match self {
            JsonValue::Null => JsonValue::Null,
            JsonValue::Bool(b) => JsonValue::Bool(*b),
            JsonValue::Number(n) => JsonValue::Number(JsonNumber { text: n.text.clone(), as_u64: n.as_u64 }),
            JsonValue::Str(s) => JsonValue::Str(s.clone()),
            JsonValue::Array(xs) => {
                let mut out: Vec<JsonValue> = Vec::new();
                let mut i: usize = 0;
                while i < xs.len()
                    invariant
                        i <= xs@.len(),
                        out@.len() == i,
                        forall|k: int| 0 <= k < i ==> #[trigger] jv(out@[k]) == jv(xs@[k]),
                        *self == JsonValue::Array(*xs),
                    decreases xs@.len() - i,
                {
                    proof {
                        assert(decreases_to!(*self => (*self)->Array_0));
                        assert((*self)->Array_0 == *xs);
                        assert(decreases_to!(*xs => xs@));
                        assert(decreases_to!(xs@ => xs@[i as int]));
                    }
                    let c = xs[i].duplicate();
                    out.push(c);
                    i = i + 1;
                }
                proof {
                    assert forall|k: int| 0 <= k < out@.len() implies #[trigger] jv_seq(xs@)[k] == jv(out@[k]) by {
                        lemma_jv_seq_index(xs@, k);
                    }
                    lemma_jv_seq_len(xs@);
                    lemma_jv_seq_ext(out@, jv_seq(xs@));
                }
                JsonValue::Array(out)
            },
            JsonValue::Object(es) => {
                proof {
                    assert(decreases_to!(*self => (*self)->Object_0));
                }
                let out = duplicate_entries(es);
                JsonValue::Object(out)
            },
        }
    }
}

/// A copy of a list of entries.
pub fn duplicate_entries(es: &Vec<(String, JsonValue)>) -> (r: Vec<(String, JsonValue)>)
    ensures
        jv_entries(r@) == jv_entries(es@),
    decreases es,
{
    let mut out: Vec<(String, JsonValue)> = Vec::new();
    let mut i: usize = 0;
    while i < es.len()
        invariant
            i <= es@.len(),
            out@.len() == i,
            forall|k: int| 0 <= k < i ==> (#[trigger] out@[k]).0@ == es@[k].0@ && jv(out@[k].1) == jv(es@[k].1),
        decreases es@.len() - i,
    {
        proof {
            assert(decreases_to!(*es => es@));
            assert(decreases_to!(es@ => es@[i as int]));
            assert(decreases_to!(es@[i as int] => es@[i as int].1));
        }
        let c = es[i].1.duplicate();
        let k = es[i].0.clone();
        let ghost before = out@;
        out.push((k, c));
        proof {
            assert(out@[i as int].0@ == es@[i as int].0@);
            assert(jv(out@[i as int].1) == jv(es@[i as int].1));
            assert forall|j: int| 0 <= j < i implies (#[trigger] out@[j]) == before[j] by {}
        }
        i = i + 1;
    }
    proof {
        lemma_jv_entries_len(es@);
        assert forall|k: int| 0 <= k < out@.len() implies #[trigger] jv_entries(es@)[k] == (out@[k].0@, jv(out@[k].1)) by {
            lemma_jv_entries_index(es@, k);
        }
        lemma_jv_entries_ext(out@, jv_entries(es@));
    }
    out
}

// ---------------------------------------------------------------------------
// Objects: entries kept in key order, as the JSON library keeps them
// ---------------------------------------------------------------------------

/// `a` sorts before `b`, character by character.
pub open spec fn key_lt(a: Seq<char>, b: Seq<char>) -> bool
    decreases a.len(),
{
    if a.len() == 0 {
        b.len() > 0
    } else if b.len() == 0 {
        false
    } else if a[0] != b[0] {
        (a[0] as u32) < (b[0] as u32)
    } else {
        key_lt(a.drop_first(), b.drop_first())
    }
}

/// Whether `a` sorts before `b`.
fn key_lt_exec(a: &[char], b: &[char]) -> (r: bool)
    ensures
        r == key_lt(a@, b@),
{
    let mut i: usize = 0;
    proof {
        assert(a@.skip(0) =~= a@);
        assert(b@.skip(0) =~= b@);
    }
    while i < a.len() && i < b.len() && a[i] == b[i]
        invariant
            i <= a@.len(),
            i <= b@.len(),
            key_lt(a@, b@) == key_lt(a@.skip(i as int), b@.skip(i as int)),
        decreases a@.len() - i,
    {
        proof {
            assert(a@.skip(i as int).drop_first() =~= a@.skip(i + 1));
            assert(b@.skip(i as int).drop_first() =~= b@.skip(i + 1));
        }
        i = i + 1;
    }
    proof {
        if i < a.len() && i < b.len() {
            assert(a@.skip(i as int)[0] == a@[i as int]);
            assert(b@.skip(i as int)[0] == b@[i as int]);
        }
    }
    if i == a.len() {
        i < b.len()
    } else if i == b.len() {
        false
    } else {
        (a[i] as u32) < (b[i] as u32)
    }
}

/// Position of the entry with key `k` (the first, should there be several).
#[verifier::opaque]
pub open spec fn obj_pos(o: JObj, k: Seq<char>) -> Option<int> {
    if exists|i: int| 0 <= i < o.len() && #[trigger] o[i].0 == k {
        Some(choose|i: int| 0 <= i < o.len() && o[i].0 == k && forall|j: int| 0 <= j < i ==> #[trigger] o[j].0 != k)
    } else {
        None
    }
}

/// The value under key `k`.
pub open spec fn obj_get(o: JObj, k: Seq<char>) -> Option<Jv> {
    match obj_pos(o, k) {
        Some(i) => Some(o[i].1),
        None => None,
    }
}

/// Where a new key goes: before the first key that does not sort before it.
#[verifier::opaque]
pub open spec fn insert_pos(o: JObj, k: Seq<char>) -> int {
    if exists|i: int| 0 <= i < o.len() && !key_lt(#[trigger] o[i].0, k) {
        choose|i: int| 0 <= i < o.len() && !key_lt(o[i].0, k) && forall|j: int| 0 <= j < i ==> key_lt(#[trigger] o[j].0, k)
    } else {
        o.len() as int
    }
}

/// The object with `k` set to `v`: replaced in place, or inserted in key order.
pub open spec fn obj_set(o: JObj, k: Seq<char>, v: Jv) -> JObj {
    match obj_pos(o, k) {
        Some(i) => o.update(i, (k, v)),
        None => o.insert(insert_pos(o, k), (k, v)),
    }
}

/// Position of the entry with key `k` in an exec object.
fn find_entry(es: &Vec<(String, JsonValue)>, k: &[char]) -> (r: Option<usize>)
    ensures
        match r {
            Some(j) => obj_pos(jv_entries(es@), k@) == Some(j as int) && j < es@.len(),
            None => obj_pos(jv_entries(es@), k@) is None,
        },
{
    reveal(obj_pos);
    let ghost o = jv_entries(es@);
    proof {
        lemma_jv_entries_len(es@);
    }
    let mut i: usize = 0;
    while i < es.len()
        invariant
            i <= es@.len(),
            o == jv_entries(es@),
            o.len() == es@.len(),
            forall|j: int| 0 <= j < i ==> #[trigger] o[j].0 != k@,
        decreases es@.len() - i,
    {
        let c = str_chars(es[i].0.as_str());
        proof {
            lemma_jv_entries_index(es@, i as int);
        }
        if chars_eq(&c, k) {
            proof {
                reveal(obj_pos);
                assert(o[i as int].0 == k@);
                let p = choose|p: int| 0 <= p < o.len() && o[p].0 == k@ && forall|j: int| 0 <= j < p ==> #[trigger] o[j].0 != k@;
                if p < i {
                } else if p > i {
                    assert(o[i as int].0 != k@);
                }
            }
            return Some(i);
        }
        i = i + 1;
    }
    None
}

/// Where a new key goes in an exec object.
fn find_insert_pos(es: &Vec<(String, JsonValue)>, k: &[char]) -> (r: usize)
    ensures
        r as int == insert_pos(jv_entries(es@), k@),
        r <= es@.len(),
{
    reveal(insert_pos);
    let ghost o = jv_entries(es@);
    proof {
        lemma_jv_entries_len(es@);
    }
    let mut i: usize = 0;
    while i < es.len()
        invariant
            i <= es@.len(),
            o == jv_entries(es@),
            o.len() == es@.len(),
            forall|j: int| 0 <= j < i ==> key_lt(#[trigger] o[j].0, k@),
        decreases es@.len() - i,
    {
        let c = str_chars(es[i].0.as_str());
        proof {
            lemma_jv_entries_index(es@, i as int);
        }
        if !key_lt_exec(&c, k) {
            proof {
                reveal(insert_pos);
                assert(!key_lt(o[i as int].0, k@));
                let p = choose|p: int| 0 <= p < o.len() && !key_lt(o[p].0, k@) && forall|j: int| 0 <= j < p ==> key_lt(#[trigger] o[j].0, k@);
                if p < i {
                } else if p > i {
                    assert(key_lt(o[i as int].0, k@));
                }
            }
            return i;
        }
        i = i + 1;
    }
    i
}

/// The value under key `k` of an exec object.
pub(crate) fn get_entry<'a>(es: &'a Vec<(String, JsonValue)>, k: &str) -> (r: Option<&'a JsonValue>)
    ensures
        match obj_get(jv_entries(es@), k@) {
            Some(v) => (r matches Some(x) && jv(*x) == v),
            None => r is None,
        },
{
    let kc = str_chars(k);
    match find_entry(es, &kc) {
        Some(i) => {
            proof {
                lemma_jv_entries_index(es@, i as int);
            }
            Some(&es[i].1)
        },
        None => None,
    }
}

/// Replacing an entry's value changes the view at that position only.
proof fn lemma_entries_set(old_es: Seq<(String, JsonValue)>, new_es: Seq<(String, JsonValue)>, i: int, k: Seq<char>, v: Jv)
    requires
        0 <= i < old_es.len(),
        new_es.len() == old_es.len(),
        new_es[i].0@ == k,
        jv(new_es[i].1) == v,
        forall|j: int| 0 <= j < old_es.len() && j != i ==> #[trigger] new_es[j] == old_es[j],
    ensures
        jv_entries(new_es) == jv_entries(old_es).update(i, (k, v)),
{
    let want = jv_entries(old_es).update(i, (k, v));
    lemma_jv_entries_len(old_es);
    assert forall|j: int| 0 <= j < new_es.len() implies #[trigger] want[j] == (new_es[j].0@, jv(new_es[j].1)) by {
        if j != i {
            lemma_jv_entries_index(old_es, j);
        }
    }
    lemma_jv_entries_ext(new_es, want);
}

/// Inserting an entry inserts its view.
proof fn lemma_entries_insert(old_es: Seq<(String, JsonValue)>, new_es: Seq<(String, JsonValue)>, p: int, k: Seq<char>, v: Jv)
    requires
        0 <= p <= old_es.len(),
        new_es.len() == old_es.len() + 1,
        new_es[p].0@ == k,
        jv(new_es[p].1) == v,
        forall|j: int| 0 <= j < p ==> #[trigger] new_es[j] == old_es[j],
        forall|j: int| p < j < new_es.len() ==> #[trigger] new_es[j] == old_es[j - 1],
    ensures
        jv_entries(new_es) == jv_entries(old_es).insert(p, (k, v)),
{
    let want = jv_entries(old_es).insert(p, (k, v));
    lemma_jv_entries_len(old_es);
    assert forall|j: int| 0 <= j < new_es.len() implies #[trigger] want[j] == (new_es[j].0@, jv(new_es[j].1)) by {
        if j < p {
            lemma_jv_entries_index(old_es, j);
        } else if j > p {
            lemma_jv_entries_index(old_es, j - 1);
        }
    }
    lemma_jv_entries_ext(new_es, want);
}

/// Sets key `k` of an exec object to `v`.
pub(crate) fn set_entry(es: &mut Vec<(String, JsonValue)>, k: &str, v: JsonValue)
    ensures
        jv_entries(final(es)@) == obj_set(jv_entries(old(es)@), k@, jv(v)),
{
    let kc = str_chars(k);
    let ghost vv = jv(v);
    match find_entry(es, &kc) {
        Some(i) => {
            let key = to_owned_string(k);
            es.set(i, (key, v));
            proof {
                lemma_entries_set(old(es)@, es@, i as int, k@, vv);
            }
        },
        None => {
            let p = find_insert_pos(es, &kc);
            let key = to_owned_string(k);
            es.insert(p, (key, v));
            proof {
                lemma_entries_insert(old(es)@, es@, p as int, k@, vv);
            }
        },
    }
}

/// The views of a list of names.
pub open spec fn names_view(v: Seq<&str>) -> Seq<Seq<char>> {
    v.map_values(|s: &str| s@)
}

/// Whether `k` is one of `names`.
fn names_contain(names: &[&str], k: &[char]) -> (r: bool)
    ensures
        r == names_view(names@).contains(k@),
{
    let mut i: usize = 0;
    while i < names.len()
        invariant
            i <= names@.len(),
            forall|j: int| 0 <= j < i ==> #[trigger] names@[j]@ != k@,
        decreases names@.len() - i,
    {
        if chars_eq_str(k, names[i]) {
            proof {
                assert(names_view(names@)[i as int] == k@);
            }
            return true;
        }
        i = i + 1;
    }
    proof {
        if names_view(names@).contains(k@) {
            let j = choose|j: int| 0 <= j < names_view(names@).len() && names_view(names@)[j] == k@;
            assert(names@[j]@ == k@);
        }
    }
    false
}

/// `target` with the entries of `source` merged in, in order, skipping the
/// excluded keys: an object merged into an object merges recursively (with
/// nothing excluded); anything else replaces.
pub open spec fn merge(t: JObj, s: JObj, excluded: Seq<Seq<char>>) -> JObj
    decreases s,
{
    if s.len() == 0 {
        t
    } else {
        let t1 = merge(t, s.drop_last(), excluded);
        let k = s.last().0;
        let v = s.last().1;
        if excluded.contains(k) {
            t1
        } else {
            match (obj_get(t1, k), v) {
                (Some(Jv::Obj(e)), Jv::Obj(inc)) => {
                    proof {
                        assert(decreases_to!(s => s[s.len() - 1]));
                    }
                    obj_set(t1, k, Jv::Obj(merge(e, inc, Seq::empty())))
                },
                _ => obj_set(t1, k, v),
            }
        }
    }
}

/// Merges `source` into `target`.
pub fn merge_json_object(target: &mut Vec<(String, JsonValue)>, source: &Vec<(String, JsonValue)>, excluded: &[&str])
    ensures
        jv_entries(final(target)@) == merge(jv_entries(old(target)@), jv_entries(source@), names_view(excluded@)),
    decreases source,
{
    let ghost t0 = jv_entries(target@);
    let ghost ex = names_view(excluded@);
    let mut i: usize = 0;
    proof {
        assert(source@.take(0) =~= Seq::<(String, JsonValue)>::empty());
    }
    while i < source.len()
        invariant
            i <= source@.len(),
            ex == names_view(excluded@),
            jv_entries(target@) == merge(t0, jv_entries(source@.take(i as int)), ex),
        decreases source@.len() - i,
    {
        let ghost before = jv_entries(target@);
        let ghost sp = source@.take(i + 1);
        proof {
            assert(sp.drop_last() =~= source@.take(i as int));
            assert(sp.last() == source@[i as int]);
            assert(jv_entries(sp).drop_last() == jv_entries(source@.take(i as int)));
            assert(jv_entries(sp).last() == (source@[i as int].0@, jv(source@[i as int].1)));
            assert(jv_entries(sp).len() > 0);
        }
        let k = &source[i].0;
        let kc = str_chars(k.as_str());
        let ghost kv = k@;
        let ghost vv = jv(source@[i as int].1);
        let ghost want = merge(t0, jv_entries(sp), ex);
        proof {
            assert(want == (if ex.contains(kv) { before } else {
                match (obj_get(before, kv), vv) {
                    (Some(Jv::Obj(e)), Jv::Obj(inc)) => obj_set(before, kv, Jv::Obj(merge(e, inc, Seq::empty()))),
                    _ => obj_set(before, kv, vv),
                }
            }));
        }
        if !names_contain(excluded, &kc) {
            let v = &source[i].1;
            let got = get_entry(target, k.as_str());
            let ghost mut tv: Jv = vv;
            let merged: Option<JsonValue> = match (got, v) {
                (Some(JsonValue::Object(existing)), JsonValue::Object(incoming)) => {
                    let mut e2 = duplicate_entries(existing);
                    proof {
                        assert(decreases_to!(*source => source@));
                        assert(decreases_to!(source@ => source@[i as int]));
                        assert(decreases_to!(source@[i as int] => source@[i as int].1));
                        assert(decreases_to!(source@[i as int].1 => (source@[i as int].1)->Object_0));
                    }
                    let nothing: Vec<&str> = Vec::new();
                    merge_json_object(&mut e2, incoming, nothing.as_slice());
                    proof {
                        assert(names_view(nothing@) =~= Seq::<Seq<char>>::empty());
                        assert(obj_get(before, kv) == Some(Jv::Obj(jv_entries(existing@))));
                        assert(vv == Jv::Obj(jv_entries(incoming@)));
                        tv = Jv::Obj(jv_entries(e2@));
                        assert(want == obj_set(before, kv, tv));
                    }
                    Some(JsonValue::Object(e2))
                },
                _ => {
                    proof {
                        match (obj_get(before, kv), vv) {
                            (Some(Jv::Obj(e)), Jv::Obj(inc)) => {
                                assert(got is Some);
                                let x = got.unwrap();
                                assert(jv(*x) is Obj);
                                assert(*x is Object);
                                assert(*v is Object);
                            },
                            _ => {},
                        }
                        assert(want == obj_set(before, kv, vv));
                    }
                    None
                },
            };
            proof {
                assert(want == obj_set(before, kv, tv));
                assert(merged matches Some(m) ==> jv(m) == tv);
                assert(merged is None ==> tv == vv);
            }
            proof {
                assert(!ex.contains(kv));
            }
            match merged {
                Some(m) => {
                    set_entry(target, k.as_str(), m);
                    proof {
                        assert(jv_entries(target@) == want);
                    }
                },
                None => {
                    let d = v.duplicate();
                    set_entry(target, k.as_str(), d);
                    proof {
                        assert(jv_entries(target@) == want);
                    }
                },
            }
        } else {
            proof {
                assert(jv_entries(target@) == want);
            }
        }
        i = i + 1;
    }
    proof {
        assert(source@.take(i as int) =~= source@);
    }
}

// ---------------------------------------------------------------------------
// Equality, and entries equal to a parent's
// ---------------------------------------------------------------------------

/// Whether two values are equal.
pub fn json_eq(a: &JsonValue, b: &JsonValue) -> (r: bool)
    ensures
        r == (jv(*a) == jv(*b)),
    decreases *a,
{
    match (a, b) {
        (JsonValue::Null, JsonValue::Null) => true,
        (JsonValue::Bool(x), JsonValue::Bool(y)) => *x == *y,
        (JsonValue::Number(x), JsonValue::Number(y)) => {
            let xt = str_chars(x.text.as_str());
            let yt = str_chars(y.text.as_str());
            let same_u = match (x.as_u64, y.as_u64) {
                (Some(p), Some(q)) => p == q,
                (None, None) => true,
                _ => false,
            };
            chars_eq(&xt, &yt) && same_u
        },
        (JsonValue::Str(x), JsonValue::Str(y)) => {
            let xt = str_chars(x.as_str());
            let yt = str_chars(y.as_str());
            chars_eq(&xt, &yt)
        },
        (JsonValue::Array(xs), JsonValue::Array(ys)) => {
            proof {
                lemma_jv_seq_len(xs@);
                lemma_jv_seq_len(ys@);
            }
            if xs.len() != ys.len() {
                return false;
            }
            let mut i: usize = 0;
            while i < xs.len()
                invariant
                    i <= xs@.len(),
                    xs@.len() == ys@.len(),
                    *a == JsonValue::Array(*xs),
                    *b == JsonValue::Array(*ys),
                    forall|k: int| 0 <= k < i ==> #[trigger] jv(xs@[k]) == jv(ys@[k]),
                decreases xs@.len() - i,
            {
                proof {
                    assert(decreases_to!(*a => (*a)->Array_0));
                    assert(decreases_to!(*xs => xs@));
                    assert(decreases_to!(xs@ => xs@[i as int]));
                }
                if !json_eq(&xs[i], &ys[i]) {
                    proof {
                        lemma_jv_seq_index(xs@, i as int);
                        lemma_jv_seq_index(ys@, i as int);
                        assert(jv_seq(xs@)[i as int] != jv_seq(ys@)[i as int]);
                    }
                    return false;
                }
                i = i + 1;
            }
            proof {
                assert forall|k: int| 0 <= k < xs@.len() implies #[trigger] jv_seq(xs@)[k] == jv(ys@[k]) by {
                    lemma_jv_seq_index(xs@, k);
                }
                lemma_jv_seq_ext(ys@, jv_seq(xs@));
            }
            true
        },
        (JsonValue::Object(xs), JsonValue::Object(ys)) => {
            proof {
                lemma_jv_entries_len(xs@);
                lemma_jv_entries_len(ys@);
            }
            if xs.len() != ys.len() {
                return false;
            }
            let mut i: usize = 0;
            while i < xs.len()
                invariant
                    i <= xs@.len(),
                    xs@.len() == ys@.len(),
                    *a == JsonValue::Object(*xs),
                    *b == JsonValue::Object(*ys),
                    forall|k: int| 0 <= k < i ==> (#[trigger] xs@[k]).0@ == ys@[k].0@ && jv(xs@[k].1) == jv(ys@[k].1),
                decreases xs@.len() - i,
            {
                proof {
                    assert(decreases_to!(*a => (*a)->Object_0));
                    assert(decreases_to!(*xs => xs@));
                    assert(decreases_to!(xs@ => xs@[i as int]));
                    assert(decreases_to!(xs@[i as int] => xs@[i as int].1));
                    lemma_jv_entries_index(xs@, i as int);
                    lemma_jv_entries_index(ys@, i as int);
                }
                let kx = str_chars(xs[i].0.as_str());
                let ky = str_chars(ys[i].0.as_str());
                let same_key = chars_eq(&kx, &ky);
                let same_value = json_eq(&xs[i].1, &ys[i].1);
                if !same_key || !same_value {
                    proof {
                        assert(jv_entries(xs@)[i as int] != jv_entries(ys@)[i as int]);
                    }
                    return false;
                }
                i = i + 1;
            }
            proof {
                assert forall|k: int| 0 <= k < xs@.len() implies #[trigger] jv_entries(xs@)[k] == (ys@[k].0@, jv(ys@[k].1)) by {
                    lemma_jv_entries_index(xs@, k);
                }
                lemma_jv_entries_ext(ys@, jv_entries(xs@));
            }
            true
        },
        _ => false,
    }
}

/// The entries of `record` whose value differs from the parent's value under
/// the same key, in a new object.
pub open spec fn strip_dup(r: JObj, parent: JObj) -> JObj
    decreases r.len(),
{
    if r.len() == 0 {
        Seq::empty()
    } else {
        let prev = strip_dup(r.drop_last(), parent);
        if obj_get(parent, r.last().0) == Some(r.last().1) {
            prev
        } else {
            obj_set(prev, r.last().0, r.last().1)
        }
    }
}

/// Drops from `record` the entries that `parent` holds with the same value.
pub fn strip_duplicate_keys(record: &Vec<(String, JsonValue)>, parent: &Vec<(String, JsonValue)>) -> (r: Vec<(String, JsonValue)>)
    ensures
        jv_entries(r@) == strip_dup(jv_entries(record@), jv_entries(parent@)),
{
    let mut next: Vec<(String, JsonValue)> = Vec::new();
    let mut i: usize = 0;
    proof {
        assert(record@.take(0) =~= Seq::<(String, JsonValue)>::empty());
        assert(jv_entries(next@) =~= Seq::<(Seq<char>, Jv)>::empty());
    }
    while i < record.len()
        invariant
            i <= record@.len(),
            jv_entries(next@) == strip_dup(jv_entries(record@.take(i as int)), jv_entries(parent@)),
        decreases record@.len() - i,
    {
        let ghost sp = record@.take(i + 1);
        proof {
            assert(sp.drop_last() =~= record@.take(i as int));
            assert(sp.last() == record@[i as int]);
            assert(jv_entries(sp).drop_last() == jv_entries(record@.take(i as int)));
            assert(jv_entries(sp).last() == (record@[i as int].0@, jv(record@[i as int].1)));
        }
        let key = &record[i].0;
        let dup = match get_entry(parent, key.as_str()) {
            Some(pv) => json_eq(pv, &record[i].1),
            None => false,
        };
        if !dup {
            let d = record[i].1.duplicate();
            set_entry(&mut next, key.as_str(), d);
        }
        i = i + 1;
    }
    proof {
        assert(record@.take(i as int) =~= record@);
    }
    next
}

// ---------------------------------------------------------------------------
// Text of a delta
// ---------------------------------------------------------------------------

/// The text of a value that is a string, empty otherwise.
pub open spec fn str_of(o: Option<Jv>) -> Seq<char> {
    match o {
        Some(Jv::Str(t)) => t,
        _ => Seq::empty(),
    }
}

/// The text of a value that is a string.
pub(crate) fn str_value(o: Option<&JsonValue>) -> (r: Option<&str>)
    ensures
        match o {
            Some(v) => match jv(*v) {
                Jv::Str(t) => (r matches Some(s) && s@ == t),
                _ => r is None,
            },
            None => r is None,
        },
{
    match o {
        Some(JsonValue::Str(s)) => Some(s.as_str()),
        _ => None,
    }
}

/// The text of a content part: its `text`, else its `content`, when a string.
pub open spec fn part_text(po: JObj) -> Seq<char> {
    match obj_get(po, "text"@) {
        Some(Jv::Str(t)) => t,
        _ => str_of(obj_get(po, "content"@)),
    }
}

/// Text of content, reasoning and refusal.
pub type TextParts = (Seq<char>, Seq<char>, Seq<char>);

/// The texts after the content parts: plain strings are content; a part
/// whose type mentions `reasoning` or `refusal` goes there, others to content.
pub open spec fn fold_parts(parts: Seq<Jv>, acc: TextParts) -> TextParts
    decreases parts.len(),
{
    if parts.len() == 0 {
        acc
    } else {
        let (c, r, f) = fold_parts(parts.drop_last(), acc);
        match parts.last() {
            Jv::Str(t) => (c + t, r, f),
            Jv::Obj(po) => {
                let ty = str_of(obj_get(po, "type"@));
                let tx = part_text(po);
                if contains(ty, "reasoning"@) {
                    (c, r + tx, f)
                } else if contains(ty, "refusal"@) {
                    (c, r, f + tx)
                } else {
                    (c + tx, r, f)
                }
            },
            _ => (c, r, f),
        }
    }
}

/// The content, reasoning and refusal text of a delta.
pub open spec fn delta_text(d: JObj) -> TextParts {
    let base = (str_of(obj_get(d, "content"@)), str_of(obj_get(d, "reasoning_content"@)), str_of(obj_get(d, "refusal"@)));
    match obj_get(d, "content"@) {
        Some(Jv::Arr(parts)) => fold_parts(parts, base),
        _ => base,
    }
}

/// Appends the text of a string value.
pub(crate) fn append_value_string(buffer: &mut String, value: Option<&JsonValue>)
    ensures
        final(buffer)@ == old(buffer)@ + str_of(match value { Some(v) => Some(jv(*v)), None => None }),
{
    match str_value(value) {
        Some(t) => push_str(buffer, t),
        None => {
            proof {
                assert(old(buffer)@ + Seq::<char>::empty() =~= old(buffer)@);
            }
        },
    }
}

/// The content, reasoning and refusal text of a delta.
pub fn extract_delta_text_parts(delta: &Vec<(String, JsonValue)>) -> (r: (String, String, String))
    ensures
        (r.0@, r.1@, r.2@) == delta_text(jv_entries(delta@)),
{
    let ghost d = jv_entries(delta@);
    let mut content = String::new();
    let mut reasoning = String::new();
    let mut refusal = String::new();
    append_value_string(&mut content, get_entry(delta, "content"));
    append_value_string(&mut reasoning, get_entry(delta, "reasoning_content"));
    append_value_string(&mut refusal, get_entry(delta, "refusal"));
    proof {
        assert(content@ == str_of(obj_get(d, "content"@)));
    }
    if let Some(JsonValue::Array(parts)) = get_entry(delta, "content") {
        let ghost base = (content@, reasoning@, refusal@);
        proof {
            assert(parts@.take(0) =~= Seq::<JsonValue>::empty());
        }
        let mut i: usize = 0;
        while i < parts.len()
            invariant
                i <= parts@.len(),
                (content@, reasoning@, refusal@) == fold_parts(jv_seq(parts@.take(i as int)), base),
            decreases parts@.len() - i,
        {
            let ghost sp = parts@.take(i + 1);
            proof {
                assert(sp.drop_last() =~= parts@.take(i as int));
                assert(sp.last() == parts@[i as int]);
                assert(jv_seq(sp).drop_last() == jv_seq(parts@.take(i as int)));
                assert(jv_seq(sp).last() == jv(parts@[i as int]));
            }
            match &parts[i] {
                JsonValue::Str(t) => push_str(&mut content, t.as_str()),
                JsonValue::Object(po) => {
                    let ty = match str_value(get_entry(po, "type")) {
                        Some(t) => str_chars(t),
                        None => Vec::new(),
                    };
                    let tx: &str = match str_value(get_entry(po, "text")) {
                        Some(t) => t,
                        None => match str_value(get_entry(po, "content")) {
                            Some(t) => t,
                            None => "",
                        },
                    };
                    proof {
                        reveal_strlit("");
                        assert(ty@ == str_of(obj_get(jv_entries(po@), "type"@)));
                        assert(tx@ == part_text(jv_entries(po@)));
                    }
                    if contains_str(&ty, "reasoning") {
                        push_str(&mut reasoning, tx);
                    } else if contains_str(&ty, "refusal") {
                        push_str(&mut refusal, tx);
                    } else {
                        push_str(&mut content, tx);
                    }
                },
                _ => {},
            }
            i = i + 1;
        }
        proof {
            assert(parts@.take(i as int) =~= parts@);
        }
    }
    (content, reasoning, refusal)
}

// ---------------------------------------------------------------------------
// Text form, through serde_json
// ---------------------------------------------------------------------------

#[verifier::external_type_specification]
#[verifier::external_body]
pub struct ExJsonValue(serde_json::Value);

/// The library's tree for a `serde_json` value, node for node (a number
/// keeps its text and its `as_u64`).
#[verifier::external_body]
pub(crate) fn tree_from_value(v: &serde_json::Value) -> JsonValue {
    match v {
        serde_json::Value::Null => JsonValue::Null,
        serde_json::Value::Bool(b) => JsonValue::Bool(*b),
        serde_json::Value::Number(n) => JsonValue::Number(JsonNumber { text: n.to_string(), as_u64: n.as_u64() }),
        serde_json::Value::String(s) => JsonValue::Str(s.clone()),
        serde_json::Value::Array(xs) => JsonValue::Array(xs.iter().map(tree_from_value).collect()),
        serde_json::Value::Object(m) => JsonValue::Object(m.iter().map(|(k, x)| (k.clone(), tree_from_value(x))).collect()),
    }
}

/// The `serde_json` value of a tree, node for node (a number is read back
/// from its text; a text that is no number gives `null`).
#[verifier::external_body]
pub(crate) fn value_from_tree(v: &JsonValue) -> serde_json::Value {
    match v {
        JsonValue::Null => serde_json::Value::Null,
        JsonValue::Bool(b) => serde_json::Value::Bool(*b),
        JsonValue::Number(n) => n.text.parse().map(serde_json::Value::Number).unwrap_or(serde_json::Value::Null),
        JsonValue::Str(s) => serde_json::Value::String(s.clone()),
        JsonValue::Array(xs) => serde_json::Value::Array(xs.iter().map(value_from_tree).collect()),
        JsonValue::Object(es) => serde_json::Value::Object(es.iter().map(|(k, x)| (k.clone(), value_from_tree(x))).collect()),
    }
}

/// What `serde_json::from_str::<serde_json::Value>` makes of a text: the
/// value, or `None` where the text is not JSON.
pub uninterp spec fn json_parse(text: Seq<char>) -> Option<Jv>;

/// Parses a JSON text with `serde_json::from_str`. The contract says only
/// that the result is the named parse of the text.
#[verifier::external_body]
pub(crate) fn parse_json(text: &str) -> (r: Option<JsonValue>)
    ensures
        match r {
            Some(v) => json_parse(text@) == Some(jv(v)),
            None => json_parse(text@) is None,
        },
{
    match serde_json::from_str::<serde_json::Value>(text) {
        Ok(v) => Some(tree_from_value(&v)),
        Err(_) => None,
    }
}

/// What `serde_json::to_string_pretty` writes for a value.
pub uninterp spec fn json_pretty(v: Jv) -> Seq<char>;

/// Writes a value as indented JSON text with `serde_json::to_string_pretty`:
/// claims that the call gives the named text of the value. The crate
/// documents that serialising fails only where a `Serialize` impl decides to
/// fail or a map has non-string keys; the impl for `serde_json::Value`
/// (`value/ser.rs`) never fails, its maps have string keys, and writing to a
/// `Vec` cannot fail, so the call always gives a text.
#[verifier::external_body]
pub(crate) fn pretty_json(v: &JsonValue) -> (r: Option<String>)
    ensures
        r is Some,
        r matches Some(s) ==> s@ == json_pretty(jv(*v)),
{
    serde_json::to_string_pretty(&value_from_tree(v)).ok()
}

/// What `serde_json::from_slice::<serde_json::Value>` makes of bytes: the
/// value, or `None` where the bytes are not JSON.
pub uninterp spec fn json_parse_bytes(data: Seq<u8>) -> Option<Jv>;

/// Parses JSON bytes with `serde_json::from_slice`. The contract says only
/// that the result is the named parse of the bytes.
#[verifier::external_body]
pub(crate) fn parse_json_bytes(data: &[u8]) -> (r: Option<JsonValue>)
    ensures
        match r {
            Some(v) => json_parse_bytes(data@) == Some(jv(v)),
            None => json_parse_bytes(data@) is None,
        },
{
    match serde_json::from_slice::<serde_json::Value>(data) {
        Ok(v) => Some(tree_from_value(&v)),
        Err(_) => None,
    }
}

/// What `serde_json::to_vec` writes for a value (compact JSON).
pub uninterp spec fn json_compact(v: Jv) -> Seq<u8>;

/// Writes a value as compact JSON bytes with `serde_json::to_vec`: claims
/// that the call gives the named bytes of the value. As for
/// `to_string_pretty`, serialising a `serde_json::Value` into a `Vec` never
/// fails (its `Serialize` impl never fails and its maps have string keys).
#[verifier::external_body]
pub(crate) fn compact_json(v: &JsonValue) -> (r: Option<Vec<u8>>)
    ensures
        r is Some,
        r matches Some(b) ==> b@ == json_compact(jv(*v)),
{
    serde_json::to_vec(&value_from_tree(v)).ok()
}

} // verus!
