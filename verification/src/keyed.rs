//! Tables of `(String, V)` entries whose keys are distinct: the library's
//! stand-in for hash maps keyed by strings.
use vstd::prelude::*;
use crate::text::{str_chars, chars_eq};

verus! {

/// No key occurs twice.
pub open spec fn keys_unique<V>(es: Seq<(String, V)>) -> bool {
    forall|i: int, j: int| 0 <= i < es.len() && 0 <= j < es.len() && i != j ==> es[i].0@ != es[j].0@
}

/// Some entry has key `k`.
pub open spec fn has_key<V>(es: Seq<(String, V)>, k: Seq<char>) -> bool {
    exists|i: int| 0 <= i < es.len() && #[trigger] es[i].0@ == k
}

/// The position of the entry with key `k` (the first one, should there be several).
pub open spec fn key_pos<V>(es: Seq<(String, V)>, k: Seq<char>) -> int {
    choose|i: int| 0 <= i < es.len() && es[i].0@ == k && forall|j: int| 0 <= j < i ==> #[trigger] es[j].0@ != k
}

/// The value stored under `k`, if any.
pub open spec fn lookup<V>(es: Seq<(String, V)>, k: Seq<char>) -> Option<V> {
    if has_key(es, k) {
        Some(es[key_pos(es, k)].1)
    } else {
        None
    }
}

/// With distinct keys, the entry found at `i` is the one `lookup` gives.
pub proof fn lemma_pos_unique<V>(es: Seq<(String, V)>, k: Seq<char>, i: int)
    requires
        keys_unique(es),
        0 <= i < es.len(),
        es[i].0@ == k,
    ensures
        has_key(es, k),
        key_pos(es, k) == i,
        lookup(es, k) == Some(es[i].1),
{
    assert(has_key(es, k));
    assert(0 <= i < es.len() && es[i].0@ == k && forall|j: int| 0 <= j < i ==> #[trigger] es[j].0@ != k);
    let p = key_pos(es, k);
    assert(0 <= p < es.len() && es[p].0@ == k);
    if p != i {
        assert(es[p].0@ != es[i].0@);
    }
}

/// Position of the entry with key `key`.
pub fn find_key<V>(es: &Vec<(String, V)>, key: &str) -> (r: Option<usize>)
    ensures
        r matches Some(i) ==> i < es@.len() && es@[i as int].0@ == key@ && forall|j: int| 0 <= j < i ==> #[trigger] es@[j].0@ != key@,
        r is None ==> !has_key(es@, key@),
{
    let kc = str_chars(key);
    let mut i: usize = 0;
    while i < es.len()
        invariant
            i <= es@.len(),
            kc@ == key@,
            forall|j: int| 0 <= j < i ==> #[trigger] es@[j].0@ != key@,
        decreases es@.len() - i,
    {
        let ec = str_chars(es[i].0.as_str());
        if chars_eq(&ec, &kc) {
            return Some(i);
        }
        i = i + 1;
    }
    proof {
        assert forall|j: int| 0 <= j < es@.len() implies #[trigger] es@[j].0@ != key@ by {}
    }
    None
}

/// Replacing the value at a position keeps the keys, and hence their distinctness.
pub proof fn lemma_update_value<V>(es: Seq<(String, V)>, i: int, e: (String, V))
    requires
        keys_unique(es),
        0 <= i < es.len(),
        e.0@ == es[i].0@,
    ensures
        keys_unique(es.update(i, e)),
        forall|k: Seq<char>| has_key(es.update(i, e), k) == has_key(es, k),
        lookup(es.update(i, e), e.0@) == Some(e.1),
        forall|k: Seq<char>| k != e.0@ ==> lookup(es.update(i, e), k) == lookup(es, k),
{
    let u = es.update(i, e);
    assert forall|k: Seq<char>| has_key(u, k) == has_key(es, k) by {
        if has_key(u, k) {
            let j = choose|j: int| 0 <= j < u.len() && #[trigger] u[j].0@ == k;
            assert(es[j].0@ == k);
        }
        if has_key(es, k) {
            let j = choose|j: int| 0 <= j < es.len() && #[trigger] es[j].0@ == k;
            assert(u[j].0@ == k);
        }
    }
    lemma_pos_unique(u, e.0@, i);
    assert forall|k: Seq<char>| k != e.0@ implies lookup(u, k) == lookup(es, k) by {
        if has_key(es, k) {
            let j = choose|j: int| 0 <= j < es.len() && #[trigger] es[j].0@ == k;
            lemma_pos_unique(es, k, j);
            assert(j != i);
            lemma_pos_unique(u, k, j);
        }
    }
}

/// Appending an entry with a new key keeps keys distinct.
pub proof fn lemma_push_new<V>(es: Seq<(String, V)>, e: (String, V))
    requires
        keys_unique(es),
        !has_key(es, e.0@),
    ensures
        keys_unique(es.push(e)),
        forall|k: Seq<char>| has_key(es.push(e), k) == (has_key(es, k) || k == e.0@),
        lookup(es.push(e), e.0@) == Some(e.1),
        forall|k: Seq<char>| k != e.0@ ==> lookup(es.push(e), k) == lookup(es, k),
{
    let u = es.push(e);
    assert forall|i: int, j: int| 0 <= i < u.len() && 0 <= j < u.len() && i != j implies u[i].0@ != u[j].0@ by {
        if i < es.len() && j < es.len() {
        } else if i == es.len() {
            assert(u[j].0@ == es[j].0@);
        } else {
            assert(u[i].0@ == es[i].0@);
        }
    }
    assert forall|k: Seq<char>| has_key(u, k) == (has_key(es, k) || k == e.0@) by {
        if has_key(es, k) {
            let j = choose|j: int| 0 <= j < es.len() && #[trigger] es[j].0@ == k;
            assert(u[j].0@ == k);
        }
        if k == e.0@ {
            assert(u[es.len() as int].0@ == k);
        }
        if has_key(u, k) && k != e.0@ {
            let j = choose|j: int| 0 <= j < u.len() && #[trigger] u[j].0@ == k;
            assert(j < es.len());
            assert(es[j].0@ == k);
        }
    }
    lemma_pos_unique(u, e.0@, es.len() as int);
    assert forall|k: Seq<char>| k != e.0@ implies lookup(u, k) == lookup(es, k) by {
        if has_key(es, k) {
            let j = choose|j: int| 0 <= j < es.len() && #[trigger] es[j].0@ == k;
            lemma_pos_unique(es, k, j);
            lemma_pos_unique(u, k, j);
        }
    }
}

/// Removing an entry keeps keys distinct and loses exactly its key.
pub proof fn lemma_remove_at<V>(es: Seq<(String, V)>, i: int)
    requires
        keys_unique(es),
        0 <= i < es.len(),
    ensures
        keys_unique(es.remove(i)),
        !has_key(es.remove(i), es[i].0@),
        forall|k: Seq<char>| k != es[i].0@ ==> lookup(es.remove(i), k) == lookup(es, k),
{
    let u = es.remove(i);
    assert forall|a: int, b: int| 0 <= a < u.len() && 0 <= b < u.len() && a != b implies u[a].0@ != u[b].0@ by {
        let a2 = if a < i { a } else { a + 1 };
        let b2 = if b < i { b } else { b + 1 };
        assert(u[a] == es[a2]);
        assert(u[b] == es[b2]);
    }
    if has_key(u, es[i].0@) {
        let j = choose|j: int| 0 <= j < u.len() && #[trigger] u[j].0@ == es[i].0@;
        let j2 = if j < i { j } else { j + 1 };
        assert(u[j] == es[j2]);
    }
    assert forall|k: Seq<char>| k != es[i].0@ implies lookup(u, k) == lookup(es, k) by {
        if has_key(es, k) {
            let j = choose|j: int| 0 <= j < es.len() && #[trigger] es[j].0@ == k;
            lemma_pos_unique(es, k, j);
            assert(j != i);
            let j2 = if j < i { j } else { j - 1 };
            assert(u[j2] == es[j]);
            lemma_pos_unique(u, k, j2);
        } else {
            if has_key(u, k) {
                let j = choose|j: int| 0 <= j < u.len() && #[trigger] u[j].0@ == k;
                let j2 = if j < i { j } else { j + 1 };
                assert(u[j] == es[j2]);
            }
        }
    }
}

} // verus!
