//! Entries kept in strictly increasing key order, the model of an ordered map
//! keyed by text (`BTreeMap<String, _>`): lookup, insertion in place, removal.
use vstd::prelude::*;
use crate::text::{chars_eq, chars_lt, chars_of, lemma_lex_irreflexive, lemma_lex_total, lemma_lex_transitive, lex_lt};

verus! {

pub open spec fn keys_sorted<V>(v: Seq<(Seq<char>, V)>) -> bool {
    forall|i: int, j: int| 0 <= i < j < v.len() ==> lex_lt((#[trigger] v[i]).0, (#[trigger] v[j]).0)
}

/// How many entries sort before `k`: where it is, or would be inserted.
pub open spec fn key_lower_bound<V>(v: Seq<(Seq<char>, V)>, k: Seq<char>) -> int
    decreases v.len(),
{
    if v.len() == 0 {
        0
    } else if lex_lt(v.last().0, k) {
        v.len() as int
    } else {
        key_lower_bound(v.drop_last(), k)
    }
}

/// The position of the entry with key `k`.
pub open spec fn key_find<V>(v: Seq<(Seq<char>, V)>, k: Seq<char>) -> Option<int> {
    let p = key_lower_bound(v, k);
    if 0 <= p < v.len() && v[p].0 == k {
        Some(p)
    } else {
        None
    }
}

/// `v` with `x` stored under `k`, replacing any earlier entry.
pub open spec fn key_put<V>(v: Seq<(Seq<char>, V)>, k: Seq<char>, x: V) -> Seq<(Seq<char>, V)> {
    match key_find(v, k) {
        Some(p) => v.update(p, (k, x)),
        None => v.insert(key_lower_bound(v, k), (k, x)),
    }
}

pub proof fn lemma_key_lower_bound<V>(v: Seq<(Seq<char>, V)>, k: Seq<char>)
    requires
        keys_sorted(v),
    ensures
        0 <= key_lower_bound(v, k) <= v.len(),
        forall|i: int| 0 <= i < key_lower_bound(v, k) ==> lex_lt((#[trigger] v[i]).0, k),
        forall|i: int| key_lower_bound(v, k) <= i < v.len() ==> !lex_lt((#[trigger] v[i]).0, k),
    decreases v.len(),
{
    if v.len() > 0 {
        let d = v.drop_last();
        assert(keys_sorted(d));
        lemma_key_lower_bound(d, k);
        if lex_lt(v.last().0, k) {
            assert forall|i: int| 0 <= i < v.len() implies lex_lt((#[trigger] v[i]).0, k) by {
                if i < v.len() - 1 {
                    assert(lex_lt(v[i].0, v[v.len() - 1].0));
                    lemma_lex_transitive(v[i].0, v.last().0, k);
                }
            }
        } else {
            assert forall|i: int| 0 <= i < key_lower_bound(v, k) implies lex_lt((#[trigger] v[i]).0, k) by {
                assert(v[i] == d[i]);
            }
            assert forall|i: int| key_lower_bound(v, k) <= i < v.len() implies !lex_lt((#[trigger] v[i]).0, k) by {
                if i < v.len() - 1 {
                    assert(v[i] == d[i]);
                }
            }
        }
    }
}

pub proof fn lemma_key_find<V>(v: Seq<(Seq<char>, V)>, k: Seq<char>)
    requires
        keys_sorted(v),
    ensures
        match key_find(v, k) {
            Some(p) => 0 <= p < v.len() && v[p].0 == k,
            None => forall|i: int| 0 <= i < v.len() ==> (#[trigger] v[i]).0 != k,
        },
{
    lemma_key_lower_bound(v, k);
    let p = key_lower_bound(v, k);
    if key_find(v, k) is None {
        assert forall|i: int| 0 <= i < v.len() implies (#[trigger] v[i]).0 != k by {
            if v[i].0 == k {
                lemma_lex_irreflexive(k);
                if i > p {
                    lemma_lex_total(v[p].0, k);
                    assert(lex_lt(v[p].0, v[i].0));
                }
            }
        }
    }
}

/// In a sorted sequence an entry's position is fixed by its key.
pub proof fn lemma_key_unique<V>(v: Seq<(Seq<char>, V)>, i: int)
    requires
        keys_sorted(v),
        0 <= i < v.len(),
    ensures
        key_find(v, v[i].0) == Some(i),
{
    let k = v[i].0;
    lemma_key_find(v, k);
    lemma_key_lower_bound(v, k);
    lemma_lex_irreflexive(k);
    match key_find(v, k) {
        Some(p) => {
            if p < i {
                assert(lex_lt(v[p].0, v[i].0));
            } else if p > i {
                assert(lex_lt(v[i].0, v[p].0));
            }
        },
        None => {},
    }
}

pub proof fn lemma_key_put<V>(v: Seq<(Seq<char>, V)>, k: Seq<char>, x: V)
    requires
        keys_sorted(v),
    ensures
        keys_sorted(key_put(v, k, x)),
        key_find(key_put(v, k, x), k) is Some,
        key_put(v, k, x)[key_find(key_put(v, k, x), k).unwrap()] == (k, x),
        key_put(v, k, x).len() == v.len() + (if key_find(v, k) is Some { 0int } else { 1int }),
{
    lemma_key_lower_bound(v, k);
    lemma_key_find(v, k);
    let p = key_lower_bound(v, k);
    let r = key_put(v, k, x);
    if key_find(v, k) is Some {
        assert forall|i: int, j: int| 0 <= i < j < r.len() implies lex_lt((#[trigger] r[i]).0, (#[trigger] r[j]).0) by {
            assert(r[i].0 == v[i].0 && r[j].0 == v[j].0);
        }
    } else {
        assert forall|i: int, j: int| 0 <= i < j < r.len() implies lex_lt((#[trigger] r[i]).0, (#[trigger] r[j]).0) by {
            if j < p {
                assert(r[i] == v[i] && r[j] == v[j]);
            } else if j == p {
                assert(r[i] == v[i]);
            } else if i == p {
                assert(r[j] == v[j - 1]);
                lemma_lex_total(v[j - 1].0, k);
                if j - 1 > p {
                    lemma_lex_total(v[p].0, k);
                    lemma_lex_transitive(k, v[p].0, v[j - 1].0);
                }
            } else if i < p {
                assert(r[i] == v[i] && r[j] == v[j - 1]);
                if j - 1 >= p {
                    lemma_lex_total(v[j - 1].0, k);
                    lemma_lex_transitive(v[i].0, k, v[j - 1].0);
                }
            } else {
                assert(r[i] == v[i - 1] && r[j] == v[j - 1]);
            }
        }
    }
    let q0 = if key_find(v, k) is Some { key_find(v, k).unwrap() } else { p };
    assert(r[q0] == (k, x));
    lemma_key_unique(r, q0);
}

/// Removing an entry keeps the order.
pub proof fn lemma_key_remove<V>(v: Seq<(Seq<char>, V)>, p: int)
    requires
        keys_sorted(v),
        0 <= p < v.len(),
    ensures
        keys_sorted(v.remove(p)),
{
    let r = v.remove(p);
    assert forall|i: int, j: int| 0 <= i < j < r.len() implies lex_lt((#[trigger] r[i]).0, (#[trigger] r[j]).0) by {
        let a = if i < p { i } else { i + 1 };
        let b = if j < p { j } else { j + 1 };
        assert(r[i] == v[a] && r[j] == v[b]);
    }
}

/// Replacing the value of an entry keeps the order.
pub proof fn lemma_key_update<V>(v: Seq<(Seq<char>, V)>, p: int, x: V)
    requires
        keys_sorted(v),
        0 <= p < v.len(),
    ensures
        keys_sorted(v.update(p, (v[p].0, x))),
{
    let r = v.update(p, (v[p].0, x));
    assert forall|i: int, j: int| 0 <= i < j < r.len() implies lex_lt((#[trigger] r[i]).0, (#[trigger] r[j]).0) by {
        assert(r[i].0 == v[i].0 && r[j].0 == v[j].0);
    }
}

/// `v` without the entry keyed `k`, if it has one.
pub open spec fn key_remove<V>(v: Seq<(Seq<char>, V)>, k: Seq<char>) -> Seq<(Seq<char>, V)> {
    match key_find(v, k) {
        Some(p) => v.remove(p),
        None => v,
    }
}

/// The value stored under `k`.
pub open spec fn key_get<V>(v: Seq<(Seq<char>, V)>, k: Seq<char>) -> Option<V> {
    match key_find(v, k) {
        Some(p) => Some(v[p].1),
        None => None,
    }
}

/// A text-to-text map held as a vector of pairs.
pub open spec fn text_pairs(v: Seq<(String, String)>) -> Seq<(Seq<char>, Seq<char>)> {
    v.map_values(|p: (String, String)| (p.0@, p.1@))
}

fn text_locate(m: &Vec<(String, String)>, k: &[char]) -> (r: usize)
    requires
        keys_sorted(text_pairs(m@)),
    ensures
        r as int == key_lower_bound(text_pairs(m@), k@),
{
    let ghost v = text_pairs(m@);
    proof {
        lemma_key_lower_bound(v, k@);
    }
    let mut i: usize = 0;
    while i < m.len()
        invariant
            v == text_pairs(m@),
            keys_sorted(v),
            i <= m@.len(),
            v.len() == m@.len(),
            i <= key_lower_bound(v, k@),
            0 <= key_lower_bound(v, k@) <= v.len(),
            forall|j: int| key_lower_bound(v, k@) <= j < v.len() ==> !lex_lt((#[trigger] v[j]).0, k@),
            forall|j: int| 0 <= j < key_lower_bound(v, k@) ==> lex_lt((#[trigger] v[j]).0, k@),
        decreases m.len() - i,
    {
        let name = chars_of(m[i].0.as_str());
        assert(v[i as int].0 == name@);
        if !chars_lt(&name, k) {
            return i;
        }
        i += 1;
    }
    i
}

fn text_find(m: &Vec<(String, String)>, k: &[char]) -> (r: Option<usize>)
    requires
        keys_sorted(text_pairs(m@)),
    ensures
        r matches Some(p) ==> key_find(text_pairs(m@), k@) == Some(p as int),
        r is None ==> key_find(text_pairs(m@), k@) is None,
{
    let p = text_locate(m, k);
    if p < m.len() {
        let name = chars_of(m[p].0.as_str());
        if chars_eq(&name, k) {
            return Some(p);
        }
    }
    None
}

/// Stores `value` under `key`, replacing any earlier value.
pub fn text_map_put(m: &mut Vec<(String, String)>, key: String, value: String)
    requires
        keys_sorted(text_pairs(old(m)@)),
    ensures
        keys_sorted(text_pairs(final(m)@)),
        text_pairs(final(m)@) == key_put(text_pairs(old(m)@), key@, value@),
{
    let ghost v = text_pairs(m@);
    let k = chars_of(key.as_str());
    proof {
        lemma_key_put(v, key@, value@);
        lemma_key_lower_bound(v, key@);
    }
    match text_find(m, &k) {
        Some(p) => {
            m.set(p, (key, value));
            assert(text_pairs(m@) =~= v.update(p as int, (k@, value@)));
        },
        None => {
            let at = text_locate(m, &k);
            m.insert(at, (key, value));
            assert(text_pairs(m@) =~= v.insert(at as int, (k@, value@)));
        },
    }
}

/// Drops the entry under `key`, if there is one.
pub fn text_map_remove(m: &mut Vec<(String, String)>, key: &str)
    requires
        keys_sorted(text_pairs(old(m)@)),
    ensures
        keys_sorted(text_pairs(final(m)@)),
        text_pairs(final(m)@) == key_remove(text_pairs(old(m)@), key@),
{
    let ghost v = text_pairs(m@);
    let k = chars_of(key);
    match text_find(m, &k) {
        Some(p) => {
            m.remove(p);
            assert(text_pairs(m@) =~= v.remove(p as int));
            proof {
                lemma_key_remove(v, p as int);
            }
        },
        None => {},
    }
}

/// The value under `key`.
pub fn text_map_get<'a>(m: &'a Vec<(String, String)>, key: &str) -> (r: Option<&'a str>)
    requires
        keys_sorted(text_pairs(m@)),
    ensures
        match key_get(text_pairs(m@), key@) {
            Some(x) => r matches Some(s) && s@ == x,
            None => r is None,
        },
{
    let k = chars_of(key);
    match text_find(m, &k) {
        Some(p) => Some(m[p].1.as_str()),
        None => None,
    }
}

/// Storing twice under one key keeps only the second value.
/// Storing under `k` leaves what every other key holds unchanged.
#[verifier::spinoff_prover]
pub proof fn lemma_key_get_put_other<V>(v: Seq<(Seq<char>, V)>, k: Seq<char>, x: V, o: Seq<char>)
    requires
        keys_sorted(v),
        o != k,
    ensures
        key_get(key_put(v, k, x), o) == key_get(v, o),
{
    let w = key_put(v, k, x);
    lemma_key_put(v, k, x);
    lemma_key_lower_bound(v, k);
    lemma_key_find(v, k);
    lemma_key_find(v, o);
    lemma_key_find(w, o);
    match key_find(w, o) {
        Some(p) => {
            match key_find(v, k) {
                Some(q) => {
                    assert(w[p] == v[p]);
                    lemma_key_unique(v, p);
                },
                None => {
                    let at = key_lower_bound(v, k);
                    if p < at {
                        assert(w[p] == v[p]);
                        lemma_key_unique(v, p);
                    } else {
                        assert(p != at);
                        assert(w[p] == v[p - 1]);
                        lemma_key_unique(v, p - 1);
                    }
                },
            }
        },
        None => {
            match key_find(v, o) {
                Some(q) => {
                    match key_find(v, k) {
                        Some(r) => {
                            assert(w[q] == v[q]);
                        },
                        None => {
                            let at = key_lower_bound(v, k);
                            if q < at {
                                assert(w[q] == v[q]);
                            } else {
                                assert(w[q + 1] == v[q]);
                            }
                        },
                    }
                },
                None => {},
            }
        },
    }
}

pub proof fn lemma_key_put_put<V>(v: Seq<(Seq<char>, V)>, k: Seq<char>, x: V, y: V)
    requires
        keys_sorted(v),
    ensures
        key_put(key_put(v, k, x), k, y) == key_put(v, k, y),
{
    lemma_key_put(v, k, x);
    lemma_key_find(v, k);
    lemma_key_lower_bound(v, k);
    let w = key_put(v, k, x);
    let p = key_find(w, k).unwrap();
    match key_find(v, k) {
        Some(q) => {
            lemma_key_unique(w, q);
            assert(key_put(w, k, y) =~= key_put(v, k, y));
        },
        None => {
            let at = key_lower_bound(v, k);
            assert(w[at] == (k, x));
            lemma_key_unique(w, at);
            assert(key_put(w, k, y) =~= key_put(v, k, y));
        },
    }
}

/// Storing the value already stored changes nothing.
pub proof fn lemma_key_put_same<V>(v: Seq<(Seq<char>, V)>, k: Seq<char>, x: V)
    requires
        keys_sorted(v),
        key_get(v, k) == Some(x),
    ensures
        key_put(v, k, x) == v,
{
    let p = key_find(v, k).unwrap();
    lemma_key_find(v, k);
    assert(key_put(v, k, x) =~= v);
}

/// Removing what was just added restores the map.
pub proof fn lemma_key_remove_put<V>(v: Seq<(Seq<char>, V)>, k: Seq<char>, x: V)
    requires
        keys_sorted(v),
        key_find(v, k) is None,
    ensures
        key_remove(key_put(v, k, x), k) == v,
{
    lemma_key_put(v, k, x);
    lemma_key_lower_bound(v, k);
    let at = key_lower_bound(v, k);
    let w = key_put(v, k, x);
    assert(w[at] == (k, x));
    lemma_key_unique(w, at);
    assert(w.remove(at) =~= v);
}

} // verus!
