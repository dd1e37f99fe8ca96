//! A sequence of records with distinct keys, seen as a map from key to
//! record: the model of the font map tables.

use vstd::prelude::*;

verus! {

/// The map that the records `v` give, each under its key; a later record
/// overrides an earlier one with the same key.
pub open spec fn keyed_map<M>(v: Seq<M>, key: spec_fn(M) -> Seq<char>) -> Map<Seq<char>, M>
    decreases v.len(),
{
    if v.len() == 0 {
        Map::empty()
    } else {
        keyed_map(v.drop_last(), key).insert(key(v.last()), v.last())
    }
}

pub open spec fn distinct_keys<M>(v: Seq<M>, key: spec_fn(M) -> Seq<char>) -> bool {
    forall|i: int, j: int| 0 <= i < j < v.len() ==> key(#[trigger] v[i]) != key(#[trigger] v[j])
}

pub proof fn lemma_keyed_lookup<M>(v: Seq<M>, key: spec_fn(M) -> Seq<char>, k: Seq<char>)
    requires
        distinct_keys(v, key),
    ensures
        keyed_map(v, key).contains_key(k) <==> exists|i: int| 0 <= i < v.len() && key(v[i]) == k,
        forall|i: int| 0 <= i < v.len() && key(v[i]) == k ==> keyed_map(v, key)[k] == v[i],
    decreases v.len(),
{
    if v.len() > 0 {
        let w = v.drop_last();
        assert(distinct_keys(w, key)) by {
            assert forall|i: int, j: int| 0 <= i < j < w.len() implies key(#[trigger] w[i]) != key(#[trigger] w[j]) by {
                assert(w[i] == v[i] && w[j] == v[j]);
            }
        }
        lemma_keyed_lookup(w, key, k);
        if keyed_map(v, key).contains_key(k) {
            if key(v.last()) != k {
                let i = choose|i: int| 0 <= i < w.len() && key(w[i]) == k;
                assert(v[i] == w[i]);
            }
        }
        assert forall|i: int| 0 <= i < v.len() && key(v[i]) == k implies keyed_map(v, key)[k] == v[i] by {
            if i < v.len() - 1 {
                assert(w[i] == v[i]);
                assert(key(v[i]) != key(v[v.len() - 1]));
            }
        }
        if exists|i: int| 0 <= i < v.len() && key(v[i]) == k {
            let i = choose|i: int| 0 <= i < v.len() && key(v[i]) == k;
            if i < v.len() - 1 {
                assert(w[i] == v[i]);
            }
        }
    }
}

/// Adding a record with a new key.
pub proof fn lemma_keyed_push<M>(v: Seq<M>, key: spec_fn(M) -> Seq<char>, e: M)
    requires
        distinct_keys(v, key),
        forall|i: int| 0 <= i < v.len() ==> key(#[trigger] v[i]) != key(e),
    ensures
        distinct_keys(v.push(e), key),
        keyed_map(v.push(e), key) == keyed_map(v, key).insert(key(e), e),
{
    let w = v.push(e);
    assert(w.drop_last() =~= v);
    assert forall|i: int, j: int| 0 <= i < j < w.len() implies key(#[trigger] w[i]) != key(#[trigger] w[j]) by {
        if j == w.len() - 1 {
            assert(w[i] == v[i]);
        } else {
            assert(w[i] == v[i] && w[j] == v[j]);
        }
    }
}

/// Replacing the record with the same key.
pub proof fn lemma_keyed_update<M>(v: Seq<M>, key: spec_fn(M) -> Seq<char>, i: int, e: M)
    requires
        distinct_keys(v, key),
        0 <= i < v.len(),
        key(v[i]) == key(e),
    ensures
        distinct_keys(v.update(i, e), key),
        keyed_map(v.update(i, e), key) =~= keyed_map(v, key).insert(key(e), e),
{
    let w = v.update(i, e);
    assert forall|a: int, b: int| 0 <= a < b < w.len() implies key(#[trigger] w[a]) != key(#[trigger] w[b]) by {
        if a == i {
            assert(key(v[i]) != key(v[b]));
        } else if b == i {
            assert(key(v[a]) != key(v[i]));
        } else {
            assert(key(v[a]) != key(v[b]));
        }
    }
    lemma_keyed_lookup(v, key, key(e));
    assert forall|k: Seq<char>| #[trigger] keyed_map(w, key).contains_key(k)
        <==> keyed_map(v, key).insert(key(e), e).contains_key(k) by {
        lemma_keyed_lookup(v, key, k);
        lemma_keyed_lookup(w, key, k);
        if keyed_map(v, key).contains_key(k) {
            let j = choose|j: int| 0 <= j < v.len() && key(v[j]) == k;
            if j == i {
                assert(key(w[i]) == k);
            } else {
                assert(w[j] == v[j]);
            }
        }
        if keyed_map(w, key).contains_key(k) {
            let j = choose|j: int| 0 <= j < w.len() && key(w[j]) == k;
            if j != i {
                assert(w[j] == v[j]);
            }
        }
        if k == key(e) {
            assert(key(w[i]) == k);
        }
    }
    assert forall|k: Seq<char>| #[trigger] keyed_map(w, key).contains_key(k)
        implies keyed_map(w, key)[k] == keyed_map(v, key).insert(key(e), e)[k] by {
        lemma_keyed_lookup(v, key, k);
        lemma_keyed_lookup(w, key, k);
        let j = choose|j: int| 0 <= j < w.len() && key(w[j]) == k;
        if j != i {
            assert(w[j] == v[j]);
        }
    }
}

/// `m` with the entries `es` put in, one after the other.
pub open spec fn insert_all<M>(m: Map<Seq<char>, M>, es: Seq<M>, key: spec_fn(M) -> Seq<char>) -> Map<Seq<char>, M>
    decreases es.len(),
{
    if es.len() == 0 {
        m
    } else {
        insert_all(m, es.drop_last(), key).insert(key(es.last()), es.last())
    }
}

/// Reading back what was added: after the records `es` go into `m`, the key
/// of record `j` maps to record `j` when no later record has that key.
pub proof fn law_read_after_insert_all<M>(m: Map<Seq<char>, M>, es: Seq<M>, key: spec_fn(M) -> Seq<char>, j: int)
    requires
        0 <= j < es.len(),
        forall|l: int| j < l < es.len() ==> key(#[trigger] es[l]) != key(es[j]),
    ensures
        insert_all(m, es, key).contains_key(key(es[j])),
        insert_all(m, es, key)[key(es[j])] == es[j],
    decreases es.len(),
{
    if j < es.len() - 1 {
        let w = es.drop_last();
        assert forall|l: int| j < l < w.len() implies key(#[trigger] w[l]) != key(w[j]) by {
            assert(w[l] == es[l]);
        }
        law_read_after_insert_all(m, w, key, j);
        assert(key(es[es.len() - 1]) != key(es[j]));
    }
}

/// A key that none of the records `es` has keeps what `m` gave it.
pub proof fn law_insert_all_leaves_other_keys<M>(m: Map<Seq<char>, M>, es: Seq<M>, key: spec_fn(M) -> Seq<char>, k: Seq<char>)
    requires
        forall|j: int| 0 <= j < es.len() ==> key(#[trigger] es[j]) != k,
    ensures
        insert_all(m, es, key).contains_key(k) == m.contains_key(k),
        m.contains_key(k) ==> insert_all(m, es, key)[k] == m[k],
    decreases es.len(),
{
    if es.len() > 0 {
        let w = es.drop_last();
        assert forall|j: int| 0 <= j < w.len() implies key(#[trigger] w[j]) != k by {
            assert(w[j] == es[j]);
        }
        law_insert_all_leaves_other_keys(m, w, key, k);
        assert(key(es[es.len() - 1]) != k);
    }
}

/// Every record put in is found afterwards: after the records `es` go into
/// `m`, the key of each of them is in the map.
pub proof fn law_insert_all_has_every_key<M>(m: Map<Seq<char>, M>, es: Seq<M>, key: spec_fn(M) -> Seq<char>, j: int)
    requires
        0 <= j < es.len(),
    ensures
        insert_all(m, es, key).contains_key(key(es[j])),
    decreases es.len(),
{
    if j < es.len() - 1 {
        law_insert_all_has_every_key(m, es.drop_last(), key, j);
        assert(es.drop_last()[j] == es[j]);
    }
}

} // verus!
