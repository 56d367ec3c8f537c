//! The mathematical model of the store's contents.
//!
//! The engine's records are modelled as a sequence of key/value pairs held in
//! ascending key order; point queries are modelled by the finite map the
//! sequence induces. This module proves how inserting, overwriting and
//! removing an entry of the sequence act on that map.

use vstd::prelude::*;

use crate::order::{lemma_lex_irrefl, lex_lt};

verus! {

/// The abstract contents of an entry vector: each pair as its byte sequences,
/// in storage order.
pub open spec fn abs(entries: Seq<(Vec<u8>, Vec<u8>)>) -> Seq<(Seq<u8>, Seq<u8>)> {
    entries.map_values(|e: (Vec<u8>, Vec<u8>)| (e.0@, e.1@))
}

/// Keys strictly ascending in lexicographic order.
pub open spec fn sorted_kvs(s: Seq<(Seq<u8>, Seq<u8>)>) -> bool {
    forall|i: int, j: int|
        0 <= i < j < s.len() ==> lex_lt(#[trigger] s[i].0, #[trigger] s[j].0)
}

/// Some entry holds key `k`.
pub open spec fn kvs_has_key(s: Seq<(Seq<u8>, Seq<u8>)>, k: Seq<u8>) -> bool {
    exists|i: int| 0 <= i < s.len() && (#[trigger] s[i]).0 == k
}

/// The index of the entry holding key `k`.
pub open spec fn kvs_index_of(s: Seq<(Seq<u8>, Seq<u8>)>, k: Seq<u8>) -> int {
    choose|i: int| 0 <= i < s.len() && (#[trigger] s[i]).0 == k
}

/// The point-query view: the finite map the entries induce.
pub open spec fn map_of(s: Seq<(Seq<u8>, Seq<u8>)>) -> Map<Seq<u8>, Seq<u8>> {
    Map::new(|k: Seq<u8>| kvs_has_key(s, k), |k: Seq<u8>| s[kvs_index_of(s, k)].1)
}

/// No two entries hold the same key.
pub open spec fn unique_keys(s: Seq<(Seq<u8>, Seq<u8>)>) -> bool {
    forall|i: int, j: int|
        0 <= i < s.len() && 0 <= j < s.len() && (#[trigger] s[i]).0 == (#[trigger] s[j]).0
            ==> i == j
}

/// Sorted entries hold each key at most once.
pub proof fn lemma_sorted_unique(s: Seq<(Seq<u8>, Seq<u8>)>)
    requires
        sorted_kvs(s),
    ensures
        unique_keys(s),
{
    assert forall|i: int, j: int|
        0 <= i < s.len() && 0 <= j < s.len() && (#[trigger] s[i]).0 == (#[trigger] s[j]).0
            implies i == j by {
        if i < j {
            lemma_lex_irrefl(s[i].0);
        } else if j < i {
            lemma_lex_irrefl(s[i].0);
        }
    }
}

/// An entry at index `i` is what the map answers for its key.
pub proof fn lemma_map_of_index(s: Seq<(Seq<u8>, Seq<u8>)>, i: int)
    requires
        unique_keys(s),
        0 <= i < s.len(),
    ensures
        map_of(s).contains_key(s[i].0),
        map_of(s)[s[i].0] == s[i].1,
{
    assert(kvs_has_key(s, s[i].0));
    let j = kvs_index_of(s, s[i].0);
    assert(0 <= j < s.len() && s[j].0 == s[i].0);
    assert(j == i);
}

/// A key no entry holds is absent from the map.
pub proof fn lemma_map_of_absent(s: Seq<(Seq<u8>, Seq<u8>)>, k: Seq<u8>)
    requires
        forall|i: int| 0 <= i < s.len() ==> (#[trigger] s[i]).0 != k,
    ensures
        !map_of(s).contains_key(k),
{
}

/// Inserting an entry with a fresh key at any position inserts that pair into
/// the map.
pub proof fn lemma_map_of_insert(s: Seq<(Seq<u8>, Seq<u8>)>, i: int, k: Seq<u8>, v: Seq<u8>)
    requires
        unique_keys(s),
        !kvs_has_key(s, k),
        0 <= i <= s.len(),
    ensures
        unique_keys(s.insert(i, (k, v))),
        map_of(s.insert(i, (k, v))) == map_of(s).insert(k, v),
{
    let s2 = s.insert(i, (k, v));
    s.insert_ensures(i, (k, v));
    assert forall|a: int, b: int|
        0 <= a < s2.len() && 0 <= b < s2.len() && (#[trigger] s2[a]).0 == (#[trigger] s2[b]).0
            implies a == b by {
        if a != b {
            let a0 = if a < i { a } else { a - 1 };
            let b0 = if b < i { b } else { b - 1 };
            if a == i {
                assert(s2[b].0 == s[b0].0);
                assert(kvs_has_key(s, k));
            } else if b == i {
                assert(s2[a].0 == s[a0].0);
                assert(kvs_has_key(s, k));
            } else {
                assert(s2[a].0 == s[a0].0);
                assert(s2[b].0 == s[b0].0);
            }
        }
    }
    assert forall|k2: Seq<u8>| kvs_has_key(s2, k2) <==> (k2 == k || kvs_has_key(s, k2)) by {
        if kvs_has_key(s2, k2) {
            let j = choose|j: int| 0 <= j < s2.len() && (#[trigger] s2[j]).0 == k2;
            if j < i {
                assert(s2[j] == s[j]);
            } else if j > i {
                assert(s2[j] == s[j - 1]);
            }
        }
        if k2 == k {
            assert(s2[i].0 == k2);
        } else if kvs_has_key(s, k2) {
            let j = choose|j: int| 0 <= j < s.len() && (#[trigger] s[j]).0 == k2;
            if j < i {
                assert(s2[j].0 == k2);
            } else {
                assert(s2[j + 1].0 == k2);
            }
        }
    }
    assert(map_of(s2) =~= map_of(s).insert(k, v)) by {
        assert forall|k2: Seq<u8>| #[trigger]
            map_of(s2).contains_key(k2) implies map_of(s2)[k2] == map_of(s).insert(k, v)[k2] by {
            if k2 == k {
                lemma_map_of_index(s2, i);
            } else {
                let j = choose|j: int| 0 <= j < s.len() && (#[trigger] s[j]).0 == k2;
                lemma_map_of_index(s, j);
                if j < i {
                    assert(s2[j] == s[j]);
                    lemma_map_of_index(s2, j);
                } else {
                    assert(s2[j + 1] == s[j]);
                    lemma_map_of_index(s2, j + 1);
                }
            }
        }
    }
}

/// Overwriting the value at index `i` re-binds that entry's key in the map.
pub proof fn lemma_map_of_update(s: Seq<(Seq<u8>, Seq<u8>)>, i: int, v: Seq<u8>)
    requires
        unique_keys(s),
        0 <= i < s.len(),
    ensures
        unique_keys(s.update(i, (s[i].0, v))),
        map_of(s.update(i, (s[i].0, v))) == map_of(s).insert(s[i].0, v),
{
    let k = s[i].0;
    let s2 = s.update(i, (k, v));
    assert forall|a: int, b: int|
        0 <= a < s2.len() && 0 <= b < s2.len() && (#[trigger] s2[a]).0 == (#[trigger] s2[b]).0
            implies a == b by {
        assert(s2[a].0 == s[a].0);
        assert(s2[b].0 == s[b].0);
    }
    assert forall|k2: Seq<u8>| kvs_has_key(s2, k2) <==> kvs_has_key(s, k2) by {
        if kvs_has_key(s2, k2) {
            let j = choose|j: int| 0 <= j < s2.len() && (#[trigger] s2[j]).0 == k2;
            assert(s[j].0 == k2);
        }
        if kvs_has_key(s, k2) {
            let j = choose|j: int| 0 <= j < s.len() && (#[trigger] s[j]).0 == k2;
            assert(s2[j].0 == k2);
        }
    }
    assert(map_of(s2) =~= map_of(s).insert(k, v)) by {
        assert forall|k2: Seq<u8>| #[trigger]
            map_of(s2).contains_key(k2) implies map_of(s2)[k2] == map_of(s).insert(k, v)[k2] by {
            if k2 == k {
                lemma_map_of_index(s2, i);
            } else {
                let j = choose|j: int| 0 <= j < s.len() && (#[trigger] s[j]).0 == k2;
                lemma_map_of_index(s, j);
                assert(s2[j] == s[j]);
                lemma_map_of_index(s2, j);
            }
        }
    }
}

/// Removing the entry at index `i` removes its key from the map.
pub proof fn lemma_map_of_remove(s: Seq<(Seq<u8>, Seq<u8>)>, i: int)
    requires
        unique_keys(s),
        0 <= i < s.len(),
    ensures
        unique_keys(s.remove(i)),
        map_of(s.remove(i)) == map_of(s).remove(s[i].0),
{
    let k = s[i].0;
    let s2 = s.remove(i);
    s.remove_ensures(i);
    assert forall|a: int, b: int|
        0 <= a < s2.len() && 0 <= b < s2.len() && (#[trigger] s2[a]).0 == (#[trigger] s2[b]).0
            implies a == b by {
        let a0 = if a < i { a } else { a + 1 };
        let b0 = if b < i { b } else { b + 1 };
        assert(s2[a].0 == s[a0].0);
        assert(s2[b].0 == s[b0].0);
    }
    assert forall|k2: Seq<u8>| kvs_has_key(s2, k2) <==> (k2 != k && kvs_has_key(s, k2)) by {
        if kvs_has_key(s2, k2) {
            let j = choose|j: int| 0 <= j < s2.len() && (#[trigger] s2[j]).0 == k2;
            let j0 = if j < i { j } else { j + 1 };
            assert(s2[j].0 == s[j0].0);
            assert(kvs_has_key(s, k2));
            assert(k2 != k);
        }
        if k2 != k && kvs_has_key(s, k2) {
            let j = choose|j: int| 0 <= j < s.len() && (#[trigger] s[j]).0 == k2;
            assert(j != i);
            if j < i {
                assert(s2[j].0 == k2);
            } else {
                assert(s2[j - 1].0 == k2);
            }
        }
    }
    assert(map_of(s2) =~= map_of(s).remove(k)) by {
        assert forall|k2: Seq<u8>| #[trigger]
            map_of(s2).contains_key(k2) implies map_of(s2)[k2] == map_of(s).remove(k)[k2] by {
            let j = choose|j: int| 0 <= j < s.len() && (#[trigger] s[j]).0 == k2;
            lemma_map_of_index(s, j);
            if j < i {
                assert(s2[j] == s[j]);
                lemma_map_of_index(s2, j);
            } else {
                assert(s2[j - 1] == s[j]);
                lemma_map_of_index(s2, j - 1);
            }
        }
    }
}

/// Inserting between the smaller and the larger keys keeps the entries sorted.
pub proof fn lemma_sorted_insert(s: Seq<(Seq<u8>, Seq<u8>)>, i: int, k: Seq<u8>, v: Seq<u8>)
    requires
        sorted_kvs(s),
        0 <= i <= s.len(),
        forall|j: int| 0 <= j < i ==> lex_lt((#[trigger] s[j]).0, k),
        forall|j: int| i <= j < s.len() ==> lex_lt(k, (#[trigger] s[j]).0),
    ensures
        sorted_kvs(s.insert(i, (k, v))),
{
    let s2 = s.insert(i, (k, v));
    s.insert_ensures(i, (k, v));
    assert forall|a: int, b: int| 0 <= a < b < s2.len() implies lex_lt(
        (#[trigger] s2[a]).0,
        (#[trigger] s2[b]).0,
    ) by {
        let a0 = if a < i { a } else { a - 1 };
        let b0 = if b < i { b } else { b - 1 };
        if a == i {
            assert(s2[b].0 == s[b0].0);
        } else if b == i {
            assert(s2[a].0 == s[a0].0);
        } else {
            assert(s2[a].0 == s[a0].0);
            assert(s2[b].0 == s[b0].0);
        }
    }
}

/// Overwriting a value in place keeps the entries sorted.
pub proof fn lemma_sorted_update(s: Seq<(Seq<u8>, Seq<u8>)>, i: int, v: Seq<u8>)
    requires
        sorted_kvs(s),
        0 <= i < s.len(),
    ensures
        sorted_kvs(s.update(i, (s[i].0, v))),
{
    let s2 = s.update(i, (s[i].0, v));
    assert forall|a: int, b: int| 0 <= a < b < s2.len() implies lex_lt(
        (#[trigger] s2[a]).0,
        (#[trigger] s2[b]).0,
    ) by {
        assert(s2[a].0 == s[a].0);
        assert(s2[b].0 == s[b].0);
    }
}

/// Removing an entry keeps the remaining entries sorted.
pub proof fn lemma_sorted_remove(s: Seq<(Seq<u8>, Seq<u8>)>, i: int)
    requires
        sorted_kvs(s),
        0 <= i < s.len(),
    ensures
        sorted_kvs(s.remove(i)),
{
    let s2 = s.remove(i);
    s.remove_ensures(i);
    assert forall|a: int, b: int| 0 <= a < b < s2.len() implies lex_lt(
        (#[trigger] s2[a]).0,
        (#[trigger] s2[b]).0,
    ) by {
        let a0 = if a < i { a } else { a + 1 };
        let b0 = if b < i { b } else { b + 1 };
        assert(s2[a].0 == s[a0].0);
        assert(s2[b].0 == s[b0].0);
    }
}

/// Inserting into the entry vector inserts the abstracted pair.
pub proof fn lemma_abs_insert(es: Seq<(Vec<u8>, Vec<u8>)>, i: int, e: (Vec<u8>, Vec<u8>))
    requires
        0 <= i <= es.len(),
    ensures
        abs(es.insert(i, e)) == abs(es).insert(i, (e.0@, e.1@)),
{
    es.insert_ensures(i, e);
    abs(es).insert_ensures(i, (e.0@, e.1@));
    assert(abs(es.insert(i, e)) =~= abs(es).insert(i, (e.0@, e.1@)));
}

/// Removing from the entry vector removes the abstracted pair.
pub proof fn lemma_abs_remove(es: Seq<(Vec<u8>, Vec<u8>)>, i: int)
    requires
        0 <= i < es.len(),
    ensures
        abs(es.remove(i)) == abs(es).remove(i),
{
    es.remove_ensures(i);
    abs(es).remove_ensures(i);
    assert(abs(es.remove(i)) =~= abs(es).remove(i));
}

/// The empty entry vector induces the empty map.
pub proof fn lemma_map_of_empty()
    ensures
        map_of(Seq::<(Seq<u8>, Seq<u8>)>::empty()) == Map::<Seq<u8>, Seq<u8>>::empty(),
{
    assert(map_of(Seq::<(Seq<u8>, Seq<u8>)>::empty()) =~= Map::<Seq<u8>, Seq<u8>>::empty());
}

} // verus!
