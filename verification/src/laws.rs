//! Laws the library's contracts compose to.
//!
//! Each proof function here states, over the same models the operation
//! contracts use, a guarantee that spans more than one operation: what a
//! lookup sees after an insert or a delete, what a cursor pass visits, and
//! how forward and backward steps compose.

use vstd::prelude::*;

use crate::cursor::{next_pos, prev_pos};
use crate::db::{SdbRustDataFuncs, SplinterDB};
use crate::model::{kvs_has_key, lemma_map_of_index, lemma_sorted_unique};
use crate::order::lex_lt;

verus! {

/// Law: storing a value and then looking its key up finds exactly that
/// value. `insert` ensures the view becomes `m.insert(k, v)`; `lookup`
/// answers from the view.
pub proof fn lemma_insert_then_lookup(m: Map<Seq<u8>, Seq<u8>>, k: Seq<u8>, v: Seq<u8>)
    ensures
        m.insert(k, v).contains_key(k),
        m.insert(k, v)[k] == v,
{
}

/// Law: deleting a key and then looking it up finds nothing. `delete`
/// ensures the view becomes `m.remove(k)`; `lookup` answers from the view.
pub proof fn lemma_delete_then_lookup(m: Map<Seq<u8>, Seq<u8>>, k: Seq<u8>)
    ensures
        !m.remove(k).contains_key(k),
{
}

/// Law: a key never stored is never found. A fresh database's view is empty,
/// and neither storing under another key nor deleting another key makes `k`
/// appear.
pub proof fn lemma_never_inserted_not_found(
    m: Map<Seq<u8>, Seq<u8>>,
    k: Seq<u8>,
    k2: Seq<u8>,
    v2: Seq<u8>,
)
    requires
        k2 != k,
    ensures
        !Map::<Seq<u8>, Seq<u8>>::empty().contains_key(k),
        m.insert(k2, v2).contains_key(k) == m.contains_key(k),
        m.remove(k2).contains_key(k) == m.contains_key(k),
{
}

/// Law: a full forward pass of a cursor visits every stored key exactly
/// once, in strictly ascending order. A cursor opened with no start key
/// begins at position zero, each successful `next` moves one position up
/// until it returns false past the last entry, and `get_curr` at position
/// `i` hands out entry `i`; this law says those entries are strictly
/// ascending by key, carry each key of the view exactly once, and hold the
/// view's value for it.
pub proof fn lemma_range_visits_ascending<T: SdbRustDataFuncs>(db: &SplinterDB<T>)
    requires
        db.wf(),
    ensures
        forall|i: int, j: int|
            0 <= i < j < db.kvs().len() ==> lex_lt(
                (#[trigger] db.kvs()[i]).0,
                (#[trigger] db.kvs()[j]).0,
            ),
        forall|i: int, j: int|
            0 <= i < db.kvs().len() && 0 <= j < db.kvs().len() && (#[trigger] db.kvs()[i]).0 == (
            #[trigger] db.kvs()[j]).0 ==> i == j,
        forall|k: Seq<u8>| #[trigger]
            db@.contains_key(k) <==> exists|i: int|
                0 <= i < db.kvs().len() && (#[trigger] db.kvs()[i]).0 == k,
        forall|i: int|
            0 <= i < db.kvs().len() ==> db@.contains_key((#[trigger] db.kvs()[i]).0) && db@[db.kvs(
            )[i].0] == db.kvs()[i].1,
{
    let s = db.kvs();
    lemma_sorted_unique(s);
    assert forall|i: int| 0 <= i < s.len() implies db@.contains_key((#[trigger] s[i]).0) && db@[
        s[i].0
    ] == s[i].1 by {
        lemma_map_of_index(s, i);
    }
    assert forall|k: Seq<u8>| #[trigger] db@.contains_key(k) implies exists|i: int|
        0 <= i < s.len() && (#[trigger] s[i]).0 == k by {
        assert(kvs_has_key(s, k));
    }
}

/// Law: a position reached by a forward step is undone by one backward
/// step. For any position `p` from which `next` advances (`p < n`), `prev`
/// from the new position comes back to `p`; at the lower boundary, where no
/// previous position exists, `prev` stays put.
pub proof fn lemma_next_then_prev(p: int, n: int)
    requires
        0 <= p < n,
    ensures
        prev_pos(next_pos(p, n)) == p,
        prev_pos(0) == 0,
{
}

} // verus!
