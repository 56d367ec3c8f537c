//! The bidirectional range cursor.
//!
//! A cursor walks the stored entries in ascending key order. It is always in
//! one of two reachable states: positioned on an entry (a borrowed key/value
//! pair is available) or exhausted (past the last entry). The borrowed pair
//! returned by [`SplinterCursor::get_curr`] is tied to the cursor's borrow of
//! the storage and to the current position: any call of
//! [`SplinterCursor::next`] or [`SplinterCursor::prev`] takes `&mut self` and
//! so ends every outstanding borrow at compile time.

use vstd::prelude::*;

use crate::model::{abs, sorted_kvs};
use crate::order::{key_cmp, lemma_lex_trans, lex_lt, CompareResult};
use crate::status::EngineStatusError;

verus! {

/// The position after a forward step from `p` among `n` entries.
pub open spec fn next_pos(p: int, n: int) -> int {
    if p < n {
        p + 1
    } else {
        p
    }
}

/// The position after a backward step from `p`.
pub open spec fn prev_pos(p: int) -> int {
    if p > 0 {
        p - 1
    } else {
        p
    }
}

/// The key/value pair at a cursor's current position: views borrowed from the
/// storage the cursor walks, valid only until the cursor moves or is dropped.
#[derive(Debug)]
pub struct IteratorResult<'a> {
    pub key: &'a [u8],
    pub value: &'a [u8],
}

/// A bidirectional cursor over the stored entries, bounded by a borrow of the
/// storage it walks: the owning handle cannot be mutated or dropped while the
/// cursor lives.
#[derive(Debug)]
pub struct SplinterCursor<'a> {
    entries: &'a Vec<(Vec<u8>, Vec<u8>)>,
    pos: usize,
    state: Option<IteratorResult<'a>>,
}

/// The first position in `entries` whose key is not below `key`, or the
/// length of `entries` if every key is below it.
pub(crate) fn seek_pos(entries: &Vec<(Vec<u8>, Vec<u8>)>, key: &[u8]) -> (r: usize)
    requires
        sorted_kvs(abs(entries@)),
    ensures
        r <= entries@.len(),
        forall|i: int| 0 <= i < r ==> lex_lt((#[trigger] abs(entries@)[i]).0, key@),
        forall|i: int| r <= i < entries@.len() ==> !lex_lt((#[trigger] abs(entries@)[i]).0, key@),
{
    let ghost s = abs(entries@);
    let n = entries.len();
    let mut i: usize = 0;
    while i < n
        invariant
            n == entries@.len(),
            s == abs(entries@),
            sorted_kvs(s),
            i <= n,
            forall|j: int| 0 <= j < i ==> lex_lt((#[trigger] s[j]).0, key@),
        decreases n - i,
    {
        proof {
            assert(s[i as int] == (entries@[i as int].0@, entries@[i as int].1@));
        }
        let c = key_cmp(entries[i].0.as_slice(), key);
        match c {
            CompareResult::Less => {
                i = i + 1;
            },
            _ => {
                proof {
                    assert forall|j: int| i <= j < s.len() implies !lex_lt(
                        (#[trigger] s[j]).0,
                        key@,
                    ) by {
                        if j > i && lex_lt(s[j].0, key@) {
                            lemma_lex_trans(s[i as int].0, s[j].0, key@);
                        }
                    }
                }
                return i;
            },
        }
    }
    i
}

/// The borrowed key/value pair at position `pos`, or nothing past the end.
fn state_at<'a>(entries: &'a Vec<(Vec<u8>, Vec<u8>)>, pos: usize) -> (r: Option<
    IteratorResult<'a>,
>)
    requires
        pos <= entries@.len(),
    ensures
        (match r {
            Some(ir) => pos < entries@.len() && ir.key@ == abs(entries@)[pos as int].0
                && ir.value@ == abs(entries@)[pos as int].1,
            None => pos == entries@.len(),
        }),
{
    if pos < entries.len() {
        proof {
            assert(abs(entries@)[pos as int] == (entries@[pos as int].0@, entries@[pos as int].1@));
        }
        let e = &entries[pos];
        Some(IteratorResult { key: e.0.as_slice(), value: e.1.as_slice() })
    } else {
        None
    }
}

impl<'a> SplinterCursor<'a> {
    /// The entries the cursor walks, in storage order.
    pub closed spec fn kvs(&self) -> Seq<(Seq<u8>, Seq<u8>)> {
        abs(self.entries@)
    }

    /// The cursor's position: an index into [`Self::kvs`], or its length when
    /// the cursor is exhausted.
    pub closed spec fn pos_spec(&self) -> int {
        self.pos as int
    }

    /// Well-formedness: the entries are sorted, the position is in range, and
    /// the cached state is the pair at the position (or nothing past the end).
    pub closed spec fn wf(&self) -> bool {
        &&& sorted_kvs(self.kvs())
        &&& self.pos <= self.kvs().len()
        &&& (match self.state {
            Some(ir) => self.pos < self.kvs().len() && ir.key@ == self.kvs()[self.pos as int].0
                && ir.value@ == self.kvs()[self.pos as int].1,
            None => self.pos == self.kvs().len(),
        })
    }

    /// Opens a cursor over `entries` (which must be in ascending key order),
    /// positioned at the first key not below `start_key`, or at the first
    /// entry when no start key is given.
    pub fn new(entries: &'a Vec<(Vec<u8>, Vec<u8>)>, start_key: Option<&[u8]>) -> (r: Result<
        SplinterCursor<'a>,
        EngineStatusError,
    >)
        requires
            sorted_kvs(abs(entries@)),
        ensures
            r matches Ok(c) && c.wf() && c.kvs() == abs(entries@) && (match start_key {
                None => c.pos_spec() == 0,
                Some(k) => {
                    &&& forall|i: int|
                        0 <= i < c.pos_spec() ==> lex_lt((#[trigger] abs(entries@)[i]).0, k@)
                    &&& forall|i: int|
                        c.pos_spec() <= i < abs(entries@).len() ==> !lex_lt(
                            (#[trigger] abs(entries@)[i]).0,
                            k@,
                        )
                },
            }),
    {
        let pos = match start_key {
            Some(k) => seek_pos(entries, k),
            None => 0,
        };
        let state = state_at(entries, pos);
        Ok(SplinterCursor { entries, pos, state })
    }

    /// The current borrowed key/value pair, or nothing when the cursor is
    /// exhausted. Never changes the cursor; safe to call repeatedly.
    pub fn get_curr(&self) -> (r: Option<&IteratorResult<'a>>)
        requires
            self.wf(),
        ensures
            (match r {
                Some(ir) => self.pos_spec() < self.kvs().len() && ir.key@
                    == self.kvs()[self.pos_spec()].0 && ir.value@ == self.kvs()[self.pos_spec()].1,
                None => self.pos_spec() == self.kvs().len(),
            }),
    {
        match self.state {
            None => None,
            Some(ref r) => Some(r),
        }
    }

    /// Steps forward. Returns `Ok(true)` and advances by one position while
    /// the cursor has not yet passed the last entry; past it, returns
    /// `Ok(false)` and stays put. The iterator status of the in-memory engine
    /// is always success, so stepping never reports an error.
    pub fn next(&mut self) -> (r: Result<bool, EngineStatusError>)
        requires
            old(self).wf(),
        ensures
            final(self).wf(),
            final(self).kvs() == old(self).kvs(),
            final(self).pos_spec() == next_pos(old(self).pos_spec(), old(self).kvs().len() as int),
            r matches Ok(b) && (b <==> old(self).pos_spec() < old(self).kvs().len()),
    {
        let can_next = self.pos < self.entries.len();
        if !can_next {
            return Ok(false);
        }
        let entries = self.entries;
        self.pos = self.pos + 1;
        self.state = state_at(entries, self.pos);
        Ok(true)
    }

    /// Steps backward. Returns `Ok(true)` and retreats by one position while
    /// the cursor is not on the first entry; on it, returns `Ok(false)` and
    /// stays put.
    pub fn prev(&mut self) -> (r: Result<bool, EngineStatusError>)
        requires
            old(self).wf(),
        ensures
            final(self).wf(),
            final(self).kvs() == old(self).kvs(),
            final(self).pos_spec() == prev_pos(old(self).pos_spec()),
            r matches Ok(b) && (b <==> old(self).pos_spec() > 0),
    {
        let can_prev = self.pos > 0;
        if !can_prev {
            return Ok(false);
        }
        let entries = self.entries;
        self.pos = self.pos - 1;
        self.state = state_at(entries, self.pos);
        Ok(true)
    }
}

} // verus!
