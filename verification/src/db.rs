//! The owning database handle and its point operations.
//!
//! A [`SplinterDB`] is the single owner of an engine instance and of the
//! configuration the instance was opened with. The engine instance is valid
//! exactly between a successful `db_create`/`db_open` and `close`; operations
//! on a handle that is not open fail with [`STATUS_INVALID`] instead of
//! touching a dead resource. The stored records are kept in ascending key
//! order and viewed, through [`View`], as a finite map from keys to values.

use core::marker::PhantomData;

use vstd::prelude::*;
use vstd::slice::slice_to_vec;

use crate::config::DBConfig;
use crate::cursor::{seek_pos, SplinterCursor};
use crate::model::{
    abs, kvs_has_key, lemma_abs_insert, lemma_abs_remove, lemma_map_of_absent, lemma_map_of_empty,
    lemma_map_of_index, lemma_map_of_insert, lemma_map_of_remove, lemma_map_of_update,
    lemma_sorted_insert, lemma_sorted_remove, lemma_sorted_unique, lemma_sorted_update, map_of,
    sorted_kvs,
};
use crate::order::{
    key_cmp, lemma_lex_connected, lemma_lex_irrefl, lemma_lex_trans, lex_lt, CompareResult,
};
use crate::status::{EngineStatusError, STATUS_INVALID, STATUS_NOT_FOUND};

verus! {

/// The pluggable data-function capability set registered when a handle is
/// made: how `update` combines a stored value (or the absence of one) with a
/// delta.
pub trait SdbRustDataFuncs {
    /// The value `update` stores when the key already holds `old_value`.
    spec fn merge_spec(old_value: Seq<u8>, delta: Seq<u8>) -> Seq<u8>;

    /// The value `update` stores when the key holds nothing yet.
    spec fn merge_final_spec(delta: Seq<u8>) -> Seq<u8>;

    /// Combines a stored value with a delta.
    fn merge(old_value: &[u8], delta: &[u8]) -> (r: Vec<u8>)
        ensures
            r@ == Self::merge_spec(old_value@, delta@),
    ;

    /// Combines a delta with the absence of a stored value.
    fn merge_final(delta: &[u8]) -> (r: Vec<u8>)
        ensures
            r@ == Self::merge_final_spec(delta@),
    ;
}

/// The default data functions: an update replaces the stored value with the
/// delta.
pub struct DefaultSdb;

impl SdbRustDataFuncs for DefaultSdb {
    open spec fn merge_spec(old_value: Seq<u8>, delta: Seq<u8>) -> Seq<u8> {
        delta
    }

    open spec fn merge_final_spec(delta: Seq<u8>) -> Seq<u8> {
        delta
    }

    fn merge(old_value: &[u8], delta: &[u8]) -> (r: Vec<u8>) {
        slice_to_vec(delta)
    }

    fn merge_final(delta: &[u8]) -> (r: Vec<u8>) {
        slice_to_vec(delta)
    }
}

/// Data functions whose update appends the delta to the stored value.
pub struct ConcatSdb;

impl SdbRustDataFuncs for ConcatSdb {
    open spec fn merge_spec(old_value: Seq<u8>, delta: Seq<u8>) -> Seq<u8> {
        old_value + delta
    }

    open spec fn merge_final_spec(delta: Seq<u8>) -> Seq<u8> {
        delta
    }

    fn merge(old_value: &[u8], delta: &[u8]) -> (r: Vec<u8>) {
        let mut v = slice_to_vec(old_value);
        let mut d = slice_to_vec(delta);
        v.append(&mut d);
        v
    }

    fn merge_final(delta: &[u8]) -> (r: Vec<u8>) {
        slice_to_vec(delta)
    }
}

/// The outcome of a point lookup. A found value is always an owned copy: the
/// engine buffer backing the query is scoped to the call, so exactly one copy
/// is made before the result is returned.
#[derive(Debug, PartialEq)]
pub enum LookupResult {
    /// The key is stored and this is its full value.
    Found(Vec<u8>),
    /// The key is stored but its value exceeded a caller-imposed size bound.
    /// The in-memory engine imposes no read bound, so lookups here never
    /// report it.
    FoundTruncated(Vec<u8>),
    /// The key is not stored. A normal outcome, not an error.
    NotFound,
}

/// An owning handle to one database: the engine instance, its records, and
/// the configuration it was opened with, torn down together.
#[derive(Debug)]
pub struct SplinterDB<T: SdbRustDataFuncs> {
    is_open: bool,
    entries: Vec<(Vec<u8>, Vec<u8>)>,
    max_key_size: usize,
    max_value_size: usize,
    cache_size_bytes: usize,
    disk_size_bytes: usize,
    funcs: PhantomData<T>,
}

impl<T: SdbRustDataFuncs> View for SplinterDB<T> {
    type V = Map<Seq<u8>, Seq<u8>>;

    /// The point-query view: the finite map from stored keys to values.
    open spec fn view(&self) -> Map<Seq<u8>, Seq<u8>> {
        map_of(self.kvs())
    }
}

impl<T: SdbRustDataFuncs> SplinterDB<T> {
    /// The stored entries, in ascending key order.
    pub closed spec fn kvs(&self) -> Seq<(Seq<u8>, Seq<u8>)> {
        abs(self.entries@)
    }

    /// Whether the handle holds an open engine instance.
    pub closed spec fn opened(&self) -> bool {
        self.is_open
    }

    /// The configured bound on key sizes.
    pub closed spec fn spec_max_key_size(&self) -> nat {
        self.max_key_size as nat
    }

    /// The configured bound on value sizes.
    pub closed spec fn spec_max_value_size(&self) -> nat {
        self.max_value_size as nat
    }

    /// The configured cache size, owned by the handle for its lifetime.
    pub closed spec fn spec_cache_size(&self) -> nat {
        self.cache_size_bytes as nat
    }

    /// The configured disk size, owned by the handle for its lifetime.
    pub closed spec fn spec_disk_size(&self) -> nat {
        self.disk_size_bytes as nat
    }

    /// Well-formedness: the stored keys are strictly ascending.
    pub open spec fn wf(&self) -> bool {
        sorted_kvs(self.kvs())
    }

    /// Makes a new, unopened handle with the data functions `T` registered.
    /// It holds no engine instance until `db_create` succeeds.
    pub fn new() -> (db: SplinterDB<T>)
        ensures
            db.wf(),
            !db.opened(),
            db@ == Map::<Seq<u8>, Seq<u8>>::empty(),
    {
        let db = SplinterDB {
            is_open: false,
            entries: Vec::new(),
            max_key_size: 0,
            max_value_size: 0,
            cache_size_bytes: 0,
            disk_size_bytes: 0,
            funcs: PhantomData,
        };
        proof {
            assert(db.kvs() =~= Seq::<(Seq<u8>, Seq<u8>)>::empty());
            lemma_map_of_empty();
        }
        db
    }

    /// Builds the engine configuration from `cfg` and either creates a fresh
    /// database or opens an existing one. The in-memory engine persists
    /// nothing between handles, so no database ever exists to be opened.
    fn db_create_or_open(&mut self, _path: &str, cfg: &DBConfig, open_existing: bool) -> (r: Result<
        (),
        EngineStatusError,
    >)
        requires
            old(self).wf(),
        ensures
            final(self).wf(),
            old(self).opened() ==> (r matches Err(e) && e.code == STATUS_INVALID) && *final(self)
                == *old(self),
            !old(self).opened() && open_existing ==> (r matches Err(e) && e.code == STATUS_NOT_FOUND)
                && *final(self) == *old(self),
            !old(self).opened() && !open_existing ==> r is Ok && final(self).opened()
                && final(self)@ == Map::<Seq<u8>, Seq<u8>>::empty()
                && final(self).spec_max_key_size() == cfg.max_key_size
                && final(self).spec_max_value_size() == cfg.max_value_size
                && final(self).spec_cache_size() == cfg.cache_size_bytes
                && final(self).spec_disk_size() == cfg.disk_size_bytes,
    {
        if self.is_open {
            return Err(EngineStatusError { code: STATUS_INVALID });
        }
        if open_existing {
            return Err(EngineStatusError { code: STATUS_NOT_FOUND });
        }
        self.max_key_size = cfg.max_key_size;
        self.max_value_size = cfg.max_value_size;
        self.cache_size_bytes = cfg.cache_size_bytes;
        self.disk_size_bytes = cfg.disk_size_bytes;
        self.entries = Vec::new();
        self.is_open = true;
        proof {
            assert(self.kvs() =~= Seq::<(Seq<u8>, Seq<u8>)>::empty());
            lemma_map_of_empty();
        }
        Ok(())
    }

    /// Creates a fresh, empty database at `path` with the parameters in
    /// `cfg`. Fails with [`STATUS_INVALID`] on a handle that is already open,
    /// leaving it unchanged.
    pub fn db_create(&mut self, path: &str, cfg: &DBConfig) -> (r: Result<(), EngineStatusError>)
        requires
            old(self).wf(),
        ensures
            final(self).wf(),
            old(self).opened() ==> (r matches Err(e) && e.code == STATUS_INVALID) && *final(self)
                == *old(self),
            !old(self).opened() ==> r is Ok && final(self).opened()
                && final(self)@ == Map::<Seq<u8>, Seq<u8>>::empty()
                && final(self).spec_max_key_size() == cfg.max_key_size
                && final(self).spec_max_value_size() == cfg.max_value_size
                && final(self).spec_cache_size() == cfg.cache_size_bytes
                && final(self).spec_disk_size() == cfg.disk_size_bytes,
    {
        self.db_create_or_open(path, cfg, false)
    }

    /// Opens the existing database at `path`. The in-memory engine persists
    /// nothing between handles, so there is never an existing database: the
    /// call fails with [`STATUS_NOT_FOUND`] (or [`STATUS_INVALID`] on a
    /// handle already open) and the handle stays unopened and unusable.
    pub fn db_open(&mut self, path: &str, cfg: &DBConfig) -> (r: Result<(), EngineStatusError>)
        requires
            old(self).wf(),
        ensures
            final(self).wf(),
            *final(self) == *old(self),
            r matches Err(e) && e.code == (if old(self).opened() {
                STATUS_INVALID as int
            } else {
                STATUS_NOT_FOUND as int
            }),
    {
        self.db_create_or_open(path, cfg, true)
    }

    /// Per-thread engine bookkeeping, to be issued once on a thread before it
    /// operates on the handle. The in-memory engine keeps no per-thread
    /// state, so this records nothing.
    pub fn register_thread(&self) {
    }

    /// The counterpart of [`Self::register_thread`], to be issued on a thread
    /// after its last operation on the handle.
    pub fn deregister_thread(&self) {
    }

    /// Releases the engine instance and its records. Idempotent: closing a
    /// handle that is not open does nothing further. After it, operations on
    /// the handle fail with [`STATUS_INVALID`].
    pub fn close(&mut self)
        ensures
            final(self).wf(),
            !final(self).opened(),
            final(self)@ == Map::<Seq<u8>, Seq<u8>>::empty(),
    {
        self.is_open = false;
        self.entries = Vec::new();
        proof {
            assert(self.kvs() =~= Seq::<(Seq<u8>, Seq<u8>)>::empty());
            lemma_map_of_empty();
        }
    }

    /// Stores `value` under `key`, replacing any stored value. Succeeds on an
    /// open handle exactly when both fit the configured size bounds; fails
    /// with [`STATUS_INVALID`] otherwise, changing nothing.
    pub fn insert(&mut self, key: &[u8], value: &[u8]) -> (r: Result<(), EngineStatusError>)
        requires
            old(self).wf(),
        ensures
            final(self).wf(),
            final(self).opened() == old(self).opened(),
            final(self).spec_max_key_size() == old(self).spec_max_key_size(),
            final(self).spec_max_value_size() == old(self).spec_max_value_size(),
            !old(self).opened() ==> (r matches Err(e) && e.code == STATUS_INVALID) && *final(self)
                == *old(self),
            old(self).opened() && !(key@.len() <= old(self).spec_max_key_size() && value@.len()
                <= old(self).spec_max_value_size()) ==> (r matches Err(e) && e.code
                == STATUS_INVALID) && *final(self) == *old(self),
            old(self).opened() && key@.len() <= old(self).spec_max_key_size() && value@.len()
                <= old(self).spec_max_value_size() ==> r is Ok && final(self)@ == (old(self))@.insert(key@, value@),
    {
        if !self.is_open {
            return Err(EngineStatusError { code: STATUS_INVALID });
        }
        if key.len() > self.max_key_size || value.len() > self.max_value_size {
            return Err(EngineStatusError { code: STATUS_INVALID });
        }
        let v2 = slice_to_vec(value);
        self.store_at_key(key, v2);
        Ok(())
    }

    /// Stores the owned pair (`key`, `value`) in order, overwriting in place
    /// when the key is present.
    fn store_at_key(&mut self, key: &[u8], value: Vec<u8>)
        requires
            old(self).wf(),
        ensures
            final(self).wf(),
            final(self).opened() == old(self).opened(),
            final(self).spec_max_key_size() == old(self).spec_max_key_size(),
            final(self).spec_max_value_size() == old(self).spec_max_value_size(),
            final(self)@ == old(self)@.insert(key@, value@),
    {
        let ghost s = self.kvs();
        proof {
            lemma_sorted_unique(s);
        }
        let pos = seek_pos(&self.entries, key);
        let mut eq_here = false;
        if pos < self.entries.len() {
            proof {
                assert(s[pos as int] == (self.entries@[pos as int].0@, self.entries@[pos as int].1@));
            }
            let c = key_cmp(self.entries[pos].0.as_slice(), key);
            eq_here = match c {
                CompareResult::Equal => true,
                _ => false,
            };
        }
        if eq_here {
            let ghost es0 = self.entries@;
            let old_pair = self.entries.remove(pos);
            let ghost es1 = self.entries@;
            self.entries.insert(pos, (old_pair.0, value));
            proof {
                let p = pos as int;
                lemma_abs_remove(es0, p);
                lemma_abs_insert(es1, p, (old_pair.0, value));
                assert(abs(self.entries@) =~= s.update(p, (s[p].0, value@))) by {
                    s.remove_ensures(p);
                    s.remove(p).insert_ensures(p, (s[p].0, value@));
                    assert(old_pair.0@ == s[p].0);
                }
                lemma_sorted_update(s, p, value@);
                lemma_map_of_update(s, p, value@);
                assert(s[p].0 == key@);
            }
        } else {
            let k2 = slice_to_vec(key);
            let ghost es0 = self.entries@;
            self.entries.insert(pos, (k2, value));
            proof {
                let p = pos as int;
                // the key is fresh: below `pos` everything is smaller, at and
                // past `pos` nothing is smaller and nothing is equal
                assert forall|j: int| 0 <= j < s.len() implies (#[trigger] s[j]).0 != key@ by {
                    if j < p {
                        if s[j].0 == key@ {
                            lemma_lex_irrefl(key@);
                        }
                    } else if j == p {
                    } else {
                        if s[j].0 == key@ {
                            lemma_lex_trans(s[p].0, s[j].0, key@);
                        }
                    }
                }
                assert(!kvs_has_key(s, key@));
                assert forall|j: int| p <= j < s.len() implies lex_lt(key@, (#[trigger] s[j]).0) by {
                    lemma_lex_connected(key@, s[j].0);
                }
                lemma_abs_insert(es0, p, (k2, value));
                lemma_sorted_insert(s, p, key@, value@);
                lemma_map_of_insert(s, p, key@, value@);
            }
        }
    }

    /// Combines `delta` with what `key` holds, through the registered data
    /// functions: a stored value is merged with the delta, an absent one gets
    /// the delta's final form. Succeeds on an open handle exactly when key
    /// and delta fit the configured size bounds; fails with
    /// [`STATUS_INVALID`] otherwise, changing nothing.
    pub fn update(&mut self, key: &[u8], delta: &[u8]) -> (r: Result<(), EngineStatusError>)
        requires
            old(self).wf(),
        ensures
            final(self).wf(),
            final(self).opened() == old(self).opened(),
            final(self).spec_max_key_size() == old(self).spec_max_key_size(),
            final(self).spec_max_value_size() == old(self).spec_max_value_size(),
            !old(self).opened() ==> (r matches Err(e) && e.code == STATUS_INVALID) && *final(self)
                == *old(self),
            old(self).opened() && !(key@.len() <= old(self).spec_max_key_size() && delta@.len()
                <= old(self).spec_max_value_size()) ==> (r matches Err(e) && e.code
                == STATUS_INVALID) && *final(self) == *old(self),
            old(self).opened() && key@.len() <= old(self).spec_max_key_size() && delta@.len()
                <= old(self).spec_max_value_size() ==> r is Ok && (if old(self)@.contains_key(
                key@,
            ) {
                final(self)@ == old(self)@.insert(key@, T::merge_spec(old(self)@[key@], delta@))
            } else {
                final(self)@ == old(self)@.insert(key@, T::merge_final_spec(delta@))
            }),
    {
        if !self.is_open {
            return Err(EngineStatusError { code: STATUS_INVALID });
        }
        if key.len() > self.max_key_size || delta.len() > self.max_value_size {
            return Err(EngineStatusError { code: STATUS_INVALID });
        }
        let ghost s = self.kvs();
        proof {
            lemma_sorted_unique(s);
        }
        let pos = seek_pos(&self.entries, key);
        let mut eq_here = false;
        if pos < self.entries.len() {
            proof {
                assert(s[pos as int] == (self.entries@[pos as int].0@, self.entries@[pos as int].1@));
            }
            let c = key_cmp(self.entries[pos].0.as_slice(), key);
            eq_here = match c {
                CompareResult::Equal => true,
                _ => false,
            };
        }
        if eq_here {
            let merged = T::merge(self.entries[pos].1.as_slice(), delta);
            proof {
                lemma_map_of_index(s, pos as int);
                assert(s[pos as int].0 == key@);
            }
            self.store_at_key(key, merged);
        } else {
            proof {
                let p = pos as int;
                assert forall|j: int| 0 <= j < s.len() implies (#[trigger] s[j]).0 != key@ by {
                    if j < p {
                        if s[j].0 == key@ {
                            lemma_lex_irrefl(key@);
                        }
                    } else if j > p {
                        if s[j].0 == key@ {
                            lemma_lex_trans(s[p].0, s[j].0, key@);
                        }
                    }
                }
                lemma_map_of_absent(s, key@);
            }
            let merged = T::merge_final(delta);
            self.store_at_key(key, merged);
        }
        Ok(())
    }

    /// Removes whatever `key` holds. Succeeds on an open handle exactly when
    /// the key fits the configured bound (also when it is absent, in which
    /// case nothing changes); fails with [`STATUS_INVALID`] otherwise.
    pub fn delete(&mut self, key: &[u8]) -> (r: Result<(), EngineStatusError>)
        requires
            old(self).wf(),
        ensures
            final(self).wf(),
            final(self).opened() == old(self).opened(),
            final(self).spec_max_key_size() == old(self).spec_max_key_size(),
            final(self).spec_max_value_size() == old(self).spec_max_value_size(),
            !old(self).opened() ==> (r matches Err(e) && e.code == STATUS_INVALID) && *final(self)
                == *old(self),
            old(self).opened() && key@.len() > old(self).spec_max_key_size() ==> (r matches Err(e)
                && e.code == STATUS_INVALID) && *final(self) == *old(self),
            old(self).opened() && key@.len() <= old(self).spec_max_key_size() ==> r is Ok && (final(self))@ == old(self)@.remove(key@),
    {
        if !self.is_open {
            return Err(EngineStatusError { code: STATUS_INVALID });
        }
        if key.len() > self.max_key_size {
            return Err(EngineStatusError { code: STATUS_INVALID });
        }
        let ghost s = self.kvs();
        proof {
            lemma_sorted_unique(s);
        }
        let pos = seek_pos(&self.entries, key);
        let mut eq_here = false;
        if pos < self.entries.len() {
            proof {
                assert(s[pos as int] == (self.entries@[pos as int].0@, self.entries@[pos as int].1@));
            }
            let c = key_cmp(self.entries[pos].0.as_slice(), key);
            eq_here = match c {
                CompareResult::Equal => true,
                _ => false,
            };
        }
        if eq_here {
            let ghost es0 = self.entries@;
            let _removed = self.entries.remove(pos);
            proof {
                let p = pos as int;
                lemma_abs_remove(es0, p);
                lemma_sorted_remove(s, p);
                lemma_map_of_remove(s, p);
                assert(s[p].0 == key@);
            }
        } else {
            proof {
                let p = pos as int;
                assert forall|j: int| 0 <= j < s.len() implies (#[trigger] s[j]).0 != key@ by {
                    if j < p {
                        if s[j].0 == key@ {
                            lemma_lex_irrefl(key@);
                        }
                    } else if j > p {
                        if s[j].0 == key@ {
                            lemma_lex_trans(s[p].0, s[j].0, key@);
                        }
                    }
                }
                lemma_map_of_absent(s, key@);
                assert(self@.remove(key@) =~= self@);
            }
        }
        Ok(())
    }

    /// Point query. On an open handle it always succeeds: the stored value
    /// comes back as an owned copy in [`LookupResult::Found`], an absent key
    /// as [`LookupResult::NotFound`]. On a handle that is not open it fails
    /// with [`STATUS_INVALID`].
    pub fn lookup(&self, key: &[u8]) -> (r: Result<LookupResult, EngineStatusError>)
        requires
            self.wf(),
        ensures
            !self.opened() ==> (r matches Err(e) && e.code == STATUS_INVALID),
            self.opened() ==> (r matches Ok(lr) && (match lr {
                LookupResult::Found(v) => self@.contains_key(key@) && v@ == self@[key@],
                LookupResult::FoundTruncated(_) => false,
                LookupResult::NotFound => !self@.contains_key(key@),
            })),
    {
        if !self.is_open {
            return Err(EngineStatusError { code: STATUS_INVALID });
        }
        let ghost s = self.kvs();
        proof {
            lemma_sorted_unique(s);
        }
        let pos = seek_pos(&self.entries, key);
        if pos < self.entries.len() {
            proof {
                assert(s[pos as int] == (self.entries@[pos as int].0@, self.entries@[pos as int].1@));
            }
            let c = key_cmp(self.entries[pos].0.as_slice(), key);
            match c {
                CompareResult::Equal => {
                    let v = slice_to_vec(self.entries[pos].1.as_slice());
                    proof {
                        lemma_map_of_index(s, pos as int);
                        assert(s[pos as int].0 == key@);
                    }
                    return Ok(LookupResult::Found(v));
                },
                _ => {
                    proof {
                        let p = pos as int;
                        assert forall|j: int| 0 <= j < s.len() implies (#[trigger] s[j]).0
                            != key@ by {
                            if j < p {
                                if s[j].0 == key@ {
                                    lemma_lex_irrefl(key@);
                                }
                            } else if j > p {
                                if s[j].0 == key@ {
                                    lemma_lex_trans(s[p].0, s[j].0, key@);
                                }
                            }
                        }
                        lemma_map_of_absent(s, key@);
                    }
                    return Ok(LookupResult::NotFound);
                },
            }
        }
        proof {
            assert forall|j: int| 0 <= j < s.len() implies (#[trigger] s[j]).0 != key@ by {
                if s[j].0 == key@ {
                    lemma_lex_irrefl(key@);
                }
            }
            lemma_map_of_absent(s, key@);
        }
        Ok(LookupResult::NotFound)
    }

    /// Opens a bidirectional cursor over the stored entries, positioned at
    /// the first key not below `start_key`, or at the smallest key when none
    /// is given. The cursor borrows the handle: no operation can mutate or
    /// drop the handle while the cursor lives. Fails with [`STATUS_INVALID`]
    /// on a handle that is not open.
    pub fn range<'a>(&'a self, start_key: Option<&[u8]>) -> (r: Result<
        SplinterCursor<'a>,
        EngineStatusError,
    >)
        requires
            self.wf(),
        ensures
            !self.opened() ==> (r matches Err(e) && e.code == STATUS_INVALID),
            self.opened() ==> (r matches Ok(c) && c.wf() && c.kvs() == self.kvs() && (
            match start_key {
                None => c.pos_spec() == 0,
                Some(k) => {
                    &&& forall|i: int|
                        0 <= i < c.pos_spec() ==> lex_lt((#[trigger] self.kvs()[i]).0, k@)
                    &&& forall|i: int|
                        c.pos_spec() <= i < self.kvs().len() ==> !lex_lt(
                            (#[trigger] self.kvs()[i]).0,
                            k@,
                        )
                },
            })),
    {
        if !self.is_open {
            return Err(EngineStatusError { code: STATUS_INVALID });
        }
        SplinterCursor::new(&self.entries, start_key)
    }
}

} // verus!
