//! Lexicographic ordering of byte keys.
//!
//! The engine stores records in ascending key order; this module defines that
//! order on byte sequences and proves the facts (irreflexivity, transitivity,
//! totality) that the rest of the library needs, together with an executable
//! three-way comparison.

use vstd::prelude::*;

verus! {

/// Strict lexicographic order on byte sequences: `a` sorts before `b`.
pub open spec fn lex_lt(a: Seq<u8>, b: Seq<u8>) -> bool
    decreases a.len(),
{
    if b.len() == 0 {
        false
    } else if a.len() == 0 {
        true
    } else if a[0] < b[0] {
        true
    } else if a[0] > b[0] {
        false
    } else {
        lex_lt(a.drop_first(), b.drop_first())
    }
}

/// No key sorts before itself.
pub proof fn lemma_lex_irrefl(a: Seq<u8>)
    ensures
        !lex_lt(a, a),
    decreases a.len(),
{
    if a.len() > 0 {
        lemma_lex_irrefl(a.drop_first());
    }
}

/// The order is transitive.
pub proof fn lemma_lex_trans(a: Seq<u8>, b: Seq<u8>, c: Seq<u8>)
    requires
        lex_lt(a, b),
        lex_lt(b, c),
    ensures
        lex_lt(a, c),
    decreases a.len(),
{
    if a.len() > 0 && b.len() > 0 && c.len() > 0 && a[0] == b[0] && b[0] == c[0] {
        lemma_lex_trans(a.drop_first(), b.drop_first(), c.drop_first());
    }
}

/// The order is asymmetric: at most one of `a < b`, `b < a` holds.
pub proof fn lemma_lex_asym(a: Seq<u8>, b: Seq<u8>)
    requires
        lex_lt(a, b),
    ensures
        !lex_lt(b, a),
{
    if lex_lt(b, a) {
        lemma_lex_trans(a, b, a);
        lemma_lex_irrefl(a);
    }
}

/// The order is total: two keys compare somehow.
pub proof fn lemma_lex_connected(a: Seq<u8>, b: Seq<u8>)
    ensures
        lex_lt(a, b) || lex_lt(b, a) || a == b,
    decreases a.len(),
{
    if a.len() == 0 && b.len() == 0 {
        assert(a =~= b);
    } else if a.len() > 0 && b.len() > 0 && a[0] == b[0] {
        lemma_lex_connected(a.drop_first(), b.drop_first());
        if a.drop_first() == b.drop_first() {
            assert(a =~= b) by {
                assert(a.len() == b.len());
                assert forall|i: int| 0 <= i < a.len() implies a[i] == b[i] by {
                    if i > 0 {
                        assert(a.drop_first()[i - 1] == a[i]);
                        assert(b.drop_first()[i - 1] == b[i]);
                    }
                }
            }
        }
    }
}

/// A difference at position `i` after a common prefix decides the order.
pub proof fn lemma_lex_from_diff(a: Seq<u8>, b: Seq<u8>, i: int)
    requires
        0 <= i < a.len(),
        i < b.len(),
        a.subrange(0, i) == b.subrange(0, i),
        a[i] < b[i],
    ensures
        lex_lt(a, b),
    decreases i,
{
    if i == 0 {
    } else {
        assert(a[0] == b[0]) by {
            assert(a.subrange(0, i)[0] == a[0]);
            assert(b.subrange(0, i)[0] == b[0]);
        }
        let a1 = a.drop_first();
        let b1 = b.drop_first();
        assert(a1.subrange(0, i - 1) =~= b1.subrange(0, i - 1)) by {
            assert forall|j: int| 0 <= j < i - 1 implies #[trigger] a1.subrange(0, i - 1)[j]
                == b1.subrange(0, i - 1)[j] by {
                assert(a1.subrange(0, i - 1)[j] == a[j + 1]);
                assert(b1.subrange(0, i - 1)[j] == b[j + 1]);
                assert(a.subrange(0, i)[j + 1] == a[j + 1]);
                assert(b.subrange(0, i)[j + 1] == b[j + 1]);
            }
        }
        assert(a1[i - 1] == a[i]);
        assert(b1[i - 1] == b[i]);
        lemma_lex_from_diff(a1, b1, i - 1);
    }
}

/// A proper prefix sorts before the longer key.
pub proof fn lemma_lex_prefix(a: Seq<u8>, b: Seq<u8>)
    requires
        a.len() < b.len(),
        a == b.subrange(0, a.len() as int),
    ensures
        lex_lt(a, b),
    decreases a.len(),
{
    if a.len() > 0 {
        assert(a[0] == b[0]) by {
            assert(b.subrange(0, a.len() as int)[0] == b[0]);
        }
        let a1 = a.drop_first();
        let b1 = b.drop_first();
        assert(a1 =~= b1.subrange(0, a1.len() as int)) by {
            assert forall|j: int| 0 <= j < a1.len() implies a1[j] == b1.subrange(
                0,
                a1.len() as int,
            )[j] by {
                assert(a1[j] == a[j + 1]);
                assert(b.subrange(0, a.len() as int)[j + 1] == b[j + 1]);
                assert(b1.subrange(0, a1.len() as int)[j] == b[j + 1]);
            }
        }
        lemma_lex_prefix(a1, b1);
    }
}

/// Outcome of a three-way key comparison.
#[derive(Clone, Copy, Debug, PartialEq, Eq, Structural)]
pub enum CompareResult {
    Less,
    Equal,
    Greater,
}

/// Three-way comparison of two byte keys in the engine's lexicographic order.
pub fn key_cmp(a: &[u8], b: &[u8]) -> (r: CompareResult)
    ensures
        (r == CompareResult::Less) <==> lex_lt(a@, b@),
        (r == CompareResult::Greater) <==> lex_lt(b@, a@),
        (r == CompareResult::Equal) <==> (a@ == b@),
{
    let mut i: usize = 0;
    while i < a.len() && i < b.len()
        invariant
            i <= a@.len(),
            i <= b@.len(),
            a@.subrange(0, i as int) == b@.subrange(0, i as int),
        decreases a@.len() - i,
    {
        let x = a[i];
        let y = b[i];
        if x < y {
            proof {
                lemma_lex_from_diff(a@, b@, i as int);
                lemma_lex_asym(a@, b@);
                lemma_lex_irrefl(a@);
            }
            return CompareResult::Less;
        }
        if y < x {
            proof {
                lemma_lex_from_diff(b@, a@, i as int);
                lemma_lex_asym(b@, a@);
                lemma_lex_irrefl(b@);
            }
            return CompareResult::Greater;
        }
        proof {
            assert(a@.subrange(0, (i + 1) as int) =~= b@.subrange(0, (i + 1) as int)) by {
                assert forall|j: int| 0 <= j < i + 1 implies #[trigger] a@.subrange(
                    0,
                    (i + 1) as int,
                )[j] == b@.subrange(0, (i + 1) as int)[j] by {
                    if j < i {
                        assert(a@.subrange(0, i as int)[j] == a@[j]);
                        assert(b@.subrange(0, i as int)[j] == b@[j]);
                    }
                }
            }
        }
        i += 1;
    }
    if a.len() < b.len() {
        proof {
            assert(a@ =~= b@.subrange(0, a@.len() as int)) by {
                assert forall|j: int| 0 <= j < a@.len() implies a@[j] == b@.subrange(
                    0,
                    a@.len() as int,
                )[j] by {
                    assert(a@.subrange(0, i as int)[j] == a@[j]);
                    assert(b@.subrange(0, i as int)[j] == b@[j]);
                }
            }
            lemma_lex_prefix(a@, b@);
            lemma_lex_asym(a@, b@);
        }
        CompareResult::Less
    } else if b.len() < a.len() {
        proof {
            assert(b@ =~= a@.subrange(0, b@.len() as int)) by {
                assert forall|j: int| 0 <= j < b@.len() implies b@[j] == a@.subrange(
                    0,
                    b@.len() as int,
                )[j] by {
                    assert(a@.subrange(0, i as int)[j] == a@[j]);
                    assert(b@.subrange(0, i as int)[j] == b@[j]);
                }
            }
            lemma_lex_prefix(b@, a@);
            lemma_lex_asym(b@, a@);
        }
        CompareResult::Greater
    } else {
        proof {
            assert(a@ =~= b@) by {
                assert forall|j: int| 0 <= j < a@.len() implies a@[j] == b@[j] by {
                    assert(a@.subrange(0, i as int)[j] == a@[j]);
                    assert(b@.subrange(0, i as int)[j] == b@[j]);
                }
            }
            lemma_lex_irrefl(a@);
        }
        CompareResult::Equal
    }
}

} // verus!
