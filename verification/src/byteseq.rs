//! Small general lemmas about byte sequences: concatenation and prefixes.

use vstd::prelude::*;

verus! {

/// `a` is a prefix of `a + b`.
pub proof fn lemma_prefix_of_concat(a: Seq<u8>, b: Seq<u8>)
    ensures
        a.is_prefix_of(a + b),
{
    assert((a + b).subrange(0, a.len() as int) =~= a);
}

/// Dropping a shared left part of a concatenation equality.
pub proof fn lemma_concat_cancel_left(a: Seq<u8>, x: Seq<u8>, y: Seq<u8>)
    requires
        a + x == a + y,
    ensures
        x == y,
{
    assert(x =~= (a + x).subrange(a.len() as int, (a + x).len() as int));
    assert(y =~= (a + y).subrange(a.len() as int, (a + y).len() as int));
}

/// A prefix of a concatenation, seen past the shared left part.
pub proof fn lemma_prefix_cancel_left(a: Seq<u8>, x: Seq<u8>, y: Seq<u8>)
    requires
        (a + x).is_prefix_of(a + y),
    ensures
        x.is_prefix_of(y),
{
    let n = a.len() as int;
    let m = (a + x).len() as int;
    assert((a + x) =~= (a + y).subrange(0, m));
    assert(forall|i: int|
        0 <= i < x.len() ==> x[i] == (a + x)[n + i] && (a + x)[n + i] == (a + y)[n + i] && (a
            + y)[n + i] == y[i]);
    assert(x =~= y.subrange(0, x.len() as int));
}

/// Strict lexicographic byte order, the order of keys in the store.
pub open spec fn lex_lt(a: Seq<u8>, b: Seq<u8>) -> bool
    decreases a.len(),
{
    if b.len() == 0 {
        false
    } else if a.len() == 0 {
        true
    } else if a[0] < b[0] {
        true
    } else if a[0] > b[0] {
        false
    } else {
        lex_lt(a.drop_first(), b.drop_first())
    }
}

/// Lexicographic order is irreflexive, so ordered keys are distinct.
pub proof fn lemma_lex_lt_irrefl(a: Seq<u8>)
    ensures
        !lex_lt(a, a),
    decreases a.len(),
{
    if a.len() > 0 {
        lemma_lex_lt_irrefl(a.drop_first());
    }
}

} // verus!
