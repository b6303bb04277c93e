//! Sums over sequences, with the lemmas that relate them to edits.

use vstd::prelude::*;

verus! {

/// The sum of `f` over the elements of `s`.
pub open spec fn seq_sum<A>(s: Seq<A>, f: spec_fn(A) -> nat) -> nat
    decreases s.len(),
{
    if s.len() == 0 {
        0
    } else {
        seq_sum(s.drop_last(), f) + f(s.last())
    }
}

pub proof fn lemma_sum_push<A>(s: Seq<A>, a: A, f: spec_fn(A) -> nat)
    ensures
        seq_sum(s.push(a), f) == seq_sum(s, f) + f(a),
{
    assert(s.push(a).drop_last() =~= s);
}

pub proof fn lemma_sum_remove<A>(s: Seq<A>, i: int, f: spec_fn(A) -> nat)
    requires
        0 <= i < s.len(),
    ensures
        seq_sum(s.remove(i), f) + f(s[i]) == seq_sum(s, f),
    decreases s.len(),
{
    if i == s.len() - 1 {
        assert(s.remove(i) =~= s.drop_last());
    } else {
        let t = s.drop_last();
        lemma_sum_remove(t, i, f);
        assert(s.remove(i) =~= t.remove(i).push(s.last()));
        lemma_sum_push(t.remove(i), s.last(), f);
    }
}

pub proof fn lemma_sum_update<A>(s: Seq<A>, i: int, a: A, f: spec_fn(A) -> nat)
    requires
        0 <= i < s.len(),
    ensures
        seq_sum(s.update(i, a), f) + f(s[i]) == seq_sum(s, f) + f(a),
{
    lemma_sum_remove(s, i, f);
    lemma_sum_remove(s.update(i, a), i, f);
    assert(s.update(i, a).remove(i) =~= s.remove(i));
}

pub proof fn lemma_sum_elem_le<A>(s: Seq<A>, i: int, f: spec_fn(A) -> nat)
    requires
        0 <= i < s.len(),
    ensures
        f(s[i]) <= seq_sum(s, f),
{
    lemma_sum_remove(s, i, f);
}

pub proof fn lemma_sum_zero<A>(s: Seq<A>, f: spec_fn(A) -> nat)
    requires
        forall|i: int| 0 <= i < s.len() ==> f(#[trigger] s[i]) == 0,
    ensures
        seq_sum(s, f) == 0,
    decreases s.len(),
{
    if s.len() > 0 {
        let t = s.drop_last();
        assert forall|i: int| 0 <= i < t.len() implies f(#[trigger] t[i]) == 0 by {
            assert(t[i] == s[i]);
        }
        lemma_sum_zero(t, f);
        assert(f(s[s.len() - 1]) == 0);
    }
}

pub proof fn lemma_sum_positive<A>(s: Seq<A>, f: spec_fn(A) -> nat)
    requires
        seq_sum(s, f) > 0,
    ensures
        exists|i: int| 0 <= i < s.len() && f(#[trigger] s[i]) > 0,
{
    if forall|i: int| 0 <= i < s.len() ==> f(#[trigger] s[i]) == 0 {
        lemma_sum_zero(s, f);
    }
}

pub proof fn lemma_sum_drop_first<A>(s: Seq<A>, f: spec_fn(A) -> nat)
    requires
        s.len() > 0,
    ensures
        seq_sum(s.subrange(1, s.len() as int), f) + f(s[0]) == seq_sum(s, f),
{
    lemma_sum_remove(s, 0, f);
    assert(s.remove(0) =~= s.subrange(1, s.len() as int));
}

pub proof fn lemma_sum_pointwise_le<A>(a: Seq<A>, b: Seq<A>, f: spec_fn(A) -> nat)
    requires
        a.len() == b.len(),
        forall|i: int| 0 <= i < a.len() ==> f(#[trigger] a[i]) <= f(b[i]),
    ensures
        seq_sum(a, f) <= seq_sum(b, f),
    decreases a.len(),
{
    if a.len() > 0 {
        let a2 = a.drop_last();
        let b2 = b.drop_last();
        assert forall|i: int| 0 <= i < a2.len() implies f(#[trigger] a2[i]) <= f(b2[i]) by {
            assert(a2[i] == a[i]);
            assert(b2[i] == b[i]);
        }
        lemma_sum_pointwise_le(a2, b2, f);
        assert(f(a[a.len() - 1]) <= f(b[b.len() - 1]));
    }
}

} // verus!
