use vstd::prelude::*;

verus! {

use vstd::seq_lib::*;

/// Two finite sets of equal cardinality, one contained in the other, are equal.
pub proof fn lemma_subset_same_card_eq<A>(x: Set<A>, y: Set<A>)
    requires
        x.finite(),
        y.finite(),
        x.subset_of(y),
        x.len() == y.len(),
    ensures
        x == y,
{
    assert forall|e: A| y.contains(e) implies x.contains(e) by {
        if !x.contains(e) {
            x.lemma_subset_not_in_lt(y, e);
        }
    }
    assert(x =~= y);
}

/// Two duplicate-free sequences of equal length, where every element of the
/// first occurs in the second, have the same set of elements.
pub proof fn lemma_distinct_seqs_same_set<A>(a: Seq<A>, b: Seq<A>)
    requires
        a.no_duplicates(),
        b.no_duplicates(),
        a.len() == b.len(),
        forall|i: int| 0 <= i < a.len() ==> b.contains(#[trigger] a[i]),
    ensures
        a.to_set() == b.to_set(),
{
    broadcast use seq_to_set_is_finite;

    a.unique_seq_to_set();
    b.unique_seq_to_set();
    assert(a.to_set().subset_of(b.to_set()));
    lemma_subset_same_card_eq(a.to_set(), b.to_set());
}

/// A sequence is a prefix of itself.
pub proof fn lemma_prefix_self<A>(s: Seq<A>)
    ensures
        s.is_prefix_of(s),
{
    assert(s =~= s.subrange(0, s.len() as int));
}

/// An element of a prefix is an element of the whole.
pub proof fn lemma_contains_prefix<A>(a: Seq<A>, b: Seq<A>, x: A)
    requires
        a.is_prefix_of(b),
        a.contains(x),
    ensures
        b.contains(x),
{
    let i = choose|i: int| 0 <= i < a.len() && a[i] == x;
    assert(b[i] == a[i]);
}

/// An element is in the filtered sequence exactly when it is in the
/// original and satisfies the predicate.
pub proof fn lemma_filter_membership<A>(s: Seq<A>, pred: spec_fn(A) -> bool, x: A)
    ensures
        s.filter(pred).contains(x) <==> (s.contains(x) && pred(x)),
    decreases s.len(),
{
    reveal(Seq::filter);
    if s.len() == 0 {
        assert(!s.contains(x));
    } else {
        let d = s.drop_last();
        lemma_filter_membership(d, pred, x);
        assert(s.contains(x) <==> (d.contains(x) || s.last() == x)) by {
            if s.contains(x) {
                let i = choose|i: int| 0 <= i < s.len() && s[i] == x;
                if i < s.len() - 1 {
                    assert(d[i] == x);
                }
            }
            if d.contains(x) {
                let i = choose|i: int| 0 <= i < d.len() && d[i] == x;
                assert(s[i] == x);
            }
            if s.last() == x {
                assert(s[s.len() - 1] == x);
            }
        }
        if pred(s.last()) {
            let f = d.filter(pred).push(s.last());
            assert(s.filter(pred) == f);
            assert(f.contains(x) <==> (d.filter(pred).contains(x) || s.last() == x)) by {
                if f.contains(x) {
                    let i = choose|i: int| 0 <= i < f.len() && f[i] == x;
                    if i < f.len() - 1 {
                        assert(d.filter(pred)[i] == x);
                    }
                }
                if d.filter(pred).contains(x) {
                    let i = choose|i: int| 0 <= i < d.filter(pred).len() && d.filter(pred)[i]
                        == x;
                    assert(f[i] == x);
                }
                if s.last() == x {
                    assert(f[f.len() - 1] == x);
                }
            }
        }
    }
}

/// One step of filtering a growing prefix.
pub proof fn lemma_filter_take_step<A>(s: Seq<A>, pred: spec_fn(A) -> bool, i: int)
    requires
        0 <= i < s.len(),
    ensures
        s.take(i + 1).filter(pred) == if pred(s[i]) {
            s.take(i).filter(pred).push(s[i])
        } else {
            s.take(i).filter(pred)
        },
{
    reveal(Seq::filter);
    assert(s.take(i + 1).drop_last() =~= s.take(i));
    assert(s.take(i + 1).last() == s[i]);
}

/// Filtering keeps a sequence whose elements all satisfy the predicate.
pub proof fn lemma_filter_all<A>(s: Seq<A>, pred: spec_fn(A) -> bool)
    requires
        forall|i: int| 0 <= i < s.len() ==> pred(#[trigger] s[i]),
    ensures
        s.filter(pred) == s,
    decreases s.len(),
{
    reveal(Seq::filter);
    if s.len() > 0 {
        lemma_filter_all(s.drop_last(), pred);
        assert(s.drop_last().push(s.last()) =~= s);
    }
}

/// Filtering empties a sequence none of whose elements satisfy the
/// predicate.
pub proof fn lemma_filter_none<A>(s: Seq<A>, pred: spec_fn(A) -> bool)
    requires
        forall|i: int| 0 <= i < s.len() ==> !pred(#[trigger] s[i]),
    ensures
        s.filter(pred) == Seq::<A>::empty(),
    decreases s.len(),
{
    reveal(Seq::filter);
    if s.len() > 0 {
        lemma_filter_none(s.drop_last(), pred);
    }
}

/// Filtering preserves any pairwise (order-respecting) relation.
pub proof fn lemma_filter_pairwise<A>(
    s: Seq<A>,
    pred: spec_fn(A) -> bool,
    rel: spec_fn(A, A) -> bool,
)
    requires
        forall|i: int, j: int| #![trigger s[i], s[j]] 0 <= i < j < s.len() ==> rel(s[i], s[j]),
    ensures
        forall|i: int, j: int|
            #![trigger s.filter(pred)[i], s.filter(pred)[j]]
            0 <= i < j < s.filter(pred).len() ==> rel(s.filter(pred)[i], s.filter(pred)[j]),
    decreases s.len(),
{
    reveal(Seq::filter);
    if s.len() > 0 {
        let d = s.drop_last();
        assert(forall|i: int| 0 <= i < d.len() ==> #[trigger] d[i] == s[i]);
        lemma_filter_pairwise(d, pred, rel);
        if pred(s.last()) {
            let fd = d.filter(pred);
            assert(s.filter(pred) == fd.push(s.last()));
            assert forall|i: int, j: int|
                #![trigger s.filter(pred)[i], s.filter(pred)[j]]
                0 <= i < j < s.filter(pred).len() implies rel(
                s.filter(pred)[i],
                s.filter(pred)[j],
            ) by {
                if j < fd.len() {
                    assert(s.filter(pred)[i] == fd[i]);
                    assert(s.filter(pred)[j] == fd[j]);
                } else {
                    assert(s.filter(pred)[i] == fd[i]);
                    assert(s.filter(pred)[j] == s.last());
                    assert(fd.contains(fd[i]));
                    lemma_filter_membership(d, pred, fd[i]);
                    let w = choose|w: int| 0 <= w < d.len() && d[w] == fd[i];
                    assert(rel(s[w], s[s.len() - 1]));
                }
            }
        }
    }
}

/// Filtering the whole prefix is filtering the sequence.
pub proof fn lemma_filter_take_all<A>(s: Seq<A>, pred: spec_fn(A) -> bool)
    ensures
        s.take(s.len() as int).filter(pred) == s.filter(pred),
{
    assert(s.take(s.len() as int) =~= s);
}

} // verus!
