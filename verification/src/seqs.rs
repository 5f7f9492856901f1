//! Facts about filtered sequences.
use vstd::prelude::*;

verus! {

/// Filtering one element more.
pub proof fn lemma_filter_take<A>(s: Seq<A>, p: spec_fn(A) -> bool, i: int)
    requires
        0 <= i < s.len(),
    ensures
        s.take(i + 1).filter(p) == if p(s[i]) {
            s.take(i).filter(p).push(s[i])
        } else {
            s.take(i).filter(p)
        },
{
    reveal(Seq::filter);
    assert(s.take(i + 1).drop_last() =~= s.take(i));
    assert(s.take(i + 1).last() == s[i]);
}

/// Nothing is left of an empty sequence.
pub proof fn lemma_filter_none<A>(s: Seq<A>, p: spec_fn(A) -> bool)
    ensures
        s.take(0).filter(p) == Seq::<A>::empty(),
        s.take(s.len() as int) == s,
{
    reveal(Seq::filter);
    assert(s.take(0) =~= Seq::<A>::empty());
    assert(s.take(s.len() as int) =~= s);
}

/// What is in a filtered sequence: the elements that satisfy the predicate.
pub proof fn lemma_filter_members<A>(s: Seq<A>, p: spec_fn(A) -> bool)
    ensures
        forall|x: A| #[trigger] s.filter(p).contains(x) <==> s.contains(x) && p(x),
        forall|i: int| 0 <= i < s.filter(p).len() ==> p(#[trigger] s.filter(p)[i]),
{
    assert forall|x: A| #[trigger] s.filter(p).contains(x) <==> s.contains(x) && p(x) by {
        if s.filter(p).contains(x) {
            s.lemma_filter_contains_rev(p, x);
            let i = choose|i: int| 0 <= i < s.filter(p).len() && s.filter(p)[i] == x;
            s.lemma_filter_pred(p, i);
        }
        if s.contains(x) && p(x) {
            let i = choose|i: int| 0 <= i < s.len() && s[i] == x;
            s.lemma_filter_contains(p, i);
        }
    }
    assert forall|i: int| 0 <= i < s.filter(p).len() implies p(#[trigger] s.filter(p)[i]) by {
        s.lemma_filter_pred(p, i);
    }
}

/// Filtering keeps elements distinct.
pub proof fn lemma_filter_distinct<A>(s: Seq<A>, p: spec_fn(A) -> bool)
    requires
        s.no_duplicates(),
    ensures
        s.filter(p).no_duplicates(),
    decreases s.len(),
{
    reveal(Seq::filter);
    if s.len() > 0 {
        let init = s.drop_last();
        assert(init.no_duplicates());
        lemma_filter_distinct(init, p);
        lemma_filter_members(init, p);
        let f = s.filter(p);
        let g = init.filter(p);
        if p(s.last()) {
            assert(f == g.push(s.last()));
            assert(!init.contains(s.last())) by {
                if init.contains(s.last()) {
                    let i = choose|i: int| 0 <= i < init.len() && init[i] == s.last();
                    assert(s[i] == s[s.len() - 1]);
                }
            }
            assert forall|i: int, j: int| 0 <= i < f.len() && 0 <= j < f.len() && i != j implies f[i]
                != f[j] by {
                if i < g.len() {
                    assert(g.contains(g[i]));
                }
                if j < g.len() {
                    assert(g.contains(g[j]));
                }
            }
        }
    }
}

/// Dropping something shortens the sequence.
pub proof fn lemma_filter_shorter<A>(s: Seq<A>, p: spec_fn(A) -> bool, x: A)
    requires
        s.contains(x),
        !p(x),
    ensures
        s.filter(p).len() < s.len(),
    decreases s.len(),
{
    reveal(Seq::filter);
    let init = s.drop_last();
    init.lemma_filter_len(p);
    if s.last() != x {
        let i = choose|i: int| 0 <= i < s.len() && s[i] == x;
        assert(init[i] == x);
        lemma_filter_shorter(init, p, x);
    }
}

/// Whether `at` are ascending positions of `s` at which the elements of `sub` stand.
pub open spec fn stands_at<A>(sub: Seq<A>, s: Seq<A>, at: Seq<int>) -> bool {
    &&& at.len() == sub.len()
    &&& forall|i: int| 0 <= i < at.len() ==> 0 <= (#[trigger] at[i]) < s.len() && s[at[i]] == sub[i]
    &&& forall|i: int, j: int| 0 <= i < j < at.len() ==> (#[trigger] at[i]) < (#[trigger] at[j])
}

/// Whether the elements of `sub` stand in `s` in this order.
pub open spec fn is_subsequence<A>(sub: Seq<A>, s: Seq<A>) -> bool {
    exists|at: Seq<int>| stands_at(sub, s, at)
}

/// A filtered sequence keeps the order.
pub proof fn lemma_filter_subsequence<A>(s: Seq<A>, p: spec_fn(A) -> bool)
    ensures
        is_subsequence(s.filter(p), s),
    decreases s.len(),
{
    reveal(Seq::filter);
    if s.len() == 0 {
        assert(stands_at(s.filter(p), s, Seq::<int>::empty()));
    } else {
        let init = s.drop_last();
        lemma_filter_subsequence(init, p);
        let at = choose|at: Seq<int>| stands_at(init.filter(p), init, at);
        if p(s.last()) {
            assert(s.filter(p) == init.filter(p).push(s.last()));
            assert(stands_at(s.filter(p), s, at.push(s.len() - 1)));
        } else {
            assert(s.filter(p) == init.filter(p));
            assert(stands_at(s.filter(p), s, at));
        }
    }
}

} // verus!
