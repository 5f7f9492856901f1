//! Ordering positions by keys.
use vstd::prelude::*;

verus! {

/// An optional time as a number: a missing one comes before all others.
pub open spec fn opt_key(o: Option<i128>) -> int {
    match o {
        Some(t) => t as int,
        None => i128::MIN - 1,
    }
}

/// Whether position `a` comes before position `b`: its key is smaller, or the keys are equal
/// and it stands earlier.
pub open spec fn comes_before(keys: Seq<Option<i128>>, a: usize, b: usize) -> bool {
    opt_key(keys[a as int]) < opt_key(keys[b as int]) || (opt_key(keys[a as int]) == opt_key(
        keys[b as int],
    ) && a < b)
}

/// Whether `r` holds all positions of the keys, each once, ordered by key; equal keys keep
/// their order.
pub open spec fn is_order(r: Seq<usize>, keys: Seq<Option<i128>>) -> bool {
    &&& r.len() == keys.len()
    &&& forall|i: int| 0 <= i < r.len() ==> #[trigger] r[i] < keys.len()
    &&& forall|i: int, j: int|
        0 <= i < j < r.len() ==> comes_before(keys, #[trigger] r[i], #[trigger] r[j])
}

fn key_at_most(a: Option<i128>, b: Option<i128>) -> (r: bool)
    ensures
        r == (opt_key(a) <= opt_key(b)),
{
    match (a, b) {
        (None, _) => true,
        (Some(_), None) => false,
        (Some(x), Some(y)) => x <= y,
    }
}

/// The positions of the keys, ordered by key; equal keys keep their order.
pub fn stable_order(keys: &Vec<Option<i128>>) -> (r: Vec<usize>)
    ensures
        is_order(r@, keys@),
{
    let mut out: Vec<usize> = Vec::new();
    for i in 0..keys.len()
        invariant
            out@.len() == i,
            forall|k: int| 0 <= k < i ==> #[trigger] out@[k] < i,
            forall|a: int, b: int|
                0 <= a < b < i ==> comes_before(keys@, #[trigger] out@[a], #[trigger] out@[b]),
    {
        let mut at: usize = 0;
        while at < out.len() && key_at_most(keys[out[at]], keys[i])
            invariant
                i < keys@.len(),
                out@.len() == i,
                at <= i,
                forall|k: int| 0 <= k < i ==> #[trigger] out@[k] < i,
                forall|k: int|
                    0 <= k < at ==> opt_key(keys@[(#[trigger] out@[k]) as int]) <= opt_key(
                        keys@[i as int],
                    ),
            decreases i - at,
        {
            at = at + 1;
        }
        let ghost before = out@;
        out.insert(at, i);
        proof {
            assert forall|k: int| 0 <= k < i + 1 implies #[trigger] out@[k] < i + 1 by {
                if k < at {
                    assert(out@[k] == before[k]);
                } else if k > at {
                    assert(out@[k] == before[k - 1]);
                }
            }
            assert forall|a: int, b: int| 0 <= a < b < i + 1 implies comes_before(
                keys@,
                #[trigger] out@[a],
                #[trigger] out@[b],
            ) by {
                let x = if a < at {
                    a
                } else {
                    a - 1
                };
                let y = if b < at {
                    b
                } else {
                    b - 1
                };
                if a != at {
                    assert(out@[a] == before[x]);
                }
                if b != at {
                    assert(out@[b] == before[y]);
                }
                if a == at {
                    assert(opt_key(keys@[i as int]) < opt_key(keys@[before[at as int] as int]));
                    if y > at {
                        assert(comes_before(keys@, before[at as int], before[y]));
                    }
                }
            }
        }
    }
    out
}

/// There is one such order only.
pub proof fn law_order_is_unique(a: Seq<usize>, b: Seq<usize>, keys: Seq<Option<i128>>)
    requires
        keys.len() <= usize::MAX,
        is_order(a, keys),
        is_order(b, keys),
    ensures
        a == b,
{
    lemma_orders_agree(a, b, keys, keys.len() as int);
    assert(a =~= b);
}

proof fn lemma_prefix_covers(r: Seq<usize>, keys: Seq<Option<i128>>, x: usize) -> (k: int)
    requires
        keys.len() <= usize::MAX,
        is_order(r, keys),
        x < keys.len(),
    ensures
        0 <= k < r.len(),
        r[k] == x,
{
    if r.contains(x) {
        choose|k: int| 0 <= k < r.len() && r[k] == x
    } else {
        // All entries differ from `x` and from each other, so there are fewer than positions.
        let s = r.to_set();
        let all = Set::new(|i: usize| i < keys.len());
        assert(r.no_duplicates()) by {
            assert forall|i: int, j: int| 0 <= i < r.len() && 0 <= j < r.len() && i != j implies r[i]
                != r[j] by {
                if i < j {
                    assert(comes_before(keys, r[i], r[j]));
                } else {
                    assert(comes_before(keys, r[j], r[i]));
                }
            }
        }
        r.unique_seq_to_set();
        lemma_positions_finite(keys.len());
        assert(s.subset_of(all.remove(x))) by {
            assert forall|y: usize| #[trigger] s.contains(y) implies all.remove(x).contains(y) by {
                let i = choose|i: int| 0 <= i < r.len() && r[i] == y;
                assert(r[i] < keys.len());
            }
        }
        vstd::set_lib::lemma_len_subset(s, all.remove(x));
        assert(false);
        0
    }
}

proof fn lemma_positions_finite(n: nat)
    requires
        n <= usize::MAX + 1,
    ensures
        Set::new(|i: usize| i < n).finite(),
        Set::new(|i: usize| i < n).len() == n,
    decreases n,
{
    let s = Set::new(|i: usize| i < n);
    if n == 0 {
        assert(s =~= Set::<usize>::empty());
    } else {
        lemma_positions_finite((n - 1) as nat);
        let t = Set::new(|i: usize| i < n - 1);
        let last = (n - 1) as usize;
        assert(s =~= t.insert(last));
        assert(!t.contains(last));
    }
}

proof fn lemma_orders_agree(a: Seq<usize>, b: Seq<usize>, keys: Seq<Option<i128>>, n: int)
    requires
        is_order(a, keys),
        is_order(b, keys),
        0 <= n <= keys.len() <= usize::MAX,
    ensures
        forall|i: int| 0 <= i < n ==> a[i] == b[i],
    decreases n,
{
    if n > 0 {
        lemma_orders_agree(a, b, keys, n - 1);
        let i = n - 1;
        if a[i] != b[i] {
            let p = lemma_prefix_covers(b, keys, a[i]);
            let q = lemma_prefix_covers(a, keys, b[i]);
            if p < i {
                assert(a[p] == a[i]);
                assert(comes_before(keys, a[p], a[i]));
            } else {
                assert(comes_before(keys, b[i], b[p]));
            }
            if q < i {
                assert(b[q] == b[i]);
                assert(comes_before(keys, b[q], b[i]));
            } else {
                assert(comes_before(keys, a[i], a[q]));
            }
        }
    }
}

/// Every position stands somewhere in the order.
pub proof fn lemma_order_covers(r: Seq<usize>, keys: Seq<Option<i128>>, x: int)
    requires
        keys.len() <= usize::MAX,
        is_order(r, keys),
        0 <= x < keys.len(),
    ensures
        exists|k: int| 0 <= k < r.len() && #[trigger] r[k] == x,
{
    let k = lemma_prefix_covers(r, keys, x as usize);
    assert(r[k] == x);
}

/// Ordering gives each position once. Positions without a time come first; of two with a time the
/// one with the earlier time does; and positions that are alike in this keep their order.
pub proof fn law_order_is_by_time(keys: Vec<Option<i128>>, r: Vec<usize>)
    requires
        call_ensures(stable_order, (&keys,), r),
        keys@.len() <= usize::MAX,
    ensures
        r@.len() == keys@.len(),
        forall|x: usize| x < keys@.len() ==> #[trigger] r@.contains(x),
        forall|i: int, j: int|
            0 <= i < j < r@.len() ==> {
                let a = #[trigger] r@[i];
                let b = #[trigger] r@[j];
                &&& a < keys@.len() && b < keys@.len() && a != b
                &&& keys@[b as int] is None ==> keys@[a as int] is None
                &&& keys@[a as int] matches Some(t) ==> (keys@[b as int] matches Some(u) && t <= u)
                &&& keys@[a as int] == keys@[b as int] ==> a < b
            },
{
    assert forall|x: usize| x < keys@.len() implies #[trigger] r@.contains(x) by {
        let k = lemma_prefix_covers(r@, keys@, x);
        assert(r@[k] == x);
    }
    assert forall|i: int, j: int| 0 <= i < j < r@.len() implies {
        let a = #[trigger] r@[i];
        let b = #[trigger] r@[j];
        &&& a < keys@.len() && b < keys@.len() && a != b
        &&& keys@[b as int] is None ==> keys@[a as int] is None
        &&& keys@[a as int] matches Some(t) ==> (keys@[b as int] matches Some(u) && t <= u)
        &&& keys@[a as int] == keys@[b as int] ==> a < b
    } by {
        assert(comes_before(keys@, r@[i], r@[j]));
    }
}

} // verus!
