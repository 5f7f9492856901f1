//! Label maps: finite maps from text to text.
use vstd::prelude::*;
use crate::protocol::value::Value;
use crate::text::str_eq;

verus! {

/// A finite map from label keys to label values.
#[derive(Debug)]
pub struct LabelMap {
    entries: Vec<(String, String)>,
}

/// Whether the key stands in one of the pairs.
pub open spec fn has_key(e: Seq<(String, String)>, k: Seq<char>) -> bool {
    exists|i: int| 0 <= i < e.len() && #[trigger] e[i].0@ == k
}

/// The value that stands beside the key.
pub open spec fn value_of(e: Seq<(String, String)>, k: Seq<char>) -> Seq<char> {
    e[choose|i: int| 0 <= i < e.len() && #[trigger] e[i].0@ == k].1@
}

/// Whether no key stands in two pairs.
pub open spec fn distinct_keys(e: Seq<(String, String)>) -> bool {
    forall|i: int, j: int| 0 <= i < j < e.len() ==> (#[trigger] e[i]).0@ != (#[trigger] e[j]).0@
}

/// The map that the pairs stand for.
pub open spec fn map_of(e: Seq<(String, String)>) -> Map<Seq<char>, Seq<char>> {
    Map::new(|k: Seq<char>| has_key(e, k), |k: Seq<char>| value_of(e, k))
}

proof fn lemma_value_of(e: Seq<(String, String)>, i: int)
    requires
        distinct_keys(e),
        0 <= i < e.len(),
    ensures
        has_key(e, e[i].0@),
        value_of(e, e[i].0@) == e[i].1@,
{
    let k = e[i].0@;
    assert(has_key(e, k));
    let j = choose|j: int| 0 <= j < e.len() && #[trigger] e[j].0@ == k;
    if j < i {
        assert(e[j].0@ != e[i].0@);
    } else if i < j {
        assert(e[i].0@ != e[j].0@);
    }
}

impl View for LabelMap {
    type V = Map<Seq<char>, Seq<char>>;

    closed spec fn view(&self) -> Map<Seq<char>, Seq<char>> {
        map_of(self.entries@)
    }
}

impl DeepView for LabelMap {
    type V = Map<Seq<char>, Seq<char>>;

    open spec fn deep_view(&self) -> Map<Seq<char>, Seq<char>> {
        self@
    }
}

impl LabelMap {
    #[verifier::type_invariant]
    closed spec fn inv(self) -> bool {
        distinct_keys(self.entries@)
    }

    /// The pairs, each key once, in the order in which the keys came.
    pub closed spec fn pairs(self) -> Seq<(String, String)> {
        self.entries@
    }

    /// The empty map.
    pub fn new() -> (r: Self)
        ensures
            r@ == Map::<Seq<char>, Seq<char>>::empty(),
    {
        let r = LabelMap { entries: Vec::new() };
        assert(r@ =~= Map::<Seq<char>, Seq<char>>::empty());
        r
    }

    fn position(&self, key: &str) -> (r: Option<usize>)
        ensures
            match r {
                Some(i) => i < self.entries@.len() && self.entries@[i as int].0@ == key@,
                None => !has_key(self.entries@, key@),
            },
    {
        for i in 0..self.entries.len()
            invariant
                forall|j: int| 0 <= j < i ==> (#[trigger] self.entries@[j]).0@ != key@,
        {
            if str_eq(self.entries[i].0.as_str(), key) {
                return Some(i);
            }
        }
        None
    }

    /// The value of a key.
    pub fn get(&self, key: &str) -> (r: Option<&String>)
        ensures
            match r {
                Some(v) => self@.contains_key(key@) && self@[key@] == v@,
                None => !self@.contains_key(key@),
            },
    {
        match self.position(key) {
            Some(i) => {
                proof {
                    use_type_invariant(self);
                    lemma_value_of(self.entries@, i as int);
                }
                Some(&self.entries[i].1)
            },
            None => None,
        }
    }

    /// Whether the key is in the map.
    pub fn contains_key(&self, key: &str) -> (r: bool)
        ensures
            r == self@.contains_key(key@),
    {
        self.get(key).is_some()
    }

    /// Sets the value of a key.
    pub fn insert(&mut self, key: String, value: String)
        ensures
            final(self)@ == old(self)@.insert(key@, value@),
    {
        proof {
            use_type_invariant(&*self);
        }
        let ghost before = self.entries@;
        let ghost kv = key@;
        let ghost vv = value@;
        let at = self.position(key.as_str());
        let mut e: Vec<(String, String)> = Vec::new();
        std::mem::swap(&mut self.entries, &mut e);
        match at {
            Some(i) => {
                e.set(i, (key, value));
                proof {
                    assert(distinct_keys(e@)) by {
                        assert forall|a: int, b: int| 0 <= a < b < e@.len() implies (
                        #[trigger] e@[a]).0@ != (#[trigger] e@[b]).0@ by {
                            assert(before[a].0@ != before[b].0@);
                        }
                    }
                    lemma_insert(before, e@, i as int, kv, vv);
                }
            },
            None => {
                e.push((key, value));
                proof {
                    assert(distinct_keys(e@)) by {
                        assert forall|a: int, b: int| 0 <= a < b < e@.len() implies (
                        #[trigger] e@[a]).0@ != (#[trigger] e@[b]).0@ by {
                            if b < before.len() {
                                assert(before[a].0@ != before[b].0@);
                            } else {
                                assert(before[a].0@ != kv);
                            }
                        }
                    }
                    lemma_insert(before, e@, before.len() as int, kv, vv);
                }
            },
        }
        self.entries = e;
    }

    /// The number of keys.
    pub fn len(&self) -> (r: usize)
        ensures
            r == self.pairs().len(),
    {
        self.entries.len()
    }

    /// The key and the value at a position.
    pub fn pair(&self, i: usize) -> (r: (&String, &String))
        requires
            i < self.pairs().len(),
        ensures
            *r.0 == self.pairs()[i as int].0,
            *r.1 == self.pairs()[i as int].1,
            self@.contains_key(r.0@),
            self@[r.0@] == r.1@,
    {
        proof {
            use_type_invariant(self);
            lemma_value_of(self.entries@, i as int);
        }
        (&self.entries[i].0, &self.entries[i].1)
    }

    /// Every key of the map is the key of a pair.
    pub proof fn lemma_pairs_cover(&self, k: Seq<char>)
        requires
            self@.contains_key(k),
        ensures
            exists|i: int| 0 <= i < self.pairs().len() && #[trigger] self.pairs()[i].0@ == k,
    {
        assert(has_key(self.entries@, k));
        let i = choose|i: int| 0 <= i < self.entries@.len() && #[trigger] self.entries@[i].0@ == k;
        assert(self.pairs()[i].0@ == k);
    }

    /// Whether every pair of this map is a pair of the other.
    pub fn within(&self, other: &LabelMap) -> (r: bool)
        ensures
            r == self@.submap_of(other@),
    {
        proof {
            use_type_invariant(self);
        }
        for i in 0..self.entries.len()
            invariant
                distinct_keys(self.entries@),
                forall|j: int|
                    0 <= j < i ==> other@.contains_key((#[trigger] self.entries@[j]).0@)
                        && other@[self.entries@[j].0@] == self.entries@[j].1@,
        {
            proof {
                lemma_value_of(self.entries@, i as int);
            }
            match other.get(self.entries[i].0.as_str()) {
                Some(v) => {
                    if !str_eq(v.as_str(), self.entries[i].1.as_str()) {
                        assert(self@.contains_key(self.entries@[i as int].0@));
                        return false;
                    }
                },
                None => {
                    assert(self@.contains_key(self.entries@[i as int].0@));
                    return false;
                },
            }
        }
        assert forall|k: Seq<char>| self@.contains_key(k) implies other@.contains_key(k) && self@[k]
            == other@[k] by {
            let i = choose|i: int| 0 <= i < self.entries@.len() && #[trigger] self.entries@[i].0@ == k;
            lemma_value_of(self.entries@, i);
        }
        true
    }

    /// Adds every pair of the other map, replacing values of keys that both have.
    pub fn merge(&mut self, other: &LabelMap)
        ensures
            final(self)@ == old(self)@.union_prefer_right(other@),
    {
        let ghost before = self@;
        let n = other.len();
        let mut i: usize = 0;
        while i < n
            invariant
                i <= n,
                n == other.pairs().len(),
                forall|k: Seq<char>| #[trigger]
                    self@.contains_key(k) ==> before.contains_key(k) || other@.contains_key(k),
                forall|k: Seq<char>| before.contains_key(k) ==> #[trigger] self@.contains_key(k),
                forall|j: int|
                    0 <= j < i ==> self@.contains_key((#[trigger] other.pairs()[j]).0@)
                        && self@[other.pairs()[j].0@] == other@[other.pairs()[j].0@],
                forall|k: Seq<char>| #[trigger]
                    self@.contains_key(k) && !other@.contains_key(k) ==> self@[k] == before[k],
            decreases n - i,
        {
            let (k, v) = other.pair(i);
            self.insert(k.clone(), v.clone());
            i = i + 1;
        }
        proof {
            assert forall|k: Seq<char>| other@.contains_key(k) implies self@.contains_key(k) && self@[k]
                == other@[k] by {
                other.lemma_pairs_cover(k);
            }
            assert(self@ =~= before.union_prefer_right(other@));
        }
    }
}

proof fn lemma_insert(
    before: Seq<(String, String)>,
    after: Seq<(String, String)>,
    at: int,
    k: Seq<char>,
    v: Seq<char>,
)
    requires
        distinct_keys(before),
        distinct_keys(after),
        0 <= at <= before.len(),
        at < before.len() ==> before[at].0@ == k && after.len() == before.len(),
        at == before.len() ==> !has_key(before, k) && after.len() == before.len() + 1,
        after[at].0@ == k,
        after[at].1@ == v,
        forall|i: int| 0 <= i < before.len() && i != at ==> after[i] == before[i],
    ensures
        map_of(after) == map_of(before).insert(k, v),
{
    let m = map_of(after);
    let n = map_of(before).insert(k, v);
    assert forall|x: Seq<char>| m.contains_key(x) == n.contains_key(x) && (m.contains_key(x) ==> m[x]
        == n[x]) by {
        lemma_value_of(after, at);
        if x != k {
            if has_key(before, x) {
                let i = choose|i: int| 0 <= i < before.len() && #[trigger] before[i].0@ == x;
                assert(after[i] == before[i]);
                lemma_value_of(before, i);
                lemma_value_of(after, i);
            }
            if has_key(after, x) {
                let i = choose|i: int| 0 <= i < after.len() && #[trigger] after[i].0@ == x;
                assert(i != at);
                assert(before[i].0@ == x);
            }
        }
    }
    assert(m =~= n);
}

impl Value for LabelMap {
    fn same(&self, other: &Self) -> (r: bool) {
        let a = self.within(other);
        let b = other.within(self);
        proof {
            if a && b {
                assert(self@ =~= other@);
            }
        }
        a && b
    }

    fn copy(&self) -> (r: Self) {
        let mut r = LabelMap::new();
        r.merge(self);
        assert(r@ =~= self@);
        r
    }
}

} // verus!
