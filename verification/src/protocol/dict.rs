//! Maps and sets keyed by text, for objects that are found by their name.
use vstd::prelude::*;
use crate::text;
use crate::text::str_eq;

verus! {

/// A finite map from names to values. Iteration goes in the order in which names came.
#[derive(Debug)]
pub struct Dict<T> {
    entries: Vec<(String, T)>,
}

/// Whether the name stands in one of the entries.
pub open spec fn has_name<K: View, T>(e: Seq<(K, T)>, k: K::V) -> bool {
    exists|i: int| 0 <= i < e.len() && #[trigger] e[i].0@ == k
}

/// The value that stands beside the name.
pub open spec fn value_at<K: View, T>(e: Seq<(K, T)>, k: K::V) -> T {
    e[choose|i: int| 0 <= i < e.len() && #[trigger] e[i].0@ == k].1
}

/// Whether no name stands in two entries.
pub open spec fn distinct_names<K: View, T>(e: Seq<(K, T)>) -> bool {
    forall|i: int, j: int| 0 <= i < j < e.len() ==> (#[trigger] e[i]).0@ != (#[trigger] e[j]).0@
}

/// The map that the entries stand for.
pub open spec fn dict_of<K: View, T>(e: Seq<(K, T)>) -> Map<K::V, T> {
    Map::new(|k: K::V| has_name(e, k), |k: K::V| value_at(e, k))
}

pub proof fn lemma_value_at<K: View, T>(e: Seq<(K, T)>, i: int)
    requires
        distinct_names(e),
        0 <= i < e.len(),
    ensures
        has_name(e, e[i].0@),
        value_at(e, e[i].0@) == e[i].1,
{
    let k = e[i].0@;
    assert(has_name(e, k));
    let j = choose|j: int| 0 <= j < e.len() && #[trigger] e[j].0@ == k;
    if j < i {
        assert(e[j].0@ != e[i].0@);
    } else if i < j {
        assert(e[i].0@ != e[j].0@);
    }
}

proof fn lemma_dict_insert<K: View, T>(
    before: Seq<(K, T)>,
    after: Seq<(K, T)>,
    at: int,
    k: K::V,
    v: T,
)
    requires
        distinct_names(before),
        distinct_names(after),
        0 <= at <= before.len(),
        at < before.len() ==> before[at].0@ == k && after.len() == before.len(),
        at == before.len() ==> !has_name(before, k) && after.len() == before.len() + 1,
        after[at].0@ == k,
        after[at].1 == v,
        forall|i: int| 0 <= i < before.len() && i != at ==> after[i] == before[i],
    ensures
        dict_of(after) == dict_of(before).insert(k, v),
{
    let m = dict_of(after);
    let n = dict_of(before).insert(k, v);
    assert forall|x: K::V| m.contains_key(x) == n.contains_key(x) && (m.contains_key(x) ==> m[x]
        == n[x]) by {
        lemma_value_at(after, at);
        if x != k {
            if has_name(before, x) {
                let i = choose|i: int| 0 <= i < before.len() && #[trigger] before[i].0@ == x;
                assert(after[i] == before[i]);
                lemma_value_at(before, i);
                lemma_value_at(after, i);
            }
            if has_name(after, x) {
                let i = choose|i: int| 0 <= i < after.len() && #[trigger] after[i].0@ == x;
                assert(i != at);
                assert(before[i].0@ == x);
            }
        }
    }
    assert(m =~= n);
}

proof fn lemma_dict_remove<K: View, T>(before: Seq<(K, T)>, at: int)
    requires
        distinct_names(before),
        0 <= at < before.len(),
    ensures
        distinct_names(before.remove(at)),
        dict_of(before.remove(at)) == dict_of(before).remove(before[at].0@),
{
    let after = before.remove(at);
    assert forall|i: int, j: int| 0 <= i < j < after.len() implies (#[trigger] after[i]).0@ != (
    #[trigger] after[j]).0@ by {
        let a = if i < at {
            i
        } else {
            i + 1
        };
        let b = if j < at {
            j
        } else {
            j + 1
        };
        assert(after[i] == before[a]);
        assert(after[j] == before[b]);
    }
    let k = before[at].0@;
    let m = dict_of(after);
    let n = dict_of(before).remove(k);
    assert(distinct_names(after));
    assert forall|x: K::V| #[trigger] m.contains_key(x) == n.contains_key(x) && (m.contains_key(x)
        ==> m[x] == n[x]) by {
        if has_name(after, x) {
            let i = choose|i: int| 0 <= i < after.len() && #[trigger] after[i].0@ == x;
            let a = if i < at {
                i
            } else {
                i + 1
            };
            assert(after[i] == before[a]);
            assert(before[a].0@ == x);
            lemma_value_at(after, i);
            lemma_value_at(before, a);
            if a < at {
                assert(before[a].0@ != before[at].0@);
            } else {
                assert(before[at].0@ != before[a].0@);
            }
        }
        if x != k && has_name(before, x) {
            let a = choose|a: int| 0 <= a < before.len() && #[trigger] before[a].0@ == x;
            let i = if a < at {
                a
            } else {
                a - 1
            };
            assert(after[i] == before[a]);
            assert(after[i].0@ == x);
            lemma_value_at(after, i);
            lemma_value_at(before, a);
        }
    }
    assert(m.dom() =~= n.dom());
    assert(m =~= n);
}

impl<T> View for Dict<T> {
    type V = Map<Seq<char>, T>;

    closed spec fn view(&self) -> Map<Seq<char>, T> {
        dict_of(self.entries@)
    }
}

impl<T> Dict<T> {
    #[verifier::type_invariant]
    closed spec fn inv(self) -> bool {
        distinct_names(self.entries@)
    }

    /// The entries, each name once, in order.
    pub closed spec fn list(self) -> Seq<(String, T)> {
        self.entries@
    }

    /// The empty map.
    pub fn new() -> (r: Self)
        ensures
            r@ == Map::<Seq<char>, T>::empty(),
            r.list().len() == 0,
    {
        let r = Dict { entries: Vec::new() };
        assert(r@ =~= Map::<Seq<char>, T>::empty());
        r
    }

    fn position(&self, key: &str) -> (r: Option<usize>)
        ensures
            match r {
                Some(i) => i < self.entries@.len() && self.entries@[i as int].0@ == key@,
                None => !has_name(self.entries@, key@),
            },
    {
        for i in 0..self.entries.len()
            invariant
                forall|j: int| 0 <= j < i ==> (#[trigger] self.entries@[j]).0@ != key@,
        {
            if str_eq(self.entries[i].0.as_str(), key) {
                return Some(i);
            }
        }
        None
    }

    /// The value of a name.
    pub fn get(&self, key: &str) -> (r: Option<&T>)
        ensures
            match r {
                Some(v) => self@.contains_key(key@) && self@[key@] == *v,
                None => !self@.contains_key(key@),
            },
    {
        match self.position(key) {
            Some(i) => {
                proof {
                    use_type_invariant(self);
                    lemma_value_at(self.entries@, i as int);
                }
                Some(&self.entries[i].1)
            },
            None => None,
        }
    }

    /// Whether the name is in the map.
    pub fn contains_key(&self, key: &str) -> (r: bool)
        ensures
            r == self@.contains_key(key@),
    {
        self.position(key).is_some()
    }

    /// Sets the value of a name. A new name comes last.
    pub fn insert(&mut self, key: String, value: T)
        ensures
            final(self)@ == old(self)@.insert(key@, value),
            !old(self)@.contains_key(key@) ==> final(self).list() == old(self).list().push(
                (key, value),
            ),
    {
        proof {
            use_type_invariant(&*self);
        }
        let ghost before = self.entries@;
        let ghost kv = key@;
        let ghost vv = value;
        let at = self.position(key.as_str());
        let mut e: Vec<(String, T)> = Vec::new();
        std::mem::swap(&mut self.entries, &mut e);
        match at {
            Some(i) => {
                e.set(i, (key, value));
                proof {
                    assert forall|a: int, b: int| 0 <= a < b < e@.len() implies (
                    #[trigger] e@[a]).0@ != (#[trigger] e@[b]).0@ by {
                        assert(before[a].0@ != before[b].0@);
                    }
                    assert(has_name(before, kv)) by {
                        assert(before[i as int].0@ == kv);
                    }
                    lemma_dict_insert(before, e@, i as int, kv, vv);
                }
            },
            None => {
                e.push((key, value));
                proof {
                    assert forall|a: int, b: int| 0 <= a < b < e@.len() implies (
                    #[trigger] e@[a]).0@ != (#[trigger] e@[b]).0@ by {
                        if b < before.len() {
                            assert(before[a].0@ != before[b].0@);
                        } else {
                            assert(before[a].0@ != kv);
                        }
                    }
                    lemma_dict_insert(before, e@, before.len() as int, kv, vv);
                }
            },
        }
        self.entries = e;
    }

    /// Removes a name and gives back its value.
    pub fn remove(&mut self, key: &str) -> (r: Option<T>)
        ensures
            final(self)@ == old(self)@.remove(key@),
            match r {
                Some(v) => old(self)@.contains_key(key@) && old(self)@[key@] == v,
                None => !old(self)@.contains_key(key@),
            },
    {
        proof {
            use_type_invariant(&*self);
        }
        let ghost before = self.entries@;
        match self.position(key) {
            Some(i) => {
                let mut e: Vec<(String, T)> = Vec::new();
                std::mem::swap(&mut self.entries, &mut e);
                proof {
                    lemma_dict_remove(before, i as int);
                    lemma_value_at(before, i as int);
                }
                let (_, v) = e.remove(i);
                self.entries = e;
                Some(v)
            },
            None => {
                assert(old(self)@.remove(key@) =~= old(self)@);
                None
            },
        }
    }

    /// The number of names.
    pub fn len(&self) -> (r: usize)
        ensures
            r == self.list().len(),
    {
        self.entries.len()
    }

    /// The entry at a position.
    pub fn entry(&self, i: usize) -> (r: (&String, &T))
        requires
            i < self.list().len(),
        ensures
            *r.0 == self.list()[i as int].0,
            *r.1 == self.list()[i as int].1,
            self@.contains_key(r.0@),
            self@[r.0@] == *r.1,
    {
        proof {
            use_type_invariant(self);
            lemma_value_at(self.entries@, i as int);
        }
        (&self.entries[i].0, &self.entries[i].1)
    }

    /// The names, each once.
    pub fn names(&self) -> (r: Vec<String>)
        ensures
            text::texts(r@).to_set() == self@.dom(),
            text::texts(r@).no_duplicates(),
    {
        let mut r: Vec<String> = Vec::new();
        for i in 0..self.entries.len()
            invariant
                r@.len() == i,
                forall|j: int| 0 <= j < i ==> #[trigger] r@[j]@ == self.entries@[j].0@,
        {
            r.push(self.entries[i].0.clone());
        }
        proof {
            use_type_invariant(self);
            let e = self.entries@;
            let t = text::texts(r@);
            assert forall|x: Seq<char>| t.to_set().contains(x) <==> self@.contains_key(x) by {
                if self@.contains_key(x) {
                    let k = choose|k: int| 0 <= k < e.len() && #[trigger] e[k].0@ == x;
                    assert(t[k] == x);
                }
                if t.contains(x) {
                    let k = choose|k: int| 0 <= k < t.len() && t[k] == x;
                    assert(r@[k]@ == e[k].0@);
                    assert(has_name(e, x));
                }
            }
            assert(t.to_set() =~= self@.dom());
            assert forall|a: int, b: int| 0 <= a < t.len() && 0 <= b < t.len() && a != b implies t[a]
                != t[b] by {
                assert(r@[a]@ == e[a].0@ && r@[b]@ == e[b].0@);
            }
        }
        r
    }
}

/// A finite map from pairs of names to values.
#[derive(Debug)]
pub struct PairDict<T> {
    entries: Vec<((String, String), T)>,
}

impl<T> View for PairDict<T> {
    type V = Map<(Seq<char>, Seq<char>), T>;

    closed spec fn view(&self) -> Map<(Seq<char>, Seq<char>), T> {
        dict_of(self.entries@)
    }
}

impl<T> PairDict<T> {
    #[verifier::type_invariant]
    closed spec fn inv(self) -> bool {
        distinct_names(self.entries@)
    }

    /// The empty map.
    pub fn new() -> (r: Self)
        ensures
            r@ == Map::<(Seq<char>, Seq<char>), T>::empty(),
    {
        let r = PairDict { entries: Vec::new() };
        assert(r@ =~= Map::<(Seq<char>, Seq<char>), T>::empty());
        r
    }

    fn position(&self, a: &str, b: &str) -> (r: Option<usize>)
        ensures
            match r {
                Some(i) => i < self.entries@.len() && self.entries@[i as int].0@ == (a@, b@),
                None => !has_name(self.entries@, (a@, b@)),
            },
    {
        for i in 0..self.entries.len()
            invariant
                forall|j: int| 0 <= j < i ==> (#[trigger] self.entries@[j]).0@ != (a@, b@),
        {
            if str_eq(self.entries[i].0.0.as_str(), a) && str_eq(self.entries[i].0.1.as_str(), b) {
                return Some(i);
            }
        }
        None
    }

    /// The value of a pair of names.
    pub fn get(&self, a: &str, b: &str) -> (r: Option<&T>)
        ensures
            match r {
                Some(v) => self@.contains_key((a@, b@)) && self@[(a@, b@)] == *v,
                None => !self@.contains_key((a@, b@)),
            },
    {
        match self.position(a, b) {
            Some(i) => {
                proof {
                    use_type_invariant(self);
                    lemma_value_at(self.entries@, i as int);
                }
                Some(&self.entries[i].1)
            },
            None => None,
        }
    }

    /// Sets the value of a pair of names.
    pub fn insert(&mut self, a: String, b: String, value: T)
        ensures
            final(self)@ == old(self)@.insert((a@, b@), value),
    {
        proof {
            use_type_invariant(&*self);
        }
        let ghost before = self.entries@;
        let ghost kv = (a@, b@);
        let ghost vv = value;
        let at = self.position(a.as_str(), b.as_str());
        let mut e: Vec<((String, String), T)> = Vec::new();
        std::mem::swap(&mut self.entries, &mut e);
        match at {
            Some(i) => {
                e.set(i, ((a, b), value));
                proof {
                    assert forall|x: int, y: int| 0 <= x < y < e@.len() implies (
                    #[trigger] e@[x]).0@ != (#[trigger] e@[y]).0@ by {
                        assert(before[x].0@ != before[y].0@);
                    }
                    lemma_dict_insert(before, e@, i as int, kv, vv);
                }
            },
            None => {
                e.push(((a, b), value));
                proof {
                    assert forall|x: int, y: int| 0 <= x < y < e@.len() implies (
                    #[trigger] e@[x]).0@ != (#[trigger] e@[y]).0@ by {
                        if y < before.len() {
                            assert(before[x].0@ != before[y].0@);
                        } else {
                            assert(before[x].0@ != kv);
                        }
                    }
                    lemma_dict_insert(before, e@, before.len() as int, kv, vv);
                }
            },
        }
        self.entries = e;
    }

    /// Removes a pair of names.
    pub fn remove(&mut self, a: &str, b: &str)
        ensures
            final(self)@ == old(self)@.remove((a@, b@)),
    {
        proof {
            use_type_invariant(&*self);
        }
        let ghost before = self.entries@;
        match self.position(a, b) {
            Some(i) => {
                let mut e: Vec<((String, String), T)> = Vec::new();
                std::mem::swap(&mut self.entries, &mut e);
                proof {
                    lemma_dict_remove(before, i as int);
                }
                let _ = e.remove(i);
                self.entries = e;
            },
            None => {
                assert(old(self)@.remove((a@, b@)) =~= old(self)@);
            },
        }
    }
}

/// A finite set of texts.
#[derive(Debug)]
pub struct TextSet {
    items: Dict<()>,
}

impl View for TextSet {
    type V = Set<Seq<char>>;

    closed spec fn view(&self) -> Set<Seq<char>> {
        self.items@.dom()
    }
}

impl TextSet {
    /// The empty set.
    pub fn new() -> (r: Self)
        ensures
            r@ == Set::<Seq<char>>::empty(),
    {
        let r = TextSet { items: Dict::new() };
        assert(r@ =~= Set::<Seq<char>>::empty());
        r
    }

    /// Whether the text is in the set.
    pub fn contains(&self, s: &str) -> (r: bool)
        ensures
            r == self@.contains(s@),
    {
        self.items.contains_key(s)
    }

    /// Adds a text; the result says whether it is new.
    pub fn insert(&mut self, s: String) -> (r: bool)
        ensures
            final(self)@ == old(self)@.insert(s@),
            r == !old(self)@.contains(s@),
    {
        let new = !self.items.contains_key(s.as_str());
        let ghost before = self@;
        let ghost sv = s@;
        self.items.insert(s, ());
        assert(self@ =~= before.insert(sv));
        new
    }

    /// Removes a text; the result says whether it was there.
    pub fn remove(&mut self, s: &str) -> (r: bool)
        ensures
            final(self)@ == old(self)@.remove(s@),
            r == old(self)@.contains(s@),
    {
        let ghost before = self@;
        let r = self.items.remove(s).is_some();
        assert(self@ =~= before.remove(s@));
        r
    }

    /// The texts of the set, each once.
    pub fn names(&self) -> (r: Vec<String>)
        ensures
            text::texts(r@).to_set() == self@,
            text::texts(r@).no_duplicates(),
    {
        self.items.names()
    }
}

} // verus!
