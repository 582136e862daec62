use crate::bytes::bytes_eq;
use vstd::prelude::*;

verus! {

/// Keys that can be told apart by their mathematical values.
pub trait KeyEq: DeepView + Sized {
    fn key_eq(&self, other: &Self) -> (b: bool)
        ensures
            b == (self.deep_view() == other.deep_view()),
    ;
}

impl KeyEq for Vec<u8> {
    fn key_eq(&self, other: &Self) -> (b: bool) {
        let r = bytes_eq(self.as_slice(), other.as_slice());
        assert(self.deep_view() =~= self@);
        assert(other.deep_view() =~= other@);
        r
    }
}

impl KeyEq for String {
    fn key_eq(&self, other: &Self) -> (b: bool) {
        let r = (*self).eq(other);
        assert(self.deep_view() == self@);
        assert(other.deep_view() == other@);
        r
    }
}

/// No key occurs twice in a list of entries.
pub open spec fn keys_unique<A, B>(s: Seq<(A, B)>) -> bool {
    forall|i: int, j: int| 0 <= i < j < s.len() ==> s[i].0 != s[j].0
}

/// The map that a list of entries stands for; a later entry wins over an
/// earlier one with the same key.
pub open spec fn map_of<A, B>(s: Seq<(A, B)>) -> Map<A, B>
    decreases s.len(),
{
    if s.len() == 0 {
        Map::empty()
    } else {
        map_of(s.drop_last()).insert(s.last().0, s.last().1)
    }
}

/// A key is in the map exactly when some entry has it.
pub proof fn lemma_map_of_contains<A, B>(s: Seq<(A, B)>, k: A)
    ensures
        map_of(s).contains_key(k) <==> exists|i: int| 0 <= i < s.len() && #[trigger] s[i].0 == k,
    decreases s.len(),
{
    if s.len() > 0 {
        lemma_map_of_contains(s.drop_last(), k);
        if map_of(s.drop_last()).contains_key(k) {
            let i = choose|i: int| 0 <= i < s.drop_last().len() && #[trigger] s.drop_last()[i].0 == k;
            assert(s[i].0 == k);
        }
        if exists|i: int| 0 <= i < s.len() && #[trigger] s[i].0 == k {
            let i = choose|i: int| 0 <= i < s.len() && #[trigger] s[i].0 == k;
            if i < s.len() - 1 {
                assert(s.drop_last()[i].0 == k);
            }
        }
    }
}

/// With unique keys, each entry's key maps to that entry's value.
pub proof fn lemma_map_of_index<A, B>(s: Seq<(A, B)>, i: int)
    requires
        keys_unique(s),
        0 <= i < s.len(),
    ensures
        map_of(s).contains_key(s[i].0),
        map_of(s)[s[i].0] == s[i].1,
    decreases s.len(),
{
    if i < s.len() - 1 {
        assert(keys_unique(s.drop_last()));
        lemma_map_of_index(s.drop_last(), i);
        assert(s.drop_last()[i] == s[i]);
    }
}

/// With unique keys, the map has one key per entry.
pub proof fn lemma_map_of_len<A, B>(s: Seq<(A, B)>)
    requires
        keys_unique(s),
    ensures
        map_of(s).dom().finite(),
        map_of(s).len() == s.len(),
    decreases s.len(),
{
    if s.len() > 0 {
        let t = s.drop_last();
        assert(keys_unique(t));
        lemma_map_of_len(t);
        lemma_map_of_contains(t, s.last().0);
        if map_of(t).contains_key(s.last().0) {
            let i = choose|i: int| 0 <= i < t.len() && #[trigger] t[i].0 == s.last().0;
            assert(s[i].0 == s[s.len() - 1].0);
        }
    }
}

/// Replacing the value of an entry replaces the value of its key.
pub proof fn lemma_map_of_update<A, B>(s: Seq<(A, B)>, i: int, v: B)
    requires
        keys_unique(s),
        0 <= i < s.len(),
    ensures
        keys_unique(s.update(i, (s[i].0, v))),
        map_of(s.update(i, (s[i].0, v))) == map_of(s).insert(s[i].0, v),
{
    let t = s.update(i, (s[i].0, v));
    assert(keys_unique(t)) by {
        assert forall|a: int, b: int| 0 <= a < b < t.len() implies t[a].0 != t[b].0 by {
            assert(t[a].0 == s[a].0);
            assert(t[b].0 == s[b].0);
        }
    }
    assert forall|k: A| #[trigger] map_of(t).contains_key(k) == map_of(s).insert(s[i].0, v).contains_key(k) by {
        lemma_map_of_contains(t, k);
        lemma_map_of_contains(s, k);
        if exists|j: int| 0 <= j < t.len() && #[trigger] t[j].0 == k {
            let j = choose|j: int| 0 <= j < t.len() && #[trigger] t[j].0 == k;
            assert(s[j].0 == k);
        }
        if exists|j: int| 0 <= j < s.len() && #[trigger] s[j].0 == k {
            let j = choose|j: int| 0 <= j < s.len() && #[trigger] s[j].0 == k;
            assert(t[j].0 == k);
        }
    }
    assert forall|k: A| #[trigger] map_of(t).contains_key(k) implies map_of(t)[k] == map_of(s).insert(s[i].0, v)[k] by {
        lemma_map_of_contains(t, k);
        let j = choose|j: int| 0 <= j < t.len() && #[trigger] t[j].0 == k;
        lemma_map_of_index(t, j);
        if j != i {
            lemma_map_of_index(s, j);
        }
    }
    assert(map_of(t) =~= map_of(s).insert(s[i].0, v));
}

/// Dropping an entry drops its key.
pub proof fn lemma_map_of_remove<A, B>(s: Seq<(A, B)>, i: int)
    requires
        keys_unique(s),
        0 <= i < s.len(),
    ensures
        keys_unique(s.remove(i)),
        map_of(s.remove(i)) == map_of(s).remove(s[i].0),
{
    let t = s.remove(i);
    assert(keys_unique(t)) by {
        assert forall|a: int, b: int| 0 <= a < b < t.len() implies t[a].0 != t[b].0 by {
            let sa = if a < i { a } else { a + 1 };
            let sb = if b < i { b } else { b + 1 };
            assert(t[a] == s[sa]);
            assert(t[b] == s[sb]);
        }
    }
    assert forall|k: A| #[trigger] map_of(t).contains_key(k) == map_of(s).remove(s[i].0).contains_key(k) by {
        lemma_map_of_contains(t, k);
        lemma_map_of_contains(s, k);
        if exists|j: int| 0 <= j < t.len() && #[trigger] t[j].0 == k {
            let j = choose|j: int| 0 <= j < t.len() && #[trigger] t[j].0 == k;
            let sj = if j < i { j } else { j + 1 };
            assert(s[sj].0 == k);
        }
        if exists|j: int| 0 <= j < s.len() && #[trigger] s[j].0 == k {
            let j = choose|j: int| 0 <= j < s.len() && #[trigger] s[j].0 == k;
            if k != s[i].0 {
                let tj = if j < i { j } else { j - 1 };
                assert(t[tj].0 == k);
            }
        }
    }
    assert forall|k: A| #[trigger] map_of(t).contains_key(k) implies map_of(t)[k] == map_of(s).remove(s[i].0)[k] by {
        lemma_map_of_contains(t, k);
        let j = choose|j: int| 0 <= j < t.len() && #[trigger] t[j].0 == k;
        lemma_map_of_index(t, j);
        let sj = if j < i { j } else { j + 1 };
        assert(t[j] == s[sj]);
        lemma_map_of_index(s, sj);
    }
    assert(map_of(t) =~= map_of(s).remove(s[i].0));
}

/// Appending an entry with a new key adds that key.
pub proof fn lemma_map_of_push<A, B>(s: Seq<(A, B)>, k: A, v: B)
    requires
        keys_unique(s),
        !map_of(s).contains_key(k),
    ensures
        keys_unique(s.push((k, v))),
        map_of(s.push((k, v))) == map_of(s).insert(k, v),
{
    let t = s.push((k, v));
    assert(t.drop_last() =~= s);
    assert forall|a: int, b: int| 0 <= a < b < t.len() implies t[a].0 != t[b].0 by {
        if b == s.len() {
            lemma_map_of_index(s, a);
        }
    }
}

/// A map kept as a list of entries with unique keys, in insertion order.
pub struct Assoc<K: KeyEq, V: DeepView> {
    entries: Vec<(K, V)>,
}

impl<K: KeyEq, V: DeepView> DeepView for Assoc<K, V> {
    type V = Map<K::V, V::V>;

    closed spec fn deep_view(&self) -> Map<K::V, V::V> {
        map_of(self.entries.deep_view())
    }
}

impl<K: KeyEq, V: DeepView> View for Assoc<K, V> {
    type V = Map<K::V, V::V>;

    open spec fn view(&self) -> Map<K::V, V::V> {
        self.deep_view()
    }
}

impl<K: KeyEq, V: DeepView> Assoc<K, V> {
    /// The entries' values, in order.
    pub closed spec fn pairs(&self) -> Seq<(K::V, V::V)> {
        self.entries.deep_view()
    }

    /// The entries have unique keys.
    #[verifier::type_invariant]
    closed spec fn wf(&self) -> bool {
        keys_unique(self.entries.deep_view())
    }

    /// An empty map.
    pub fn new() -> (m: Self)
        ensures
            m@ == Map::<K::V, V::V>::empty(),
            m.pairs() == Seq::<(K::V, V::V)>::empty(),
    {
        let m = Assoc { entries: Vec::new() };
        assert(m.entries.deep_view() =~= Seq::<(K::V, V::V)>::empty());
        m
    }

    /// The number of keys.
    pub fn len(&self) -> (n: usize)
        ensures
            n == self@.len(),
            n == self.pairs().len(),
            self@.dom().finite(),
    {
        proof {
            use_type_invariant(self);
            lemma_map_of_len(self.entries.deep_view());
        }
        self.entries.len()
    }

    /// Where the key stands among the entries.
    pub fn position(&self, k: &K) -> (r: Option<usize>)
        ensures
            match r {
                Some(i) => i < self.pairs().len() && self.pairs()[i as int].0 == k.deep_view()
                    && self@.contains_key(k.deep_view()) && self@[k.deep_view()] == self.pairs()[i as int].1,
                None => !self@.contains_key(k.deep_view()),
            },
    {
        proof {
            use_type_invariant(self);
        }
        let mut i: usize = 0;
        while i < self.entries.len()
            invariant
                keys_unique(self.entries.deep_view()),
                i <= self.entries@.len(),
                forall|j: int| 0 <= j < i ==> #[trigger] self.entries.deep_view()[j].0 != k.deep_view(),
            decreases self.entries@.len() - i,
        {
            if self.entries[i].0.key_eq(k) {
                proof {
                    lemma_map_of_index(self.entries.deep_view(), i as int);
                }
                return Some(i);
            }
            i = i + 1;
        }
        proof {
            lemma_map_of_contains(self.entries.deep_view(), k.deep_view());
        }
        None
    }

    /// The value of a key.
    pub fn get(&self, k: &K) -> (r: Option<&V>)
        ensures
            match r {
                Some(v) => self@.contains_key(k.deep_view()) && self@[k.deep_view()] == v.deep_view(),
                None => !self@.contains_key(k.deep_view()),
            },
    {
        match self.position(k) {
            Some(i) => Some(&self.entries[i].1),
            None => None,
        }
    }

    /// Whether the key is present.
    pub fn contains_key(&self, k: &K) -> (b: bool)
        ensures
            b == self@.contains_key(k.deep_view()),
    {
        self.position(k).is_some()
    }

    /// Sets the value of a key: an entry with the key keeps its place, a new key
    /// goes last.
    pub fn insert(&mut self, k: K, v: V)
        ensures
            final(self)@ == old(self)@.insert(k.deep_view(), v.deep_view()),
    {
        proof {
            use_type_invariant(&*self);
        }
        let pos = self.position(&k);
        let mut entries: Vec<(K, V)> = Vec::new();
        std::mem::swap(&mut entries, &mut self.entries);
        let ghost before = entries.deep_view();
        match pos {
            Some(i) => {
                proof {
                    lemma_map_of_update(before, i as int, v.deep_view());
                }
                entries.set(i, (k, v));
                assert(entries.deep_view() =~= before.update(i as int, (before[i as int].0, v.deep_view())));
            },
            None => {
                proof {
                    lemma_map_of_push(before, k.deep_view(), v.deep_view());
                }
                let ghost kv = (k.deep_view(), v.deep_view());
                entries.push((k, v));
                assert(entries.deep_view() =~= before.push(kv));
            },
        }
        self.entries = entries;
    }

    /// Removes a key and hands back its value.
    pub fn remove(&mut self, k: &K) -> (r: Option<V>)
        ensures
            final(self)@ == old(self)@.remove(k.deep_view()),
            match r {
                Some(v) => old(self)@.contains_key(k.deep_view()) && old(self)@[k.deep_view()]
                    == v.deep_view(),
                None => !old(self)@.contains_key(k.deep_view()),
            },
    {
        proof {
            use_type_invariant(&*self);
        }
        match self.position(k) {
            Some(i) => {
                let mut entries: Vec<(K, V)> = Vec::new();
                std::mem::swap(&mut entries, &mut self.entries);
                let ghost before = entries.deep_view();
                proof {
                    lemma_map_of_remove(before, i as int);
                }
                let (_, v) = entries.remove(i);
                assert(entries.deep_view() =~= before.remove(i as int));
                self.entries = entries;
                Some(v)
            },
            None => {
                assert(old(self)@.remove(k.deep_view()) =~= old(self)@);
                None
            },
        }
    }

    /// The entries, in order.
    pub fn entries(&self) -> (e: &Vec<(K, V)>)
        ensures
            e.deep_view() == self.pairs(),
            keys_unique(self.pairs()),
            map_of(self.pairs()) == self@,
    {
        proof {
            use_type_invariant(self);
        }
        &self.entries
    }

    /// Removes every entry.
    pub fn clear(&mut self)
        ensures
            final(self)@ == Map::<K::V, V::V>::empty(),
            final(self).pairs() == Seq::<(K::V, V::V)>::empty(),
    {
        let empty: Vec<(K, V)> = Vec::new();
        assert(empty.deep_view() =~= Seq::<(K::V, V::V)>::empty());
        self.entries = empty;
    }
}

} // verus!
