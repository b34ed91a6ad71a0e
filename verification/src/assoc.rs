//! Association lists keyed by strings: the specification vocabulary for the
//! crate's maps, and `StrMap`, a map that keeps its keys distinct.
use vstd::prelude::*;

verus! {

/// No key occurs twice.
pub open spec fn distinct_keys<V>(s: Seq<(Seq<char>, V)>) -> bool {
    forall|i: int, j: int| 0 <= i < j < s.len() ==> #[trigger] s[i].0 != #[trigger] s[j].0
}

/// Whether key `k` is present.
pub open spec fn has_key<V>(s: Seq<(Seq<char>, V)>, k: Seq<char>) -> bool {
    exists|i: int| 0 <= i < s.len() && #[trigger] s[i].0 == k
}

/// The position of key `k` (meaningful when it is present).
pub open spec fn key_index<V>(s: Seq<(Seq<char>, V)>, k: Seq<char>) -> int {
    choose|i: int| 0 <= i < s.len() && #[trigger] s[i].0 == k
}

/// The value of key `k`, if it is present.
pub open spec fn lookup<V>(s: Seq<(Seq<char>, V)>, k: Seq<char>) -> Option<V> {
    if has_key(s, k) {
        Some(s[key_index(s, k)].1)
    } else {
        None
    }
}

/// `s` with key `k` bound to `v`: in place when `k` is present, else added last.
pub open spec fn insert_key<V>(s: Seq<(Seq<char>, V)>, k: Seq<char>, v: V) -> Seq<(Seq<char>, V)> {
    if has_key(s, k) {
        s.update(key_index(s, k), (k, v))
    } else {
        s.push((k, v))
    }
}

/// At most one position holds a given key.
pub proof fn lemma_key_index_unique<V>(s: Seq<(Seq<char>, V)>, k: Seq<char>, i: int)
    requires
        distinct_keys(s),
        0 <= i < s.len(),
        s[i].0 == k,
    ensures
        has_key(s, k),
        key_index(s, k) == i,
        lookup(s, k) == Some(s[i].1),
{
    assert(has_key(s, k));
    let j = key_index(s, k);
    if j != i {
        if j < i {
            assert(s[j].0 != s[i].0);
        } else {
            assert(s[i].0 != s[j].0);
        }
    }
}

/// Binding a key keeps the keys distinct.
pub proof fn lemma_insert_key_distinct<V>(s: Seq<(Seq<char>, V)>, k: Seq<char>, v: V)
    requires
        distinct_keys(s),
    ensures
        distinct_keys(insert_key(s, k, v)),
        lookup(insert_key(s, k, v), k) == Some(v),
{
    let t = insert_key(s, k, v);
    if has_key(s, k) {
        let i = key_index(s, k);
        assert(distinct_keys(t));
        lemma_key_index_unique(t, k, i);
    } else {
        assert forall|a: int, b: int| 0 <= a < b < t.len() implies #[trigger] t[a].0 != #[trigger] t[b].0 by {
            if b == s.len() {
                assert(s[a].0 != k);
            }
        }
        lemma_key_index_unique(t, k, s.len() as int);
    }
}

/// A map from strings to values that keeps each key once, in the order in
/// which keys were first bound; binding a present key replaces its value,
/// as `HashMap::insert` does.
pub struct StrMap<V> {
    entries: Vec<(String, V)>,
}

impl<V> View for StrMap<V> {
    type V = Seq<(Seq<char>, V)>;

    closed spec fn view(&self) -> Seq<(Seq<char>, V)> {
        self.entries@.map_values(|e: (String, V)| (e.0@, e.1))
    }
}

impl<V> StrMap<V> {
    #[verifier::type_invariant]
    spec fn keys_distinct(&self) -> bool {
        distinct_keys(self@)
    }

    /// A map with no keys.
    pub fn new() -> (m: Self)
        ensures
            m@ == Seq::<(Seq<char>, V)>::empty(),
    {
        let m = StrMap { entries: Vec::new() };
        assert(m@ =~= Seq::<(Seq<char>, V)>::empty());
        m
    }

    /// Every key with its value, in order.
    pub fn entries(&self) -> (e: &Vec<(String, V)>)
        ensures
            e@.map_values(|e: (String, V)| (e.0@, e.1)) == self@,
            distinct_keys(self@),
    {
        proof {
            use_type_invariant(self);
        }
        &self.entries
    }

    /// The value bound to `key`, if any.
    pub fn get(&self, key: &String) -> (r: Option<&V>)
        ensures
            match r {
                Some(v) => lookup(self@, key@) == Some(*v),
                None => lookup(self@, key@) is None,
            },
    {
        proof {
            use_type_invariant(self);
        }
        let mut i: usize = 0;
        while i < self.entries.len()
            invariant
                i <= self.entries@.len(),
                distinct_keys(self@),
                forall|j: int| 0 <= j < i ==> self@[j].0 != key@,
            decreases self.entries.len() - i,
        {
            if self.entries[i].0 == *key {
                proof {
                    lemma_key_index_unique(self@, key@, i as int);
                }
                return Some(&self.entries[i].1);
            }
            i += 1;
        }
        None
    }

    /// Binds `key` to `value`, replacing the value of a present key in place.
    pub fn insert(&mut self, key: String, value: V)
        ensures
            final(self)@ == insert_key(old(self)@, key@, value),
    {
        proof {
            use_type_invariant(&*self);
        }
        let ghost old_view = self@;
        let mut entries: Vec<(String, V)> = Vec::new();
        std::mem::swap(&mut entries, &mut self.entries);
        let mut i: usize = 0;
        while i < entries.len()
            invariant
                i <= entries@.len(),
                entries@.map_values(|e: (String, V)| (e.0@, e.1)) == old_view,
                distinct_keys(old_view),
                old_view == old(self)@,
                forall|j: int| 0 <= j < i ==> old_view[j].0 != key@,
            decreases entries.len() - i,
        {
            if entries[i].0 == key {
                proof {
                    lemma_key_index_unique(old_view, key@, i as int);
                }
                let ghost k = key@;
                entries.set(i, (key, value));
                assert(entries@.map_values(|e: (String, V)| (e.0@, e.1)) == old_view.update(
                    i as int,
                    (k, value),
                ));
                proof {
                    lemma_insert_key_distinct(old_view, k, value);
                }
                self.entries = entries;
                return;
            }
            i += 1;
        }
        let ghost k = key@;
        entries.push((key, value));
        assert(entries@.map_values(|e: (String, V)| (e.0@, e.1)) == old_view.push((k, value)));
        proof {
            lemma_insert_key_distinct(old_view, k, value);
        }
        self.entries = entries;
    }
}

} // verus!
