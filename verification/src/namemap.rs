//! Maps keyed by name, with a later entry for a name taking the place of an earlier one.

use vstd::prelude::*;
use vstd::utf8::encode_utf8;
use crate::property::PropertyValue;

verus! {

/// The map that a list of named entries denotes: a later entry for a name
/// overrides an earlier one.
pub open spec fn map_of<V>(s: Seq<(Seq<char>, V)>) -> Map<Seq<char>, V>
    decreases s.len(),
{
    if s.len() == 0 {
        Map::empty()
    } else {
        map_of(s.drop_last()).insert(s.last().0, s.last().1)
    }
}

/// No two entries have the same name.
pub open spec fn keys_distinct<V>(es: Seq<(Seq<char>, V)>) -> bool {
    forall|i: int, j: int| 0 <= i < j < es.len() ==> #[trigger] es[i].0 != #[trigger] es[j].0
}

/// `i` is the last entry named `k`.
pub open spec fn is_last_with_key<V>(s: Seq<(Seq<char>, V)>, i: int, k: Seq<char>) -> bool {
    &&& 0 <= i < s.len()
    &&& s[i].0 == k
    &&& forall|j: int| i < j < s.len() ==> #[trigger] s[j].0 != k
}

/// The entries after inserting `k` with `v`: the last entry named `k` takes the
/// new value; where there is none, the entry is appended.
pub open spec fn entries_insert<V>(s: Seq<(Seq<char>, V)>, k: Seq<char>, v: V) -> Seq<(Seq<char>, V)> {
    if exists|i: int| is_last_with_key(s, i, k) {
        s.update(choose|i: int| is_last_with_key(s, i, k), (k, v))
    } else {
        s.push((k, v))
    }
}

pub proof fn lemma_map_of_dom<V>(s: Seq<(Seq<char>, V)>, k: Seq<char>)
    ensures
        map_of(s).dom().contains(k) <==> exists|i: int| 0 <= i < s.len() && #[trigger] s[i].0 == k,
    decreases s.len(),
{
    if s.len() > 0 {
        lemma_map_of_dom(s.drop_last(), k);
        if map_of(s).dom().contains(k) && s.last().0 != k {
            let i = choose|i: int| 0 <= i < s.drop_last().len() && #[trigger] s.drop_last()[i].0 == k;
            assert(s[i].0 == k);
        }
        if exists|i: int| 0 <= i < s.len() && #[trigger] s[i].0 == k {
            let i = choose|i: int| 0 <= i < s.len() && #[trigger] s[i].0 == k;
            if i < s.len() - 1 {
                assert(s.drop_last()[i].0 == k);
            }
        }
    }
}

pub proof fn lemma_map_of_finite<V>(s: Seq<(Seq<char>, V)>)
    ensures
        map_of(s).dom().finite(),
    decreases s.len(),
{
    if s.len() > 0 {
        lemma_map_of_finite(s.drop_last());
    }
}

/// The value the map gives a name is that of the last entry with the name.
pub proof fn lemma_map_of_last<V>(s: Seq<(Seq<char>, V)>, i: int, k: Seq<char>)
    requires
        is_last_with_key(s, i, k),
    ensures
        map_of(s).dom().contains(k),
        map_of(s)[k] == s[i].1,
    decreases s.len(),
{
    if i < s.len() - 1 {
        assert(s[s.len() - 1].0 != k);
        let t = s.drop_last();
        assert forall|j: int| i < j < t.len() implies #[trigger] t[j].0 != k by {
            assert(s[j].0 != k);
        }
        lemma_map_of_last(t, i, k);
    }
}

/// Replacing the value of the last entry named `k` inserts the new value for `k`.
pub proof fn lemma_map_of_update_last<V>(s: Seq<(Seq<char>, V)>, i: int, k: Seq<char>, v: V)
    requires
        is_last_with_key(s, i, k),
    ensures
        map_of(s.update(i, (k, v))) =~= map_of(s).insert(k, v),
    decreases s.len(),
{
    let u = s.update(i, (k, v));
    if i == s.len() - 1 {
        assert(u.drop_last() =~= s.drop_last());
    } else {
        let t = s.drop_last();
        assert(s[s.len() - 1].0 != k);
        assert forall|j: int| i < j < t.len() implies #[trigger] t[j].0 != k by {
            assert(s[j].0 != k);
        }
        lemma_map_of_update_last(t, i, k, v);
        assert(u.drop_last() =~= t.update(i, (k, v)));
    }
}

/// Inserting into the entries inserts into the map.
pub proof fn lemma_map_of_insert<V>(s: Seq<(Seq<char>, V)>, k: Seq<char>, v: V)
    ensures
        map_of(entries_insert(s, k, v)) =~= map_of(s).insert(k, v),
{
    if exists|i: int| is_last_with_key(s, i, k) {
        let i = choose|i: int| is_last_with_key(s, i, k);
        lemma_map_of_update_last(s, i, k, v);
    } else {
        assert(s.push((k, v)).drop_last() =~= s);
    }
}

/// Whether two strings are equal, compared byte by byte.
pub fn str_equal(a: &str, b: &str) -> (r: bool)
    ensures
        r == (a@ == b@),
{
    let x = a.as_bytes();
    let y = b.as_bytes();
    proof {
        vstd::utf8::encode_utf8_decode_utf8(a@);
        vstd::utf8::encode_utf8_decode_utf8(b@);
    }
    if x.len() != y.len() {
        return false;
    }
    let mut i: usize = 0;
    while i < x.len()
        invariant
            x@.len() == y@.len(),
            x@ == encode_utf8(a@),
            y@ == encode_utf8(b@),
            i <= x@.len(),
            forall|j: int| 0 <= j < i ==> x@[j] == y@[j],
        decreases x@.len() - i,
    {
        if x[i] != y[i] {
            assert(x@[i as int] != y@[i as int]);
            assert(x@ != y@);
            return false;
        }
        i = i + 1;
    }
    assert(x@ =~= y@);
    true
}

/// A map from names to values that keeps its entries in the order they were
/// first inserted.
#[derive(Debug)]
pub struct NameMap<V> {
    entries: Vec<(String, V)>,
}

impl<V> NameMap<V> {
    /// No name is stored twice.
    #[verifier::type_invariant]
    closed spec fn names_distinct(self) -> bool {
        forall|i: int, j: int| 0 <= i < j < self.entries@.len()
            ==> #[trigger] self.entries@[i].0@ != #[trigger] self.entries@[j].0@
    }
}

impl<V: View> NameMap<V> {
    /// The entries, in order, as names and value models.
    pub closed spec fn entries(&self) -> Seq<(Seq<char>, V::V)> {
        self.entries@.map_values(|e: (String, V)| (e.0@, e.1@))
    }

    /// The values of the entries, in order.
    pub closed spec fn values(&self) -> Seq<V> {
        self.entries@.map_values(|e: (String, V)| e.1)
    }

    /// The entries of a map that holds no name twice.
    proof fn lemma_entries_distinct(&self)
        requires
            self.names_distinct(),
        ensures
            keys_distinct(self.entries()),
    {
        assert forall|i: int, j: int| 0 <= i < j < self.entries().len() implies
            #[trigger] self.entries()[i].0 != #[trigger] self.entries()[j].0 by {
            assert(self.entries@[i].0@ != self.entries@[j].0@);
        }
    }

    /// Each entry's model is the model of its value.
    pub proof fn lemma_values(&self)
        ensures
            self.values().len() == self.entries().len(),
            forall|i: int| 0 <= i < self.entries().len() ==> (#[trigger] self.entries()[i]).1 == self.values()[i]@,
    {
    }

    /// An empty map.
    pub fn new() -> (r: Self)
        ensures
            r.entries() == Seq::<(Seq<char>, V::V)>::empty(),
            r@ == Map::<Seq<char>, V::V>::empty(),
    {
        let r = NameMap { entries: Vec::new() };
        assert(r.entries() =~= Seq::<(Seq<char>, V::V)>::empty());
        r
    }

    /// The number of entries; no name is stored twice.
    pub fn len(&self) -> (r: usize)
        ensures
            r == self.entries().len(),
            keys_distinct(self.entries()),
    {
        proof {
            use_type_invariant(self);
            self.lemma_entries_distinct();
        }
        self.entries.len()
    }

    /// The name of entry `i`.
    pub fn key_at(&self, i: usize) -> (r: &String)
        requires
            i < self.entries().len(),
        ensures
            r@ == self.entries()[i as int].0,
    {
        &self.entries[i].0
    }

    /// The value of entry `i`.
    pub fn value_at(&self, i: usize) -> (r: &V)
        requires
            i < self.entries().len(),
        ensures
            r@ == self.entries()[i as int].1,
            *r == self.values()[i as int],
    {
        &self.entries[i].1
    }

    /// The index of the last entry named `key`.
    pub fn find(&self, key: &str) -> (r: Option<usize>)
        ensures
            r matches Some(i) ==> is_last_with_key(self.entries(), i as int, key@),
            r is None ==> forall|j: int| 0 <= j < self.entries().len() ==> #[trigger] self.entries()[j].0 != key@,
    {
        let n = self.entries.len();
        let mut i = n;
        while i > 0
            invariant
                i <= n,
                n == self.entries().len(),
                forall|j: int| i <= j < n ==> #[trigger] self.entries()[j].0 != key@,
            decreases i,
        {
            let k = &self.entries[i - 1].0;
            proof {
                assert(self.entries()[i - 1].0 == k@);
            }
            if str_equal(k.as_str(), key) {
                return Some(i - 1);
            }
            i = i - 1;
        }
        None
    }

    /// The value stored under `key`.
    pub fn get(&self, key: &str) -> (r: Option<&V>)
        ensures
            r matches Some(v) ==> self@.dom().contains(key@) && v@ == self@[key@],
            r is None ==> !self@.dom().contains(key@),
    {
        match self.find(key) {
            Some(i) => {
                proof {
                    lemma_map_of_last(self.entries(), i as int, key@);
                }
                Some(&self.entries[i].1)
            },
            None => {
                proof {
                    lemma_map_of_dom(self.entries(), key@);
                }
                None
            },
        }
    }

    /// Puts `value` in entry `i`, keeping its name, and hands back the value it held.
    pub fn replace_value_at(&mut self, i: usize, value: V) -> (r: V)
        requires
            i < old(self).entries().len(),
        ensures
            r@ == old(self).entries()[i as int].1,
            r == old(self).values()[i as int],
            final(self).entries() == old(self).entries().update(i as int, (old(self).entries()[i as int].0, value@)),
            final(self).values() == old(self).values().update(i as int, value),
    {
        proof {
            use_type_invariant(&*self);
        }
        let ghost s = self.entries@;
        let mut es: Vec<(String, V)> = Vec::new();
        std::mem::swap(&mut es, &mut self.entries);
        let mut v = value;
        std::mem::swap(&mut es[i].1, &mut v);
        proof {
            assert(es@ =~= s.update(i as int, (s[i as int].0, value)));
            assert forall|a: int, b: int| 0 <= a < b < es@.len() implies
                #[trigger] es@[a].0@ != #[trigger] es@[b].0@ by {
                assert(es@[a].0 == s[a].0 && es@[b].0 == s[b].0);
            }
        }
        self.entries = es;
        proof {
            assert(self.entries() =~= old(self).entries().update(i as int, (old(self).entries()[i as int].0, value@)));
            assert(self.values() =~= old(self).values().update(i as int, value));
        }
        v
    }

    /// Stores `value` under `key`, in place of any value stored there before.
    pub fn insert(&mut self, key: String, value: V)
        ensures
            final(self).entries() == entries_insert(old(self).entries(), key@, value@),
            final(self)@ == old(self)@.insert(key@, value@),
    {
        proof {
            use_type_invariant(&*self);
        }
        let ghost s = self.entries();
        let ghost raw = self.entries@;
        let ghost k = key@;
        let ghost v = value@;
        let found = self.find(key.as_str());
        let mut es: Vec<(String, V)> = Vec::new();
        std::mem::swap(&mut es, &mut self.entries);
        match found {
            Some(i) => {
                es.set(i, (key, value));
                proof {
                    assert forall|a: int, b: int| 0 <= a < b < es@.len() implies
                        #[trigger] es@[a].0@ != #[trigger] es@[b].0@ by {
                        if a != i && b != i {
                            assert(es@[a] == raw[a] && es@[b] == raw[b]);
                        } else if a == i {
                            assert(raw[a].0@ == s[a].0);
                            assert(es@[b] == raw[b]);
                        } else {
                            assert(raw[b].0@ == s[b].0);
                            assert(es@[a] == raw[a]);
                        }
                    }
                }
                self.entries = es;
                proof {
                    assert(self.entries() =~= s.update(i as int, (k, v)));
                    assert(exists|j: int| is_last_with_key(s, j, k));
                    let c = choose|j: int| is_last_with_key(s, j, k);
                    assert(c == i);
                }
            },
            None => {
                es.push((key, value));
                proof {
                    assert forall|a: int, b: int| 0 <= a < b < es@.len() implies
                        #[trigger] es@[a].0@ != #[trigger] es@[b].0@ by {
                        if b == es@.len() - 1 {
                            assert(es@[a] == raw[a]);
                            assert(s[a].0 == raw[a].0@);
                        } else {
                            assert(es@[a] == raw[a] && es@[b] == raw[b]);
                        }
                    }
                }
                self.entries = es;
                proof {
                    assert(self.entries() =~= s.push((k, v)));
                    assert(!exists|j: int| is_last_with_key(s, j, k));
                }
            },
        }
        proof {
            lemma_map_of_insert(s, k, v);
        }
    }

}

impl<V: View> View for NameMap<V> {
    type V = Map<Seq<char>, V::V>;

    open spec fn view(&self) -> Map<Seq<char>, V::V> {
        map_of(self.entries())
    }
}

/// A map from property names to property values.
pub type PropertyMap = NameMap<PropertyValue>;

impl NameMap<PropertyValue> {
    /// An equal copy of the map.
    pub fn copy_map(&self) -> (r: Self)
        ensures
            r.entries() == self.entries(),
            r@ == self@,
    {
        let mut out: Vec<(String, PropertyValue)> = Vec::new();
        let mut i: usize = 0;
        while i < self.entries.len()
            invariant
                i <= self.entries@.len(),
                out@.len() == i,
                forall|j: int| 0 <= j < i ==> (#[trigger] out@[j]).0@ == self.entries@[j].0@
                    && out@[j].1@ == self.entries@[j].1@,
            decreases self.entries@.len() - i,
        {
            let k = self.entries[i].0.clone();
            let v = self.entries[i].1.copy_value();
            out.push((k, v));
            i = i + 1;
        }
        proof {
            use_type_invariant(self);
            assert forall|a: int, b: int| 0 <= a < b < out@.len() implies
                #[trigger] out@[a].0@ != #[trigger] out@[b].0@ by {
                assert(out@[a].0@ == self.entries@[a].0@ && out@[b].0@ == self.entries@[b].0@);
            }
        }
        let r = NameMap { entries: out };
        assert(r.entries() =~= self.entries());
        r
    }

    /// Stores every entry of `other`, in its order, over the entries here: the
    /// values of `other` win.
    pub fn extend_from(&mut self, other: &Self)
        ensures
            final(self)@ == old(self)@.union_prefer_right(other@),
    {
        let n = other.entries.len();
        let mut i: usize = 0;
        while i < n
            invariant
                i <= n,
                n == other.entries().len(),
                self@ == old(self)@.union_prefer_right(map_of(other.entries().take(i as int))),
            decreases n - i,
        {
            let k = other.entries[i].0.clone();
            let v = other.entries[i].1.copy_value();
            proof {
                let t = other.entries().take(i as int + 1);
                assert(t.drop_last() =~= other.entries().take(i as int));
                assert(t.last() == (k@, v@));
            }
            self.insert(k, v);
            i = i + 1;
            proof {
                assert(self@ =~= old(self)@.union_prefer_right(map_of(other.entries().take(i as int))));
            }
        }
        assert(other.entries().take(n as int) =~= other.entries());
    }
}

} // verus!
