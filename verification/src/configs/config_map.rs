//! A map from text keys to text values, kept in the order in which its keys
//! were first inserted.
use vstd::prelude::*;

use crate::text::str_eq;

verus! {

/// The map that a sequence of keys and a sequence of values describe, a
/// later pair overriding an earlier one with the same key.
pub open spec fn kv_map(ks: Seq<Seq<char>>, vs: Seq<Seq<char>>) -> Map<Seq<char>, Seq<char>>
    decreases ks.len(),
{
    if ks.len() == 0 || vs.len() == 0 {
        Map::empty()
    } else {
        kv_map(ks.drop_last(), vs.drop_last()).insert(ks.last(), vs.last())
    }
}

/// No key occurs twice.
pub open spec fn distinct(ks: Seq<Seq<char>>) -> bool {
    forall|i: int, j: int| 0 <= i < j < ks.len() ==> ks[i] != ks[j]
}

proof fn lemma_kv_dom(ks: Seq<Seq<char>>, vs: Seq<Seq<char>>, k: Seq<char>)
    requires
        ks.len() == vs.len(),
    ensures
        kv_map(ks, vs).dom().contains(k) <==> ks.contains(k),
    decreases ks.len(),
{
    if ks.len() > 0 {
        lemma_kv_dom(ks.drop_last(), vs.drop_last(), k);
        if ks.drop_last().contains(k) {
            let i = choose|i: int| 0 <= i < ks.drop_last().len() && ks.drop_last()[i] == k;
            assert(ks[i] == k);
        }
        if ks.contains(k) && k != ks.last() {
            let i = choose|i: int| 0 <= i < ks.len() && ks[i] == k;
            assert(ks.drop_last()[i] == k);
        }
    }
}

proof fn lemma_kv_value(ks: Seq<Seq<char>>, vs: Seq<Seq<char>>, i: int)
    requires
        ks.len() == vs.len(),
        distinct(ks),
        0 <= i < ks.len(),
    ensures
        kv_map(ks, vs).dom().contains(ks[i]),
        kv_map(ks, vs)[ks[i]] == vs[i],
    decreases ks.len(),
{
    if i < ks.len() - 1 {
        lemma_kv_value(ks.drop_last(), vs.drop_last(), i);
        assert(ks.drop_last()[i] == ks[i]);
    }
}

proof fn lemma_kv_update(ks: Seq<Seq<char>>, vs: Seq<Seq<char>>, i: int, v: Seq<char>)
    requires
        ks.len() == vs.len(),
        distinct(ks),
        0 <= i < ks.len(),
    ensures
        kv_map(ks, vs.update(i, v)) == kv_map(ks, vs).insert(ks[i], v),
{
    let vs2 = vs.update(i, v);
    let m1 = kv_map(ks, vs2);
    let m2 = kv_map(ks, vs).insert(ks[i], v);
    assert forall|k: Seq<char>| m1.dom().contains(k) <==> m2.dom().contains(k) by {
        lemma_kv_dom(ks, vs2, k);
        lemma_kv_dom(ks, vs, k);
        if k == ks[i] {
            assert(ks.contains(k));
        }
    }
    assert forall|k: Seq<char>| m1.dom().contains(k) implies m1[k] == m2[k] by {
        lemma_kv_dom(ks, vs2, k);
        let j = choose|j: int| 0 <= j < ks.len() && ks[j] == k;
        lemma_kv_value(ks, vs2, j);
        if j != i {
            lemma_kv_value(ks, vs, j);
        }
    }
    assert(m1 =~= m2);
}

/// A map from text keys to text values.
pub struct ConfigMap {
    keys: Vec<String>,
    values: Vec<String>,
}

impl View for ConfigMap {
    type V = Map<Seq<char>, Seq<char>>;

    closed spec fn view(&self) -> Map<Seq<char>, Seq<char>> {
        kv_map(self.key_seq(), self.value_seq())
    }
}

impl ConfigMap {
    /// The keys, in the order of their first insertion.
    pub closed spec fn key_seq(&self) -> Seq<Seq<char>> {
        self.keys@.map_values(|s: String| s@)
    }

    /// The values, in the order of their keys.
    pub closed spec fn value_seq(&self) -> Seq<Seq<char>> {
        self.values@.map_values(|s: String| s@)
    }

    #[verifier::type_invariant]
    closed spec fn well_formed(&self) -> bool {
        &&& self.keys@.len() == self.values@.len()
        &&& distinct(self.key_seq())
    }

    /// The empty map.
    pub fn new() -> (m: ConfigMap)
        ensures
            m@ == Map::<Seq<char>, Seq<char>>::empty(),
            m.key_seq().len() == 0,
    {
        ConfigMap { keys: Vec::new(), values: Vec::new() }
    }

    /// The number of keys. Its contract also says how the map stands to
    /// its entries: as many keys as values, no key twice, and each key
    /// mapped to the value at its position.
    pub fn len(&self) -> (n: usize)
        ensures
            n == self.key_seq().len(),
            n == self.value_seq().len(),
            distinct(self.key_seq()),
            forall|i: int|
                0 <= i < n ==> #[trigger] self@.dom().contains(self.key_seq()[i]) && self@[self.key_seq()[i]]
                    == self.value_seq()[i],
            forall|k: Seq<char>| #[trigger] self@.dom().contains(k) <==> self.key_seq().contains(k),
    {
        proof {
            use_type_invariant(self);
            self.lemma_entries();
        }
        self.keys.len()
    }

    proof fn lemma_entries(&self)
        requires
            self.keys@.len() == self.values@.len(),
            distinct(self.key_seq()),
        ensures
            forall|i: int|
                0 <= i < self.key_seq().len() ==> #[trigger] self@.dom().contains(
                    self.key_seq()[i],
                ) && self@[self.key_seq()[i]] == self.value_seq()[i],
            forall|k: Seq<char>| #[trigger] self@.dom().contains(k) <==> self.key_seq().contains(k),
    {
        assert forall|i: int| 0 <= i < self.key_seq().len() implies #[trigger] self@.dom().contains(
            self.key_seq()[i],
        ) && self@[self.key_seq()[i]] == self.value_seq()[i] by {
            lemma_kv_value(self.key_seq(), self.value_seq(), i);
        }
        assert forall|k: Seq<char>| #[trigger] self@.dom().contains(k) <==> self.key_seq().contains(
            k,
        ) by {
            lemma_kv_dom(self.key_seq(), self.value_seq(), k);
        }
    }

    /// The key at position `i` in insertion order.
    pub fn key_at(&self, i: usize) -> (k: &String)
        requires
            i < self.key_seq().len(),
        ensures
            k@ == self.key_seq()[i as int],
    {
        &self.keys[i]
    }

    /// The value of the key at position `i` in insertion order.
    pub fn value_at(&self, i: usize) -> (v: &String)
        requires
            i < self.key_seq().len(),
        ensures
            v@ == self.value_seq()[i as int],
    {
        proof {
            use_type_invariant(self);
        }
        &self.values[i]
    }

    /// The position of `key` among the keys, if it is one.
    fn position(&self, key: &str) -> (r: Option<usize>)
        ensures
            match r {
                Some(i) => i < self.key_seq().len() && self.key_seq()[i as int] == key@,
                None => !self.key_seq().contains(key@),
            },
    {
        let n = self.keys.len();
        let mut i: usize = 0;
        while i < n
            invariant
                n == self.keys@.len(),
                i <= n,
                forall|j: int| 0 <= j < i ==> self.key_seq()[j] != key@,
            decreases n - i,
        {
            if str_eq(self.keys[i].as_str(), key) {
                return Some(i);
            }
            i = i + 1;
        }
        None
    }

    /// The value of `key`, if it has one.
    pub fn get(&self, key: &str) -> (r: Option<&String>)
        ensures
            match r {
                Some(v) => self@.dom().contains(key@) && self@[key@] == v@,
                None => !self@.dom().contains(key@),
            },
    {
        proof {
            use_type_invariant(self);
            self.lemma_entries();
        }
        match self.position(key) {
            Some(i) => {
                Some(&self.values[i])
            },
            None => None,
        }
    }

    /// Gives `key` the value `value`, in place of any value it had.
    pub fn insert(&mut self, key: String, value: String)
        ensures
            final(self)@ == old(self)@.insert(key@, value@),
            old(self).key_seq().contains(key@) ==> final(self).key_seq() == old(self).key_seq(),
            !old(self).key_seq().contains(key@) ==> final(self).key_seq() == old(
                self,
            ).key_seq().push(key@),
    {
        let pos = self.position(key.as_str());
        let mut current = ConfigMap::new();
        std::mem::swap(&mut current, self);
        proof {
            use_type_invariant(&current);
        }
        let ghost ks = current.key_seq();
        let ghost vs = current.value_seq();
        let ghost k = key@;
        let ghost v = value@;
        let ConfigMap { keys: mut keys, values: mut values } = current;
        match pos {
            Some(i) => {
                values.set(i, value);
                proof {
                    assert(values@.map_values(|s: String| s@) =~= vs.update(i as int, v));
                    lemma_kv_update(ks, vs, i as int, v);
                }
            },
            None => {
                keys.push(key);
                values.push(value);
                proof {
                    assert(keys@.map_values(|s: String| s@) =~= ks.push(k));
                    assert(values@.map_values(|s: String| s@) =~= vs.push(v));
                    assert(ks.push(k).drop_last() =~= ks);
                    assert(vs.push(v).drop_last() =~= vs);
                }
            },
        }
        *self = ConfigMap { keys, values };
    }
}

} // verus!
