//! A verified association map from byte-string keys to arbitrary values,
//! backed by a vector of entries with pairwise distinct keys. It stands in
//! for the hash maps the node keeps (blocks, UTXOs, mempool, peers), and its
//! view is a mathematical `Map` over the keys' sequences.

use vstd::prelude::*;
use crate::encode::bytes_eq;

verus! {

pub struct MapEntry<V> {
    pub key: Vec<u8>,
    pub val: V,
}

impl<V: View> View for MapEntry<V> {
    type V = (Seq<u8>, V::V);

    open spec fn view(&self) -> (Seq<u8>, V::V) {
        (self.key@, self.val@)
    }
}

/// The map denoted by a sequence of key-value pairs; a later pair with the
/// same key overrides an earlier one.
pub open spec fn map_of<T>(s: Seq<(Seq<u8>, T)>) -> Map<Seq<u8>, T>
    decreases s.len(),
{
    if s.len() == 0 {
        Map::empty()
    } else {
        map_of(s.drop_last()).insert(s.last().0, s.last().1)
    }
}

/// Pairwise distinct keys.
pub open spec fn distinct_keys<T>(s: Seq<(Seq<u8>, T)>) -> bool {
    forall|i: int, j: int| 0 <= i < j < s.len() ==> s[i].0 != s[j].0
}

pub proof fn lemma_map_of_dom<T>(s: Seq<(Seq<u8>, T)>, k: Seq<u8>)
    ensures
        map_of(s).dom().contains(k) <==> exists|i: int| 0 <= i < s.len() && s[i].0 == k,
    decreases s.len(),
{
    if s.len() > 0 {
        lemma_map_of_dom(s.drop_last(), k);
        if s.last().0 == k {
            assert(s[s.len() - 1].0 == k);
        } else if map_of(s).dom().contains(k) {
            let i = choose|i: int| 0 <= i < s.drop_last().len() && s.drop_last()[i].0 == k;
            assert(s[i].0 == k);
        } else if exists|i: int| 0 <= i < s.len() && s[i].0 == k {
            let i = choose|i: int| 0 <= i < s.len() && s[i].0 == k;
            assert(i < s.len() - 1);
            assert(s.drop_last()[i].0 == k);
        }
    }
}

pub proof fn lemma_map_of_index<T>(s: Seq<(Seq<u8>, T)>, i: int)
    requires
        distinct_keys(s),
        0 <= i < s.len(),
    ensures
        map_of(s).dom().contains(s[i].0),
        map_of(s)[s[i].0] == s[i].1,
    decreases s.len(),
{
    if i == s.len() - 1 {
    } else {
        assert(s.drop_last()[i] == s[i]);
        lemma_map_of_index(s.drop_last(), i);
        assert(s[i].0 != s.last().0);
    }
}

pub proof fn lemma_map_of_update<T>(s: Seq<(Seq<u8>, T)>, i: int, v: T)
    requires
        distinct_keys(s),
        0 <= i < s.len(),
    ensures
        map_of(s.update(i, (s[i].0, v))) == map_of(s).insert(s[i].0, v),
    decreases s.len(),
{
    let s2 = s.update(i, (s[i].0, v));
    if i == s.len() - 1 {
        assert(s2.drop_last() =~= s.drop_last());
        assert(s2.last() == (s[i].0, v));
        assert(map_of(s2) =~= map_of(s).insert(s[i].0, v));
    } else {
        assert(s2.drop_last() =~= s.drop_last().update(i, (s[i].0, v)));
        assert(s.drop_last()[i] == s[i]);
        lemma_map_of_update(s.drop_last(), i, v);
        assert(s2.last() == s.last());
        assert(s[i].0 != s.last().0);
        assert(map_of(s.drop_last()).insert(s[i].0, v).insert(s.last().0, s.last().1) =~= map_of(
            s.drop_last(),
        ).insert(s.last().0, s.last().1).insert(s[i].0, v));
        assert(map_of(s2) =~= map_of(s).insert(s[i].0, v));
    }
}

pub proof fn lemma_map_of_remove<T>(s: Seq<(Seq<u8>, T)>, i: int)
    requires
        distinct_keys(s),
        0 <= i < s.len(),
    ensures
        map_of(s.remove(i)) == map_of(s).remove(s[i].0),
    decreases s.len(),
{
    let s2 = s.remove(i);
    if i == s.len() - 1 {
        assert(s2 =~= s.drop_last());
        lemma_map_of_dom(s.drop_last(), s[i].0);
        assert(forall|j: int|
            0 <= j < s.drop_last().len() ==> #[trigger] s.drop_last()[j].0 != s[i].0);
        assert(!map_of(s.drop_last()).dom().contains(s[i].0));
        assert(map_of(s2) =~= map_of(s).remove(s[i].0));
    } else {
        assert(s2.drop_last() =~= s.drop_last().remove(i));
        assert(s.drop_last()[i] == s[i]);
        lemma_map_of_remove(s.drop_last(), i);
        assert(s2.last() == s.last());
        assert(s[i].0 != s.last().0);
        assert(map_of(s2) =~= map_of(s).remove(s[i].0));
    }
}

#[verifier::reject_recursive_types(V)]
pub struct KeyedMap<V> {
    pub entries: Vec<MapEntry<V>>,
}

impl<V: View> View for KeyedMap<V> {
    type V = Map<Seq<u8>, V::V>;

    open spec fn view(&self) -> Map<Seq<u8>, V::V> {
        map_of(self.kv())
    }
}

impl<V: View> KeyedMap<V> {
    /// The entries in their storage order.
    pub open spec fn kv(self) -> Seq<(Seq<u8>, V::V)> {
        self.entries@.map_values(|e: MapEntry<V>| e@)
    }

    pub open spec fn wf(self) -> bool {
        distinct_keys(self.kv())
    }

    pub fn new() -> (r: Self)
        ensures
            r.wf(),
            r@ == Map::<Seq<u8>, V::V>::empty(),
            r.kv() == Seq::<(Seq<u8>, V::V)>::empty(),
    {
        let r = KeyedMap { entries: Vec::new() };
        proof {
            assert(r.kv() =~= Seq::<(Seq<u8>, V::V)>::empty());
        }
        r
    }

    pub fn len(&self) -> (r: usize)
        ensures
            r == self.kv().len(),
    {
        self.entries.len()
    }

    fn find(&self, key: &Vec<u8>) -> (r: Option<usize>)
        ensures
            match r {
                Some(i) => 0 <= i < self.kv().len() && self.kv()[i as int].0 == key@,
                None => forall|i: int| 0 <= i < self.kv().len() ==> self.kv()[i].0 != key@,
            },
    {
        let n = self.entries.len();
        let mut i: usize = 0;
        while i < n
            invariant
                0 <= i <= n,
                n == self.kv().len(),
                forall|j: int| 0 <= j < i ==> self.kv()[j].0 != key@,
            decreases n - i,
        {
            if bytes_eq(&self.entries[i].key, key) {
                return Some(i);
            }
            i = i + 1;
        }
        None
    }

    pub fn contains_key(&self, key: &Vec<u8>) -> (r: bool)
        ensures
            r == self@.dom().contains(key@),
    {
        proof {
            lemma_map_of_dom(self.kv(), key@);
        }
        match self.find(key) {
            Some(_) => true,
            None => false,
        }
    }

    pub fn get(&self, key: &Vec<u8>) -> (r: Option<&V>)
        requires
            self.wf(),
        ensures
            match r {
                Some(v) => self@.dom().contains(key@) && v@ == self@[key@],
                None => !self@.dom().contains(key@),
            },
    {
        proof {
            lemma_map_of_dom(self.kv(), key@);
        }
        match self.find(key) {
            Some(i) => {
                proof {
                    lemma_map_of_index(self.kv(), i as int);
                }
                Some(&self.entries[i].val)
            },
            None => None,
        }
    }

    pub fn insert(&mut self, key: Vec<u8>, val: V)
        requires
            old(self).wf(),
        ensures
            final(self).wf(),
            final(self)@ == old(self)@.insert(key@, val@),
            final(self).kv().len() == if old(self)@.dom().contains(key@) {
                old(self).kv().len()
            } else {
                old(self).kv().len() + 1
            },
    {
        proof {
            lemma_map_of_dom(self.kv(), key@);
        }
        match self.find(&key) {
            Some(i) => {
                proof {
                    lemma_map_of_update(self.kv(), i as int, val@);
                }
                let ghost old_kv = self.kv();
                self.entries.set(i, MapEntry { key, val });
                proof {
                    assert(self.kv() =~= old_kv.update(i as int, (old_kv[i as int].0, val@)));
                }
            },
            None => {
                let ghost old_kv = self.kv();
                self.entries.push(MapEntry { key, val });
                proof {
                    assert(self.kv() =~= old_kv.push((key@, val@)));
                    assert(self.kv().drop_last() =~= old_kv);
                }
            },
        }
    }

    pub fn remove(&mut self, key: &Vec<u8>)
        requires
            old(self).wf(),
        ensures
            final(self).wf(),
            final(self)@ == old(self)@.remove(key@),
    {
        proof {
            lemma_map_of_dom(self.kv(), key@);
        }
        match self.find(key) {
            Some(i) => {
                proof {
                    lemma_map_of_remove(self.kv(), i as int);
                }
                let ghost old_kv = self.kv();
                self.entries.remove(i);
                proof {
                    assert(self.kv() =~= old_kv.remove(i as int));
                }
            },
            None => {
                proof {
                    assert(self@ =~= self@.remove(key@));
                }
            },
        }
    }

    pub fn key_at(&self, i: usize) -> (r: &Vec<u8>)
        requires
            i < self.kv().len(),
        ensures
            r@ == self.kv()[i as int].0,
    {
        &self.entries[i].key
    }

    pub fn val_at(&self, i: usize) -> (r: &V)
        requires
            i < self.kv().len(),
        ensures
            r@ == self.kv()[i as int].1,
    {
        &self.entries[i].val
    }

    /// Every stored entry is visible in the map view.
    pub proof fn lemma_entry_in_view(self, i: int)
        requires
            self.wf(),
            0 <= i < self.kv().len(),
        ensures
            self@.dom().contains(self.kv()[i].0),
            self@[self.kv()[i].0] == self.kv()[i].1,
    {
        lemma_map_of_index(self.kv(), i);
    }

    /// Every key of the map view is backed by a stored entry.
    pub proof fn lemma_view_has_entry(self, k: Seq<u8>)
        requires
            self@.dom().contains(k),
        ensures
            exists|i: int| 0 <= i < self.kv().len() && self.kv()[i].0 == k,
    {
        lemma_map_of_dom(self.kv(), k);
    }

}


} // verus!
