//! A small map that keeps its entries in insertion order and may hold a key
//! more than once.

use vstd::prelude::*;
use vstd::std_specs::cmp::PartialEqSpec;

verus! {

/// An insertion-ordered list of key-value entries, searched front to back.
#[derive(Clone, Debug)]
pub struct VecMap<K, V> {
    vec: Vec<(K, V)>,
}

/// Index of the first entry of `entries` whose key equals `key`, or the
/// number of entries if there is none.
pub open spec fn first_match<K: PartialEq, V>(entries: Seq<(K, V)>, key: K) -> int
    decreases entries.len(),
{
    if entries.len() == 0 {
        0
    } else {
        let i = first_match(entries.drop_last(), key);
        if i < entries.len() - 1 {
            i
        } else if key.eq_spec(&entries.last().0) {
            entries.len() - 1
        } else {
            entries.len() as int
        }
    }
}

/// The entries of `entries` whose key does not equal `key`, in order.
pub open spec fn without_key<K: PartialEq, V>(entries: Seq<(K, V)>, key: K) -> Seq<(K, V)>
    decreases entries.len(),
{
    if entries.len() == 0 {
        Seq::empty()
    } else if key.eq_spec(&entries[0].0) {
        without_key(entries.drop_first(), key)
    } else {
        seq![entries[0]] + without_key(entries.drop_first(), key)
    }
}

/// `first_match` is an index of the list, or its length.
pub proof fn lemma_first_match_range<K: PartialEq, V>(entries: Seq<(K, V)>, key: K)
    ensures
        0 <= first_match(entries, key) <= entries.len(),
    decreases entries.len(),
{
    if entries.len() > 0 {
        lemma_first_match_range(entries.drop_last(), key);
    }
}

/// A key found at some index is found at the same index in every longer
/// list that starts with the same entries.
pub proof fn lemma_first_match_found<K: PartialEq, V>(entries: Seq<(K, V)>, key: K, i: int, n: int)
    requires
        0 <= i < n <= entries.len(),
        first_match(entries.take(i), key) == i,
        key.eq_spec(&entries[i].0),
    ensures
        first_match(entries.take(n), key) == i,
    decreases n - i,
{
    if n == i + 1 {
        assert(entries.take(n).drop_last() =~= entries.take(i));
        assert(entries.take(n).last() == entries[i]);
    } else {
        lemma_first_match_found(entries, key, i, n - 1);
        assert(entries.take(n).drop_last() =~= entries.take(n - 1));
    }
}

impl<K: PartialEq, V> VecMap<K, V> {
    /// The entries, in insertion order.
    pub closed spec fn view(&self) -> Seq<(K, V)> {
        self.vec@
    }

    /// An empty map with room for `cap` entries.
    #[inline]
    pub fn with_capacity(cap: usize) -> (r: VecMap<K, V>)
        ensures
            r@ == Seq::<(K, V)>::empty(),
    {
        VecMap { vec: Vec::with_capacity(cap) }
    }

    /// Puts `value` under `key`: the first entry of that key is replaced, or,
    /// if there is none, a new entry is added at the end.
    #[inline]
    pub fn insert(&mut self, key: K, value: V)
        ensures
            K::obeys_eq_spec() ==> final(self)@ == (if first_match(old(self)@, key)
                < old(self)@.len() {
                old(self)@.update(first_match(old(self)@, key), (key, value))
            } else {
                old(self)@.push((key, value))
            }),
    {
        let n = self.vec.len();
        let mut i: usize = 0;
        assert(self.vec@.take(0) =~= Seq::<(K, V)>::empty());
        while i < n
            invariant
                i <= n,
                n == self.vec@.len(),
                self.vec@ == old(self).vec@,
                K::obeys_eq_spec() ==> first_match(self.vec@.take(i as int), key) == i,
            decreases n - i,
        {
            if key == self.vec[i].0 {
                proof {
                    if K::obeys_eq_spec() {
                        lemma_first_match_found(self.vec@, key, i as int, n as int);
                        assert(self.vec@.take(n as int) =~= self.vec@);
                    }
                }
                self.vec[i] = (key, value);
                return ;
            }
            proof {
                assert(self.vec@.take(i + 1).drop_last() =~= self.vec@.take(i as int));
                assert(self.vec@.take(i + 1).last() == self.vec@[i as int]);
            }
            i += 1;
        }
        assert(self.vec@.take(n as int) =~= self.vec@);
        self.vec.push((key, value));
    }

    /// Adds an entry at the end, whatever the map holds under `key`.
    #[inline]
    pub fn append(&mut self, key: K, value: V)
        ensures
            final(self)@ == old(self)@.push((key, value)),
    {
        self.vec.push((key, value));
    }

    /// The value of the first entry of `key`, if there is one.
    #[inline]
    pub fn get(&self, key: &K) -> (r: Option<&V>)
        ensures
            K::obeys_eq_spec() ==> match r {
                Some(v) => first_match(self@, *key) < self@.len() && *v == self@[first_match(
                    self@,
                    *key,
                )].1,
                None => first_match(self@, *key) == self@.len(),
            },
    {
        match self.find(key) {
            Some(entry) => Some(&entry.1),
            None => None,
        }
    }

    /// Number of entries.
    #[inline]
    pub fn len(&self) -> (n: usize)
        ensures
            n == self@.len(),
    {
        self.vec.len()
    }

    /// The entries, in insertion order.
    #[inline]
    pub fn iter(&self) -> (r: &[(K, V)])
        ensures
            r@ == self@,
    {
        self.vec.as_slice()
    }

    /// Removes every entry of `key`.
    #[inline]
    pub fn remove_all(&mut self, key: &K)
        ensures
            K::obeys_eq_spec() ==> final(self)@ == without_key(old(self)@, *key),
    {
        let len = self.vec.len();
        let mut i: usize = len;
        let ghost all = self.vec@;
        assert(all.skip(len as int) =~= Seq::<(K, V)>::empty());
        assert(all.take(len as int) + Seq::<(K, V)>::empty() =~= all);
        while i > 0
            invariant
                i <= len,
                len == all.len(),
                all == old(self).vec@,
                K::obeys_eq_spec() ==> self.vec@ == all.take(i as int) + without_key(
                    all.skip(i as int),
                    *key,
                ),
                !K::obeys_eq_spec() ==> self.vec@.len() >= i,
            decreases i,
        {
            i -= 1;
            proof {
                assert(all.skip(i as int).drop_first() =~= all.skip(i + 1));
                assert(all.skip(i as int)[0] == all[i as int]);
                if K::obeys_eq_spec() {
                    assert(self.vec@[i as int] == all[i as int]);
                }
            }
            let ghost before = self.vec@;
            if *key == self.vec[i].0 {
                self.vec.remove(i);
                assert(K::obeys_eq_spec() ==> self.vec@ =~= all.take(i as int) + without_key(
                    all.skip(i as int),
                    *key,
                ));
            } else {
                assert(K::obeys_eq_spec() ==> before =~= all.take(i as int) + without_key(
                    all.skip(i as int),
                    *key,
                ));
            }
        }
        assert(all.skip(0) =~= all);
        assert(K::obeys_eq_spec() ==> self.vec@ =~= without_key(all, *key));
    }

    /// The first entry of `key`, if there is one.
    #[inline]
    pub fn find(&self, key: &K) -> (r: Option<&(K, V)>)
        ensures
            K::obeys_eq_spec() ==> match r {
                Some(e) => first_match(self@, *key) < self@.len() && *e == self@[first_match(
                    self@,
                    *key,
                )],
                None => first_match(self@, *key) == self@.len(),
            },
    {
        let n = self.vec.len();
        let mut i: usize = 0;
        assert(self.vec@.take(0) =~= Seq::<(K, V)>::empty());
        while i < n
            invariant
                i <= n,
                n == self.vec@.len(),
                K::obeys_eq_spec() ==> first_match(self.vec@.take(i as int), *key) == i,
            decreases n - i,
        {
            if *key == self.vec[i].0 {
                proof {
                    if K::obeys_eq_spec() {
                        lemma_first_match_found(self.vec@, *key, i as int, n as int);
                        assert(self.vec@.take(n as int) =~= self.vec@);
                    }
                }
                return Some(&self.vec[i]);
            }
            proof {
                assert(self.vec@.take(i + 1).drop_last() =~= self.vec@.take(i as int));
                assert(self.vec@.take(i + 1).last() == self.vec@[i as int]);
            }
            i += 1;
        }
        assert(self.vec@.take(n as int) =~= self.vec@);
        None
    }
}

} // verus!
