//! Maps that keep their entries in the order of insertion.

use vstd::prelude::*;

use crate::amqp::value::Symbol;
use crate::bytes;

verus! {

/// Whether no key occurs twice.
pub open spec fn distinct<K, V>(s: Seq<(K, V)>) -> bool {
    forall|i: int, j: int|
        #![trigger s[i], s[j]]
        0 <= i < j < s.len() ==> s[i].0 != s[j].0
}

/// Where a key is, from `i` on.
pub open spec fn place<K, V>(s: Seq<(K, V)>, key: K, i: int) -> Option<int>
    decreases s.len() - i,
{
    if i < 0 || i >= s.len() {
        None
    } else if s[i].0 == key {
        Some(i)
    } else {
        place(s, key, i + 1)
    }
}

/// The entries after an insertion: the value of a key that is there is replaced,
/// and a new key comes last.
pub open spec fn inserted<K, V>(s: Seq<(K, V)>, key: K, value: V) -> Seq<(K, V)> {
    match place(s, key, 0) {
        Some(i) => s.update(i, (key, value)),
        None => s.push((key, value)),
    }
}

/// What a key is mapped to.
pub open spec fn looked_up<K, V>(s: Seq<(K, V)>, key: K) -> Option<V> {
    match place(s, key, 0) {
        Some(i) => Some(s[i].1),
        None => None,
    }
}

/// The entries without a key.
pub open spec fn removed<K, V>(s: Seq<(K, V)>, key: K) -> Seq<(K, V)> {
    match place(s, key, 0) {
        Some(i) => s.remove(i),
        None => s,
    }
}

pub proof fn place_is_found<K, V>(s: Seq<(K, V)>, key: K, i: int)
    requires
        0 <= i,
    ensures
        match place(s, key, i) {
            Some(j) => i <= j < s.len() && s[j].0 == key && forall|k: int|
                i <= k < j ==> (#[trigger] s[k]).0 != key,
            None => forall|k: int| i <= k < s.len() ==> (#[trigger] s[k]).0 != key,
        },
    decreases s.len() - i,
{
    if i < s.len() && s[i].0 != key {
        place_is_found(s, key, i + 1);
    }
}

/// An insertion keeps keys distinct.
pub proof fn insertion_keeps_keys_distinct<K, V>(s: Seq<(K, V)>, key: K, value: V)
    requires
        distinct(s),
    ensures
        distinct(inserted(s, key, value)),
{
    place_is_found(s, key, 0);
}

/// To insert what is there changes nothing.
pub proof fn reinsertion_changes_nothing<K, V>(s: Seq<(K, V)>, key: K)
    ensures
        looked_up(s, key) matches Some(value) ==> inserted(s, key, value) == s,
{
    place_is_found(s, key, 0);
    if let Some(i) = place(s, key, 0) {
        assert(s.update(i, (key, s[i].1)) =~= s);
    }
}

/// What was inserted is found again, and nothing else has changed.
pub proof fn insertion_is_looked_up<K, V>(s: Seq<(K, V)>, key: K, value: V, other: K)
    ensures
        looked_up(inserted(s, key, value), other) == if other == key {
            Some(value)
        } else {
            looked_up(s, other)
        },
{
    let t = inserted(s, key, value);
    place_is_found(s, key, 0);
    place_is_found(s, other, 0);
    place_is_found(t, other, 0);
    if let Some(j) = place(t, other, 0) {
        if other == key {
            if let Some(i) = place(s, key, 0) {
                if j < i {
                    assert(t[j] == s[j]);
                }
                if j > i {
                    assert(t[i].0 == key);
                }
            } else {
                if j < s.len() {
                    assert(t[j] == s[j]);
                }
            }
        } else {
            if j < s.len() && t[j] == s[j] {
                if let Some(k) = place(s, other, 0) {
                    if k < j {
                        assert(t[k] == s[k]);
                    }
                    if j < k {
                        assert(s[j].0 == other);
                    }
                } else {
                    assert(s[j].0 == other);
                }
            }
        }
    } else {
        if other == key {
            match place(s, key, 0) {
                Some(i) => {
                    assert(t[i].0 == key);
                },
                None => {
                    assert(t[s.len() as int].0 == key);
                },
            }
        } else if let Some(k) = place(s, other, 0) {
            assert(t[k] == s[k]);
        }
    }
}

/// A key that was forgotten is not found, and others are found as before.
pub proof fn removal_is_looked_up<K, V>(s: Seq<(K, V)>, key: K, other: K)
    requires
        distinct(s),
    ensures
        distinct(removed(s, key)),
        looked_up(removed(s, key), other) == if other == key {
            None
        } else {
            looked_up(s, other)
        },
{
    let t = removed(s, key);
    place_is_found(s, key, 0);
    place_is_found(s, other, 0);
    place_is_found(t, other, 0);
    if let Some(i) = place(s, key, 0) {
        assert forall|k: int| 0 <= k < t.len() implies #[trigger] t[k] == s[if k < i {
            k
        } else {
            k + 1
        }] by {}
        if let Some(j) = place(s, other, 0) {
            if other != key {
                let k = if j < i {
                    j
                } else {
                    j - 1
                };
                assert(t[k] == s[j]);
            }
        }
    }
}

/// What can be a key.
pub trait Key: DeepView + Sized {
    fn same(&self, other: &Self) -> (same: bool)
        ensures
            same == (self.deep_view() == other.deep_view()),
    ;
}

impl Key for Symbol {
    fn same(&self, other: &Self) -> (same: bool) {
        bytes::same_text(self.0.as_str(), other.0.as_str())
    }
}

impl Key for String {
    fn same(&self, other: &Self) -> (same: bool) {
        bytes::same_text(self.as_str(), other.as_str())
    }
}

impl Key for Vec<u8> {
    fn same(&self, other: &Self) -> (same: bool) {
        proof {
            assert(self.deep_view() =~= self@);
            assert(other.deep_view() =~= other@);
        }
        bytes::same_bytes(self.as_slice(), other.as_slice())
    }
}

impl Key for u16 {
    fn same(&self, other: &Self) -> (same: bool) {
        *self == *other
    }
}

impl Key for u32 {
    fn same(&self, other: &Self) -> (same: bool) {
        *self == *other
    }
}

impl Key for (u16, u32) {
    fn same(&self, other: &Self) -> (same: bool) {
        self.0 == other.0 && self.1 == other.1
    }
}

/// A map that keeps its entries in the order of insertion.
#[derive(Debug, PartialEq, Eq)]
pub struct OrderedMap<K, V> {
    pub(crate) entries: Vec<(K, V)>,
}

impl<K: DeepView, V: DeepView> DeepView for OrderedMap<K, V> {
    type V = Seq<(K::V, V::V)>;

    closed spec fn deep_view(&self) -> Seq<(K::V, V::V)> {
        entries_view(self.entries@)
    }
}

/// Entries by what they hold.
pub open spec fn entries_view<K: DeepView, V: DeepView>(s: Seq<(K, V)>) -> Seq<(K::V, V::V)> {
    Seq::new(s.len(), |i: int| (s[i].0.deep_view(), s[i].1.deep_view()))
}

pub(crate) proof fn view_is_of_entries<K: DeepView, V: DeepView>(map: OrderedMap<K, V>)
    ensures
        map.deep_view() == entries_view(map.entries@),
{
}

impl<K: Key, V: DeepView> OrderedMap<K, V> {
    pub fn new() -> (map: Self)
        ensures
            map.deep_view() == Seq::<(K::V, V::V)>::empty(),
            distinct(map.deep_view()),
    {
        let map = OrderedMap { entries: Vec::new() };
        proof {
            assert(map.deep_view() =~= Seq::<(K::V, V::V)>::empty());
        }
        map
    }

    pub fn len(&self) -> (n: usize)
        ensures
            n == self.deep_view().len(),
    {
        self.entries.len()
    }

    /// The entry at a place, counted in the order of insertion.
    pub fn entry(&self, i: usize) -> (entry: (&K, &V))
        requires
            i < self.deep_view().len(),
        ensures
            (entry.0.deep_view(), entry.1.deep_view()) == self.deep_view()[i as int],
    {
        let entry = &self.entries[i];
        (&entry.0, &entry.1)
    }

    fn find(&self, key: &K) -> (found: Option<usize>)
        ensures
            match found {
                Some(i) => place(self.deep_view(), key.deep_view(), 0) == Some(i as int) && i
                    < self.entries@.len(),
                None => place(self.deep_view(), key.deep_view(), 0) is None,
            },
    {
        let mut i: usize = 0;
        while i < self.entries.len()
            invariant
                i <= self.entries@.len(),
                place(self.deep_view(), key.deep_view(), 0) == place(
                    self.deep_view(),
                    key.deep_view(),
                    i as int,
                ),
            decreases self.entries@.len() - i,
        {
            proof {
                assert(self.deep_view()[i as int].0 == self.entries@[i as int].0.deep_view());
            }
            if self.entries[i].0.same(key) {
                return Some(i);
            }
            i = i + 1;
        }
        None
    }

    /// Maps a key to a value.
    pub fn insert(&mut self, key: K, value: V)
        ensures
            final(self).deep_view() == inserted(
                old(self).deep_view(),
                key.deep_view(),
                value.deep_view(),
            ),
            distinct(old(self).deep_view()) ==> distinct(final(self).deep_view()),
    {
        let ghost before = self.deep_view();
        let ghost k = key.deep_view();
        let ghost v = value.deep_view();
        proof {
            if distinct(before) {
                insertion_keeps_keys_distinct(before, k, v);
            }
        }
        match self.find(&key) {
            Some(i) => {
                self.entries.set(i, (key, value));
                proof {
                    assert(self.deep_view() =~= before.update(i as int, (k, v)));
                }
            },
            None => {
                self.entries.push((key, value));
                proof {
                    assert(self.deep_view() =~= before.push((k, v)));
                }
            },
        }
    }

    /// What a key is mapped to, to change it.
    pub fn get_mut(&mut self, key: &K) -> (value: Option<&mut V>)
        ensures
            match value {
                Some(value) => {
                    &&& looked_up(old(self).deep_view(), key.deep_view()) == Some(
                        (*value).deep_view(),
                    )
                    &&& final(self).deep_view() == inserted(
                        old(self).deep_view(),
                        key.deep_view(),
                        (*final(value)).deep_view(),
                    )
                },
                None => looked_up(old(self).deep_view(), key.deep_view()) is None
                    && final(self).deep_view() == old(self).deep_view(),
            },
    {
        proof {
            place_is_found(self.deep_view(), key.deep_view(), 0);
        }
        match self.find(key) {
            Some(i) => Some(&mut self.entries[i].1),
            None => None,
        }
    }

    /// The value at a place, to be changed there.
    pub fn value_mut(&mut self, i: usize) -> (value: &mut V)
        requires
            i < old(self).deep_view().len(),
        ensures
            (*value).deep_view() == old(self).deep_view()[i as int].1,
            final(self).deep_view() == old(self).deep_view().update(
                i as int,
                (old(self).deep_view()[i as int].0, (*final(value)).deep_view()),
            ),
    {
        &mut self.entries[i].1
    }

    /// Whether a key is mapped to anything.
    pub fn contains(&self, key: &K) -> (yes: bool)
        ensures
            yes == looked_up(self.deep_view(), key.deep_view()) is Some,
    {
        self.find(key).is_some()
    }

    /// Forgets a key.
    pub fn remove(&mut self, key: &K) -> (value: Option<V>)
        ensures
            final(self).deep_view() == removed(old(self).deep_view(), key.deep_view()),
            match value {
                Some(value) => looked_up(old(self).deep_view(), key.deep_view()) == Some(
                    value.deep_view(),
                ),
                None => looked_up(old(self).deep_view(), key.deep_view()) is None,
            },
    {
        let ghost before = self.deep_view();
        proof {
            place_is_found(before, key.deep_view(), 0);
        }
        match self.find(key) {
            Some(i) => {
                let (_, value) = self.entries.remove(i);
                proof {
                    assert(self.deep_view() =~= before.remove(i as int));
                }
                Some(value)
            },
            None => None,
        }
    }

    /// What a key is mapped to.
    pub fn get(&self, key: &K) -> (value: Option<&V>)
        ensures
            match value {
                Some(value) => looked_up(self.deep_view(), key.deep_view()) == Some(
                    value.deep_view(),
                ),
                None => looked_up(self.deep_view(), key.deep_view()) is None,
            },
    {
        match self.find(key) {
            Some(i) => Some(&self.entries[i].1),
            None => None,
        }
    }
}

impl<K: Key, V: DeepView> Default for OrderedMap<K, V> {
    fn default() -> (map: Self)
        ensures
            map.deep_view() == Seq::<(K::V, V::V)>::empty(),
    {
        OrderedMap::new()
    }
}

} // verus!
