//! The ordered key-value store behind the state machine.

use vstd::prelude::*;

use crate::bytes;

verus! {

/// What a store holds: a value for each of finitely many keys.
pub type Contents = Map<Seq<u8>, Seq<u8>>;

/// One change to a store.
pub enum OpView {
    Put { key: Seq<u8>, value: Seq<u8> },
    Delete { key: Seq<u8> },
}

/// `m` after one change.
pub open spec fn changed(m: Contents, op: OpView) -> Contents {
    match op {
        OpView::Put { key, value } => m.insert(key, value),
        OpView::Delete { key } => m.remove(key),
    }
}

/// `m` after the changes in order.
pub open spec fn apply_ops(m: Contents, ops: Seq<OpView>) -> Contents
    decreases ops.len(),
{
    if ops.len() == 0 {
        m
    } else {
        changed(apply_ops(m, ops.drop_last()), ops.last())
    }
}

/// One change to a store.
#[derive(Debug, PartialEq, Eq)]
pub enum WriteOp {
    Put { key: Vec<u8>, value: Vec<u8> },
    Delete { key: Vec<u8> },
}

impl DeepView for WriteOp {
    type V = OpView;

    open spec fn deep_view(&self) -> OpView {
        match self {
            WriteOp::Put { key, value } => OpView::Put { key: key@, value: value@ },
            WriteOp::Delete { key } => OpView::Delete { key: key@ },
        }
    }
}

/// Changes that a store commits together.
#[derive(Debug, PartialEq, Eq)]
pub struct WriteBatch {
    ops: Vec<WriteOp>,
}

impl DeepView for WriteBatch {
    type V = Seq<OpView>;

    closed spec fn deep_view(&self) -> Seq<OpView> {
        self.ops.deep_view()
    }
}

impl Default for WriteBatch {
    fn default() -> (batch: Self)
        ensures
            batch.deep_view() == Seq::<OpView>::empty(),
    {
        let ops: Vec<WriteOp> = Vec::new();
        proof {
            assert(ops.deep_view() =~= Seq::<OpView>::empty());
        }
        WriteBatch { ops }
    }
}

impl WriteBatch {
    pub fn push_put(&mut self, key: Vec<u8>, value: Vec<u8>)
        ensures
            final(self).deep_view() == old(self).deep_view().push(
                OpView::Put { key: key@, value: value@ },
            ),
    {
        let ghost before = self.deep_view();
        let ghost op = OpView::Put { key: key@, value: value@ };
        self.ops.push(WriteOp::Put { key, value });
        proof {
            assert(self.ops.deep_view() =~= before.push(op));
        }
    }

    pub fn push_delete(&mut self, key: Vec<u8>)
        ensures
            final(self).deep_view() == old(self).deep_view().push(OpView::Delete { key: key@ }),
    {
        let ghost before = self.deep_view();
        let ghost op = OpView::Delete { key: key@ };
        self.ops.push(WriteOp::Delete { key });
        proof {
            assert(self.ops.deep_view() =~= before.push(op));
        }
    }

    pub fn is_empty(&self) -> (empty: bool)
        ensures
            empty == (self.deep_view().len() == 0),
    {
        self.ops.len() == 0
    }

    /// The changes in order.
    pub fn into_ops(self) -> (ops: Vec<WriteOp>)
        ensures
            ops.deep_view() == self.deep_view(),
    {
        self.ops
    }
}

/// A failure of the store itself.
#[derive(Debug, PartialEq, Eq)]
pub struct StorageError {
    pub message: String,
}

// ---- enumeration in key order ----------------------------------------------

/// Each byte string sorts before the next.
pub open spec fn strictly_ascending(s: Seq<Seq<u8>>) -> bool {
    forall|i: int, j: int|
        #![trigger s[i], s[j]]
        0 <= i < j < s.len() ==> bytes::lex_lt(s[i], s[j])
}

/// `s` holds the keys of `keys` in ascending order.
pub open spec fn enumerates(s: Seq<Seq<u8>>, keys: Set<Seq<u8>>) -> bool {
    &&& strictly_ascending(s)
    &&& forall|k: Seq<u8>| #![auto] s.contains(k) <==> keys.contains(k)
}

/// The keys of `keys` in ascending order.
pub open spec fn in_order(keys: Set<Seq<u8>>) -> Seq<Seq<u8>> {
    choose|s: Seq<Seq<u8>>| enumerates(s, keys)
}

/// The keys of `m` that begin with `prefix` and do not sort before `start`.
pub open spec fn selected(m: Contents, prefix: Seq<u8>, start: Seq<u8>) -> Set<Seq<u8>> {
    m.dom().filter(|k: Seq<u8>| bytes::has_prefix(k, prefix) && bytes::lex_le(start, k))
}

/// All those keys in ascending order.
pub open spec fn walk(m: Contents, prefix: Seq<u8>, start: Seq<u8>) -> Seq<Seq<u8>> {
    in_order(selected(m, prefix, start))
}

/// The first `limit` entries, in key order, whose key begins with `prefix` and
/// does not sort before `start`.
pub open spec fn scan(m: Contents, prefix: Seq<u8>, start: Seq<u8>, limit: usize) -> Seq<
    (Seq<u8>, Seq<u8>),
> {
    let keys = walk(m, prefix, start);
    let n = if keys.len() < limit {
        keys.len()
    } else {
        limit as nat
    };
    Seq::new(n, |i: int| (keys[i], m[keys[i]]))
}

/// Keys have one ascending order.
pub proof fn enumeration_is_unique(s: Seq<Seq<u8>>, t: Seq<Seq<u8>>, keys: Set<Seq<u8>>)
    requires
        enumerates(s, keys),
        enumerates(t, keys),
    ensures
        s == t,
    decreases s.len(),
{
    if s.len() == 0 {
        if t.len() > 0 {
            assert(t.contains(t[0]));
            assert(s.contains(t[0]));
        }
        assert(s =~= t);
    } else {
        assert(s.contains(s[0]));
        assert(t.contains(s[0]));
        assert(t.contains(t[0]));
        assert(s.contains(t[0]));
        let i = choose|i: int| 0 <= i < s.len() && s[i] == t[0];
        let j = choose|j: int| 0 <= j < t.len() && t[j] == s[0];
        if s[0] != t[0] {
            assert(bytes::lex_lt(s[0], s[i]));
            assert(bytes::lex_lt(t[0], t[j]));
            bytes::lex_asymmetric(s[0], t[0]);
        }
        let a = s.skip(1);
        let b = t.skip(1);
        let rest = keys.remove(s[0]);
        skip_enumerates(s, keys);
        skip_enumerates(t, keys);
        enumeration_is_unique(a, b, rest);
        assert(s =~= seq![s[0]] + a);
        assert(t =~= seq![t[0]] + b);
    }
}

proof fn skip_enumerates(s: Seq<Seq<u8>>, keys: Set<Seq<u8>>)
    requires
        enumerates(s, keys),
        s.len() > 0,
    ensures
        enumerates(s.skip(1), keys.remove(s[0])),
{
    let a = s.skip(1);
    assert forall|i: int, j: int|
        #![trigger a[i], a[j]]
        0 <= i < j < a.len() implies bytes::lex_lt(a[i], a[j]) by {
        assert(a[i] == s[i + 1] && a[j] == s[j + 1]);
    }
    assert forall|k: Seq<u8>| #![auto] a.contains(k) <==> keys.remove(s[0]).contains(k) by {
        if a.contains(k) {
            let i = choose|i: int| 0 <= i < a.len() && a[i] == k;
            assert(s[i + 1] == k);
            assert(s.contains(k));
            assert(bytes::lex_lt(s[0], s[i + 1]));
            bytes::lex_asymmetric(s[0], s[i + 1]);
        }
        if keys.remove(s[0]).contains(k) {
            assert(s.contains(k));
            let i = choose|i: int| 0 <= i < s.len() && s[i] == k;
            assert(a[i - 1] == k);
        }
    }
}

/// How many keys of `s` sort before `k`.
spec fn place(s: Seq<Seq<u8>>, k: Seq<u8>) -> int
    decreases s.len(),
{
    if s.len() == 0 || !bytes::lex_lt(s[0], k) {
        0
    } else {
        1 + place(s.skip(1), k)
    }
}

proof fn place_properties(s: Seq<Seq<u8>>, k: Seq<u8>)
    ensures
        0 <= place(s, k) <= s.len(),
        forall|i: int| 0 <= i < place(s, k) ==> bytes::lex_lt(#[trigger] s[i], k),
        place(s, k) < s.len() ==> !bytes::lex_lt(s[place(s, k)], k),
    decreases s.len(),
{
    if s.len() > 0 && bytes::lex_lt(s[0], k) {
        place_properties(s.skip(1), k);
        assert forall|i: int| 0 <= i < place(s, k) implies bytes::lex_lt(#[trigger] s[i], k) by {
            if i > 0 {
                assert(s.skip(1)[i - 1] == s[i]);
            }
        }
    }
}

/// Finitely many keys can be put in ascending order.
pub proof fn enumeration_exists(keys: Set<Seq<u8>>)
    requires
        keys.finite(),
    ensures
        enumerates(in_order(keys), keys),
    decreases keys.len(),
{
    if keys.len() == 0 {
        let s = Seq::<Seq<u8>>::empty();
        assert(keys =~= Set::empty());
        assert(enumerates(s, keys));
    } else {
        let k = keys.choose();
        let rest = keys.remove(k);
        enumeration_exists(rest);
        let s = in_order(rest);
        place_properties(s, k);
        let at = place(s, k);
        let t = s.insert(at, k);
        assert(!s.contains(k));
        assert forall|i: int, j: int|
            #![trigger t[i], t[j]]
            0 <= i < j < t.len() implies bytes::lex_lt(t[i], t[j]) by {
            if i == at {
                assert(t[j] == s[j - 1]);
                bytes::lex_total(s[at], k);
                assert(s.contains(s[at]));
                if j - 1 > at {
                    bytes::lex_transitive(k, s[at], s[j - 1]);
                }
            } else if j == at {
                assert(t[i] == s[i]);
            } else {
                let a = if i < at {
                    i
                } else {
                    i - 1
                };
                let b = if j < at {
                    j
                } else {
                    j - 1
                };
                assert(t[i] == s[a] && t[j] == s[b]);
            }
        }
        assert forall|x: Seq<u8>| #![auto] t.contains(x) <==> keys.contains(x) by {
            if t.contains(x) {
                let i = choose|i: int| 0 <= i < t.len() && t[i] == x;
                if i != at {
                    let a = if i < at {
                        i
                    } else {
                        i - 1
                    };
                    assert(s[a] == x);
                    assert(s.contains(x));
                }
            }
            if keys.contains(x) {
                if x == k {
                    assert(t[at] == x);
                } else {
                    assert(s.contains(x));
                    let i = choose|i: int| 0 <= i < s.len() && s[i] == x;
                    let a = if i < at {
                        i
                    } else {
                        i + 1
                    };
                    assert(t[a] == x);
                }
            }
        }
        assert(enumerates(t, keys));
    }
}

/// The walk of a store lists exactly the selected keys.
pub proof fn walk_lists_the_selected_keys(m: Contents, prefix: Seq<u8>, start: Seq<u8>)
    requires
        m.dom().finite(),
    ensures
        enumerates(walk(m, prefix, start), selected(m, prefix, start)),
{
    enumeration_exists(selected(m, prefix, start));
}

/// The least byte string that sorts after `k`.
pub open spec fn successor(k: Seq<u8>) -> Seq<u8> {
    k.push(0)
}

/// Not sorting before the successor of `k` is sorting after `k`.
pub proof fn successor_is_next(k: Seq<u8>, x: Seq<u8>)
    ensures
        bytes::lex_le(successor(k), x) <==> bytes::lex_lt(k, x),
{
    let next = successor(k);
    assert(bytes::parts_below(k, next, k.len() as int));
    if bytes::lex_le(next, x) && next != x {
        bytes::lex_transitive(k, next, x);
    }
    if bytes::lex_lt(k, x) && next != x {
        let i = choose|i: int| bytes::parts_below(k, x, i);
        if i < k.len() {
            assert(bytes::parts_below(next, x, i));
        } else if x[i] > 0 {
            assert(bytes::parts_below(next, x, i));
        } else {
            assert(x.len() > k.len() + 1) by {
                if x.len() == k.len() + 1 {
                    assert(x =~= next);
                }
            }
            assert(bytes::parts_below(next, x, k.len() as int + 1));
        }
    }
}

/// A walk resumed behind its entry `n` lists what comes after that entry.
pub proof fn walk_resumes(m: Contents, prefix: Seq<u8>, start: Seq<u8>, n: int)
    requires
        m.dom().finite(),
        0 <= n < walk(m, prefix, start).len(),
    ensures
        walk(m, prefix, successor(walk(m, prefix, start)[n])) == walk(m, prefix, start).skip(n + 1),
{
    let whole = walk(m, prefix, start);
    let next = successor(whole[n]);
    let keys = selected(m, prefix, start);
    let later = selected(m, prefix, next);
    walk_lists_the_selected_keys(m, prefix, start);
    walk_lists_the_selected_keys(m, prefix, next);
    let tail = whole.skip(n + 1);
    assert forall|i: int, j: int|
        #![trigger tail[i], tail[j]]
        0 <= i < j < tail.len() implies bytes::lex_lt(tail[i], tail[j]) by {
        assert(tail[i] == whole[n + 1 + i] && tail[j] == whole[n + 1 + j]);
    }
    assert forall|k: Seq<u8>| #![auto] tail.contains(k) <==> later.contains(k) by {
        successor_is_next(whole[n], k);
        if tail.contains(k) {
            let i = choose|i: int| 0 <= i < tail.len() && tail[i] == k;
            assert(whole[n + 1 + i] == k);
            assert(whole.contains(k));
            assert(bytes::lex_lt(whole[n], whole[n + 1 + i]));
        }
        if later.contains(k) {
            assert(whole.contains(whole[n]));
            assert(keys.contains(whole[n]));
            if start != whole[n] {
                bytes::lex_transitive(start, whole[n], k);
            }
            assert(keys.contains(k));
            assert(whole.contains(k));
            let i = choose|i: int| 0 <= i < whole.len() && whole[i] == k;
            if i < n {
                assert(bytes::lex_lt(whole[i], whole[n]));
                bytes::lex_asymmetric(whole[i], whole[n]);
            } else if i == n {
                bytes::lex_irreflexive(k);
            } else {
                assert(tail[i - n - 1] == k);
            }
        }
    }
    enumeration_is_unique(walk(m, prefix, next), tail, later);
}

// ---- stores ----------------------------------------------------------------

/// Entries as they come out of a store.
pub open spec fn entries_view(entries: Seq<(Vec<u8>, Vec<u8>)>) -> Seq<(Seq<u8>, Seq<u8>)> {
    Seq::new(entries.len(), |i: int| (entries[i].0@, entries[i].1@))
}

/// An ordered key-value store with atomic batches.
///
/// A store may fail. One that is `reliable` never does.
pub trait StateStore: Sized {
    spec fn contents(&self) -> Contents;

    spec fn reliable(&self) -> bool;

    proof fn contents_are_finite(&self)
        ensures
            self.contents().dom().finite(),
    ;

    fn get(&self, key: &[u8]) -> (value: Result<Option<Vec<u8>>, StorageError>)
        ensures
            match value {
                Ok(Some(value)) => self.contents().dom().contains(key@)
                    && self.contents()[key@] == value@,
                Ok(None) => !self.contents().dom().contains(key@),
                Err(_) => !self.reliable(),
            },
    ;

    /// The first `limit` entries whose key begins with `prefix`.
    fn scan_prefix(&self, prefix: &[u8], limit: usize) -> (entries: Result<
        Vec<(Vec<u8>, Vec<u8>)>,
        StorageError,
    >)
        ensures
            match entries {
                Ok(entries) => entries_view(entries@) == scan(
                    self.contents(),
                    prefix@,
                    prefix@,
                    limit,
                ),
                Err(_) => !self.reliable(),
            },
    ;

    /// The first `limit` of those that do not sort before `start`.
    fn scan_from(&self, prefix: &[u8], start: &[u8], limit: usize) -> (entries: Result<
        Vec<(Vec<u8>, Vec<u8>)>,
        StorageError,
    >)
        ensures
            match entries {
                Ok(entries) => entries_view(entries@) == scan(
                    self.contents(),
                    prefix@,
                    start@,
                    limit,
                ),
                Err(_) => !self.reliable(),
            },
    ;

    /// Commits a batch completely, or not at all.
    fn apply(&mut self, batch: WriteBatch) -> (done: Result<(), StorageError>)
        ensures
            final(self).reliable() == old(self).reliable(),
            match done {
                Ok(_) => final(self).contents() == apply_ops(
                    old(self).contents(),
                    batch.deep_view(),
                ),
                Err(_) => final(self).contents() == old(self).contents() && !old(self).reliable(),
            },
    ;
}

// ---- memory ----------------------------------------------------------------

/// The contents of a list of entries.
pub open spec fn listed(s: Seq<(Seq<u8>, Seq<u8>)>) -> Contents
    decreases s.len(),
{
    if s.len() == 0 {
        Map::empty()
    } else {
        listed(s.drop_last()).insert(s.last().0, s.last().1)
    }
}

/// Keys stand in ascending order, so none occurs twice.
pub open spec fn sorted(s: Seq<(Seq<u8>, Seq<u8>)>) -> bool {
    forall|i: int, j: int|
        #![trigger s[i], s[j]]
        0 <= i < j < s.len() ==> bytes::lex_lt(s[i].0, s[j].0)
}

proof fn listed_finite(s: Seq<(Seq<u8>, Seq<u8>)>)
    ensures
        listed(s).dom().finite(),
    decreases s.len(),
{
    if s.len() > 0 {
        listed_finite(s.drop_last());
    }
}

/// A sorted list holds each of its entries, and nothing else.
proof fn listed_entries(s: Seq<(Seq<u8>, Seq<u8>)>)
    requires
        sorted(s),
    ensures
        forall|i: int|
            0 <= i < s.len() ==> listed(s).dom().contains((#[trigger] s[i]).0) && listed(
                s,
            )[s[i].0] == s[i].1,
        forall|k: Seq<u8>| #[trigger]
            listed(s).dom().contains(k) ==> exists|i: int| 0 <= i < s.len() && s[i].0 == k,
    decreases s.len(),
{
    if s.len() > 0 {
        let rest = s.drop_last();
        listed_entries(rest);
        assert forall|i: int| 0 <= i < s.len() implies listed(s).dom().contains((#[trigger] s[i]).0)
            && listed(s)[s[i].0] == s[i].1 by {
            if i < rest.len() {
                assert(rest[i] == s[i]);
                assert(bytes::lex_lt(s[i].0, s[s.len() - 1].0));
                bytes::lex_asymmetric(s[i].0, s[s.len() - 1].0);
            }
        }
        assert forall|k: Seq<u8>| #[trigger] listed(s).dom().contains(k) implies exists|i: int|
            0 <= i < s.len() && s[i].0 == k by {
            if k == s.last().0 {
                assert(s[s.len() - 1].0 == k);
            } else {
                assert(listed(rest).dom().contains(k));
                let i = choose|i: int| 0 <= i < rest.len() && rest[i].0 == k;
                assert(s[i].0 == k);
            }
        }
    }
}

/// Two sorted lists with the same entries have the same contents, stated for a
/// list and a map.
proof fn listed_is(s: Seq<(Seq<u8>, Seq<u8>)>, m: Contents)
    requires
        sorted(s),
        forall|i: int|
            0 <= i < s.len() ==> m.dom().contains((#[trigger] s[i]).0) && m[s[i].0] == s[i].1,
        forall|k: Seq<u8>| #[trigger]
            m.dom().contains(k) ==> exists|i: int| 0 <= i < s.len() && s[i].0 == k,
    ensures
        listed(s) == m,
{
    listed_entries(s);
    assert forall|k: Seq<u8>| listed(s).dom().contains(k) <==> m.dom().contains(k) by {
        if listed(s).dom().contains(k) {
            let i = choose|i: int| 0 <= i < s.len() && s[i].0 == k;
            assert(m.dom().contains(s[i].0));
        }
        if m.dom().contains(k) {
            let i = choose|i: int| 0 <= i < s.len() && s[i].0 == k;
            assert(listed(s).dom().contains(s[i].0));
        }
    }
    assert forall|k: Seq<u8>| listed(s).dom().contains(k) implies listed(s)[k] == m[k] by {
        let i = choose|i: int| 0 <= i < s.len() && s[i].0 == k;
        assert(listed(s)[s[i].0] == s[i].1);
    }
    assert(listed(s) =~= m);
}

/// A store in memory. It never fails.
#[derive(Debug, PartialEq, Eq)]
pub struct MemoryStore {
    entries: Vec<(Vec<u8>, Vec<u8>)>,
}

impl MemoryStore {
    #[verifier::type_invariant]
    spec fn ordered(self) -> bool {
        sorted(entries_view(self.entries@))
    }

    /// An empty store.
    pub fn new() -> (store: MemoryStore)
        ensures
            store.contents() == Map::<Seq<u8>, Seq<u8>>::empty(),
    {
        MemoryStore { entries: Vec::new() }
    }

    /// How many keys sort before `key`.
    fn position(entries: &Vec<(Vec<u8>, Vec<u8>)>, key: &[u8]) -> (at: usize)
        ensures
            at <= entries@.len(),
            forall|i: int|
                0 <= i < at ==> bytes::lex_lt((#[trigger] entries_view(entries@)[i]).0, key@),
            at < entries@.len() ==> !bytes::lex_lt(entries_view(entries@)[at as int].0, key@),
    {
        let mut at: usize = 0;
        while at < entries.len() && bytes::sorts_below(entries[at].0.as_slice(), key)
            invariant
                at <= entries@.len(),
                forall|i: int|
                    0 <= i < at ==> bytes::lex_lt((#[trigger] entries_view(entries@)[i]).0, key@),
            decreases entries@.len() - at,
        {
            at = at + 1;
        }
        at
    }

    /// Whether the entry at `at` has exactly `key`.
    fn stands_at(entries: &Vec<(Vec<u8>, Vec<u8>)>, at: usize, key: &[u8]) -> (there: bool)
        requires
            at <= entries@.len(),
        ensures
            there == (at < entries@.len() && entries_view(entries@)[at as int].0 == key@),
    {
        at < entries.len() && bytes::same_bytes(entries[at].0.as_slice(), key)
    }

    fn put(entries: &mut Vec<(Vec<u8>, Vec<u8>)>, key: Vec<u8>, value: Vec<u8>)
        requires
            sorted(entries_view(old(entries)@)),
        ensures
            sorted(entries_view(final(entries)@)),
            listed(entries_view(final(entries)@)) == listed(entries_view(old(entries)@)).insert(
                key@,
                value@,
            ),
    {
        let ghost s = entries_view(entries@);
        let ghost k = key@;
        let ghost v = value@;
        let at: usize = MemoryStore::position(entries, key.as_slice());
        proof {
            listed_entries(s);
        }
        if MemoryStore::stands_at(entries, at, key.as_slice()) {
            entries.set(at, (key, value));
            proof {
                let t = entries_view(entries@);
                assert(t =~= s.update(at as int, (k, v)));
                let m = listed(s).insert(k, v);
                assert forall|i: int| 0 <= i < t.len() implies m.dom().contains((#[trigger] t[i]).0)
                    && m[t[i].0] == t[i].1 by {
                    if i != at {
                        assert(t[i] == s[i]);
                        if i < at {
                            assert(bytes::lex_lt(s[i].0, s[at as int].0));
                            bytes::lex_asymmetric(s[i].0, s[at as int].0);
                        } else {
                            assert(bytes::lex_lt(s[at as int].0, s[i].0));
                            bytes::lex_asymmetric(s[at as int].0, s[i].0);
                        }
                    }
                }
                assert forall|x: Seq<u8>| #[trigger] m.dom().contains(x) implies exists|i: int|
                    0 <= i < t.len() && t[i].0 == x by {
                    if x == k {
                        assert(t[at as int].0 == x);
                    } else {
                        assert(listed(s).dom().contains(x));
                        let i = choose|i: int| 0 <= i < s.len() && s[i].0 == x;
                        assert(t[i].0 == x);
                    }
                }
                assert(sorted(t)) by {
                    assert forall|i: int, j: int|
                        #![trigger t[i], t[j]]
                        0 <= i < j < t.len() implies bytes::lex_lt(t[i].0, t[j].0) by {
                        assert(t[i].0 == s[i].0 && t[j].0 == s[j].0);
                    }
                }
                listed_is(t, m);
            }
        } else {
            entries.insert(at, (key, value));
            proof {
                let t = entries_view(entries@);
                assert(t =~= s.insert(at as int, (k, v)));
                let m = listed(s).insert(k, v);
                if at < s.len() {
                    bytes::lex_total(s[at as int].0, k);
                }
                assert(sorted(t)) by {
                    assert forall|i: int, j: int|
                        #![trigger t[i], t[j]]
                        0 <= i < j < t.len() implies bytes::lex_lt(t[i].0, t[j].0) by {
                        if i == at {
                            assert(t[j] == s[j - 1]);
                            if j - 1 > at {
                                assert(bytes::lex_lt(s[at as int].0, s[j - 1].0));
                                bytes::lex_transitive(k, s[at as int].0, s[j - 1].0);
                            }
                        } else if j == at {
                            assert(t[i] == s[i]);
                        } else {
                            let a = if i < at {
                                i
                            } else {
                                i - 1
                            };
                            let b = if j < at {
                                j
                            } else {
                                j - 1
                            };
                            assert(t[i] == s[a] && t[j] == s[b]);
                        }
                    }
                }
                assert forall|i: int| 0 <= i < t.len() implies m.dom().contains((#[trigger] t[i]).0)
                    && m[t[i].0] == t[i].1 by {
                    if i < at {
                        assert(t[i] == s[i]);
                        assert(bytes::lex_lt(t[i].0, t[at as int].0));
                        bytes::lex_asymmetric(t[i].0, t[at as int].0);
                    } else if i > at {
                        assert(t[i] == s[i - 1]);
                        assert(bytes::lex_lt(t[at as int].0, t[i].0));
                        bytes::lex_asymmetric(t[at as int].0, t[i].0);
                    }
                }
                assert forall|x: Seq<u8>| #[trigger] m.dom().contains(x) implies exists|i: int|
                    0 <= i < t.len() && t[i].0 == x by {
                    if x == k {
                        assert(t[at as int].0 == x);
                    } else {
                        assert(listed(s).dom().contains(x));
                        let i = choose|i: int| 0 <= i < s.len() && s[i].0 == x;
                        let a = if i < at {
                            i
                        } else {
                            i + 1
                        };
                        assert(t[a].0 == x);
                    }
                }
                listed_is(t, m);
            }
        }
    }

    fn delete(entries: &mut Vec<(Vec<u8>, Vec<u8>)>, key: &[u8])
        requires
            sorted(entries_view(old(entries)@)),
        ensures
            sorted(entries_view(final(entries)@)),
            listed(entries_view(final(entries)@)) == listed(entries_view(old(entries)@)).remove(
                key@,
            ),
    {
        let ghost s = entries_view(entries@);
        let at: usize = MemoryStore::position(entries, key);
        proof {
            listed_entries(s);
        }
        if MemoryStore::stands_at(entries, at, key) {
            entries.remove(at);
            proof {
                let t = entries_view(entries@);
                assert(t =~= s.remove(at as int));
                let m = listed(s).remove(key@);
                assert(sorted(t)) by {
                    assert forall|i: int, j: int|
                        #![trigger t[i], t[j]]
                        0 <= i < j < t.len() implies bytes::lex_lt(t[i].0, t[j].0) by {
                        let a = if i < at {
                            i
                        } else {
                            i + 1
                        };
                        let b = if j < at {
                            j
                        } else {
                            j + 1
                        };
                        assert(t[i] == s[a] && t[j] == s[b]);
                    }
                }
                assert forall|i: int| 0 <= i < t.len() implies m.dom().contains((#[trigger] t[i]).0)
                    && m[t[i].0] == t[i].1 by {
                    if i < at {
                        assert(t[i] == s[i]);
                        assert(bytes::lex_lt(s[i].0, s[at as int].0));
                        bytes::lex_asymmetric(s[i].0, s[at as int].0);
                    } else {
                        assert(t[i] == s[i + 1]);
                        assert(bytes::lex_lt(s[at as int].0, s[i + 1].0));
                        bytes::lex_asymmetric(s[at as int].0, s[i + 1].0);
                    }
                }
                assert forall|x: Seq<u8>| #[trigger] m.dom().contains(x) implies exists|i: int|
                    0 <= i < t.len() && t[i].0 == x by {
                    assert(listed(s).dom().contains(x));
                    let i = choose|i: int| 0 <= i < s.len() && s[i].0 == x;
                    let a = if i < at {
                        i
                    } else {
                        i - 1
                    };
                    assert(t[a].0 == x);
                }
                listed_is(t, m);
            }
        } else {
            proof {
                assert(!listed(s).dom().contains(key@)) by {
                    if listed(s).dom().contains(key@) {
                        let i = choose|i: int| 0 <= i < s.len() && s[i].0 == key@;
                        if i < at {
                            bytes::lex_irreflexive(key@);
                        } else if i > at {
                            assert(bytes::lex_lt(s[at as int].0, s[i].0));
                        }
                    }
                }
                assert(listed(s).remove(key@) =~= listed(s));
            }
        }
    }
}

impl Default for MemoryStore {
    fn default() -> (store: Self)
        ensures
            store.contents() == Map::<Seq<u8>, Seq<u8>>::empty(),
    {
        MemoryStore::new()
    }
}

impl StateStore for MemoryStore {
    closed spec fn contents(&self) -> Contents {
        listed(entries_view(self.entries@))
    }

    open spec fn reliable(&self) -> bool {
        true
    }

    proof fn contents_are_finite(&self) {
        listed_finite(entries_view(self.entries@));
    }

    fn get(&self, key: &[u8]) -> (value: Result<Option<Vec<u8>>, StorageError>) {
        proof {
            use_type_invariant(self);
        }
        let ghost s = entries_view(self.entries@);
        let at: usize = MemoryStore::position(&self.entries, key);
        proof {
            listed_entries(s);
        }
        if MemoryStore::stands_at(&self.entries, at, key) {
            assert(listed(s).dom().contains(s[at as int].0));
            Ok(Some(bytes::copy_bytes(self.entries[at].1.as_slice())))
        } else {
            proof {
                if listed(s).dom().contains(key@) {
                    let i = choose|i: int| 0 <= i < s.len() && s[i].0 == key@;
                    if i < at {
                        bytes::lex_irreflexive(key@);
                    } else if i > at {
                        assert(bytes::lex_lt(s[at as int].0, s[i].0));
                    }
                }
            }
            Ok(None)
        }
    }

    fn scan_prefix(&self, prefix: &[u8], limit: usize) -> (entries: Result<
        Vec<(Vec<u8>, Vec<u8>)>,
        StorageError,
    >) {
        self.scan_from(prefix, prefix, limit)
    }

    #[verifier::loop_isolation(false)]
    fn scan_from(&self, prefix: &[u8], start: &[u8], limit: usize) -> (entries: Result<
        Vec<(Vec<u8>, Vec<u8>)>,
        StorageError,
    >) {
        proof {
            use_type_invariant(self);
        }
        let ghost s = entries_view(self.entries@);
        let ghost m = self.contents();
        let ghost keys = selected(m, prefix@, start@);
        let ghost mut found: Seq<Seq<u8>> = Seq::empty();
        proof {
            listed_entries(s);
        }
        let mut entries: Vec<(Vec<u8>, Vec<u8>)> = Vec::new();
        let mut i: usize = 0;
        while i < self.entries.len()
            invariant
                i <= s.len(),
                strictly_ascending(found),
                forall|k: Seq<u8>| #[trigger]
                    found.contains(k) <==> (keys.contains(k) && exists|j: int|
                        0 <= j < i && s[j].0 == k),
                forall|j: int|
                    #![trigger found[j]]
                    0 <= j < found.len() && i < s.len() ==> bytes::lex_lt(found[j], s[i as int].0),
                entries@.len() == if found.len() < limit {
                    found.len()
                } else {
                    limit as nat
                },
                forall|j: int|
                    0 <= j < entries@.len() ==> entries_view(entries@)[j] == (
                        #[trigger] found[j],
                        m[found[j]],
                    ),
            decreases s.len() - i,
        {
            let (key, value) = &self.entries[i];
            let ghost before = found;
            if bytes::starts_with(key.as_slice(), prefix) && !bytes::sorts_below(
                key.as_slice(),
                start,
            ) {
                proof {
                    bytes::lex_total(start@, key@);
                    assert(listed(s).dom().contains(s[i as int].0));
                    assert(bytes::lex_le(start@, key@));
                    assert(keys.contains(key@));
                    found = found.push(key@);
                    assert forall|a: int, b: int|
                        #![trigger found[a], found[b]]
                        0 <= a < b < found.len() implies bytes::lex_lt(found[a], found[b]) by {
                        assert(found[a] == before[a]);
                        if b < before.len() {
                            assert(found[b] == before[b]);
                        }
                    }
                }
                if entries.len() < limit {
                    entries.push(
                        (bytes::copy_bytes(key.as_slice()), bytes::copy_bytes(value.as_slice())),
                    );
                }
                proof {
                    assert forall|j: int| 0 <= j < entries@.len() implies entries_view(
                        entries@,
                    )[j] == (#[trigger] found[j], m[found[j]]) by {
                        if j < before.len() {
                            assert(found[j] == before[j]);
                        }
                    }
                }
            } else {
                proof {
                    if bytes::lex_lt(key@, start@) {
                        bytes::lex_asymmetric(key@, start@);
                    }
                    assert(!keys.contains(key@));
                }
            }
            proof {
                assert forall|k: Seq<u8>| #[trigger]
                    found.contains(k) <==> (keys.contains(k) && exists|j: int|
                        0 <= j < i + 1 && s[j].0 == k) by {
                    assert(s[i as int].0 == key@);
                    if found.contains(k) {
                        let j = choose|j: int| 0 <= j < found.len() && found[j] == k;
                        if j < before.len() {
                            assert(before[j] == k);
                            assert(before.contains(k));
                        }
                    }
                    if keys.contains(k) && (exists|j: int| 0 <= j < i + 1 && s[j].0 == k) {
                        let j = choose|j: int| 0 <= j < i + 1 && s[j].0 == k;
                        if j < i {
                            assert(before.contains(k));
                            let x = choose|x: int| 0 <= x < before.len() && before[x] == k;
                            assert(found[x] == k);
                        } else {
                            assert(found[found.len() - 1] == k);
                        }
                    }
                }
                assert forall|j: int|
                    #![trigger found[j]]
                    0 <= j < found.len() && i + 1 < s.len() implies bytes::lex_lt(
                    found[j],
                    s[i + 1].0,
                ) by {
                    assert(bytes::lex_lt(s[i as int].0, s[i + 1].0));
                    if j < before.len() {
                        assert(found[j] == before[j]);
                        bytes::lex_transitive(found[j], s[i as int].0, s[i + 1].0);
                    }
                }
            }
            i = i + 1;
        }
        proof {
            assert forall|k: Seq<u8>| #![auto] found.contains(k) <==> keys.contains(k) by {
                if keys.contains(k) {
                    assert(listed(s).dom().contains(k));
                }
            }
            self.contents_are_finite();
            walk_lists_the_selected_keys(m, prefix@, start@);
            enumeration_is_unique(walk(m, prefix@, start@), found, keys);
            assert(entries_view(entries@) =~= scan(m, prefix@, start@, limit));
        }
        Ok(entries)
    }

    #[verifier::loop_isolation(false)]
    fn apply(&mut self, batch: WriteBatch) -> (done: Result<(), StorageError>) {
        proof {
            use_type_invariant(&*self);
        }
        let ghost before = self.contents();
        let ghost changes = batch.deep_view();
        let ops = batch.into_ops();
        let mut entries: Vec<(Vec<u8>, Vec<u8>)> = Vec::new();
        std::mem::swap(&mut entries, &mut self.entries);
        let mut i: usize = 0;
        proof {
            assert(changes.take(0) =~= Seq::<OpView>::empty());
        }
        while i < ops.len()
            invariant
                i <= ops@.len(),
                sorted(entries_view(entries@)),
                listed(entries_view(entries@)) == apply_ops(before, changes.take(i as int)),
            decreases ops@.len() - i,
        {
            proof {
                assert(changes.take(i + 1).drop_last() =~= changes.take(i as int));
                assert(changes.take(i + 1).last() == ops@[i as int].deep_view());
            }
            match &ops[i] {
                WriteOp::Put { key, value } => {
                    MemoryStore::put(
                        &mut entries,
                        bytes::copy_bytes(key.as_slice()),
                        bytes::copy_bytes(value.as_slice()),
                    );
                },
                WriteOp::Delete { key } => {
                    MemoryStore::delete(&mut entries, key.as_slice());
                },
            }
            i = i + 1;
        }
        proof {
            assert(changes.take(i as int) =~= changes);
        }
        self.entries = entries;
        Ok(())
    }
}

} // verus!
