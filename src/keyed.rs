//! Small maps kept as vectors of entries with distinct keys.
use vstd::prelude::*;
use crate::types::{copy_bytes, digest_eq, KeyHash, KeyView, NodeKey};

verus! {

/// Entries keyed by node key, each key at most once; `map` is what the entries hold.
pub struct NodeKeyed<V> {
    pub entries: Vec<(NodeKey, V)>,
    pub map: Ghost<Map<KeyView, V>>,
}

impl<V> View for NodeKeyed<V> {
    type V = Map<KeyView, V>;

    open spec fn view(&self) -> Map<KeyView, V> {
        self.map@
    }
}

impl<V: Copy> NodeKeyed<V> {
    pub open spec fn wf(&self) -> bool {
        &&& self.map@.dom().finite()
        &&& self.map@.dom().len() == self.entries@.len()
        &&& forall|i: int|
            0 <= i < self.entries@.len() ==> {
                &&& #[trigger] self.map@.contains_key(self.entries@[i].0@)
                &&& self.map@[self.entries@[i].0@] == self.entries@[i].1
            }
        &&& forall|k: KeyView|
            #[trigger] self.map@.contains_key(k) ==> exists|i: int|
                0 <= i < self.entries@.len() && self.entries@[i].0@ == k
        &&& forall|i: int, j: int|
            0 <= i < self.entries@.len() && 0 <= j < self.entries@.len() && i != j
                ==> #[trigger] self.entries@[i].0@ != #[trigger] self.entries@[j].0@
    }

    pub fn new() -> (r: Self)
        ensures
            r.wf(),
            r@ == Map::<KeyView, V>::empty(),
    {
        NodeKeyed { entries: Vec::new(), map: Ghost(Map::empty()) }
    }

    pub fn len(&self) -> (r: usize)
        requires
            self.wf(),
        ensures
            r == self@.dom().len(),
    {
        self.entries.len()
    }

    /// The index of the entry for `k`, if there is one.
    pub fn find(&self, k: &NodeKey) -> (r: Option<usize>)
        requires
            self.wf(),
        ensures
            r is None ==> !self@.contains_key(k@),
            r matches Some(i) ==> i < self.entries@.len() && self.entries@[i as int].0@ == k@
                && self@.contains_key(k@),
    {
        let mut i: usize = 0;
        while i < self.entries.len()
            invariant
                self.wf(),
                i <= self.entries@.len(),
                forall|j: int| 0 <= j < i ==> self.entries@[j].0@ != k@,
            decreases self.entries@.len() - i,
        {
            if self.entries[i].0.same_as(k) {
                return Some(i);
            }
            i += 1;
        }
        None
    }

    /// The value held for `k`, if any.
    pub fn get(&self, k: &NodeKey) -> (r: Option<V>)
        requires
            self.wf(),
        ensures
            r == (if self@.contains_key(k@) { Some(self@[k@]) } else { None::<V> }),
    {
        match self.find(k) {
            Some(i) => Some(self.entries[i].1),
            None => None,
        }
    }

    /// Adds an entry for a key that has none yet, and returns how many entries there are now.
    pub fn insert_new(&mut self, k: NodeKey, v: V) -> (count: usize)
        requires
            old(self).wf(),
            !old(self)@.contains_key(k@),
        ensures
            final(self).wf(),
            final(self)@ == old(self)@.insert(k@, v),
            count == final(self)@.dom().len(),
    {
        let ghost kv = k@;
        let ghost old_entries = self.entries@;
        self.entries.push((k, v));
        self.map = Ghost(self.map@.insert(kv, v));
        assert forall|q: KeyView| #[trigger] self.map@.contains_key(q) implies exists|i: int|
            0 <= i < self.entries@.len() && self.entries@[i].0@ == q by {
            if q != kv {
                let i = choose|i: int| 0 <= i < old_entries.len() && old_entries[i].0@ == q;
                assert(self.entries@[i] == old_entries[i]);
            } else {
                assert(self.entries@[old_entries.len() as int].0@ == q);
            }
        }
        self.entries.len()
    }

    /// Sets the value for `k`, replacing the one it had.
    pub fn upsert(&mut self, k: NodeKey, v: V)
        requires
            old(self).wf(),
        ensures
            final(self).wf(),
            final(self)@ == old(self)@.insert(k@, v),
    {
        match self.find(&k) {
            None => {
                self.insert_new(k, v);
            },
            Some(i) => {
                let ghost kv = k@;
                let ghost old_entries = self.entries@;
                self.entries.set(i, (k, v));
                self.map = Ghost(self.map@.insert(kv, v));
                assert(self.map@.dom() =~= old(self).map@.dom());
                assert forall|a: int| 0 <= a < self.entries@.len() implies self.entries@[a].0@
                    == old_entries[a].0@ && (a != i ==> self.entries@[a] == old_entries[a]) by {}
                assert forall|a: int|
                    0 <= a < self.entries@.len() implies #[trigger] self.map@.contains_key(
                    self.entries@[a].0@) && self.map@[self.entries@[a].0@] == self.entries@[a].1 by {
                    if a != i {
                        assert(old_entries[a].0@ != old_entries[i as int].0@);
                        assert(old(self).map@.contains_key(old_entries[a].0@));
                    }
                }
                assert forall|q: KeyView| #[trigger] self.map@.contains_key(q) implies exists|j: int|
                    0 <= j < self.entries@.len() && self.entries@[j].0@ == q by {
                    let j = choose|j: int| 0 <= j < old_entries.len() && old_entries[j].0@ == q;
                    if j == i {
                        assert(self.entries@[j].0@ == q);
                    } else {
                        assert(self.entries@[j] == old_entries[j]);
                    }
                }
            },
        }
    }

    /// The keys of the first `count` entries.
    pub open spec fn keys_before(&self, count: int) -> Set<KeyView> {
        Set::new(|k: KeyView| exists|j: int| 0 <= j < count && self.entries@[j].0@ == k)
    }

    /// Adds every entry of `other`, its values replacing those held for the same keys.
    pub fn extend_from(&mut self, other: &NodeKeyed<V>)
        requires
            old(self).wf(),
            other.wf(),
        ensures
            final(self).wf(),
            final(self)@ == old(self)@.union_prefer_right(other@),
    {
        let ghost start = self@;
        let mut i: usize = 0;
        assert(start.union_prefer_right(other@.restrict(other.keys_before(0))) =~= start);
        while i < other.entries.len()
            invariant
                self.wf(),
                other.wf(),
                i <= other.entries@.len(),
                self@ == start.union_prefer_right(other@.restrict(other.keys_before(i as int))),
            decreases other.entries@.len() - i,
        {
            let k = other.entries[i].0.duplicate();
            self.upsert(k, other.entries[i].1);
            assert(other@.contains_key(other.entries@[i as int].0@));
            assert(other.keys_before(i + 1) =~= other.keys_before(i as int).insert(other.entries@[i as int].0@));
            assert(self@ =~= start.union_prefer_right(other@.restrict(other.keys_before(i + 1))));
            i += 1;
        }
        assert(other.keys_before(i as int) =~= other@.dom());
        assert(other@.restrict(other@.dom()) =~= other@);
    }

    /// Takes out the entry for `k`, returning its value; nothing changes where there is none.
    pub fn remove(&mut self, k: &NodeKey) -> (r: Option<V>)
        requires
            old(self).wf(),
        ensures
            final(self).wf(),
            r == (if old(self)@.contains_key(k@) { Some(old(self)@[k@]) } else { None::<V> }),
            final(self)@ == old(self)@.remove(k@),
    {
        match self.find(k) {
            None => {
                assert(self.map@.remove(k@) =~= self.map@);
                None
            },
            Some(i) => {
                let ghost kv = k@;
                let ghost old_entries = self.entries@;
                let ghost old_map = self.map@;
                let (_, v) = self.entries.remove(i);
                self.map = Ghost(self.map@.remove(kv));
                assert forall|a: int|
                    0 <= a < self.entries@.len() implies #[trigger] self.map@.contains_key(
                    self.entries@[a].0@) && self.map@[self.entries@[a].0@] == self.entries@[a].1 by {
                    let oa = if a < i { a } else { a + 1 };
                    assert(self.entries@[a] == old_entries[oa]);
                    assert(old_entries[oa].0@ != old_entries[i as int].0@);
                    assert(old_map.contains_key(old_entries[oa].0@));
                }
                assert forall|q: KeyView| #[trigger] self.map@.contains_key(q) implies exists|j: int|
                    0 <= j < self.entries@.len() && self.entries@[j].0@ == q by {
                    let j = choose|j: int| 0 <= j < old_entries.len() && old_entries[j].0@ == q;
                    if j < i {
                        assert(self.entries@[j] == old_entries[j]);
                    } else {
                        assert(j != i);
                        assert(self.entries@[j - 1] == old_entries[j]);
                    }
                }
                assert forall|a: int, b: int|
                    0 <= a < self.entries@.len() && 0 <= b < self.entries@.len() && a != b
                    implies #[trigger] self.entries@[a].0@ != #[trigger] self.entries@[b].0@ by {
                    let oa = if a < i { a } else { a + 1 };
                    let ob = if b < i { b } else { b + 1 };
                    assert(self.entries@[a] == old_entries[oa]);
                    assert(self.entries@[b] == old_entries[ob]);
                }
                Some(v)
            },
        }
    }
}


/// Abstract key of a value: the version it was written at and the key's hash.
pub type ValueKey = (u64, Seq<u8>);

/// Abstract value: its bytes, or `None` for a deletion.
pub open spec fn value_view(v: Option<Vec<u8>>) -> Option<Seq<u8>> {
    match v {
        Some(b) => Some(b@),
        None => None,
    }
}

/// Copies a value.
pub fn copy_value(v: &Option<Vec<u8>>) -> (r: Option<Vec<u8>>)
    ensures
        value_view(r) == value_view(*v),
{
    match v {
        Some(b) => Some(copy_bytes(b)),
        None => None,
    }
}

/// Whether `m` holds a value for `kh` at some version not above `max`.
pub open spec fn has_visible(m: Map<ValueKey, Option<Seq<u8>>>, max: u64, kh: Seq<u8>) -> bool {
    exists|w: u64| #[trigger] m.contains_key((w, kh)) && w <= max
}

/// Whether `v` is the greatest version not above `max` at which `m` holds a value for `kh`.
pub open spec fn is_latest(m: Map<ValueKey, Option<Seq<u8>>>, max: u64, kh: Seq<u8>, v: u64) -> bool {
    &&& m.contains_key((v, kh))
    &&& v <= max
    &&& forall|w: u64| #[trigger] m.contains_key((w, kh)) && w <= max ==> w <= v
}

/// A value written at `version` for the key whose hash is `key_hash`.
#[derive(Debug)]
pub struct ValueEntry {
    pub version: u64,
    pub key_hash: KeyHash,
    pub value: Option<Vec<u8>>,
}

impl ValueEntry {
    pub open spec fn key(&self) -> ValueKey {
        (self.version, self.key_hash.0@)
    }
}

/// Value entries, each (version, key hash) at most once; `map` is what the entries hold.
pub struct ValueKeyed {
    pub entries: Vec<ValueEntry>,
    pub map: Ghost<Map<ValueKey, Option<Seq<u8>>>>,
}

impl View for ValueKeyed {
    type V = Map<ValueKey, Option<Seq<u8>>>;

    open spec fn view(&self) -> Map<ValueKey, Option<Seq<u8>>> {
        self.map@
    }
}

impl ValueKeyed {
    pub open spec fn wf(&self) -> bool {
        &&& self.map@.dom().finite()
        &&& forall|i: int|
            0 <= i < self.entries@.len() ==> {
                &&& #[trigger] self.map@.contains_key(self.entries@[i].key())
                &&& self.map@[self.entries@[i].key()] == value_view(self.entries@[i].value)
            }
        &&& forall|k: ValueKey|
            #[trigger] self.map@.contains_key(k) ==> exists|i: int|
                0 <= i < self.entries@.len() && self.entries@[i].key() == k
        &&& forall|i: int, j: int|
            0 <= i < self.entries@.len() && 0 <= j < self.entries@.len() && i != j
                ==> #[trigger] self.entries@[i].key() != #[trigger] self.entries@[j].key()
    }

    pub fn new() -> (r: Self)
        ensures
            r.wf(),
            r@ == Map::<ValueKey, Option<Seq<u8>>>::empty(),
    {
        ValueKeyed { entries: Vec::new(), map: Ghost(Map::empty()) }
    }

    /// The keys of the first `count` entries.
    pub open spec fn keys_before(&self, count: int) -> Set<ValueKey> {
        Set::new(|k: ValueKey| exists|j: int| 0 <= j < count && self.entries@[j].key() == k)
    }

    /// Adds every entry of `other`, its values replacing those held for the same keys.
    pub fn extend_from(&mut self, other: &ValueKeyed)
        requires
            old(self).wf(),
            other.wf(),
        ensures
            final(self).wf(),
            final(self)@ == old(self)@.union_prefer_right(other@),
    {
        let ghost start = self@;
        let mut i: usize = 0;
        assert(start.union_prefer_right(other@.restrict(other.keys_before(0))) =~= start);
        while i < other.entries.len()
            invariant
                self.wf(),
                other.wf(),
                i <= other.entries@.len(),
                self@ == start.union_prefer_right(other@.restrict(other.keys_before(i as int))),
            decreases other.entries@.len() - i,
        {
            let e = &other.entries[i];
            self.upsert(e.version, e.key_hash, copy_value(&e.value));
            assert(other@.contains_key(other.entries@[i as int].key()));
            assert(other.keys_before(i + 1) =~= other.keys_before(i as int).insert(other.entries@[i as int].key()));
            assert(self@ =~= start.union_prefer_right(other@.restrict(other.keys_before(i + 1))));
            i += 1;
        }
        assert(other.keys_before(i as int) =~= other@.dom());
        assert(other@.restrict(other@.dom()) =~= other@);
    }

    /// The index of the entry for `key_hash` with the greatest version not above `max_version`.
    pub fn latest(&self, max_version: u64, key_hash: &KeyHash) -> (r: Option<usize>)
        requires
            self.wf(),
        ensures
            r is None ==> !has_visible(self@, max_version, key_hash.0@),
            r matches Some(i) ==> i < self.entries@.len() && self.entries@[i as int].key_hash.0@
                == key_hash.0@ && is_latest(self@, max_version, key_hash.0@, self.entries@[i as int].version),
    {
        let ghost kh = key_hash.0@;
        let mut best: Option<usize> = None;
        let mut i: usize = 0;
        while i < self.entries.len()
            invariant
                self.wf(),
                kh == key_hash.0@,
                i <= self.entries@.len(),
                best is None ==> forall|j: int| 0 <= j < i ==> !(#[trigger] self.entries@[j].key_hash.0@ == kh
                    && self.entries@[j].version <= max_version),
                best matches Some(b) ==> b < i && self.entries@[b as int].key_hash.0@ == kh
                    && self.entries@[b as int].version <= max_version
                    && forall|j: int| 0 <= j < i && #[trigger] self.entries@[j].key_hash.0@ == kh
                    && self.entries@[j].version <= max_version ==> self.entries@[j].version
                    <= self.entries@[b as int].version,
            decreases self.entries@.len() - i,
        {
            let e = &self.entries[i];
            if e.version <= max_version && digest_eq(&e.key_hash.0, &key_hash.0) {
                match best {
                    None => {
                        best = Some(i);
                    },
                    Some(b) => {
                        if self.entries[b].version < e.version {
                            best = Some(i);
                        }
                    },
                }
            }
            i += 1;
        }
        match best {
            None => {
                assert forall|w: u64| #[trigger] self@.contains_key((w, kh)) implies !(w <= max_version) by {
                    let j = choose|j: int| 0 <= j < self.entries@.len() && self.entries@[j].key() == (w, kh);
                    assert(self.entries@[j].key_hash.0@ == kh);
                }
            },
            Some(b) => {
                assert(self@.contains_key(self.entries@[b as int].key()));
                assert forall|w: u64| #[trigger] self@.contains_key((w, kh)) && w <= max_version
                    implies w <= self.entries@[b as int].version by {
                    let j = choose|j: int| 0 <= j < self.entries@.len() && self.entries@[j].key() == (w, kh);
                    assert(self.entries@[j].key_hash.0@ == kh);
                }
            },
        }
        best
    }

    /// Sets the value written at `version` for `key_hash`, replacing the one it had.
    pub fn upsert(&mut self, version: u64, key_hash: KeyHash, value: Option<Vec<u8>>)
        requires
            old(self).wf(),
        ensures
            final(self).wf(),
            final(self)@ == old(self)@.insert((version, key_hash.0@), value_view(value)),
    {
        let ghost kv = (version, key_hash.0@);
        let ghost vv = value_view(value);
        let ghost old_entries = self.entries@;
        let ghost old_map = self.map@;
        let mut i: usize = 0;
        let mut found = false;
        while i < self.entries.len() && !found
            invariant
                self.entries@ == old_entries,
                kv == (version, key_hash.0@),
                i <= old_entries.len(),
                found ==> i < old_entries.len() && old_entries[i as int].key() == kv,
                forall|j: int| 0 <= j < i && (j != i || !found) ==> old_entries[j].key() != kv,
            decreases old_entries.len() - i + (if found { 0int } else { 1int }),
        {
            let e = &self.entries[i];
            if e.version == version && digest_eq(&e.key_hash.0, &key_hash.0) {
                found = true;
            } else {
                i += 1;
            }
        }
        if found {
            self.entries.set(i, ValueEntry { version, key_hash, value });
            self.map = Ghost(self.map@.insert(kv, vv));
            assert forall|a: int| 0 <= a < self.entries@.len() implies self.entries@[a].key()
                == old_entries[a].key() && (a != i ==> self.entries@[a] == old_entries[a]) by {}
            assert forall|a: int|
                0 <= a < self.entries@.len() implies #[trigger] self.map@.contains_key(
                self.entries@[a].key()) && self.map@[self.entries@[a].key()] == value_view(
                self.entries@[a].value) by {
                if a != i {
                    assert(old_entries[a].key() != old_entries[i as int].key());
                    assert(old_map.contains_key(old_entries[a].key()));
                }
            }
            assert forall|q: ValueKey| #[trigger] self.map@.contains_key(q) implies exists|j: int|
                0 <= j < self.entries@.len() && self.entries@[j].key() == q by {
                if q != kv {
                    let j = choose|j: int| 0 <= j < old_entries.len() && old_entries[j].key() == q;
                    assert(self.entries@[j].key() == q);
                } else {
                    assert(self.entries@[i as int].key() == q);
                }
            }
        } else {
            self.entries.push(ValueEntry { version, key_hash, value });
            self.map = Ghost(self.map@.insert(kv, vv));
            assert forall|a: int|
                0 <= a < self.entries@.len() implies #[trigger] self.map@.contains_key(
                self.entries@[a].key()) && self.map@[self.entries@[a].key()] == value_view(
                self.entries@[a].value) by {
                if a < old_entries.len() {
                    assert(self.entries@[a] == old_entries[a]);
                    assert(old_map.contains_key(old_entries[a].key()));
                }
            }
            assert forall|q: ValueKey| #[trigger] self.map@.contains_key(q) implies exists|j: int|
                0 <= j < self.entries@.len() && self.entries@[j].key() == q by {
                if q != kv {
                    let j = choose|j: int| 0 <= j < old_entries.len() && old_entries[j].key() == q;
                    assert(self.entries@[j] == old_entries[j]);
                } else {
                    assert(self.entries@[old_entries.len() as int].key() == q);
                }
            }
        }
    }
}

} // verus!
