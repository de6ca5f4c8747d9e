//! The staging cache between tree mutation logic and durable storage.
//!
//! A transaction touches many nodes. For each one the cache decides whether it is a brand-new
//! node of the version under construction, or a node of an earlier, persisted version that must
//! be kept for historical reads and is therefore only marked stale. The effects of one version
//! are frozen into an immutable batch, and many versions can be frozen before the whole batch is
//! exported and written at once.
use vstd::prelude::*;
use crate::hashing::{node_digest, SimpleHasher};
use crate::keyed::{
    copy_value, has_visible, is_latest, value_view, NodeKeyed, ValueKeyed,
};
use crate::model::{
    empty_view, genesis_view, lemma_counts_empty, lemma_leaf_count_insert, lemma_leaf_count_remove,
    lemma_freeze_facts, lemma_stale_leaf_count_insert, staged_values, stale_index_set, stale_marks, CacheView,
};
use crate::reader::TreeReader;
use crate::types::{
    KeyHash, KeyView, LeafNode, Node, NodeKey, NodeStats, RootHash, StaleNodeIndex,
    PRE_GENESIS_VERSION,
};

verus! {

/// Nodes and values written by one or more versions.
pub struct NodeBatch {
    pub nodes: NodeKeyed<Node>,
    pub values: ValueKeyed,
}

/// Everything that a run of frozen versions writes to durable storage.
pub struct TreeUpdateBatch {
    pub node_batch: NodeBatch,
    pub stale_node_index_batch: Vec<StaleNodeIndex>,
    pub node_stats: Vec<NodeStats>,
}

/// The immutable part of a cache: what earlier versions produced.
pub struct FrozenTreeCache {
    node_cache: NodeBatch,
    stale_node_index_cache: Vec<StaleNodeIndex>,
    stale_set: Ghost<Set<(u64, KeyView)>>,
    node_stats: Vec<NodeStats>,
    root_hashes: Vec<RootHash>,
}

impl FrozenTreeCache {
    pub closed spec fn wf(&self) -> bool {
        &&& self.node_cache.nodes.wf()
        &&& self.node_cache.values.wf()
        &&& self.stale_set@.finite()
        &&& forall|i: int|
            0 <= i < self.stale_node_index_cache@.len() ==> #[trigger] self.stale_set@.contains(
                self.stale_node_index_cache@[i]@)
        &&& forall|e: (u64, KeyView)|
            #[trigger] self.stale_set@.contains(e) ==> exists|i: int|
                0 <= i < self.stale_node_index_cache@.len() && self.stale_node_index_cache@[i]@ == e
    }

    /// Whether nothing has been frozen yet.
    pub closed spec fn is_empty(&self) -> bool {
        &&& self.node_cache.nodes@ == Map::<KeyView, Node>::empty()
        &&& self.node_cache.values@ == Map::<(u64, Seq<u8>), Option<Seq<u8>>>::empty()
        &&& self.stale_set@ == Set::<(u64, KeyView)>::empty()
        &&& self.node_stats@ == Seq::<NodeStats>::empty()
        &&& self.root_hash_views() == Seq::<Seq<u8>>::empty()
    }

    /// Records each key of `stale` as stale since `version`.
    fn absorb_stale(&mut self, version: u64, stale: &NodeKeyed<bool>)
        requires
            old(self).wf(),
            stale.wf(),
        ensures
            final(self).wf(),
            final(self).stale_set@ == old(self).stale_set@.union(stale_marks(version, stale@)),
            final(self).node_cache == old(self).node_cache,
            final(self).node_stats == old(self).node_stats,
            final(self).root_hashes == old(self).root_hashes,
    {
        let ghost start = self.stale_set@;
        let mut i: usize = 0;
        assert(start.union(Set::new(|e: (u64, KeyView)| e.0 == version && stale.keys_before(0).contains(e.1)))
            =~= start);
        while i < stale.entries.len()
            invariant
                self.wf(),
                stale.wf(),
                i <= stale.entries@.len(),
                self.node_cache == old(self).node_cache,
                self.node_stats == old(self).node_stats,
                self.root_hashes == old(self).root_hashes,
                self.stale_set@ == start.union(
                    Set::new(|e: (u64, KeyView)| e.0 == version && stale.keys_before(i as int).contains(e.1)),
                ),
            decreases stale.entries@.len() - i,
        {
            let entry = StaleNodeIndex { stale_since_version: version, node_key: stale.entries[i].0.duplicate() };
            let ghost ev = entry@;
            let ghost old_vec = self.stale_node_index_cache@;
            self.stale_node_index_cache.push(entry);
            self.stale_set = Ghost(self.stale_set@.insert(ev));
            assert forall|a: int|
                0 <= a < self.stale_node_index_cache@.len() implies #[trigger] self.stale_set@.contains(
                self.stale_node_index_cache@[a]@) by {
                if a < old_vec.len() {
                    assert(self.stale_node_index_cache@[a] == old_vec[a]);
                }
            }
            assert forall|e: (u64, KeyView)| #[trigger] self.stale_set@.contains(e) implies exists|a: int|
                0 <= a < self.stale_node_index_cache@.len() && self.stale_node_index_cache@[a]@ == e by {
                if e == ev {
                    assert(self.stale_node_index_cache@[old_vec.len() as int]@ == e);
                } else {
                    let a = choose|a: int| 0 <= a < old_vec.len() && old_vec[a]@ == e;
                    assert(self.stale_node_index_cache@[a] == old_vec[a]);
                }
            }
            assert(stale.keys_before(i + 1) =~= stale.keys_before(i as int).insert(stale.entries@[i as int].0@));
            assert(self.stale_set@ =~= start.union(
                Set::new(|e: (u64, KeyView)| e.0 == version && stale.keys_before(i + 1).contains(e.1)),
            ));
            i += 1;
        }
        assert forall|k: KeyView| stale.keys_before(i as int).contains(k) <==> #[trigger] stale@.contains_key(k) by {
            if stale@.contains_key(k) {
                let j = choose|j: int| 0 <= j < stale.entries@.len() && stale.entries@[j].0@ == k;
                assert(stale.keys_before(i as int).contains(k));
            }
        }
        assert(self.stale_set@ =~= start.union(stale_marks(version, stale@)));
    }

    pub closed spec fn root_hash_views(&self) -> Seq<Seq<u8>> {
        self.root_hashes@.map_values(|h: RootHash| h.0@)
    }

    /// An empty frozen part.
    pub fn new() -> (r: Self)
        ensures
            r.wf(),
            r.is_empty(),
    {
        let r = FrozenTreeCache {
            node_cache: NodeBatch { nodes: NodeKeyed::new(), values: ValueKeyed::new() },
            stale_node_index_cache: Vec::new(),
            stale_set: Ghost(Set::empty()),
            node_stats: Vec::new(),
            root_hashes: Vec::new(),
        };
        assert(r.root_hash_views() =~= Seq::<Seq<u8>>::empty());
        r
    }
}

/// A node could not be staged because its key already was.
#[derive(Debug)]
pub struct NodeAlreadyExists {
    /// The key that was already staged.
    pub key: NodeKey,
    /// The node that could not be staged.
    pub node: Node,
}

/// Why freezing a version failed.
#[derive(Debug)]
pub enum FreezeError<E> {
    GetNodeFailed(E),
    PutNodeFailed(NodeAlreadyExists),
    RootNodeMissing,
    /// The version under construction is the largest one, so there is no next version.
    VersionOverflow,
}

/// Why a cache could not be built or a node could not be read.
#[derive(Debug)]
pub enum CacheError<E> {
    /// The external reader failed.
    ReadFailed(E),
    /// No node is stored under the key.
    NodeMissing,
    /// An overwrite cache was asked for over an empty tree.
    EmptyTree,
    /// An overwrite cache was asked for at a version that is not the tree's latest.
    NotLatestVersion,
    /// A cache does not look up the rightmost leaf: that is for durable storage.
    RightmostLeafUnsupported,
}

/// In-memory cache of the nodes and values that a run of versions creates and makes stale.
pub struct TreeCache<'a, R> {
    root_node_key: NodeKey,
    next_version: u64,
    node_cache: NodeKeyed<Node>,
    value_cache: ValueKeyed,
    num_new_leaves: usize,
    stale_node_index_cache: NodeKeyed<bool>,
    num_stale_leaves: usize,
    frozen_cache: FrozenTreeCache,
    reader: &'a R,
}

impl<'a, R> View for TreeCache<'a, R> {
    type V = CacheView;

    closed spec fn view(&self) -> CacheView {
        CacheView {
            root_node_key: self.root_node_key@,
            next_version: self.next_version,
            nodes: self.node_cache@,
            values: self.value_cache@,
            num_new_leaves: self.num_new_leaves as nat,
            stale: self.stale_node_index_cache@,
            num_stale_leaves: self.num_stale_leaves as nat,
            frozen_nodes: self.frozen_cache.node_cache.nodes@,
            frozen_values: self.frozen_cache.node_cache.values@,
            frozen_stale: self.frozen_cache.stale_set@,
            node_stats: self.frozen_cache.node_stats@,
            root_hashes: self.frozen_cache.root_hash_views(),
        }
    }
}

impl<'a, R: TreeReader> TreeCache<'a, R> {
    pub closed spec fn wf(&self) -> bool {
        &&& self.node_cache.wf()
        &&& self.value_cache.wf()
        &&& self.stale_node_index_cache.wf()
        &&& self.frozen_cache.wf()
        &&& self.reader.well_formed()
        &&& self@.inv()
    }

    /// The well-formed cache's abstract state satisfies its invariant.
    pub proof fn lemma_wf_inv(&self)
        requires
            self.wf(),
        ensures
            self@.inv(),
    {
    }

    /// A cache for `next_version` over `reader`, given what the reader holds under the
    /// pre-genesis root key (looked at only for version 0).
    pub fn new_with_pre_genesis(reader: &'a R, next_version: u64, pre_genesis_root: Option<Node>) -> (r: Self)
        requires
            reader.well_formed(),
        ensures
            r.wf(),
            next_version > 0 ==> r@ == empty_view(((next_version - 1) as u64, Seq::empty()), next_version),
            next_version == 0 && pre_genesis_root is Some ==> r@ == empty_view(
                (PRE_GENESIS_VERSION, Seq::empty()),
                0,
            ),
            next_version == 0 && pre_genesis_root is None ==> r@ == genesis_view(),
    {
        let mut node_cache: NodeKeyed<Node> = NodeKeyed::new();
        let root_node_key = if next_version == 0 {
            match pre_genesis_root {
                Some(_) => NodeKey::new_empty_path(PRE_GENESIS_VERSION),
                None => {
                    let genesis_root_key = NodeKey::new_empty_path(0);
                    node_cache.insert_new(genesis_root_key.duplicate(), Node::new_null());
                    genesis_root_key
                },
            }
        } else {
            NodeKey::new_empty_path(next_version - 1)
        };
        let r = TreeCache {
            root_node_key,
            next_version,
            node_cache,
            value_cache: ValueKeyed::new(),
            num_new_leaves: 0,
            stale_node_index_cache: NodeKeyed::new(),
            num_stale_leaves: 0,
            frozen_cache: FrozenTreeCache::new(),
            reader,
        };
        proof {
            lemma_counts_empty();
            lemma_leaf_count_insert(Map::empty(), (0, Seq::empty()), Node::Null);
            assert(r@ =~= empty_view(r@.root_node_key, next_version) || r@ =~= genesis_view());
        }
        r
    }

    /// A cache for `next_version` over `reader`. Version 0 starts from the pre-genesis root
    /// where the reader has one, and from an empty tree otherwise.
    pub fn new(reader: &'a R, next_version: u64) -> (r: Result<Self, CacheError<R::Error>>)
        requires
            reader.well_formed(),
        ensures
            next_version > 0 ==> (r matches Ok(c) && c.wf() && c@ == empty_view(
                ((next_version - 1) as u64, Seq::empty()),
                next_version,
            )),
            next_version == 0 ==> match r {
                Ok(c) => c.wf() && (c@ == genesis_view() || c@ == empty_view(
                    (PRE_GENESIS_VERSION, Seq::empty()),
                    0,
                )),
                Err(e) => e is ReadFailed,
            },
    {
        if next_version == 0 {
            let pre_genesis_root_key = NodeKey::new_empty_path(PRE_GENESIS_VERSION);
            match reader.get_node_option(&pre_genesis_root_key) {
                Ok(found) => Ok(Self::new_with_pre_genesis(reader, next_version, found)),
                Err(e) => Err(CacheError::ReadFailed(e)),
            }
        } else {
            Ok(Self::new_with_pre_genesis(reader, next_version, None))
        }
    }

    /// An overwrite cache at `current_version`, given the rightmost leaf of the stored tree.
    pub fn new_overwrite_with_leaf(
        reader: &'a R,
        current_version: u64,
        rightmost_leaf: Option<(NodeKey, LeafNode)>,
    ) -> (r: Result<Self, CacheError<R::Error>>)
        requires
            reader.well_formed(),
        ensures
            match rightmost_leaf {
                None => (r matches Err(e) && e is EmptyTree),
                Some((k, _)) => if k.version == current_version {
                    (r matches Ok(c) && c.wf() && c@ == empty_view(
                        (current_version, Seq::empty()),
                        current_version,
                    ))
                } else {
                    (r matches Err(e) && e is NotLatestVersion)
                },
            },
    {
        match rightmost_leaf {
            None => Err(CacheError::EmptyTree),
            Some((node_key, _)) => {
                if node_key.version() != current_version {
                    return Err(CacheError::NotLatestVersion);
                }
                let r = TreeCache {
                    root_node_key: NodeKey::new_empty_path(current_version),
                    next_version: current_version,
                    node_cache: NodeKeyed::new(),
                    value_cache: ValueKeyed::new(),
                    num_new_leaves: 0,
                    stale_node_index_cache: NodeKeyed::new(),
                    num_stale_leaves: 0,
                    frozen_cache: FrozenTreeCache::new(),
                    reader,
                };
                proof {
                    lemma_counts_empty();
                    assert(r@ =~= empty_view((current_version, Seq::empty()), current_version));
                }
                Ok(r)
            },
        }
    }

    /// A cache that adds nodes to the existing `current_version` without starting a new one.
    /// The stored tree must be non-empty and `current_version` must be its latest version.
    pub fn new_overwrite(reader: &'a R, current_version: u64) -> (r: Result<Self, CacheError<R::Error>>)
        requires
            reader.well_formed(),
        ensures
            r matches Ok(c) ==> c.wf() && c@ == empty_view(
                (current_version, Seq::empty()),
                current_version,
            ),
            r matches Err(e) ==> e is ReadFailed || e is EmptyTree || e is NotLatestVersion,
    {
        match reader.get_rightmost_leaf() {
            Ok(leaf) => Self::new_overwrite_with_leaf(reader, current_version, leaf),
            Err(e) => Err(CacheError::ReadFailed(e)),
        }
    }
}

impl<'a, R: TreeReader> TreeCache<'a, R> {
    /// The node under `node_key`, looked up in the current version, then in the frozen ones,
    /// then in the external reader; `None` where none of them has it.
    pub fn get_node_option(&self, node_key: &NodeKey) -> (r: Result<Option<Node>, R::Error>)
        requires
            self.wf(),
        ensures
            self@.cached_node(node_key@) matches Some(n) ==> r == Ok::<Option<Node>, R::Error>(Some(n)),
    {
        match self.node_cache.get(node_key) {
            Some(node) => Ok(Some(node)),
            None => match self.frozen_cache.node_cache.nodes.get(node_key) {
                Some(node) => Ok(Some(node)),
                None => self.reader.get_node_option(node_key),
            },
        }
    }

    /// The node under `node_key`, looked up as `get_node_option` does; a key found nowhere is
    /// an error.
    pub fn get_node(&self, node_key: &NodeKey) -> (r: Result<Node, CacheError<R::Error>>)
        requires
            self.wf(),
        ensures
            self@.cached_node(node_key@) matches Some(n) ==> r == Ok::<Node, CacheError<R::Error>>(n),
            r matches Err(e) ==> self@.cached_node(node_key@) is None && (e is ReadFailed || e is NodeMissing),
    {
        match self.get_node_option(node_key) {
            Ok(Some(node)) => Ok(node),
            Ok(None) => Err(CacheError::NodeMissing),
            Err(e) => Err(CacheError::ReadFailed(e)),
        }
    }

    /// The key of the current root node.
    pub fn get_root_node_key(&self) -> (r: &NodeKey)
        ensures
            r@ == self@.root_node_key,
    {
        &self.root_node_key
    }

    /// Records that the root of the version under construction is now `root_node_key`.
    pub fn set_root_node_key(&mut self, root_node_key: NodeKey)
        requires
            old(self).wf(),
        ensures
            final(self).wf(),
            final(self)@ == (CacheView { root_node_key: root_node_key@, ..old(self)@ }),
    {
        self.root_node_key = root_node_key;
    }

    /// Stages `new_node` under `node_key`. A key that is already staged keeps its node, and the
    /// error hands back the key and the node that was not staged.
    pub fn put_node(&mut self, node_key: NodeKey, new_node: Node) -> (r: Result<(), NodeAlreadyExists>)
        requires
            old(self).wf(),
        ensures
            final(self).wf(),
            final(self)@ == old(self)@.put_node(node_key@, new_node),
            r is Err <==> old(self)@.nodes.contains_key(node_key@),
            r matches Err(e) ==> e.key@ == node_key@ && e.node == new_node,
    {
        match self.node_cache.find(&node_key) {
            Some(_) => Err(NodeAlreadyExists { key: node_key, node: new_node }),
            None => {
                proof {
                    lemma_leaf_count_insert(self.node_cache@, node_key@, new_node);
                }
                let ghost k = node_key@;
                let staged = self.node_cache.insert_new(node_key, new_node);
                if new_node.is_leaf() {
                    // The staged leaves, the new one among them, are at most all staged nodes.
                    assert(self.num_new_leaves < staged);
                    self.num_new_leaves = self.num_new_leaves + 1;
                }
                assert(self@ =~= old(self)@.put_node(k, new_node));
                Ok(())
            },
        }
    }

    /// Stages `value` for `key_hash` at `version`, replacing a value staged there before.
    pub fn put_value(&mut self, version: u64, key_hash: KeyHash, value: Option<Vec<u8>>)
        requires
            old(self).wf(),
        ensures
            final(self).wf(),
            final(self)@ == old(self)@.put_value(version, key_hash.0@, value_view(value)),
    {
        self.value_cache.upsert(version, key_hash, value);
        assert(self@ =~= old(self)@.put_value(version, key_hash.0@, value_view(value)));
    }

    /// The value of `key_hash` at the greatest version not above `max_version` among the values
    /// staged in this cache, current and frozen; `None` where no staged version qualifies.
    pub fn get_staged_value(&self, max_version: u64, key_hash: &KeyHash) -> (r: Option<Option<Vec<u8>>>)
        requires
            self.wf(),
        ensures
            r is None <==> !has_visible(staged_values(self@), max_version, key_hash.0@),
            r matches Some(o) ==> exists|v: u64|
                is_latest(staged_values(self@), max_version, key_hash.0@, v) && value_view(o)
                    == staged_values(self@)[(v, key_hash.0@)],
    {
        let ghost kh = key_hash.0@;
        let ghost cur = self.value_cache@;
        let ghost fro = self.frozen_cache.node_cache.values@;
        let ghost all = staged_values(self@);
        assert(all == fro.union_prefer_right(cur));
        let current = self.value_cache.latest(max_version, key_hash);
        let frozen = self.frozen_cache.node_cache.values.latest(max_version, key_hash);
        match (current, frozen) {
            (None, None) => {
                assert forall|w: u64| #[trigger] all.contains_key((w, kh)) implies !(w <= max_version) by {
                    if cur.contains_key((w, kh)) {
                    } else {
                        assert(fro.contains_key((w, kh)));
                    }
                }
                None
            },
            (Some(i), None) => {
                let e = &self.value_cache.entries[i];
                let ghost v = e.version;
                assert(cur.contains_key((v, kh)));
                assert forall|w: u64| #[trigger] all.contains_key((w, kh)) && w <= max_version implies w <= v by {
                    if cur.contains_key((w, kh)) {
                    } else {
                        assert(fro.contains_key((w, kh)));
                    }
                }
                assert(is_latest(all, max_version, kh, v));
                assert(self.value_cache.entries@[i as int].key() == (v, kh));
                assert(all[(v, kh)] == value_view(e.value));
                Some(copy_value(&e.value))
            },
            (None, Some(j)) => {
                let e = &self.frozen_cache.node_cache.values.entries[j];
                let ghost v = e.version;
                assert(fro.contains_key((v, kh)));
                assert(!cur.contains_key((v, kh)));
                assert forall|w: u64| #[trigger] all.contains_key((w, kh)) && w <= max_version implies w <= v by {
                    if cur.contains_key((w, kh)) {
                    } else {
                        assert(fro.contains_key((w, kh)));
                    }
                }
                assert(is_latest(all, max_version, kh, v));
                assert(self.frozen_cache.node_cache.values.entries@[j as int].key() == (v, kh));
                assert(all[(v, kh)] == value_view(e.value));
                Some(copy_value(&e.value))
            },
            (Some(i), Some(j)) => {
                let ec = &self.value_cache.entries[i];
                let ef = &self.frozen_cache.node_cache.values.entries[j];
                let ghost vc = ec.version;
                let ghost vf = ef.version;
                assert(cur.contains_key((vc, kh)));
                assert(fro.contains_key((vf, kh)));
                if ec.version < ef.version {
                    assert(!cur.contains_key((vf, kh)));
                    assert forall|w: u64| #[trigger] all.contains_key((w, kh)) && w <= max_version implies w <= vf by {
                        if cur.contains_key((w, kh)) {
                        } else {
                            assert(fro.contains_key((w, kh)));
                        }
                    }
                    assert(is_latest(all, max_version, kh, vf));
                    assert(self.frozen_cache.node_cache.values.entries@[j as int].key() == (vf, kh));
                    assert(all[(vf, kh)] == value_view(ef.value));
                    Some(copy_value(&ef.value))
                } else {
                    assert forall|w: u64| #[trigger] all.contains_key((w, kh)) && w <= max_version implies w <= vc by {
                        if cur.contains_key((w, kh)) {
                        } else {
                            assert(fro.contains_key((w, kh)));
                        }
                    }
                    assert(is_latest(all, max_version, kh, vc));
                    assert(self.value_cache.entries@[i as int].key() == (vc, kh));
                    assert(all[(vc, kh)] == value_view(ec.value));
                    Some(copy_value(&ec.value))
                }
            },
        }
    }

    /// The value of `key_hash` at the greatest version not above `max_version`: the staged one
    /// where a staged version qualifies, else what the external reader returns.
    pub fn get_value_option(&self, max_version: u64, key_hash: KeyHash) -> (r: Result<Option<Vec<u8>>, R::Error>)
        requires
            self.wf(),
        ensures
            has_visible(staged_values(self@), max_version, key_hash.0@) ==> exists|v: u64|
                is_latest(staged_values(self@), max_version, key_hash.0@, v) && (r matches Ok(o)
                    && value_view(o) == staged_values(self@)[(v, key_hash.0@)]),
    {
        match self.get_staged_value(max_version, &key_hash) {
            Some(value) => Ok(value),
            None => self.reader.get_value_option(max_version, key_hash),
        }
    }

    /// Closes the version under construction, whose root node resolved to `root` (`None` where no
    /// node is stored under the root key): records the root's hash under `H`, stages the null
    /// root for a missing one and the previous root under the new version's key for an empty
    /// version after the first, folds the staged changes into the frozen part, and moves on to
    /// the next version. Fails, changing nothing, where the version under construction is the
    /// largest one, or where `root` is `None` but the root key is already staged.
    pub fn freeze_resolved<H: SimpleHasher>(&mut self, root: Option<Node>) -> (r: Result<(), FreezeError<R::Error>>)
        requires
            old(self).wf(),
        ensures
            final(self).wf(),
            r is Ok <==> old(self)@.next_version < u64::MAX && !old(self)@.freeze_conflicts(root),
            r is Ok ==> final(self)@ == old(self)@.freeze::<H>(root),
            r is Ok ==> {
                &&& final(self)@.next_version == old(self)@.next_version + 1
                &&& final(self)@.nodes == Map::<KeyView, Node>::empty()
                &&& final(self)@.values == Map::<(u64, Seq<u8>), Option<Seq<u8>>>::empty()
                &&& final(self)@.stale == Map::<KeyView, bool>::empty()
                &&& final(self)@.num_new_leaves == 0
                &&& final(self)@.num_stale_leaves == 0
                &&& final(self)@.frozen_stale == old(self)@.frozen_stale.union(
                    stale_marks(old(self)@.next_version, old(self)@.stale),
                )
                &&& final(self)@.root_hashes.len() == old(self)@.root_hashes.len() + 1
                &&& final(self)@.root_hashes.drop_last() == old(self)@.root_hashes
                &&& final(self)@.node_stats.len() == old(self)@.node_stats.len() + 1
                &&& final(self)@.node_stats.drop_last() == old(self)@.node_stats
            },
            r matches Err(e) ==> final(self)@ == old(self)@ && (if old(self)@.next_version == u64::MAX {
                e is VersionOverflow
            } else {
                e is PutNodeFailed
            }),
    {
        let ghost v0 = self@;
        if self.next_version == u64::MAX {
            return Err(FreezeError::VersionOverflow);
        }
        let root_node = match root {
            Some(n) => n,
            None => {
                match self.put_node(self.root_node_key.duplicate(), Node::new_null()) {
                    Ok(()) => {},
                    Err(e) => {
                        return Err(FreezeError::PutNodeFailed(e));
                    },
                }
                Node::Null
            },
        };
        let digest = root_node.hash::<H>();
        // Every version needs a root under its own key, also one that changed nothing: the next
        // version looks its root up there. Such a version gets a copy of the previous root.
        if self.next_version > 0 && self.node_cache.len() == 0 && self.stale_node_index_cache.len() == 0 {
            let mut root_copy_key = self.root_node_key.duplicate();
            root_copy_key.set_version(self.next_version);
            proof {
                vstd::set_lib::lemma_set_empty_equivalency_len(self.node_cache@.dom());
            }
            assert(!self.node_cache@.contains_key(root_copy_key@));
            match self.put_node(root_copy_key, root_node) {
                Ok(()) => {},
                // Not reached: nothing is staged, so the key is free.
                Err(e) => {
                    return Err(FreezeError::PutNodeFailed(e));
                },
            }
        }
        let ghost staged = self@;
        let ghost stale_vec = self.frozen_cache.stale_node_index_cache@;
        let ghost stale_set = self.frozen_cache.stale_set@;
        assert(staged == v0.freeze_staged(root));
        let stats = NodeStats {
            new_nodes: self.node_cache.len(),
            new_leaves: self.num_new_leaves,
            stale_nodes: self.stale_node_index_cache.len(),
            stale_leaves: self.num_stale_leaves,
        };
        let ghost old_hashes = self.frozen_cache.root_hashes@;
        self.frozen_cache.node_stats.push(stats);
        self.frozen_cache.root_hashes.push(RootHash(digest));
        assert(self.frozen_cache.root_hashes@.map_values(|h: RootHash| h.0@) =~= old_hashes.map_values(
            |h: RootHash| h.0@,
        ).push(digest@));
        self.frozen_cache.node_cache.nodes.extend_from(&self.node_cache);
        self.frozen_cache.node_cache.values.extend_from(&self.value_cache);
        assert(self.frozen_cache.stale_node_index_cache@ == stale_vec);
        assert(self.frozen_cache.stale_set@ == stale_set);
        self.frozen_cache.absorb_stale(self.next_version, &self.stale_node_index_cache);
        self.node_cache = NodeKeyed::new();
        self.value_cache = ValueKeyed::new();
        self.stale_node_index_cache = NodeKeyed::new();
        self.num_new_leaves = 0;
        self.num_stale_leaves = 0;
        self.next_version = self.next_version + 1;
        proof {
            lemma_counts_empty();
        }
        assert(self@ =~= v0.freeze::<H>(root));
        proof {
            lemma_freeze_facts::<H>(v0, root);
        }
        Ok(())
    }

    /// Closes the version under construction, as `freeze_resolved` does with the root node
    /// that a lookup of the root key finds. Fails, changing nothing, where that lookup fails.
    pub fn freeze<H: SimpleHasher>(&mut self) -> (r: Result<(), FreezeError<R::Error>>)
        requires
            old(self).wf(),
        ensures
            final(self).wf(),
            old(self)@.next_version < u64::MAX ==> (old(self)@.cached_node(old(self)@.root_node_key) matches Some(n)
                ==> r is Ok && final(self)@ == old(self)@.freeze::<H>(Some(n))),
            r is Ok ==> exists|root: Option<Node>|
                !old(self)@.freeze_conflicts(root) && final(self)@ == old(self)@.freeze::<H>(root),
            r is Ok ==> {
                &&& final(self)@.next_version == old(self)@.next_version + 1
                &&& final(self)@.nodes == Map::<KeyView, Node>::empty()
                &&& final(self)@.values == Map::<(u64, Seq<u8>), Option<Seq<u8>>>::empty()
                &&& final(self)@.stale == Map::<KeyView, bool>::empty()
                &&& final(self)@.num_new_leaves == 0
                &&& final(self)@.num_stale_leaves == 0
                &&& final(self)@.frozen_stale == old(self)@.frozen_stale.union(
                    stale_marks(old(self)@.next_version, old(self)@.stale),
                )
                &&& final(self)@.root_hashes.len() == old(self)@.root_hashes.len() + 1
                &&& final(self)@.root_hashes.drop_last() == old(self)@.root_hashes
                &&& final(self)@.node_stats.len() == old(self)@.node_stats.len() + 1
                &&& final(self)@.node_stats.drop_last() == old(self)@.node_stats
            },
            r matches Err(e) ==> final(self)@ == old(self)@ && (if old(self)@.next_version == u64::MAX {
                e is VersionOverflow
            } else {
                e is GetNodeFailed
            }),
    {
        if self.next_version == u64::MAX {
            return Err(FreezeError::VersionOverflow);
        }
        let root_node_key = self.root_node_key.duplicate();
        let root = match self.get_node_option(&root_node_key) {
            Ok(root) => root,
            Err(e) => {
                return Err(FreezeError::GetNodeFailed(e));
            },
        };
        let ghost resolved = root;
        let r = self.freeze_resolved::<H>(root);
        assert(!old(self)@.freeze_conflicts(resolved));
        r
    }

    /// Hands over everything frozen: the root hash of each frozen version in freeze order, and
    /// the batch of nodes, values, stale markers and per-version statistics to write.
    pub fn export(self) -> (r: (Vec<RootHash>, TreeUpdateBatch))
        requires
            self.wf(),
        ensures
            r.0@.map_values(|h: RootHash| h.0@) == self@.root_hashes,
            r.1.node_batch.nodes.wf(),
            r.1.node_batch.nodes@ == self@.frozen_nodes,
            r.1.node_batch.values.wf(),
            r.1.node_batch.values@ == self@.frozen_values,
            stale_index_set(r.1.stale_node_index_batch@) == self@.frozen_stale,
            r.1.node_stats@ == self@.node_stats,
    {
        proof {
            self.lemma_exported_parts();
        }
        <(Vec<RootHash>, TreeUpdateBatch)>::from(self)
    }

    /// What `export`, and converting the cache, hand over.
    pub closed spec fn exported_parts(&self) -> (Vec<RootHash>, TreeUpdateBatch) {
        (
            self.frozen_cache.root_hashes,
            TreeUpdateBatch {
                node_batch: self.frozen_cache.node_cache,
                stale_node_index_batch: self.frozen_cache.stale_node_index_cache,
                node_stats: self.frozen_cache.node_stats,
            },
        )
    }

    /// What is handed over is everything frozen: the root hash of each frozen version in freeze
    /// order, and the nodes, values, stale markers and per-version statistics.
    pub proof fn lemma_exported_parts(&self)
        requires
            self.wf(),
        ensures
            self.exported_parts().0@.map_values(|h: RootHash| h.0@) == self@.root_hashes,
            self.exported_parts().1.node_batch.nodes.wf(),
            self.exported_parts().1.node_batch.nodes@ == self@.frozen_nodes,
            self.exported_parts().1.node_batch.values.wf(),
            self.exported_parts().1.node_batch.values@ == self@.frozen_values,
            stale_index_set(self.exported_parts().1.stale_node_index_batch@) == self@.frozen_stale,
            self.exported_parts().1.node_stats@ == self@.node_stats,
    {
        assert(stale_index_set(self.frozen_cache.stale_node_index_cache@) =~= self@.frozen_stale);
    }

    /// Whether `node_key` is already marked stale in the current version.
    pub fn is_stale(&self, node_key: &NodeKey) -> (r: bool)
        requires
            self.wf(),
        ensures
            r == self@.stale.contains_key(node_key@),
    {
        self.stale_node_index_cache.find(node_key).is_some()
    }

    /// Deletes the node under `old_node_key`. A node staged in the current version vanishes;
    /// any other belongs to a persisted version and is marked stale. A key may be marked stale
    /// only once per version.
    pub fn delete_node(&mut self, old_node_key: &NodeKey, is_leaf: bool)
        requires
            old(self).wf(),
            old(self)@.nodes.contains_key(old_node_key@) || !old(self)@.stale.contains_key(old_node_key@),
        ensures
            final(self).wf(),
            final(self)@ == old(self)@.delete_node(old_node_key@, is_leaf),
    {
        let ghost k = old_node_key@;
        let ghost before = self.node_cache@;
        match self.node_cache.remove(old_node_key) {
            None => {
                proof {
                    lemma_stale_leaf_count_insert(self.stale_node_index_cache@, k, is_leaf);
                }
                assert(self.node_cache@ =~= before);
                let marked = self.stale_node_index_cache.insert_new(old_node_key.duplicate(), is_leaf);
                if is_leaf {
                    // The stale leaves, the new one among them, are at most all stale markers.
                    assert(self.num_stale_leaves < marked);
                    self.num_stale_leaves = self.num_stale_leaves + 1;
                }
            },
            Some(node) => {
                proof {
                    lemma_leaf_count_remove(before, k);
                }
                if node.is_leaf() {
                    self.num_new_leaves = self.num_new_leaves - 1;
                }
            },
        }
        assert(self@ =~= old(self)@.delete_node(k, is_leaf));
    }
}

/// Converting a cache hands over everything frozen, as `export` does; `lemma_exported_parts`
/// says what that is.
impl<'a, R: TreeReader> From<TreeCache<'a, R>> for (Vec<RootHash>, TreeUpdateBatch) {
    fn from(tree_cache: TreeCache<'a, R>) -> (r: (Vec<RootHash>, TreeUpdateBatch)) {
        let frozen = tree_cache.frozen_cache;
        (
            frozen.root_hashes,
            TreeUpdateBatch {
                node_batch: frozen.node_cache,
                stale_node_index_batch: frozen.stale_node_index_cache,
                node_stats: frozen.node_stats,
            },
        )
    }
}

impl<'a, R: TreeReader> vstd::std_specs::convert::FromSpecImpl<TreeCache<'a, R>> for (Vec<RootHash>, TreeUpdateBatch) {
    open spec fn obeys_from_spec() -> bool {
        true
    }

    open spec fn from_spec(tree_cache: TreeCache<'a, R>) -> (Vec<RootHash>, TreeUpdateBatch) {
        tree_cache.exported_parts()
    }
}

/// A cache reads as its reader does, with what it has staged and frozen on top. It does not
/// look up the rightmost leaf.
impl<'a, R: TreeReader> TreeReader for TreeCache<'a, R> {
    type Error = CacheError<R::Error>;

    open spec fn well_formed(&self) -> bool {
        self.wf()
    }

    fn get_node_option(&self, node_key: &NodeKey) -> (r: Result<Option<Node>, CacheError<R::Error>>) {
        match TreeCache::get_node_option(self, node_key) {
            Ok(found) => Ok(found),
            Err(e) => Err(CacheError::ReadFailed(e)),
        }
    }

    fn get_value_option(&self, max_version: u64, key_hash: KeyHash) -> (r: Result<
        Option<Vec<u8>>,
        CacheError<R::Error>,
    >) {
        match TreeCache::get_value_option(self, max_version, key_hash) {
            Ok(found) => Ok(found),
            Err(e) => Err(CacheError::ReadFailed(e)),
        }
    }

    fn get_rightmost_leaf(&self) -> (r: Result<Option<(NodeKey, LeafNode)>, CacheError<R::Error>>)
        ensures
            r matches Err(e) && e is RightmostLeafUnsupported,
    {
        Err(CacheError::RightmostLeafUnsupported)
    }
}

} // verus!
