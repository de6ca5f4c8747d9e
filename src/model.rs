//! The abstract state of a tree cache and the transitions its operations make.
use vstd::prelude::*;
use crate::hashing::{node_digest, SimpleHasher};
use crate::keyed::ValueKey;
use crate::types::{KeyView, Node, NodeStats, StaleNodeIndex};

verus! {

/// What a tree cache holds, as mathematical values.
pub struct CacheView {
    /// Key of the root of the version under construction.
    pub root_node_key: KeyView,
    /// The version that the staged changes belong to.
    pub next_version: u64,
    /// Nodes staged in the current version.
    pub nodes: Map<KeyView, Node>,
    /// Values staged in the current version.
    pub values: Map<ValueKey, Option<Seq<u8>>>,
    pub num_new_leaves: nat,
    /// Persisted nodes made stale in the current version, each with whether it is a leaf.
    pub stale: Map<KeyView, bool>,
    pub num_stale_leaves: nat,
    /// Nodes of all frozen versions.
    pub frozen_nodes: Map<KeyView, Node>,
    /// Values of all frozen versions.
    pub frozen_values: Map<ValueKey, Option<Seq<u8>>>,
    /// Stale markers of all frozen versions: the version they became stale at, and the key.
    pub frozen_stale: Set<(u64, KeyView)>,
    /// Statistics of each frozen version, in freeze order.
    pub node_stats: Seq<NodeStats>,
    /// Root hash of each frozen version, in freeze order.
    pub root_hashes: Seq<Seq<u8>>,
}

/// The number of leaves in `m`.
pub open spec fn leaf_count(m: Map<KeyView, Node>) -> nat {
    m.dom().filter(|k: KeyView| m[k].is_leaf()).len()
}

/// The number of stale markers in `m` whose node is a leaf.
pub open spec fn stale_leaf_count(m: Map<KeyView, bool>) -> nat {
    m.dom().filter(|k: KeyView| m[k]).len()
}

/// 1 for a leaf, 0 otherwise.
pub open spec fn leaf_weight(is_leaf: bool) -> nat {
    if is_leaf { 1 } else { 0 }
}

/// The stale markers that freezing version `version` records for `stale`.
pub open spec fn stale_marks(version: u64, stale: Map<KeyView, bool>) -> Set<(u64, KeyView)> {
    Set::new(|e: (u64, KeyView)| e.0 == version && stale.contains_key(e.1))
}

/// The stale markers that a list of stale index records holds.
pub open spec fn stale_index_set(v: Seq<StaleNodeIndex>) -> Set<(u64, KeyView)> {
    Set::new(|e: (u64, KeyView)| exists|i: int| 0 <= i < v.len() && #[trigger] v[i]@ == e)
}

/// The values staged in frozen versions and in the current one, the current ones first.
pub open spec fn staged_values(v: CacheView) -> Map<ValueKey, Option<Seq<u8>>> {
    v.frozen_values.union_prefer_right(v.values)
}

/// Counting leaves after staging a new key.
pub proof fn lemma_leaf_count_insert(m: Map<KeyView, Node>, k: KeyView, n: Node)
    requires
        m.dom().finite(),
        !m.contains_key(k),
    ensures
        leaf_count(m.insert(k, n)) == leaf_count(m) + leaf_weight(n.is_leaf()),
        leaf_count(m) <= m.dom().len(),
{
    let m2 = m.insert(k, n);
    let f = m.dom().filter(|q: KeyView| m[q].is_leaf());
    let f2 = m2.dom().filter(|q: KeyView| m2[q].is_leaf());
    if n.is_leaf() {
        assert(f2 =~= f.insert(k));
    } else {
        assert(f2 =~= f);
    }
    vstd::set_lib::lemma_len_subset(f, m.dom());
}

/// Counting leaves after taking a staged key out.
pub proof fn lemma_leaf_count_remove(m: Map<KeyView, Node>, k: KeyView)
    requires
        m.dom().finite(),
        m.contains_key(k),
    ensures
        leaf_count(m.remove(k)) + leaf_weight(m[k].is_leaf()) == leaf_count(m),
{
    let m2 = m.remove(k);
    let f = m.dom().filter(|q: KeyView| m[q].is_leaf());
    let f2 = m2.dom().filter(|q: KeyView| m2[q].is_leaf());
    if m[k].is_leaf() {
        assert(f2 =~= f.remove(k));
    } else {
        assert(f2 =~= f);
    }
}

/// Counting stale leaves after marking a new key.
pub proof fn lemma_stale_leaf_count_insert(m: Map<KeyView, bool>, k: KeyView, is_leaf: bool)
    requires
        m.dom().finite(),
        !m.contains_key(k),
    ensures
        stale_leaf_count(m.insert(k, is_leaf)) == stale_leaf_count(m) + leaf_weight(is_leaf),
        stale_leaf_count(m) <= m.dom().len(),
{
    let m2 = m.insert(k, is_leaf);
    let f = m.dom().filter(|q: KeyView| m[q]);
    let f2 = m2.dom().filter(|q: KeyView| m2[q]);
    if is_leaf {
        assert(f2 =~= f.insert(k));
    } else {
        assert(f2 =~= f);
    }
    vstd::set_lib::lemma_len_subset(f, m.dom());
}

/// Empty maps hold no leaves.
pub proof fn lemma_counts_empty()
    ensures
        leaf_count(Map::empty()) == 0,
        stale_leaf_count(Map::empty()) == 0,
{
    assert(Map::<KeyView, Node>::empty().dom().filter(|q: KeyView| Map::<KeyView, Node>::empty()[q].is_leaf()) =~= Set::empty());
    assert(Map::<KeyView, bool>::empty().dom().filter(|q: KeyView| Map::<KeyView, bool>::empty()[q]) =~= Set::empty());
}

/// What every freeze does, whatever its root: the version advances, nothing stays staged, the
/// stale markers are recorded under the frozen version, and one root hash and one statistics
/// record are appended after the earlier ones.
pub proof fn lemma_freeze_facts<H: SimpleHasher>(v: CacheView, root: Option<Node>)
    requires
        v.next_version < u64::MAX,
    ensures
        ({
            let f = v.freeze::<H>(root);
            &&& f.next_version == v.next_version + 1
            &&& f.nodes == Map::<KeyView, Node>::empty()
            &&& f.values == Map::<ValueKey, Option<Seq<u8>>>::empty()
            &&& f.stale == Map::<KeyView, bool>::empty()
            &&& f.num_new_leaves == 0
            &&& f.num_stale_leaves == 0
            &&& f.frozen_stale == v.frozen_stale.union(stale_marks(v.next_version, v.stale))
            &&& f.root_hashes.len() == v.root_hashes.len() + 1
            &&& f.root_hashes.drop_last() == v.root_hashes
            &&& f.node_stats.len() == v.node_stats.len() + 1
            &&& f.node_stats.drop_last() == v.node_stats
        }),
{
    let s = v.freeze_staged(root);
    assert(s.stale == v.stale);
    assert(s.root_hashes == v.root_hashes);
    assert(s.node_stats == v.node_stats);
    assert(s.frozen_stale == v.frozen_stale);
    let f = v.freeze::<H>(root);
    assert(f.root_hashes.drop_last() =~= v.root_hashes);
    assert(f.node_stats.drop_last() =~= v.node_stats);
}

/// A cache with nothing staged or frozen, rooted at `root_node_key`.
pub open spec fn empty_view(root_node_key: KeyView, next_version: u64) -> CacheView {
    CacheView {
        root_node_key,
        next_version,
        nodes: Map::empty(),
        values: Map::empty(),
        num_new_leaves: 0,
        stale: Map::empty(),
        num_stale_leaves: 0,
        frozen_nodes: Map::empty(),
        frozen_values: Map::empty(),
        frozen_stale: Set::empty(),
        node_stats: Seq::empty(),
        root_hashes: Seq::empty(),
    }
}

/// A cache for version 0 over a store without a pre-genesis root: the empty tree's null root staged.
pub open spec fn genesis_view() -> CacheView {
    empty_view((0, Seq::empty()), 0).put_node((0, Seq::empty()), Node::Null)
}

impl CacheView {
    pub open spec fn inv(self) -> bool {
        &&& self.nodes.dom().finite()
        &&& self.stale.dom().finite()
        &&& self.values.dom().finite()
        &&& self.frozen_nodes.dom().finite()
        &&& self.frozen_values.dom().finite()
        &&& self.num_new_leaves == leaf_count(self.nodes)
        &&& self.num_stale_leaves == stale_leaf_count(self.stale)
        &&& self.node_stats.len() == self.root_hashes.len()
    }

    /// The node that a lookup of `k` finds without the external reader.
    pub open spec fn cached_node(self, k: KeyView) -> Option<Node> {
        if self.nodes.contains_key(k) {
            Some(self.nodes[k])
        } else if self.frozen_nodes.contains_key(k) {
            Some(self.frozen_nodes[k])
        } else {
            None
        }
    }

    /// Staging `n` under `k`: a key already staged keeps its node.
    pub open spec fn put_node(self, k: KeyView, n: Node) -> CacheView {
        if self.nodes.contains_key(k) {
            self
        } else {
            CacheView {
                nodes: self.nodes.insert(k, n),
                num_new_leaves: self.num_new_leaves + leaf_weight(n.is_leaf()),
                ..self
            }
        }
    }

    /// Deleting `k`: a staged node vanishes, any other key is marked stale.
    pub open spec fn delete_node(self, k: KeyView, is_leaf: bool) -> CacheView {
        if self.nodes.contains_key(k) {
            CacheView {
                nodes: self.nodes.remove(k),
                num_new_leaves: (self.num_new_leaves - leaf_weight(self.nodes[k].is_leaf())) as nat,
                ..self
            }
        } else {
            CacheView {
                stale: self.stale.insert(k, is_leaf),
                num_stale_leaves: self.num_stale_leaves + leaf_weight(is_leaf),
                ..self
            }
        }
    }

    /// Staging a value for `key_hash` at `version`, replacing an earlier one.
    pub open spec fn put_value(self, version: u64, key_hash: Seq<u8>, value: Option<Seq<u8>>) -> CacheView {
        CacheView { values: self.values.insert((version, key_hash), value), ..self }
    }

    /// Whether freezing with the resolved root `root` finds its null root already staged.
    pub open spec fn freeze_conflicts(self, root: Option<Node>) -> bool {
        root is None && self.nodes.contains_key(self.root_node_key)
    }

    /// The root node that freezing with the resolved root `root` hashes.
    pub open spec fn freeze_root(root: Option<Node>) -> Node {
        match root {
            Some(n) => n,
            None => Node::Null,
        }
    }

    /// The state just before the current version is folded into the frozen part: a missing root
    /// staged as the null node, and for an empty version after the first the root copied forward.
    pub open spec fn freeze_staged(self, root: Option<Node>) -> CacheView {
        let s = match root {
            Some(_) => self,
            None => self.put_node(self.root_node_key, Node::Null),
        };
        if self.next_version > 0 && s.nodes.dom().len() == 0 && s.stale.dom().len() == 0 {
            s.put_node((self.next_version, self.root_node_key.1), Self::freeze_root(root))
        } else {
            s
        }
    }

    /// Freezing the current version, whose root resolved to `root`, under the hash function `H`.
    pub open spec fn freeze<H: SimpleHasher>(self, root: Option<Node>) -> CacheView {
        let s = self.freeze_staged(root);
        CacheView {
            root_node_key: self.root_node_key,
            next_version: (self.next_version + 1) as u64,
            nodes: Map::empty(),
            values: Map::empty(),
            num_new_leaves: 0,
            stale: Map::empty(),
            num_stale_leaves: 0,
            frozen_nodes: s.frozen_nodes.union_prefer_right(s.nodes),
            frozen_values: s.frozen_values.union_prefer_right(s.values),
            frozen_stale: s.frozen_stale.union(stale_marks(self.next_version, s.stale)),
            node_stats: s.node_stats.push(
                NodeStats {
                    new_nodes: s.nodes.dom().len() as usize,
                    new_leaves: s.num_new_leaves as usize,
                    stale_nodes: s.stale.dom().len() as usize,
                    stale_leaves: s.num_stale_leaves as usize,
                },
            ),
            root_hashes: s.root_hashes.push(node_digest::<H>(Self::freeze_root(root))),
        }
    }
}

} // verus!
