//! Properties that hold across operations of the cache, stated over its abstract state.
use vstd::prelude::*;
use crate::hashing::{node_digest, SimpleHasher, SPARSE_MERKLE_PLACEHOLDER_HASH};
use crate::model::{
    genesis_view, lemma_leaf_count_insert, lemma_leaf_count_remove, lemma_stale_leaf_count_insert,
    leaf_count, stale_leaf_count, CacheView,
};
use crate::types::{KeyView, Node};

verus! {

/// Staging a node under a key that is already staged changes nothing: the first node stays,
/// so a second `put_node` on the key reports the conflict.
pub proof fn put_node_twice_keeps_first(v: CacheView, k: KeyView, first: Node, second: Node)
    ensures
        v.put_node(k, first).nodes.contains_key(k),
        v.put_node(k, first).put_node(k, second) == v.put_node(k, first),
        !v.nodes.contains_key(k) ==> v.put_node(k, first).nodes[k] == first,
{
}

/// A staged node stays staged, unchanged, through operations on other keys.
pub proof fn staged_node_survives_other_keys(
    v: CacheView,
    k: KeyView,
    other: KeyView,
    n: Node,
    is_leaf: bool,
)
    requires
        v.nodes.contains_key(k),
        other != k,
    ensures
        v.put_node(other, n).nodes.contains_key(k),
        v.put_node(other, n).nodes[k] == v.nodes[k],
        v.delete_node(other, is_leaf).nodes.contains_key(k),
        v.delete_node(other, is_leaf).nodes[k] == v.nodes[k],
{
}

/// Staging a node under a fresh key and then deleting it restores the state exactly: no node,
/// no stale marker, and the same leaf counts.
pub proof fn put_then_delete_restores(v: CacheView, k: KeyView, n: Node, is_leaf: bool)
    requires
        v.inv(),
        !v.nodes.contains_key(k),
    ensures
        v.put_node(k, n).delete_node(k, is_leaf) == v,
{
    lemma_leaf_count_insert(v.nodes, k, n);
    let p = v.put_node(k, n);
    assert(p.nodes.remove(k) =~= v.nodes);
}

/// Deleting a node staged in the current version removes it and leaves no stale marker for it,
/// now or after the next freeze; nor is it frozen, unless it is the root key or its copy.
pub proof fn delete_staged_leaves_no_trace<H: SimpleHasher>(
    v: CacheView,
    k: KeyView,
    is_leaf: bool,
    root: Option<Node>,
)
    requires
        v.nodes.contains_key(k),
        !v.stale.contains_key(k),
    ensures
        !v.delete_node(k, is_leaf).nodes.contains_key(k),
        v.delete_node(k, is_leaf).stale == v.stale,
        forall|w: u64|
            #[trigger] v.delete_node(k, is_leaf).freeze::<H>(root).frozen_stale.contains((w, k))
                ==> v.frozen_stale.contains((w, k)),
        !v.frozen_nodes.contains_key(k) && k != v.root_node_key && k != (
            v.next_version,
            v.root_node_key.1,
        ) ==> !v.delete_node(k, is_leaf).freeze::<H>(root).frozen_nodes.contains_key(k),
{
    let d = v.delete_node(k, is_leaf);
    let s = d.freeze_staged(root);
    assert(s.stale == d.stale);
}

/// Deleting a key that is not staged marks it stale, and the next freeze records exactly one
/// stale marker for it, tagged with the version being frozen.
pub proof fn delete_persisted_marks_stale_once<H: SimpleHasher>(
    v: CacheView,
    k: KeyView,
    is_leaf: bool,
    root: Option<Node>,
)
    requires
        !v.nodes.contains_key(k),
        !v.stale.contains_key(k),
    ensures
        v.delete_node(k, is_leaf).stale.contains_key(k),
        v.delete_node(k, is_leaf).freeze::<H>(root).frozen_stale.contains((v.next_version, k)),
        forall|w: u64|
            #[trigger] v.delete_node(k, is_leaf).freeze::<H>(root).frozen_stale.contains((w, k))
                && !v.frozen_stale.contains((w, k)) ==> w == v.next_version,
{
    let d = v.delete_node(k, is_leaf);
    let s = d.freeze_staged(root);
    assert(s.stale == d.stale);
}

/// In every well-formed state the leaf counters count the staged leaves and the stale markers
/// of leaves.
pub proof fn leaf_counters_track_staging(v: CacheView)
    requires
        v.inv(),
    ensures
        v.num_new_leaves == leaf_count(v.nodes),
        v.num_stale_leaves == stale_leaf_count(v.stale),
{
}

/// Staging and deleting keep the leaf counters exact.
pub proof fn updates_keep_leaf_counters(v: CacheView, k: KeyView, n: Node, is_leaf: bool)
    requires
        v.inv(),
    ensures
        v.put_node(k, n).inv(),
        v.nodes.contains_key(k) || !v.stale.contains_key(k) ==> v.delete_node(k, is_leaf).inv(),
{
    if !v.nodes.contains_key(k) {
        lemma_leaf_count_insert(v.nodes, k, n);
        if !v.stale.contains_key(k) {
            lemma_stale_leaf_count_insert(v.stale, k, is_leaf);
        }
    } else {
        lemma_leaf_count_remove(v.nodes, k);
    }
}

/// Freezing leaves both leaf counters at zero.
pub proof fn freeze_resets_leaf_counters<H: SimpleHasher>(v: CacheView, root: Option<Node>)
    ensures
        v.freeze::<H>(root).num_new_leaves == 0,
        v.freeze::<H>(root).num_stale_leaves == 0,
        v.freeze::<H>(root).nodes == Map::<KeyView, Node>::empty(),
        v.freeze::<H>(root).stale == Map::<KeyView, bool>::empty(),
{
}

/// Freezing a version after the first with nothing staged, whose root resolves to `n`, stores
/// `n` under the frozen version's root key and records the digest of `n` as its root hash.
pub proof fn empty_version_copies_root<H: SimpleHasher>(v: CacheView, n: Node)
    requires
        v.inv(),
        v.next_version > 0,
        v.nodes.dom().len() == 0,
        v.stale.dom().len() == 0,
    ensures
        v.freeze::<H>(Some(n)).frozen_nodes.contains_key((v.next_version, v.root_node_key.1)),
        v.freeze::<H>(Some(n)).frozen_nodes[(v.next_version, v.root_node_key.1)] == n,
        v.freeze::<H>(Some(n)).root_hashes.last() == node_digest::<H>(n),
{
    vstd::set_lib::lemma_set_empty_equivalency_len(v.nodes.dom());
}

/// After a freeze whose root the cache itself resolved, an empty version frozen next, with the
/// same root key, records the same root hash and stores that root under its own version's key.
pub proof fn empty_version_repeats_root_hash<H: SimpleHasher>(v: CacheView, root: Option<Node>)
    requires
        v.inv(),
        v.next_version < u64::MAX,
        root is None ==> !v.nodes.contains_key(v.root_node_key),
        root matches Some(n) ==> v.cached_node(v.root_node_key) == Some(n),
    ensures
        ({
            let f = v.freeze::<H>(root);
            let g = f.freeze::<H>(f.cached_node(f.root_node_key));
            &&& f.cached_node(f.root_node_key) == Some(CacheView::freeze_root(root))
            &&& g.root_hashes.last() == f.root_hashes.last()
            &&& g.frozen_nodes.contains_key((f.next_version, f.root_node_key.1))
            &&& g.frozen_nodes[(f.next_version, f.root_node_key.1)] == CacheView::freeze_root(root)
        }),
{
    let f = v.freeze::<H>(root);
    let s = v.freeze_staged(root);
    let rk = v.root_node_key;
    assert(s.nodes.contains_key(rk) || s.frozen_nodes.contains_key(rk));
    assert(f.frozen_nodes.contains_key(rk));
    assert(f.frozen_nodes[rk] == CacheView::freeze_root(root));
    assert(f.cached_node(rk) == Some(CacheView::freeze_root(root)));
    assert(f.nodes.dom() =~= Set::<KeyView>::empty());
    assert(f.stale.dom() =~= Set::<KeyView>::empty());
}

/// A fresh cache for version 0 over a store without a pre-genesis root resolves its root key,
/// without the external reader, to the null node, whose digest is the placeholder.
pub proof fn genesis_root_is_null<H: SimpleHasher>()
    ensures
        genesis_view().cached_node(genesis_view().root_node_key) == Some(Node::Null),
        node_digest::<H>(Node::Null) == SPARSE_MERKLE_PLACEHOLDER_HASH@,
{
}

/// The state after freezing once for each root in `roots`, in order.
pub open spec fn freeze_each<H: SimpleHasher>(v: CacheView, roots: Seq<Option<Node>>) -> CacheView
    decreases roots.len(),
{
    if roots.len() == 0 {
        v
    } else {
        freeze_each::<H>(v, roots.drop_last()).freeze::<H>(roots.last())
    }
}

/// Each freeze adds exactly one root hash and one statistics record, after those of earlier
/// freezes, so a cache frozen K times exports K of each, in freeze order.
pub proof fn one_record_per_freeze<H: SimpleHasher>(v: CacheView, roots: Seq<Option<Node>>)
    ensures
        freeze_each::<H>(v, roots).root_hashes.len() == v.root_hashes.len() + roots.len(),
        freeze_each::<H>(v, roots).node_stats.len() == v.node_stats.len() + roots.len(),
        freeze_each::<H>(v, roots).root_hashes.subrange(0, v.root_hashes.len() as int) == v.root_hashes,
        forall|i: int|
            0 <= i < roots.len() ==> #[trigger] freeze_each::<H>(v, roots).root_hashes[v.root_hashes.len() + i]
                == node_digest::<H>(CacheView::freeze_root(roots[i])),
    decreases roots.len(),
{
    if roots.len() > 0 {
        let prefix = roots.drop_last();
        one_record_per_freeze::<H>(v, prefix);
        let p = freeze_each::<H>(v, prefix);
        let f = freeze_each::<H>(v, roots);
        let s = p.freeze_staged(roots.last());
        assert(s.root_hashes == p.root_hashes);
        assert(s.node_stats == p.node_stats);
        assert(f.root_hashes == p.root_hashes.push(node_digest::<H>(CacheView::freeze_root(roots.last()))));
        assert(f.root_hashes.subrange(0, v.root_hashes.len() as int) =~= v.root_hashes) by {
            assert(p.root_hashes.subrange(0, v.root_hashes.len() as int) == v.root_hashes);
        }
        assert forall|i: int| 0 <= i < roots.len() implies #[trigger] f.root_hashes[v.root_hashes.len() + i]
            == node_digest::<H>(CacheView::freeze_root(roots[i])) by {
            if i < prefix.len() {
                assert(prefix[i] == roots[i]);
            }
        }
    }
}

} // verus!
