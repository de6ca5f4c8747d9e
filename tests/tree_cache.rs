use std::cell::Cell;

use jmt::hashing::{Sha256Hasher, SimpleHasher, SPARSE_MERKLE_PLACEHOLDER_HASH};
use jmt::reader::TreeReader;
use jmt::tree_cache::{CacheError, FreezeError, FrozenTreeCache, TreeCache, TreeUpdateBatch};
use jmt::types::RootHash;
use jmt::types::{Child, InternalNode, KeyHash, LeafNode, Node, NodeKey, PRE_GENESIS_VERSION};

#[derive(Default)]
struct MemReader {
    nodes: Vec<(NodeKey, Node)>,
    values: Vec<(u64, [u8; 32], Option<Vec<u8>>)>,
    rightmost: Option<(NodeKey, LeafNode)>,
    fail: bool,
    reads: Cell<usize>,
}

fn same_key(a: &NodeKey, b: &NodeKey) -> bool {
    a.version == b.version && a.path == b.path
}

impl TreeReader for MemReader {
    type Error = String;

    fn get_node_option(&self, node_key: &NodeKey) -> Result<Option<Node>, String> {
        self.reads.set(self.reads.get() + 1);
        if self.fail {
            return Err("storage failure".to_string());
        }
        Ok(self.nodes.iter().find(|(k, _)| same_key(k, node_key)).map(|(_, n)| *n))
    }

    fn get_value_option(&self, max_version: u64, key_hash: KeyHash) -> Result<Option<Vec<u8>>, String> {
        self.reads.set(self.reads.get() + 1);
        let mut best: Option<(u64, Option<Vec<u8>>)> = None;
        for (v, kh, val) in &self.values {
            if *kh == key_hash.0 && *v <= max_version && best.as_ref().map_or(true, |(b, _)| *b < *v) {
                best = Some((*v, val.clone()));
            }
        }
        Ok(best.and_then(|(_, v)| v))
    }

    fn get_rightmost_leaf(&self) -> Result<Option<(NodeKey, LeafNode)>, String> {
        if self.fail {
            return Err("storage failure".to_string());
        }
        Ok(self.rightmost.as_ref().map(|(k, l)| (NodeKey { version: k.version, path: k.path.clone() }, *l)))
    }
}

fn key(version: u64, path: &[u8]) -> NodeKey {
    NodeKey { version, path: path.to_vec() }
}

fn leaf(k: u8, v: u8) -> Node {
    Node::Leaf(LeafNode { key_hash: KeyHash([k; 32]), value_hash: [v; 32] })
}

fn internal(h: u8) -> Node {
    let mut children = [None; 16];
    children[3] = Some(Child { hash: [h; 32], version: 1, is_leaf: true });
    Node::Internal(InternalNode { children })
}

fn is_null(n: &Node) -> bool {
    matches!(n, Node::Null)
}

fn leaf_key_byte(n: &Node) -> Option<u8> {
    match n {
        Node::Leaf(l) => Some(l.key_hash.0[0]),
        _ => None,
    }
}

#[test]
fn genesis_stages_null_root_without_reading_it() {
    let reader = MemReader::default();
    let cache = TreeCache::new(&reader, 0).unwrap();
    assert_eq!(reader.reads.get(), 1);
    let root = cache.get_root_node_key();
    assert_eq!(root.version, 0);
    assert!(root.path.is_empty());
    let found = cache.get_node_option(&key(0, &[])).unwrap();
    assert!(is_null(&found.unwrap()));
    assert_eq!(reader.reads.get(), 1);
}

#[test]
fn genesis_root_hash_is_placeholder() {
    let reader = MemReader::default();
    let mut cache = TreeCache::new(&reader, 0).unwrap();
    cache.freeze::<Sha256Hasher>().unwrap();
    let (hashes, batch) = cache.export();
    assert_eq!(hashes.len(), 1);
    assert_eq!(hashes[0].0, SPARSE_MERKLE_PLACEHOLDER_HASH);
    assert_eq!(&SPARSE_MERKLE_PLACEHOLDER_HASH, b"SPARSE_MERKLE_PLACEHOLDER_HASH__");
    let root = batch.node_batch.nodes.get(&key(0, &[])).unwrap();
    assert!(is_null(&root));
    assert_eq!(batch.node_stats[0].new_nodes, 1);
}

#[test]
fn pre_genesis_root_becomes_root_pointer() {
    let mut reader = MemReader::default();
    reader.nodes.push((key(PRE_GENESIS_VERSION, &[]), leaf(1, 2)));
    let cache = TreeCache::new(&reader, 0).unwrap();
    let root = cache.get_root_node_key();
    assert_eq!(root.version, PRE_GENESIS_VERSION);
    assert!(root.path.is_empty());
    assert_eq!(cache.get_node_option(&key(0, &[])).unwrap().map(|n| is_null(&n)), None);
}

#[test]
fn later_version_points_at_previous_root() {
    let reader = MemReader::default();
    let cache = TreeCache::new(&reader, 5).unwrap();
    assert_eq!(reader.reads.get(), 0);
    assert_eq!(cache.get_root_node_key().version, 4);
    assert!(cache.get_root_node_key().path.is_empty());
}

#[test]
fn constructing_at_genesis_reports_reader_failure() {
    let reader = MemReader { fail: true, ..Default::default() };
    assert!(matches!(TreeCache::new(&reader, 0), Err(CacheError::ReadFailed(_))));
}

#[test]
fn second_put_of_a_key_conflicts_and_keeps_first() {
    let reader = MemReader::default();
    let mut cache = TreeCache::new(&reader, 1).unwrap();
    cache.put_node(key(1, &[2]), leaf(7, 1)).unwrap();
    cache.put_node(key(1, &[3]), leaf(8, 1)).unwrap();
    let err = cache.put_node(key(1, &[2]), leaf(9, 1)).unwrap_err();
    assert_eq!(err.key.version, 1);
    assert_eq!(err.key.path, vec![2]);
    assert_eq!(leaf_key_byte(&err.node), Some(9));
    let kept = cache.get_node(&key(1, &[2])).unwrap();
    assert_eq!(leaf_key_byte(&kept), Some(7));
}

#[test]
fn put_again_after_delete_succeeds() {
    let reader = MemReader::default();
    let mut cache = TreeCache::new(&reader, 1).unwrap();
    cache.put_node(key(1, &[2]), leaf(7, 1)).unwrap();
    cache.delete_node(&key(1, &[2]), true);
    cache.put_node(key(1, &[2]), leaf(9, 1)).unwrap();
    assert_eq!(leaf_key_byte(&cache.get_node(&key(1, &[2])).unwrap()), Some(9));
}

#[test]
fn deleting_staged_node_leaves_no_stale_marker() {
    let reader = MemReader::default();
    let mut cache = TreeCache::new(&reader, 0).unwrap();
    cache.put_node(key(0, &[1]), leaf(1, 1)).unwrap();
    cache.delete_node(&key(0, &[1]), true);
    assert!(!cache.is_stale(&key(0, &[1])));
    cache.freeze::<Sha256Hasher>().unwrap();
    let (_, batch) = cache.export();
    assert!(batch.stale_node_index_batch.is_empty());
    assert!(batch.node_batch.nodes.get(&key(0, &[1])).is_none());
    assert_eq!(batch.node_stats[0].new_leaves, 0);
}

#[test]
fn deleting_persisted_node_marks_it_stale_once() {
    let mut reader = MemReader::default();
    reader.nodes.push((key(1, &[]), internal(4)));
    let mut cache = TreeCache::new(&reader, 2).unwrap();
    cache.delete_node(&key(1, &[5]), true);
    assert!(cache.is_stale(&key(1, &[5])));
    cache.freeze::<Sha256Hasher>().unwrap();
    let (_, batch) = cache.export();
    assert_eq!(batch.stale_node_index_batch.len(), 1);
    let mark = &batch.stale_node_index_batch[0];
    assert_eq!(mark.stale_since_version, 2);
    assert_eq!(mark.node_key.version, 1);
    assert_eq!(mark.node_key.path, vec![5]);
    assert_eq!(batch.node_stats[0].stale_nodes, 1);
    assert_eq!(batch.node_stats[0].stale_leaves, 1);
}

#[test]
fn leaf_counters_follow_puts_and_deletes() {
    let mut reader = MemReader::default();
    reader.nodes.push((key(2, &[]), internal(1)));
    let mut cache = TreeCache::new(&reader, 3).unwrap();
    cache.put_node(key(3, &[1]), leaf(1, 1)).unwrap();
    cache.put_node(key(3, &[2]), leaf(2, 1)).unwrap();
    cache.put_node(key(3, &[]), internal(2)).unwrap();
    cache.delete_node(&key(3, &[1]), true);
    cache.delete_node(&key(2, &[7]), true);
    cache.delete_node(&key(2, &[8]), false);
    cache.set_root_node_key(key(3, &[]));
    cache.freeze::<Sha256Hasher>().unwrap();
    cache.freeze::<Sha256Hasher>().unwrap();
    let (_, batch) = cache.export();
    let first = batch.node_stats[0];
    assert_eq!(first.new_nodes, 2);
    assert_eq!(first.new_leaves, 1);
    assert_eq!(first.stale_nodes, 2);
    assert_eq!(first.stale_leaves, 1);
    let second = batch.node_stats[1];
    assert_eq!(second.new_nodes, 1);
    assert_eq!(second.new_leaves, 0);
    assert_eq!(second.stale_nodes, 0);
    assert_eq!(second.stale_leaves, 0);
}

#[test]
fn empty_version_repeats_previous_root_hash() {
    let mut reader = MemReader::default();
    reader.nodes.push((key(0, &[]), leaf(3, 4)));
    let mut cache = TreeCache::new(&reader, 1).unwrap();
    cache.freeze::<Sha256Hasher>().unwrap();
    cache.freeze::<Sha256Hasher>().unwrap();
    let (hashes, batch) = cache.export();
    assert_eq!(hashes.len(), 2);
    assert_eq!(hashes[0].0, hashes[1].0);
    assert_eq!(hashes[0].0, leaf(3, 4).hash::<Sha256Hasher>());
    assert_ne!(hashes[0].0, SPARSE_MERKLE_PLACEHOLDER_HASH);
    let copied = batch.node_batch.nodes.get(&key(1, &[])).unwrap();
    assert_eq!(copied.hash::<Sha256Hasher>(), hashes[0].0);
    let copied_again = batch.node_batch.nodes.get(&key(2, &[])).unwrap();
    assert_eq!(leaf_key_byte(&copied_again), Some(3));
}

#[test]
fn missing_root_is_frozen_as_null() {
    let reader = MemReader::default();
    let mut cache = TreeCache::new(&reader, 1).unwrap();
    cache.freeze::<Sha256Hasher>().unwrap();
    let (hashes, batch) = cache.export();
    assert_eq!(hashes[0].0, SPARSE_MERKLE_PLACEHOLDER_HASH);
    assert!(is_null(&batch.node_batch.nodes.get(&key(0, &[])).unwrap()));
    assert_eq!(batch.node_stats[0].new_nodes, 1);
}

#[test]
fn export_has_one_hash_and_one_stats_record_per_freeze() {
    let reader = MemReader::default();
    let mut cache = TreeCache::new(&reader, 0).unwrap();
    cache.freeze::<Sha256Hasher>().unwrap();
    cache.put_node(key(1, &[]), leaf(5, 5)).unwrap();
    cache.set_root_node_key(key(1, &[]));
    cache.freeze::<Sha256Hasher>().unwrap();
    cache.freeze::<Sha256Hasher>().unwrap();
    let (hashes, batch) = cache.export();
    assert_eq!(hashes.len(), 3);
    assert_eq!(batch.node_stats.len(), 3);
    assert_eq!(hashes[0].0, SPARSE_MERKLE_PLACEHOLDER_HASH);
    assert_eq!(hashes[1].0, leaf(5, 5).hash::<Sha256Hasher>());
    assert_eq!(hashes[2].0, hashes[1].0);
    assert_eq!(batch.node_stats[1].new_leaves, 1);
}

#[test]
fn value_lookup_takes_latest_version_not_above_bound() {
    let mut reader = MemReader::default();
    reader.values.push((1, [9; 32], Some(vec![42])));
    let mut cache = TreeCache::new(&reader, 8).unwrap();
    cache.put_value(3, KeyHash([9; 32]), Some(vec![3]));
    cache.put_value(7, KeyHash([9; 32]), Some(vec![7]));
    assert_eq!(cache.get_value_option(5, KeyHash([9; 32])).unwrap(), Some(vec![3]));
    assert_eq!(cache.get_value_option(7, KeyHash([9; 32])).unwrap(), Some(vec![7]));
    assert_eq!(reader.reads.get(), 0);
    assert_eq!(cache.get_value_option(2, KeyHash([9; 32])).unwrap(), Some(vec![42]));
    assert_eq!(reader.reads.get(), 1);
}

#[test]
fn value_lookup_order_of_staging_does_not_matter() {
    let reader = MemReader::default();
    let mut cache = TreeCache::new(&reader, 8).unwrap();
    cache.put_value(7, KeyHash([9; 32]), Some(vec![7]));
    cache.put_value(3, KeyHash([9; 32]), Some(vec![3]));
    cache.put_value(5, KeyHash([1; 32]), Some(vec![1]));
    assert_eq!(cache.get_value_option(6, KeyHash([9; 32])).unwrap(), Some(vec![3]));
    assert_eq!(cache.get_value_option(100, KeyHash([9; 32])).unwrap(), Some(vec![7]));
}

#[test]
fn later_put_value_replaces_earlier_one() {
    let reader = MemReader::default();
    let mut cache = TreeCache::new(&reader, 8).unwrap();
    cache.put_value(4, KeyHash([2; 32]), Some(vec![1]));
    cache.put_value(4, KeyHash([2; 32]), None);
    assert_eq!(cache.get_staged_value(4, &KeyHash([2; 32])), Some(None));
}

#[test]
fn frozen_values_stay_visible() {
    let reader = MemReader::default();
    let mut cache = TreeCache::new(&reader, 1).unwrap();
    cache.put_value(1, KeyHash([6; 32]), Some(vec![1]));
    cache.put_node(key(1, &[]), leaf(6, 1)).unwrap();
    cache.set_root_node_key(key(1, &[]));
    cache.freeze::<Sha256Hasher>().unwrap();
    cache.put_value(2, KeyHash([6; 32]), Some(vec![2]));
    assert_eq!(cache.get_staged_value(1, &KeyHash([6; 32])), Some(Some(vec![1])));
    assert_eq!(cache.get_staged_value(2, &KeyHash([6; 32])), Some(Some(vec![2])));
    assert_eq!(cache.get_staged_value(0, &KeyHash([6; 32])), None);
    let (_, batch) = cache.export();
    assert_eq!(batch.node_batch.values.entries.len(), 1);
}

#[test]
fn node_lookup_goes_through_frozen_then_reader() {
    let mut reader = MemReader::default();
    reader.nodes.push((key(0, &[4]), leaf(4, 4)));
    let mut cache = TreeCache::new(&reader, 1).unwrap();
    cache.put_node(key(1, &[4]), leaf(5, 5)).unwrap();
    cache.put_node(key(1, &[]), internal(5)).unwrap();
    cache.set_root_node_key(key(1, &[]));
    cache.freeze::<Sha256Hasher>().unwrap();
    let before = reader.reads.get();
    assert_eq!(leaf_key_byte(&cache.get_node(&key(1, &[4])).unwrap()), Some(5));
    assert_eq!(reader.reads.get(), before);
    assert_eq!(leaf_key_byte(&cache.get_node(&key(0, &[4])).unwrap()), Some(4));
    assert!(matches!(cache.get_node(&key(0, &[9])), Err(CacheError::NodeMissing)));
}

#[test]
fn node_lookup_reports_reader_failure() {
    let reader = MemReader { fail: true, ..Default::default() };
    let cache = TreeCache::new(&reader, 3).unwrap();
    assert!(matches!(cache.get_node(&key(2, &[])), Err(CacheError::ReadFailed(_))));
    assert!(cache.get_node_option(&key(2, &[])).is_err());
}

#[test]
fn freeze_reports_reader_failure() {
    let reader = MemReader { fail: true, ..Default::default() };
    let mut cache = TreeCache::new(&reader, 3).unwrap();
    assert!(matches!(cache.freeze::<Sha256Hasher>(), Err(FreezeError::GetNodeFailed(_))));
    let (hashes, batch) = cache.export();
    assert!(hashes.is_empty());
    assert!(batch.node_stats.is_empty());
}

#[test]
fn freeze_with_missing_root_conflicts_when_root_key_staged() {
    let reader = MemReader::default();
    let mut cache = TreeCache::new(&reader, 1).unwrap();
    cache.put_node(key(0, &[]), leaf(1, 1)).unwrap();
    assert!(matches!(cache.freeze_resolved::<Sha256Hasher>(None), Err(FreezeError::PutNodeFailed(_))));
    cache.freeze_resolved::<Sha256Hasher>(Some(leaf(1, 1))).unwrap();
    let (hashes, _) = cache.export();
    assert_eq!(hashes.len(), 1);
}

#[test]
fn overwrite_cache_needs_non_empty_tree_at_latest_version() {
    let reader = MemReader::default();
    assert!(matches!(TreeCache::new_overwrite(&reader, 3), Err(CacheError::EmptyTree)));
    let reader = MemReader {
        rightmost: Some((key(3, &[1]), LeafNode { key_hash: KeyHash([1; 32]), value_hash: [1; 32] })),
        ..Default::default()
    };
    assert!(matches!(TreeCache::new_overwrite(&reader, 4), Err(CacheError::NotLatestVersion)));
    let cache = TreeCache::new_overwrite(&reader, 3).unwrap();
    assert_eq!(cache.get_root_node_key().version, 3);
    let failing = MemReader { fail: true, ..Default::default() };
    assert!(matches!(TreeCache::new_overwrite(&failing, 3), Err(CacheError::ReadFailed(_))));
}

#[test]
fn overwrite_cache_freezes_into_same_version() {
    let mut reader = MemReader {
        rightmost: Some((key(3, &[1]), LeafNode { key_hash: KeyHash([1; 32]), value_hash: [1; 32] })),
        ..Default::default()
    };
    reader.nodes.push((key(3, &[]), internal(8)));
    let mut cache = TreeCache::new_overwrite(&reader, 3).unwrap();
    cache.put_node(key(3, &[2]), leaf(2, 2)).unwrap();
    cache.freeze::<Sha256Hasher>().unwrap();
    let (hashes, batch) = cache.export();
    assert_eq!(hashes[0].0, internal(8).hash::<Sha256Hasher>());
    assert!(batch.node_batch.nodes.get(&key(3, &[2])).is_some());
}

#[test]
fn node_hashes_depend_on_content() {
    assert_eq!(Node::Null.hash::<Sha256Hasher>(), SPARSE_MERKLE_PLACEHOLDER_HASH);
    let l = leaf(1, 2);
    let mut pre = vec![0u8];
    pre.extend_from_slice(&[1; 32]);
    pre.extend_from_slice(&[2; 32]);
    assert_eq!(l.hash::<Sha256Hasher>(), Sha256Hasher::hash(&pre));
    assert_ne!(l.hash::<Sha256Hasher>(), leaf(1, 3).hash::<Sha256Hasher>());
    let mut ipre = vec![1u8];
    for i in 0..16 {
        if i == 3 {
            ipre.extend_from_slice(&[7; 32]);
        } else {
            ipre.extend_from_slice(&SPARSE_MERKLE_PLACEHOLDER_HASH);
        }
    }
    assert_eq!(internal(7).hash::<Sha256Hasher>(), Sha256Hasher::hash(&ipre));
}

#[test]
fn frozen_part_starts_empty() {
    let _frozen = FrozenTreeCache::new();
    let reader = MemReader::default();
    let cache = TreeCache::new(&reader, 3).unwrap();
    let (hashes, batch) = cache.export();
    assert!(hashes.is_empty());
    assert!(batch.node_stats.is_empty());
    assert!(batch.stale_node_index_batch.is_empty());
    assert!(batch.node_batch.nodes.entries.is_empty());
    assert!(batch.node_batch.values.entries.is_empty());
}

#[test]
fn freezing_the_largest_version_is_refused() {
    let mut reader = MemReader::default();
    reader.nodes.push((key(u64::MAX - 1, &[]), leaf(1, 1)));
    let mut cache = TreeCache::new(&reader, u64::MAX).unwrap();
    cache.put_node(key(u64::MAX, &[1]), leaf(2, 2)).unwrap();
    assert!(matches!(cache.freeze::<Sha256Hasher>(), Err(FreezeError::VersionOverflow)));
    assert!(cache.get_node_option(&key(u64::MAX, &[1])).unwrap().is_some());
    let (hashes, batch) = cache.export();
    assert!(hashes.is_empty());
    assert!(batch.node_stats.is_empty());
}

#[test]
fn sha256_hasher_gives_known_digests() {
    let empty = Sha256Hasher::hash(&[]);
    assert_eq!(empty[0..4], [0xe3, 0xb0, 0xc4, 0x42]);
    assert_eq!(empty[28..32], [0x78, 0x52, 0xb8, 0x55]);
    let abc = Sha256Hasher::hash(b"abc");
    assert_eq!(abc[0..4], [0xba, 0x78, 0x16, 0xbf]);
}

#[test]
fn cache_serves_as_reader_for_another_cache() {
    let mut reader = MemReader::default();
    reader.nodes.push((key(0, &[]), internal(1)));
    let mut outer = TreeCache::new(&reader, 1).unwrap();
    outer.put_node(key(1, &[]), leaf(2, 2)).unwrap();
    outer.put_value(1, KeyHash([2; 32]), Some(vec![5]));
    let inner = TreeCache::new(&outer, 2).unwrap();
    assert_eq!(inner.get_root_node_key().version, 1);
    assert_eq!(leaf_key_byte(&inner.get_node(&key(1, &[])).unwrap()), Some(2));
    assert!(inner.get_node_option(&key(0, &[])).unwrap().is_some());
    assert_eq!(inner.get_value_option(9, KeyHash([2; 32])).unwrap(), Some(vec![5]));
}

#[test]
fn cache_as_reader_refuses_rightmost_leaf() {
    let reader = MemReader::default();
    let outer = TreeCache::new(&reader, 1).unwrap();
    assert!(matches!(outer.get_rightmost_leaf(), Err(CacheError::RightmostLeafUnsupported)));
    assert!(matches!(
        TreeCache::new_overwrite(&outer, 0),
        Err(CacheError::ReadFailed(CacheError::RightmostLeafUnsupported))
    ));
}

#[test]
fn conversion_hands_over_frozen_batch() {
    let reader = MemReader::default();
    let mut cache = TreeCache::new(&reader, 0).unwrap();
    cache.put_node(key(0, &[1]), leaf(1, 1)).unwrap();
    cache.freeze::<Sha256Hasher>().unwrap();
    let (hashes, batch): (Vec<RootHash>, TreeUpdateBatch) = cache.into();
    assert_eq!(hashes.len(), 1);
    assert_eq!(batch.node_stats.len(), 1);
    assert_eq!(batch.node_batch.nodes.entries.len(), 2);
    assert!(batch.node_batch.nodes.get(&key(0, &[1])).is_some());
}
