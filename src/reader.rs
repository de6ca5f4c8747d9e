//! The read side of durable storage, as the cache consumes it.
use vstd::prelude::*;
use crate::types::{KeyHash, LeafNode, Node, NodeKey};

verus! {

/// Reads nodes and values of versions that are already persisted.
pub trait TreeReader {
    type Error;

    /// Whether the reader is in a state in which it serves reads.
    open spec fn well_formed(&self) -> bool {
        true
    }

    /// The node stored under `node_key`, or `None` where there is none.
    fn get_node_option(&self, node_key: &NodeKey) -> Result<Option<Node>, Self::Error>
        requires
            self.well_formed(),
    ;

    /// The value of `key_hash` at the greatest version not above `max_version`.
    fn get_value_option(&self, max_version: u64, key_hash: KeyHash) -> Result<
        Option<Vec<u8>>,
        Self::Error,
    >
        requires
            self.well_formed(),
    ;

    /// The rightmost leaf of the latest tree, with its key, or `None` for an empty tree.
    fn get_rightmost_leaf(&self) -> Result<Option<(NodeKey, LeafNode)>, Self::Error>
        requires
            self.well_formed(),
    ;
}

} // verus!
