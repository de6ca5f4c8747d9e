//! Keys, nodes and batch records shared by the cache and its collaborators.
use vstd::prelude::*;

verus! {

/// A tree version number.
pub type Version = u64;

/// The sentinel version below every real version, under which a pre-genesis root may be stored.
pub const PRE_GENESIS_VERSION: u64 = 0xffff_ffff_ffff_ffff;

/// Abstract value of a node key: its version and its nibble path.
pub type KeyView = (u64, Seq<u8>);

/// Identity of a node: the version it was written at and the nibble path from the root.
#[derive(Clone, Debug)]
pub struct NodeKey {
    pub version: u64,
    pub path: Vec<u8>,
}

impl View for NodeKey {
    type V = KeyView;

    open spec fn view(&self) -> KeyView {
        (self.version, self.path@)
    }
}

/// Copies a byte vector element by element.
pub fn copy_bytes(b: &Vec<u8>) -> (r: Vec<u8>)
    ensures
        r@ == b@,
{
    let mut r: Vec<u8> = Vec::with_capacity(b.len());
    let mut i: usize = 0;
    while i < b.len()
        invariant
            i <= b.len(),
            r@ == b@.subrange(0, i as int),
        decreases b.len() - i,
    {
        r.push(b[i]);
        i += 1;
    }
    assert(r@ =~= b@);
    r
}

impl NodeKey {
    /// The key of the root node at `version`.
    pub fn new_empty_path(version: u64) -> (r: NodeKey)
        ensures
            r@ == (version, Seq::<u8>::empty()),
    {
        NodeKey { version, path: Vec::new() }
    }

    pub fn version(&self) -> (r: u64)
        ensures
            r == self.version,
    {
        self.version
    }

    /// Replaces the version, keeping the path.
    pub fn set_version(&mut self, version: u64)
        ensures
            final(self)@ == (version, old(self)@.1),
    {
        self.version = version;
    }

    /// A key equal to this one.
    pub fn duplicate(&self) -> (r: NodeKey)
        ensures
            r@ == self@,
    {
        NodeKey { version: self.version, path: copy_bytes(&self.path) }
    }

    /// Whether both keys have the same version and path.
    pub fn same_as(&self, other: &NodeKey) -> (r: bool)
        ensures
            r == (self@ == other@),
    {
        if self.version != other.version || self.path.len() != other.path.len() {
            return false;
        }
        let mut i: usize = 0;
        while i < self.path.len()
            invariant
                i <= self.path.len(),
                self.path.len() == other.path.len(),
                self.path@.subrange(0, i as int) == other.path@.subrange(0, i as int),
            decreases self.path.len() - i,
        {
            if self.path[i] != other.path[i] {
                assert(self.path@[i as int] != other.path@[i as int]);
                return false;
            }
            assert(self.path@.subrange(0, i + 1) =~= self.path@.subrange(0, i as int).push(self.path@[i as int]));
            assert(other.path@.subrange(0, i + 1) =~= other.path@.subrange(0, i as int).push(other.path@[i as int]));
            i += 1;
        }
        assert(self.path@ =~= self.path@.subrange(0, i as int));
        assert(other.path@ =~= other.path@.subrange(0, i as int));
        true
    }
}


/// A 32-byte hash of a key.
#[derive(Clone, Copy, Debug)]
pub struct KeyHash(pub [u8; 32]);

/// The hash of a tree's root at one version.
#[derive(Clone, Copy, Debug)]
pub struct RootHash(pub [u8; 32]);

/// Whether two 32-byte arrays hold the same bytes.
pub fn digest_eq(a: &[u8; 32], b: &[u8; 32]) -> (r: bool)
    ensures
        r == (a@ == b@),
{
    let mut i: usize = 0;
    while i < 32
        invariant
            i <= 32,
            a@.len() == 32,
            b@.len() == 32,
            forall|j: int| 0 <= j < i ==> a@[j] == b@[j],
        decreases 32 - i,
    {
        if a[i] != b[i] {
            return false;
        }
        i += 1;
    }
    assert(a@ =~= b@);
    true
}

/// A child slot of an internal node.
#[derive(Clone, Copy, Debug)]
pub struct Child {
    pub hash: [u8; 32],
    pub version: u64,
    pub is_leaf: bool,
}

/// A node with up to sixteen children, one per nibble.
#[derive(Clone, Copy, Debug)]
pub struct InternalNode {
    pub children: [Option<Child>; 16],
}

/// A node holding one key and the hash of its value.
#[derive(Clone, Copy, Debug)]
pub struct LeafNode {
    pub key_hash: KeyHash,
    pub value_hash: [u8; 32],
}

/// A tree node: empty, a leaf, or an internal node.
#[derive(Clone, Copy, Debug)]
pub enum Node {
    Null,
    Leaf(LeafNode),
    Internal(InternalNode),
}

impl Node {
    pub open spec fn spec_is_leaf(&self) -> bool {
        *self is Leaf
    }

    /// The empty node.
    pub fn new_null() -> (r: Node)
        ensures
            r is Null,
    {
        Node::Null
    }

    #[verifier::when_used_as_spec(spec_is_leaf)]
    pub fn is_leaf(&self) -> (r: bool)
        ensures
            r == self.spec_is_leaf(),
    {
        matches!(self, Node::Leaf(_))
    }
}

/// Per-version counts of the nodes a version created and made stale.
#[derive(Clone, Copy, Debug)]
pub struct NodeStats {
    pub new_nodes: usize,
    pub new_leaves: usize,
    pub stale_nodes: usize,
    pub stale_leaves: usize,
}

/// A node that stopped being part of the live tree at `stale_since_version`.
#[derive(Debug)]
pub struct StaleNodeIndex {
    pub stale_since_version: u64,
    pub node_key: NodeKey,
}

impl View for StaleNodeIndex {
    type V = (u64, KeyView);

    open spec fn view(&self) -> (u64, KeyView) {
        (self.stale_since_version, self.node_key@)
    }
}

} // verus!
