//! Hashing of nodes with a pluggable hash function.
use vstd::prelude::*;
use crate::types::{InternalNode, LeafNode, Node};

verus! {

/// A hash function from bytes to a 32-byte digest.
pub trait SimpleHasher {
    /// The digest of `data`, as a function of the bytes alone.
    spec fn spec_hash(data: Seq<u8>) -> Seq<u8>;

    fn hash(data: &[u8]) -> (r: [u8; 32])
        ensures
            r@ == Self::spec_hash(data@),
    ;
}


/// The SHA-256 digest of a byte string.
pub uninterp spec fn sha256_of(data: Seq<u8>) -> Seq<u8>;

/// Relies on `sha2::Sha256`'s `Digest::digest`: the SHA-256 digest of `data`, which depends on
/// the bytes alone.
#[verifier::external_body]
fn sha256(data: &[u8]) -> (r: [u8; 32])
    ensures
        r@ == sha256_of(data@),
{
    <sha2::Sha256 as sha2::Digest>::digest(data).into()
}

/// SHA-256 as the tree's hash function.
pub struct Sha256Hasher;

impl SimpleHasher for Sha256Hasher {
    open spec fn spec_hash(data: Seq<u8>) -> Seq<u8> {
        sha256_of(data)
    }

    fn hash(data: &[u8]) -> (r: [u8; 32]) {
        sha256(data)
    }
}

/// The digest that stands for an empty subtree.
pub const SPARSE_MERKLE_PLACEHOLDER_HASH: [u8; 32] = [
    0x53, 0x50, 0x41, 0x52, 0x53, 0x45, 0x5f, 0x4d, 0x45, 0x52, 0x4b, 0x4c, 0x45, 0x5f, 0x50, 0x4c,
    0x41, 0x43, 0x45, 0x48, 0x4f, 0x4c, 0x44, 0x45, 0x52, 0x5f, 0x48, 0x41, 0x53, 0x48, 0x5f, 0x5f,
];

/// Domain tag that starts the bytes hashed for a leaf.
pub const LEAF_TAG: u8 = 0;

/// Domain tag that starts the bytes hashed for an internal node.
pub const INTERNAL_TAG: u8 = 1;

/// The digest of child slot `i`, or the placeholder when the slot is empty.
pub open spec fn slot_digest(n: InternalNode, i: int) -> Seq<u8> {
    match n.children@[i] {
        Some(c) => c.hash@,
        None => SPARSE_MERKLE_PLACEHOLDER_HASH@,
    }
}

/// The digests of the first `count` child slots, one after the other.
pub open spec fn slots_bytes(n: InternalNode, count: nat) -> Seq<u8>
    decreases count,
{
    if count == 0 {
        Seq::empty()
    } else {
        slots_bytes(n, (count - 1) as nat) + slot_digest(n, count - 1)
    }
}

/// The bytes hashed for a leaf.
pub open spec fn leaf_preimage(l: LeafNode) -> Seq<u8> {
    seq![LEAF_TAG] + l.key_hash.0@ + l.value_hash@
}

/// The bytes hashed for an internal node.
pub open spec fn internal_preimage(n: InternalNode) -> Seq<u8> {
    seq![INTERNAL_TAG] + slots_bytes(n, 16)
}

/// The digest of a node under the hash function `H`.
pub open spec fn node_digest<H: SimpleHasher>(n: Node) -> Seq<u8> {
    match n {
        Node::Null => SPARSE_MERKLE_PLACEHOLDER_HASH@,
        Node::Leaf(l) => H::spec_hash(leaf_preimage(l)),
        Node::Internal(i) => H::spec_hash(internal_preimage(i)),
    }
}

fn append_digest(v: &mut Vec<u8>, d: &[u8; 32])
    ensures
        final(v)@ == old(v)@ + d@,
{
    let ghost start = v@;
    let mut i: usize = 0;
    while i < 32
        invariant
            i <= 32,
            d@.len() == 32,
            v@ == start + d@.subrange(0, i as int),
        decreases 32 - i,
    {
        v.push(d[i]);
        assert(d@.subrange(0, i + 1) =~= d@.subrange(0, i as int).push(d@[i as int]));
        i += 1;
    }
    assert(d@.subrange(0, 32) =~= d@);
}

fn leaf_bytes(l: &LeafNode) -> (r: Vec<u8>)
    ensures
        r@ == leaf_preimage(*l),
{
    let mut v: Vec<u8> = Vec::with_capacity(65);
    v.push(LEAF_TAG);
    append_digest(&mut v, &l.key_hash.0);
    append_digest(&mut v, &l.value_hash);
    assert(v@ =~= leaf_preimage(*l));
    v
}

fn internal_bytes(n: &InternalNode) -> (r: Vec<u8>)
    ensures
        r@ == internal_preimage(*n),
{
    let mut v: Vec<u8> = Vec::with_capacity(513);
    v.push(INTERNAL_TAG);
    let mut i: usize = 0;
    while i < 16
        invariant
            i <= 16,
            v@ == seq![INTERNAL_TAG] + slots_bytes(*n, i as nat),
        decreases 16 - i,
    {
        match &n.children[i] {
            Some(c) => append_digest(&mut v, &c.hash),
            None => append_digest(&mut v, &SPARSE_MERKLE_PLACEHOLDER_HASH),
        }
        assert(v@ =~= seq![INTERNAL_TAG] + slots_bytes(*n, (i + 1) as nat));
        i += 1;
    }
    v
}

impl Node {
    /// The digest of this node under the hash function `H`.
    pub fn hash<H: SimpleHasher>(&self) -> (r: [u8; 32])
        ensures
            r@ == node_digest::<H>(*self),
    {
        match self {
            Node::Null => SPARSE_MERKLE_PLACEHOLDER_HASH,
            Node::Leaf(l) => {
                let b = leaf_bytes(l);
                H::hash(b.as_slice())
            },
            Node::Internal(n) => {
                let b = internal_bytes(n);
                H::hash(b.as_slice())
            },
        }
    }
}

} // verus!
