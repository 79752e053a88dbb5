use vstd::prelude::*;
use crate::error::TreeError;
use crate::hash::{keccak256_digest, ByteHash, DigestKind, HashFunction};
use crate::reducer::{level_view, reduce_to_root, root_of};

verus! {

/// A field of a leaf, and a digest: 32 bytes.
pub type Value = [u8; 32];

/// The byte that fills the identifier of every leaf.
pub const LEAF_IDENTIFIER: u8 = 42;

/// 32 copies of `byte`.
pub open spec fn broadcast(byte: u8) -> Seq<u8> {
    Seq::new(32, |j: int| byte)
}

/// The byte that stands for position `index`: the position, modulo 256.
pub open spec fn position_byte(index: nat) -> u8 {
    (index % 256) as u8
}

/// A self-contained leaf for the byte hash. The two child fields of a leaf
/// refer to nothing: they repeat the leaf's value.
#[derive(Clone, Copy, Debug, PartialEq, Eq)]
pub struct KeccakNode {
    pub identifier: Value,
    pub value: Value,
    pub left_hash: Value,
    pub right_hash: Value,
}

impl KeccakNode {
    /// Whether `self` is the leaf that is generated at position `index`.
    pub open spec fn is_leaf(self, index: nat) -> bool {
        &&& self.identifier@ == broadcast(LEAF_IDENTIFIER)
        &&& self.value@ == broadcast(position_byte(index))
        &&& self.left_hash@ == self.value@
        &&& self.right_hash@ == self.value@
    }

    /// The 128 bytes that are hashed for a leaf: its four fields, end to end.
    pub open spec fn encoding(self) -> Seq<u8> {
        self.identifier@ + self.value@ + self.left_hash@ + self.right_hash@
    }

    /// The first level of a tree over `leaves`: the digest of each leaf.
    pub open spec fn first_level_of(leaves: Seq<KeccakNode>) -> Seq<Seq<u8>> {
        leaves.map_values(|leaf: KeccakNode| keccak256_digest(leaf.encoding()))
    }

    /// The root of the tree over `leaves`.
    pub open spec fn root_of_leaves(leaves: Seq<KeccakNode>) -> Seq<u8> {
        root_of(ByteHash::hasher(), Self::first_level_of(leaves))
    }

    /// The encoding of the leaf that is generated at position `index`.
    pub open spec fn leaf_encoding(index: nat) -> Seq<u8> {
        broadcast(LEAF_IDENTIFIER) + broadcast(position_byte(index)) + broadcast(
            position_byte(index),
        ) + broadcast(position_byte(index))
    }

    /// The root of the tree over the first `n` leaves.
    pub open spec fn root_for(n: nat) -> Seq<u8> {
        root_of(
            ByteHash::hasher(),
            Seq::new(n, |i: int| keccak256_digest(Self::leaf_encoding(i as nat))),
        )
    }

    /// The root depends on the number of leaves alone: whatever leaves were
    /// generated for `n`, the root over them is `root_for(n)`.
    pub proof fn lemma_root_depends_on_count(leaves: Seq<KeccakNode>)
        requires
            forall|i: int| 0 <= i < leaves.len() ==> (#[trigger] leaves[i]).is_leaf(i as nat),
        ensures
            Self::root_of_leaves(leaves) == Self::root_for(leaves.len()),
    {
        assert(Self::first_level_of(leaves) =~= Seq::new(
            leaves.len(),
            |i: int| keccak256_digest(Self::leaf_encoding(i as nat)),
        )) by {
            assert forall|i: int| 0 <= i < leaves.len() implies leaves[i].encoding()
                == Self::leaf_encoding(i as nat) by {
                assert(leaves[i].is_leaf(i as nat));
            }
        }
    }

    /// The first `n` leaves, in order of position.
    pub fn generate_leaves(n: usize) -> (leaves: Vec<KeccakNode>)
        ensures
            leaves@.len() == n,
            forall|i: int| 0 <= i < n ==> (#[trigger] leaves@[i]).is_leaf(i as nat),
    {
        let mut leaves: Vec<KeccakNode> = Vec::new();
        let mut i: usize = 0;
        while i < n
            invariant
                i <= n,
                leaves@.len() == i,
                forall|j: int| 0 <= j < i ==> (#[trigger] leaves@[j]).is_leaf(j as nat),
            decreases n - i,
        {
            let v: Value = [(i % 256) as u8;32];
            let leaf = KeccakNode {
                identifier: [LEAF_IDENTIFIER;32],
                value: v,
                left_hash: v,
                right_hash: v,
            };
            assert(leaf.identifier@ =~= broadcast(LEAF_IDENTIFIER));
            assert(leaf.value@ =~= broadcast(position_byte(i as nat)));
            leaves.push(leaf);
            i += 1;
        }
        leaves
    }

    /// Lays the four fields end to end.
    pub fn encode(&self) -> (buffer: Vec<u8>)
        ensures
            buffer@ == self.encoding(),
            buffer@.len() == 128,
    {
        let mut buffer: Vec<u8> = Vec::new();
        ByteHash::absorb(&mut buffer, &self.identifier);
        ByteHash::absorb(&mut buffer, &self.value);
        ByteHash::absorb(&mut buffer, &self.left_hash);
        ByteHash::absorb(&mut buffer, &self.right_hash);
        buffer
    }

    /// Hashes every leaf by itself. An odd number of leaves is refused before
    /// anything is hashed; no leaves give an empty level.
    pub fn first_level(leaves: &Vec<KeccakNode>) -> (out: Result<Vec<Value>, TreeError>)
        ensures
            leaves@.len() % 2 == 1 <==> out is Err,
            out matches Err(e) ==> e == TreeError::InvalidLeafCount,
            out matches Ok(level) ==> level@.len() == leaves@.len() && level_view::<ByteHash>(
                level@,
            ) == Self::first_level_of(leaves@),
    {
        let n = leaves.len();
        if n % 2 != 0 {
            return Err(TreeError::InvalidLeafCount);
        }
        let mut level: Vec<Value> = Vec::new();
        let mut i: usize = 0;
        while i < n
            invariant
                n == leaves@.len(),
                i <= n,
                level@.len() == i,
                forall|j: int|
                    0 <= j < i ==> (#[trigger] level@[j])@ == keccak256_digest(
                        leaves@[j].encoding(),
                    ),
            decreases n - i,
        {
            let input = leaves[i].encode();
            let digest = ByteHash::hash(&input);
            level.push(digest);
            i += 1;
        }
        assert(level_view::<ByteHash>(level@) =~= Self::first_level_of(leaves@));
        Ok(level)
    }

    /// The root of the tree over `leaves`. The number of leaves must be even
    /// and not zero.
    pub fn generate_tree(leaves: Vec<KeccakNode>) -> (out: Result<Value, TreeError>)
        ensures
            (leaves@.len() % 2 == 1 || leaves@.len() == 0) <==> out is Err,
            out matches Err(e) ==> e == TreeError::InvalidLeafCount,
            out matches Ok(root) ==> root@ == Self::root_of_leaves(leaves@),
    {
        match Self::first_level(&leaves) {
            Ok(level) => reduce_to_root::<ByteHash>(level),
            Err(e) => Err(e),
        }
    }
}

} // verus!
