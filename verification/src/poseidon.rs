use vstd::prelude::*;
use crate::error::TreeError;
use crate::hash::{DigestKind, FieldHash};
use crate::reducer::{
    buffers_view, computes, hash_all_with, lemma_computed_digests, level_view, reduce_with,
    root_of, takes,
};

verus! {

/// The field element that is the identifier of every leaf.
pub const LEAF_IDENTIFIER: u64 = 42;

/// Width of the buffer that is hashed for one self-contained leaf.
pub const LEAF_WIDTH: usize = 10;

/// Width of the buffer that is hashed for one pair of bare leaves.
pub const BARE_PAIR_WIDTH: usize = 4;

/// Width of the buffer that is hashed for two digests.
pub const DIGEST_PAIR_WIDTH: usize = 8;

/// Four copies of `element`: what fills the child fields of a leaf.
pub open spec fn broadcast(element: u64) -> Seq<u64> {
    Seq::new(4, |j: int| element)
}

/// A self-contained leaf for the field hash. The two child fields of a leaf
/// refer to nothing: they repeat the leaf's value.
#[derive(Clone, Copy, Debug, PartialEq, Eq)]
pub struct PoseidonNode {
    pub identifier: u64,
    pub value: u64,
    pub left_node: [u64; 4],
    pub right_node: [u64; 4],
}

impl PoseidonNode {
    /// Whether `self` is the leaf that is generated at position `index`.
    pub open spec fn is_leaf(self, index: nat) -> bool {
        &&& self.identifier == LEAF_IDENTIFIER
        &&& self.value == index
        &&& self.left_node@ == broadcast(self.value)
        &&& self.right_node@ == broadcast(self.value)
    }

    /// The ten elements that are hashed for a leaf: identifier and value,
    /// then the elements of the left and of the right child field.
    pub open spec fn encoding(self) -> Seq<u64> {
        seq![self.identifier, self.value] + self.left_node@ + self.right_node@
    }

    /// The first level of a tree over `leaves` under `hash`: the digest of
    /// each leaf.
    pub open spec fn first_level_of(
        hash: spec_fn(Seq<u64>) -> Seq<u64>,
        leaves: Seq<PoseidonNode>,
    ) -> Seq<Seq<u64>> {
        leaves.map_values(|leaf: PoseidonNode| hash(leaf.encoding()))
    }

    /// The root of the tree over `leaves` under `hash`.
    pub open spec fn root_of_leaves(
        hash: spec_fn(Seq<u64>) -> Seq<u64>,
        leaves: Seq<PoseidonNode>,
    ) -> Seq<u64> {
        root_of(hash, Self::first_level_of(hash, leaves))
    }

    /// The encoding of the leaf that is generated at position `index`.
    pub open spec fn leaf_encoding(index: nat) -> Seq<u64> {
        seq![LEAF_IDENTIFIER, index as u64] + broadcast(index as u64) + broadcast(index as u64)
    }

    /// The root under `hash` of the tree over the first `n` leaves.
    pub open spec fn root_for(hash: spec_fn(Seq<u64>) -> Seq<u64>, n: nat) -> Seq<u64> {
        root_of(hash, Seq::new(n, |i: int| hash(Self::leaf_encoding(i as nat))))
    }

    /// The root depends on the number of leaves alone: whatever leaves were
    /// generated for `n`, the root over them is `root_for(hash, n)`.
    pub proof fn lemma_root_depends_on_count(
        hash: spec_fn(Seq<u64>) -> Seq<u64>,
        leaves: Seq<PoseidonNode>,
    )
        requires
            forall|i: int| 0 <= i < leaves.len() ==> (#[trigger] leaves[i]).is_leaf(i as nat),
        ensures
            Self::root_of_leaves(hash, leaves) == Self::root_for(hash, leaves.len()),
    {
        assert(Self::first_level_of(hash, leaves) =~= Seq::new(
            leaves.len(),
            |i: int| hash(Self::leaf_encoding(i as nat)),
        )) by {
            assert forall|i: int| 0 <= i < leaves.len() implies leaves[i].encoding()
                == Self::leaf_encoding(i as nat) by {
                assert(leaves[i].is_leaf(i as nat));
            }
        }
    }

    /// The first `n` leaves, in order of position.
    pub fn generate_leaves(n: usize) -> (leaves: Vec<PoseidonNode>)
        ensures
            leaves@.len() == n,
            forall|i: int| 0 <= i < n ==> (#[trigger] leaves@[i]).is_leaf(i as nat),
    {
        let mut leaves: Vec<PoseidonNode> = Vec::new();
        let mut i: usize = 0;
        while i < n
            invariant
                i <= n,
                leaves@.len() == i,
                forall|j: int| 0 <= j < i ==> (#[trigger] leaves@[j]).is_leaf(j as nat),
            decreases n - i,
        {
            let v: u64 = i as u64;
            let leaf = PoseidonNode {
                identifier: LEAF_IDENTIFIER,
                value: v,
                right_node: [v, v, v, v],
                left_node: [v, v, v, v],
            };
            assert(leaf.left_node@ =~= broadcast(v));
            assert(leaf.right_node@ =~= broadcast(v));
            leaves.push(leaf);
            i += 1;
        }
        leaves
    }

    /// Lays identifier, value and the two child fields end to end.
    pub fn encode(&self) -> (buffer: Vec<u64>)
        ensures
            buffer@ == self.encoding(),
            buffer@.len() == LEAF_WIDTH,
    {
        let mut buffer: Vec<u64> = Vec::new();
        buffer.push(self.identifier);
        buffer.push(self.value);
        assert(buffer@ == seq![self.identifier, self.value]);
        FieldHash::absorb(&mut buffer, &self.left_node);
        FieldHash::absorb(&mut buffer, &self.right_node);
        buffer
    }

    /// The buffers whose digests are the first level, one for each leaf, in
    /// order: leaves are not paired here. An odd number of leaves is refused
    /// before anything is encoded; no leaves give no buffers.
    pub fn leaf_inputs(leaves: &Vec<PoseidonNode>) -> (out: Result<Vec<Vec<u64>>, TreeError>)
        ensures
            leaves@.len() % 2 == 1 <==> out is Err,
            out matches Err(e) ==> e == TreeError::InvalidLeafCount,
            out matches Ok(inputs) ==> {
                &&& inputs@.len() == leaves@.len()
                &&& buffers_view(inputs@) == leaves@.map_values(
                    |leaf: PoseidonNode| leaf.encoding(),
                )
                &&& forall|i: int|
                    0 <= i < inputs@.len() ==> (#[trigger] inputs@[i])@.len() == LEAF_WIDTH
            },
    {
        let n = leaves.len();
        if n % 2 != 0 {
            return Err(TreeError::InvalidLeafCount);
        }
        let mut inputs: Vec<Vec<u64>> = Vec::new();
        let mut i: usize = 0;
        while i < n
            invariant
                n == leaves@.len(),
                i <= n,
                inputs@.len() == i,
                forall|j: int| 0 <= j < i ==> (#[trigger] inputs@[j])@ == leaves@[j].encoding(),
            decreases n - i,
        {
            inputs.push(leaves[i].encode());
            i += 1;
        }
        assert(buffers_view(inputs@) =~= leaves@.map_values(
            |leaf: PoseidonNode| leaf.encoding(),
        ));
        Ok(inputs)
    }

    /// The first level: the digest of each leaf, by `hash`. An odd number of
    /// leaves is refused before `hash` is called; no leaves give an empty
    /// level.
    pub fn first_level<F: Fn(&Vec<u64>) -> [u64; 4]>(leaves: &Vec<PoseidonNode>, hash: &F) -> (out:
        Result<Vec<[u64; 4]>, TreeError>)
        requires
            takes::<FieldHash, F>(*hash, LEAF_WIDTH as nat),
        ensures
            leaves@.len() % 2 == 1 <==> out is Err,
            out matches Err(e) ==> e == TreeError::InvalidLeafCount,
            out matches Ok(level) ==> level@.len() == leaves@.len(),
            forall|h: spec_fn(Seq<u64>) -> Seq<u64>| #[trigger]
                computes::<FieldHash, F>(*hash, h) ==> (out matches Ok(level) ==> level_view::<
                    FieldHash,
                >(level@) == Self::first_level_of(h, leaves@)),
    {
        match Self::leaf_inputs(leaves) {
            Ok(inputs) => {
                let level = match hash_all_with::<FieldHash, F>(&inputs, LEAF_WIDTH, hash) {
                    Ok(level) => level,
                    Err(e) => {
                        return Err(e);
                    },
                };
                proof {
                    assert forall|h: spec_fn(Seq<u64>) -> Seq<u64>| #[trigger]
                        computes::<FieldHash, F>(*hash, h) implies level_view::<FieldHash>(level@)
                        == Self::first_level_of(h, leaves@) by {
                        lemma_computed_digests::<FieldHash, F>(*hash, h, inputs@, level@);
                        assert(buffers_view(inputs@).map_values(h) =~= Self::first_level_of(
                            h,
                            leaves@,
                        ));
                    }
                }
                Ok(level)
            },
            Err(e) => Err(e),
        }
    }

    /// The root of the tree over `leaves`, with `hash` for the hash
    /// function. The number of leaves must be even and not zero. Whatever
    /// function `hash` computes, the root is the root under that function.
    pub fn generate_tree<F: Fn(&Vec<u64>) -> [u64; 4]>(leaves: Vec<PoseidonNode>, hash: &F) -> (out:
        Result<[u64; 4], TreeError>)
        requires
            takes::<FieldHash, F>(*hash, LEAF_WIDTH as nat),
            takes::<FieldHash, F>(*hash, DIGEST_PAIR_WIDTH as nat),
        ensures
            (leaves@.len() % 2 == 1 || leaves@.len() == 0) <==> out is Err,
            out matches Err(e) ==> e == TreeError::InvalidLeafCount,
            forall|h: spec_fn(Seq<u64>) -> Seq<u64>| #[trigger]
                computes::<FieldHash, F>(*hash, h) ==> (out matches Ok(root) ==> root@
                    == Self::root_of_leaves(h, leaves@)),
    {
        match Self::first_level(&leaves, hash) {
            Ok(level) => reduce_with::<FieldHash, F>(level, hash),
            Err(e) => Err(e),
        }
    }
}

/// A bare leaf for the field hash: identifier and value, no child fields.
#[derive(Clone, Copy, Debug, PartialEq, Eq)]
pub struct BareNode {
    pub identifier: u64,
    pub value: u64,
}

impl BareNode {
    /// Whether `self` is the leaf that is generated at position `index`.
    pub open spec fn is_leaf(self, index: nat) -> bool {
        &&& self.identifier == LEAF_IDENTIFIER
        &&& self.value == index
    }

    /// The four elements that are hashed for two leaves that stand side by
    /// side. The value of the left leaf is not among them: the value of the
    /// right leaf stands in its place.
    pub open spec fn pair_encoding(left: BareNode, right: BareNode) -> Seq<u64> {
        seq![left.identifier, right.value, right.identifier, right.value]
    }

    /// The buffers that are hashed for `leaves`, two leaves to a buffer.
    pub open spec fn pair_encodings(leaves: Seq<BareNode>) -> Seq<Seq<u64>> {
        Seq::new(leaves.len() / 2, |k: int| Self::pair_encoding(leaves[2 * k], leaves[2 * k + 1]))
    }

    /// The first level of a tree over `leaves` under `hash`: the digest of
    /// each pair.
    pub open spec fn first_level_of(
        hash: spec_fn(Seq<u64>) -> Seq<u64>,
        leaves: Seq<BareNode>,
    ) -> Seq<Seq<u64>> {
        Self::pair_encodings(leaves).map_values(hash)
    }

    /// The root of the tree over `leaves` under `hash`.
    pub open spec fn root_of_leaves(
        hash: spec_fn(Seq<u64>) -> Seq<u64>,
        leaves: Seq<BareNode>,
    ) -> Seq<u64> {
        root_of(hash, Self::first_level_of(hash, leaves))
    }

    /// The buffer for the pair at position `k` of the generated leaves: the
    /// leaves at positions `2k` and `2k + 1`.
    pub open spec fn pair_encoding_at(k: nat) -> Seq<u64> {
        seq![LEAF_IDENTIFIER, (2 * k + 1) as u64, LEAF_IDENTIFIER, (2 * k + 1) as u64]
    }

    /// The root under `hash` of the tree over the first `n` leaves.
    pub open spec fn root_for(hash: spec_fn(Seq<u64>) -> Seq<u64>, n: nat) -> Seq<u64> {
        root_of(hash, Seq::new(n / 2, |k: int| hash(Self::pair_encoding_at(k as nat))))
    }

    /// The root depends on the number of leaves alone: whatever leaves were
    /// generated for `n`, the root over them is `root_for(hash, n)`.
    pub proof fn lemma_root_depends_on_count(
        hash: spec_fn(Seq<u64>) -> Seq<u64>,
        leaves: Seq<BareNode>,
    )
        requires
            forall|i: int| 0 <= i < leaves.len() ==> (#[trigger] leaves[i]).is_leaf(i as nat),
        ensures
            Self::root_of_leaves(hash, leaves) == Self::root_for(hash, leaves.len()),
    {
        assert(Self::first_level_of(hash, leaves) =~= Seq::new(
            leaves.len() / 2,
            |k: int| hash(Self::pair_encoding_at(k as nat)),
        )) by {
            assert forall|k: int| 0 <= k < leaves.len() / 2 implies Self::pair_encoding(
                leaves[2 * k],
                leaves[2 * k + 1],
            ) == #[trigger] Self::pair_encoding_at(k as nat) by {
                assert(leaves[2 * k].is_leaf((2 * k) as nat));
                assert(leaves[2 * k + 1].is_leaf((2 * k + 1) as nat));
            }
        }
    }

    /// The first `n` leaves, in order of position.
    pub fn generate_leaves(n: usize) -> (leaves: Vec<BareNode>)
        ensures
            leaves@.len() == n,
            forall|i: int| 0 <= i < n ==> (#[trigger] leaves@[i]).is_leaf(i as nat),
    {
        let mut leaves: Vec<BareNode> = Vec::new();
        let mut i: usize = 0;
        while i < n
            invariant
                i <= n,
                leaves@.len() == i,
                forall|j: int| 0 <= j < i ==> (#[trigger] leaves@[j]).is_leaf(j as nat),
            decreases n - i,
        {
            leaves.push(BareNode { identifier: LEAF_IDENTIFIER, value: i as u64 });
            i += 1;
        }
        leaves
    }

    /// The buffer for two leaves that stand side by side.
    pub fn encode_pair(left: &BareNode, right: &BareNode) -> (buffer: Vec<u64>)
        ensures
            buffer@ == Self::pair_encoding(*left, *right),
            buffer@.len() == BARE_PAIR_WIDTH,
    {
        let mut buffer: Vec<u64> = Vec::new();
        buffer.push(left.identifier);
        buffer.push(right.value);
        buffer.push(right.identifier);
        buffer.push(right.value);
        assert(buffer@ =~= Self::pair_encoding(*left, *right));
        buffer
    }

    /// The buffers whose digests are the first level: one for the leaves at
    /// positions `2k` and `2k + 1`, for each `k`, in order. An odd number of
    /// leaves is refused before anything is encoded; no leaves give no
    /// buffers.
    pub fn pair_inputs(leaves: &Vec<BareNode>) -> (out: Result<Vec<Vec<u64>>, TreeError>)
        ensures
            leaves@.len() % 2 == 1 <==> out is Err,
            out matches Err(e) ==> e == TreeError::InvalidLeafCount,
            out matches Ok(inputs) ==> {
                &&& inputs@.len() == leaves@.len() / 2
                &&& buffers_view(inputs@) == Self::pair_encodings(leaves@)
                &&& forall|k: int|
                    0 <= k < inputs@.len() ==> (#[trigger] inputs@[k])@.len() == BARE_PAIR_WIDTH
            },
    {
        let n = leaves.len();
        if n % 2 != 0 {
            return Err(TreeError::InvalidLeafCount);
        }
        let pairs = n / 2;
        let mut inputs: Vec<Vec<u64>> = Vec::new();
        let mut k: usize = 0;
        while k < pairs
            invariant
                n == leaves@.len(),
                pairs == n / 2,
                k <= pairs,
                inputs@.len() == k,
                forall|j: int|
                    0 <= j < k ==> (#[trigger] inputs@[j])@ == Self::pair_encoding(
                        leaves@[2 * j],
                        leaves@[2 * j + 1],
                    ),
            decreases pairs - k,
        {
            inputs.push(Self::encode_pair(&leaves[2 * k], &leaves[2 * k + 1]));
            k += 1;
        }
        assert(buffers_view(inputs@) =~= Self::pair_encodings(leaves@));
        Ok(inputs)
    }

    /// The first level: the digest of each pair of leaves, by `hash`. An odd
    /// number of leaves is refused before `hash` is called; no leaves give
    /// an empty level.
    pub fn first_level<F: Fn(&Vec<u64>) -> [u64; 4]>(leaves: &Vec<BareNode>, hash: &F) -> (out:
        Result<Vec<[u64; 4]>, TreeError>)
        requires
            takes::<FieldHash, F>(*hash, BARE_PAIR_WIDTH as nat),
        ensures
            leaves@.len() % 2 == 1 <==> out is Err,
            out matches Err(e) ==> e == TreeError::InvalidLeafCount,
            out matches Ok(level) ==> level@.len() == leaves@.len() / 2,
            forall|h: spec_fn(Seq<u64>) -> Seq<u64>| #[trigger]
                computes::<FieldHash, F>(*hash, h) ==> (out matches Ok(level) ==> level_view::<
                    FieldHash,
                >(level@) == Self::first_level_of(h, leaves@)),
    {
        match Self::pair_inputs(leaves) {
            Ok(inputs) => {
                let level = match hash_all_with::<FieldHash, F>(&inputs, BARE_PAIR_WIDTH, hash) {
                    Ok(level) => level,
                    Err(e) => {
                        return Err(e);
                    },
                };
                proof {
                    assert forall|h: spec_fn(Seq<u64>) -> Seq<u64>| #[trigger]
                        computes::<FieldHash, F>(*hash, h) implies level_view::<FieldHash>(level@)
                        == Self::first_level_of(h, leaves@) by {
                        lemma_computed_digests::<FieldHash, F>(*hash, h, inputs@, level@);
                    }
                }
                Ok(level)
            },
            Err(e) => Err(e),
        }
    }

    /// The root of the tree over `leaves`, with `hash` for the hash
    /// function. The number of leaves must be even and not zero. Whatever
    /// function `hash` computes, the root is the root under that function.
    pub fn generate_tree<F: Fn(&Vec<u64>) -> [u64; 4]>(leaves: Vec<BareNode>, hash: &F) -> (out:
        Result<[u64; 4], TreeError>)
        requires
            takes::<FieldHash, F>(*hash, BARE_PAIR_WIDTH as nat),
            takes::<FieldHash, F>(*hash, DIGEST_PAIR_WIDTH as nat),
        ensures
            (leaves@.len() % 2 == 1 || leaves@.len() == 0) <==> out is Err,
            out matches Err(e) ==> e == TreeError::InvalidLeafCount,
            forall|h: spec_fn(Seq<u64>) -> Seq<u64>| #[trigger]
                computes::<FieldHash, F>(*hash, h) ==> (out matches Ok(root) ==> root@
                    == Self::root_of_leaves(h, leaves@)),
    {
        match Self::first_level(&leaves, hash) {
            Ok(level) => reduce_with::<FieldHash, F>(level, hash),
            Err(e) => Err(e),
        }
    }
}

} // verus!
