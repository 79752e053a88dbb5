use vstd::prelude::*;
use crate::error::TreeError;
use crate::keccak::KeccakNode;
use crate::poseidon::{
    BareNode, PoseidonNode, BARE_PAIR_WIDTH, DIGEST_PAIR_WIDTH, LEAF_WIDTH,
};
use crate::hash::FieldHash;
use crate::reducer::{computes, takes};

verus! {

/// The two hash functions.
#[derive(Clone, Copy, Debug, PartialEq, Eq, Structural)]
pub enum HashKind {
    /// Bytes in, a digest of 32 bytes out.
    Byte,
    /// Field elements in, a digest of four field elements out.
    Field,
}

/// The two shapes of a leaf.
#[derive(Clone, Copy, Debug, PartialEq, Eq, Structural)]
pub enum LeafShape {
    /// Identifier, value and two child fields; each leaf is hashed by itself.
    SelfContained,
    /// Identifier and value; leaves are hashed two at a time.
    Bare,
}

/// Which hash function and leaf shape a root was made with.
#[derive(Clone, Copy, Debug, PartialEq, Eq, Structural)]
pub enum SchemeTag {
    ByteSelfContained,
    FieldSelfContained,
    FieldBarePairwise,
}

impl SchemeTag {
    /// Whether a hash function and a leaf shape go together: all do but the
    /// byte hash over bare leaves.
    pub open spec fn sanctioned(hash: HashKind, shape: LeafShape) -> bool {
        !(hash == HashKind::Byte && shape == LeafShape::Bare)
    }

    /// The hash function of a scheme.
    pub open spec fn spec_hash_kind(self) -> HashKind {
        match self {
            SchemeTag::ByteSelfContained => HashKind::Byte,
            SchemeTag::FieldSelfContained => HashKind::Field,
            SchemeTag::FieldBarePairwise => HashKind::Field,
        }
    }

    /// The leaf shape of a scheme.
    pub open spec fn spec_leaf_shape(self) -> LeafShape {
        match self {
            SchemeTag::ByteSelfContained => LeafShape::SelfContained,
            SchemeTag::FieldSelfContained => LeafShape::SelfContained,
            SchemeTag::FieldBarePairwise => LeafShape::Bare,
        }
    }

    /// The scheme for a hash function and a leaf shape, settled once before
    /// anything is built. A pair that does not go together is refused.
    pub fn select(hash: HashKind, shape: LeafShape) -> (out: Result<SchemeTag, TreeError>)
        ensures
            Self::sanctioned(hash, shape) <==> out is Ok,
            out matches Err(e) ==> e == TreeError::SchemeMismatch,
            out matches Ok(tag) ==> tag.spec_hash_kind() == hash && tag.spec_leaf_shape() == shape,
    {
        match (hash, shape) {
            (HashKind::Byte, LeafShape::SelfContained) => Ok(SchemeTag::ByteSelfContained),
            (HashKind::Field, LeafShape::SelfContained) => Ok(SchemeTag::FieldSelfContained),
            (HashKind::Field, LeafShape::Bare) => Ok(SchemeTag::FieldBarePairwise),
            (HashKind::Byte, LeafShape::Bare) => Err(TreeError::SchemeMismatch),
        }
    }

    /// The scheme that a caller picks with one flag: the byte hash if it is
    /// set, the field hash if not, over self-contained leaves either way.
    pub fn from_flag(is_byte_hash: bool) -> (tag: SchemeTag)
        ensures
            tag == if is_byte_hash {
                SchemeTag::ByteSelfContained
            } else {
                SchemeTag::FieldSelfContained
            },
    {
        if is_byte_hash {
            SchemeTag::ByteSelfContained
        } else {
            SchemeTag::FieldSelfContained
        }
    }

    /// The hash function of a scheme.
    #[verifier::when_used_as_spec(spec_hash_kind)]
    pub fn hash_kind(self) -> (kind: HashKind)
        ensures
            kind == self.spec_hash_kind(),
    {
        match self {
            SchemeTag::ByteSelfContained => HashKind::Byte,
            SchemeTag::FieldSelfContained => HashKind::Field,
            SchemeTag::FieldBarePairwise => HashKind::Field,
        }
    }

    /// The leaf shape of a scheme.
    #[verifier::when_used_as_spec(spec_leaf_shape)]
    pub fn leaf_shape(self) -> (shape: LeafShape)
        ensures
            shape == self.spec_leaf_shape(),
    {
        match self {
            SchemeTag::ByteSelfContained => LeafShape::SelfContained,
            SchemeTag::FieldSelfContained => LeafShape::SelfContained,
            SchemeTag::FieldBarePairwise => LeafShape::Bare,
        }
    }

    /// The number that stands for the hash function where a root is
    /// published: 1 for the byte hash, 0 for the field hash.
    pub fn flag(self) -> (flag: u32)
        ensures
            flag == if self.spec_hash_kind() == HashKind::Byte {
                1u32
            } else {
                0u32
            },
    {
        match self.hash_kind() {
            HashKind::Byte => 1,
            HashKind::Field => 0,
        }
    }
}

/// A root, with the hash function that made it.
#[derive(Clone, Copy, Debug, PartialEq, Eq)]
pub enum Root {
    Bytes([u8; 32]),
    Fields([u64; 4]),
}

impl Root {
    /// The hash function that made the root.
    pub open spec fn spec_kind(&self) -> HashKind {
        match *self {
            Root::Bytes(_) => HashKind::Byte,
            Root::Fields(_) => HashKind::Field,
        }
    }

    /// The hash function that made the root.
    #[verifier::when_used_as_spec(spec_kind)]
    pub fn kind(&self) -> (kind: HashKind)
        ensures
            kind == self.spec_kind(),
    {
        match self {
            Root::Bytes(_) => HashKind::Byte,
            Root::Fields(_) => HashKind::Field,
        }
    }
}

/// What a finished construction hands on: the number of leaves, the scheme,
/// and the root.
#[derive(Clone, Copy, Debug, PartialEq, Eq)]
pub struct TreeOutput {
    pub n: usize,
    pub scheme_tag: SchemeTag,
    pub root: Root,
}

impl TreeOutput {
    /// Puts the three together. A root of one hash function under the tag of
    /// the other is refused, and so is a number of leaves that no tree has.
    pub fn assemble(n: usize, scheme_tag: SchemeTag, root: Root) -> (out: Result<
        TreeOutput,
        TreeError,
    >)
        ensures
            out == if root.spec_kind() != scheme_tag.spec_hash_kind() {
                Err::<TreeOutput, TreeError>(TreeError::SchemeMismatch)
            } else if n % 2 == 1 || n == 0 {
                Err::<TreeOutput, TreeError>(TreeError::InvalidLeafCount)
            } else {
                Ok::<TreeOutput, TreeError>((TreeOutput { n, scheme_tag, root }))
            },
    {
        if root.kind() != scheme_tag.hash_kind() {
            Err(TreeError::SchemeMismatch)
        } else if n % 2 != 0 || n == 0 {
            Err(TreeError::InvalidLeafCount)
        } else {
            Ok(TreeOutput { n, scheme_tag, root })
        }
    }
}

/// Whether `output` is what the construction for the byte hash hands on for
/// `n` leaves.
pub open spec fn is_byte_tree(n: nat, output: TreeOutput) -> bool {
    &&& output.n == n
    &&& output.scheme_tag == SchemeTag::ByteSelfContained
    &&& output.root matches Root::Bytes(root)
    &&& root@ == KeccakNode::root_for(n)
}

/// The whole construction for the byte hash: `n` leaves are generated,
/// each is hashed, and the level is reduced to its root. `n` must be even
/// and not zero.
pub fn byte_tree(n: usize) -> (out: Result<TreeOutput, TreeError>)
    ensures
        (n % 2 == 1 || n == 0) <==> out is Err,
        out matches Err(e) ==> e == TreeError::InvalidLeafCount,
        out matches Ok(output) ==> is_byte_tree(n as nat, output),
{
    if n % 2 != 0 {
        return Err(TreeError::InvalidLeafCount);
    }
    let leaves = KeccakNode::generate_leaves(n);
    proof {
        KeccakNode::lemma_root_depends_on_count(leaves@);
    }
    match KeccakNode::generate_tree(leaves) {
        Ok(root) => TreeOutput::assemble(n, SchemeTag::ByteSelfContained, Root::Bytes(root)),
        Err(e) => Err(e),
    }
}

/// Whether `output` is what the construction hands on for `n` leaves under
/// a scheme, where `hash` is the field hash.
pub open spec fn is_tree_output(
    hash: spec_fn(Seq<u64>) -> Seq<u64>,
    n: nat,
    scheme_tag: SchemeTag,
    output: TreeOutput,
) -> bool {
    &&& output.n == n
    &&& output.scheme_tag == scheme_tag
    &&& match scheme_tag {
        SchemeTag::ByteSelfContained => is_byte_tree(n, output),
        SchemeTag::FieldSelfContained => output.root matches Root::Fields(root) && root@
            == PoseidonNode::root_for(hash, n),
        SchemeTag::FieldBarePairwise => output.root matches Root::Fields(root) && root@
            == BareNode::root_for(hash, n),
    }
}

/// The output is a function of the number of leaves and the scheme: two
/// constructions for the same number and the same scheme hand on the same
/// output, down to the last scalar of the root.
pub proof fn lemma_output_deterministic(
    hash: spec_fn(Seq<u64>) -> Seq<u64>,
    n: nat,
    scheme_tag: SchemeTag,
    first: TreeOutput,
    second: TreeOutput,
)
    requires
        is_tree_output(hash, n, scheme_tag, first),
        is_tree_output(hash, n, scheme_tag, second),
    ensures
        first == second,
{
    match scheme_tag {
        SchemeTag::ByteSelfContained => {
            assert(first.root->Bytes_0 =~= second.root->Bytes_0);
        },
        _ => {
            assert(first.root->Fields_0 =~= second.root->Fields_0);
        },
    }
}

/// The whole construction: `n` leaves of the scheme's shape are generated,
/// encoded and hashed into the first level, and the level is reduced to its
/// root. `n` must be even and not zero. `field_hash` is called only under a
/// scheme of the field hash; whatever function it computes, the root is the
/// root under that function.
pub fn build<F: Fn(&Vec<u64>) -> [u64; 4]>(n: usize, scheme_tag: SchemeTag, field_hash: &F) -> (out:
    Result<TreeOutput, TreeError>)
    requires
        scheme_tag == SchemeTag::FieldSelfContained ==> takes::<FieldHash, F>(
            *field_hash,
            LEAF_WIDTH as nat,
        ),
        scheme_tag == SchemeTag::FieldBarePairwise ==> takes::<FieldHash, F>(
            *field_hash,
            BARE_PAIR_WIDTH as nat,
        ),
        scheme_tag.spec_hash_kind() == HashKind::Field ==> takes::<FieldHash, F>(
            *field_hash,
            DIGEST_PAIR_WIDTH as nat,
        ),
    ensures
        (n % 2 == 1 || n == 0) <==> out is Err,
        out matches Err(e) ==> e == TreeError::InvalidLeafCount,
        out matches Ok(output) ==> {
            &&& output.n == n
            &&& output.scheme_tag == scheme_tag
            &&& output.root.spec_kind() == scheme_tag.spec_hash_kind()
        },
        forall|h: spec_fn(Seq<u64>) -> Seq<u64>| #[trigger]
            computes::<FieldHash, F>(*field_hash, h) ==> (out matches Ok(output)
                ==> is_tree_output(h, n as nat, scheme_tag, output)),
{
    if n % 2 != 0 {
        return Err(TreeError::InvalidLeafCount);
    }
    match scheme_tag {
        SchemeTag::ByteSelfContained => byte_tree(n),
        SchemeTag::FieldSelfContained => {
            let leaves = PoseidonNode::generate_leaves(n);
            proof {
                assert forall|h: spec_fn(Seq<u64>) -> Seq<u64>|
                    PoseidonNode::root_of_leaves(h, leaves@) == #[trigger] PoseidonNode::root_for(
                        h,
                        n as nat,
                    ) by {
                    PoseidonNode::lemma_root_depends_on_count(h, leaves@);
                }
            }
            match PoseidonNode::generate_tree(leaves, field_hash) {
                Ok(root) => TreeOutput::assemble(n, scheme_tag, Root::Fields(root)),
                Err(e) => Err(e),
            }
        },
        SchemeTag::FieldBarePairwise => {
            let leaves = BareNode::generate_leaves(n);
            proof {
                assert forall|h: spec_fn(Seq<u64>) -> Seq<u64>|
                    BareNode::root_of_leaves(h, leaves@) == #[trigger] BareNode::root_for(
                        h,
                        n as nat,
                    ) by {
                    BareNode::lemma_root_depends_on_count(h, leaves@);
                }
            }
            match BareNode::generate_tree(leaves, field_hash) {
                Ok(root) => TreeOutput::assemble(n, scheme_tag, Root::Fields(root)),
                Err(e) => Err(e),
            }
        },
    }
}

} // verus!
