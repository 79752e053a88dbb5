use tiny_keccak::{Hasher, Keccak};
use vstd::prelude::*;

verus! {

/// The Keccak-256 digest of `input`: 32 bytes.
pub uninterp spec fn keccak256_digest(input: Seq<u8>) -> Seq<u8>;

/// Runs `tiny_keccak::Keccak::v256()` over `input` in one `update`, and
/// `finalize`s into a buffer of 32 bytes. Trusted: the bytes that come back
/// are those that Keccak-256 assigns to `input`, which depend on `input` alone.
#[verifier::external_body]
pub(crate) fn keccak256(input: &[u8]) -> (out: [u8; 32])
    ensures
        out@ == keccak256_digest(input@),
{
    let mut k = Keccak::v256();
    let mut output = [0u8; 32];
    k.update(input);
    k.finalize(&mut output);
    output
}

/// The form of the digests of one hash function: what they are made of,
/// and how wide they are. A digest is a value: it is only ever copied,
/// compared, or laid end to end with another and hashed again. Digests of
/// two kinds never meet in one tree, because a level has one type.
pub trait DigestKind {
    /// What buffers and digests are made of.
    type Scalar: Copy;

    /// The fixed-width output.
    type Digest: Copy;

    /// Number of scalars in a digest.
    spec fn spec_width() -> nat;

    /// The scalars of a digest, in order.
    spec fn scalars(digest: Self::Digest) -> Seq<Self::Scalar>;

    /// Every digest has the kind's width.
    proof fn lemma_width(digest: Self::Digest)
        ensures
            Self::scalars(digest).len() == Self::spec_width(),
    ;

    /// A digest is no more than its scalars.
    proof fn lemma_scalars_injective(a: Self::Digest, b: Self::Digest)
        requires
            Self::scalars(a) == Self::scalars(b),
        ensures
            a == b,
    ;

    /// Number of scalars in a digest. Two digests fit in one buffer.
    fn width() -> (width: usize)
        ensures
            width == Self::spec_width(),
            2 * width <= usize::MAX,
    ;

    /// Appends the scalars of `digest` to `buffer`.
    fn absorb(buffer: &mut Vec<Self::Scalar>, digest: &Self::Digest)
        ensures
            final(buffer)@ == old(buffer)@ + Self::scalars(*digest),
    ;
}

/// A deterministic hash function that this library can run by itself.
pub trait HashFunction: DigestKind {
    /// The function from a buffer to the scalars of its digest.
    spec fn hasher() -> spec_fn(Seq<Self::Scalar>) -> Seq<Self::Scalar>;

    /// Hashes `input`, whatever its length.
    fn hash(input: &Vec<Self::Scalar>) -> (out: Self::Digest)
        ensures
            Self::scalars(out) == (Self::hasher())(input@),
    ;
}

/// Keccak-256 over bytes, with digests of 32 bytes.
pub struct ByteHash;

impl DigestKind for ByteHash {
    type Scalar = u8;

    type Digest = [u8; 32];

    open spec fn spec_width() -> nat {
        32
    }

    open spec fn scalars(digest: [u8; 32]) -> Seq<u8> {
        digest@
    }

    proof fn lemma_width(digest: [u8; 32]) {
    }

    proof fn lemma_scalars_injective(a: [u8; 32], b: [u8; 32]) {
        assert(a =~= b);
    }

    fn width() -> (width: usize) {
        32
    }

    fn absorb(buffer: &mut Vec<u8>, digest: &[u8; 32]) {
        let mut i: usize = 0;
        while i < 32
            invariant
                i <= 32,
                buffer@ == old(buffer)@ + digest@.take(i as int),
            decreases 32 - i,
        {
            buffer.push(digest[i]);
            i += 1;
        }
        assert(digest@.take(32) == digest@);
    }
}

impl HashFunction for ByteHash {
    open spec fn hasher() -> spec_fn(Seq<u8>) -> Seq<u8> {
        |input: Seq<u8>| keccak256_digest(input)
    }

    fn hash(input: &Vec<u8>) -> (out: [u8; 32]) {
        keccak256(input.as_slice())
    }
}

/// The sponge hash over a prime field whose elements fit in 64 bits, with
/// digests of four elements. The permutation is not part of this library:
/// whoever builds a tree with it hands the hash in as a function from a
/// buffer to a digest. An element is held as a `u64` that represents it;
/// elements are laid out and copied here, never computed with.
pub struct FieldHash;

impl DigestKind for FieldHash {
    type Scalar = u64;

    type Digest = [u64; 4];

    open spec fn spec_width() -> nat {
        4
    }

    open spec fn scalars(digest: [u64; 4]) -> Seq<u64> {
        digest@
    }

    proof fn lemma_width(digest: [u64; 4]) {
    }

    proof fn lemma_scalars_injective(a: [u64; 4], b: [u64; 4]) {
        assert(a =~= b);
    }

    fn width() -> (width: usize) {
        4
    }

    fn absorb(buffer: &mut Vec<u64>, digest: &[u64; 4]) {
        let mut i: usize = 0;
        while i < 4
            invariant
                i <= 4,
                buffer@ == old(buffer)@ + digest@.take(i as int),
            decreases 4 - i,
        {
            buffer.push(digest[i]);
            i += 1;
        }
        assert(digest@.take(4) == digest@);
    }
}

} // verus!
