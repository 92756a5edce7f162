//! The digest capability: a fixed-width digest type, a hash function on bytes
//! and the rule that combines two child digests into their parent.

use sha2::{Digest, Sha256};
use vstd::prelude::*;

verus! {

/// A byte sequence that cannot be read back as a digest: its length is not
/// the digest width.
#[derive(Clone, Copy, Debug, PartialEq, Eq, Structural)]
pub struct MalformedDigest {
    /// The digest width that was asked for.
    pub expected: usize,
    /// The length of the bytes that were offered.
    pub found: usize,
}

/// A hash algorithm with digests of one fixed width.
///
/// `digest` is the algorithm as a mathematical function on bytes, `bytes`
/// reads a digest value as its byte sequence, and `width` is the length of
/// every such sequence. The executable methods are held to these three.
pub trait Hasher: Clone {
    type Hash: Copy + PartialEq;

    /// The digest bytes that the algorithm assigns to a byte sequence.
    spec fn digest(bytes: Seq<u8>) -> Seq<u8>;

    /// The byte sequence that a digest value stands for.
    spec fn bytes(digest: Self::Hash) -> Seq<u8>;

    /// The number of bytes in every digest.
    spec fn width() -> nat;

    /// Every digest value has exactly `width` bytes.
    proof fn lemma_fixed_width(digest: Self::Hash)
        ensures
            Self::bytes(digest).len() == Self::width(),
    ;

    /// Reading a digest as bytes loses nothing: two digests with the same
    /// bytes are the same value.
    proof fn lemma_bytes_lossless(a: Self::Hash, b: Self::Hash)
        requires
            Self::bytes(a) == Self::bytes(b),
        ensures
            a == b,
    ;

    /// Hashes a byte buffer.
    fn hash(buffer: &[u8]) -> (digest: Self::Hash)
        ensures
            Self::bytes(digest) == Self::digest(buffer@),
    ;

    /// The width of a digest in bytes.
    fn hash_size() -> (size: usize)
        ensures
            size == Self::width(),
    ;

    /// Writes a digest out as its bytes.
    fn to_bytes(digest: &Self::Hash) -> (out: Vec<u8>)
        ensures
            out@ == Self::bytes(*digest),
    ;

    /// Reads a digest back from bytes; fails exactly when the length is not
    /// the digest width.
    fn from_bytes(bytes: &[u8]) -> (digest: Result<Self::Hash, MalformedDigest>)
        ensures
            bytes@.len() == Self::width() ==> digest is Ok && Self::bytes(digest->Ok_0) == bytes@,
            bytes@.len() != Self::width() ==> digest == Err::<Self::Hash, MalformedDigest>(
                (MalformedDigest { expected: Self::width() as usize, found: bytes.len() }),
            ),
    ;

    /// Combines two sibling digests into their parent. With a right sibling
    /// the parent is the hash of the left bytes followed by the right bytes;
    /// without one the left digest is handed up unchanged, not hashed again.
    fn hash_pair(left: &Self::Hash, right: Option<&Self::Hash>) -> (parent: Self::Hash)
        ensures
            match right {
                Some(r) => Self::bytes(parent) == Self::digest(Self::bytes(*left) + Self::bytes(*r)),
                None => parent == *left,
            },
    {
        match right {
            Some(r) => {
                let mut combined: Vec<u8> = Self::to_bytes(left);
                let mut rest: Vec<u8> = Self::to_bytes(r);
                combined.append(&mut rest);
                Self::hash(combined.as_slice())
            },
            None => *left,
        }
    }
}

/// The digest of a parent node, over the bytes of its children: the hash of
/// the left bytes followed by the right bytes, or the left child verbatim
/// where there is no right child.
pub open spec fn parent_digest<H: Hasher>(left: Seq<u8>, right: Option<Seq<u8>>) -> Seq<u8> {
    match right {
        Some(r) => H::digest(left + r),
        None => left,
    }
}

/// The SHA-256 digest of a byte sequence, as the `sha2` crate computes it.
pub uninterp spec fn sha256(bytes: Seq<u8>) -> Seq<u8>;

/// Calls `Digest::digest` on `sha2::Sha256`, the one-shot form of the hasher
/// (a fresh state, one `update` with the buffer, then `finalize`). The
/// contract names the 32 bytes that come back `sha256` of the buffer; that
/// the same bytes always give the same digest is taken from `sha2`.
#[verifier::external_body]
fn sha256_of(buffer: &[u8]) -> (digest: [u8; 32])
    ensures
        digest@ == sha256(buffer@),
{
    Sha256::digest(buffer).into()
}

/// SHA-256 as a `Hasher`, with digests of 32 bytes.
#[derive(Clone, Copy)]
pub struct Sha256Hasher {}

impl Hasher for Sha256Hasher {
    type Hash = [u8; 32];

    open spec fn digest(bytes: Seq<u8>) -> Seq<u8> {
        sha256(bytes)
    }

    open spec fn bytes(digest: [u8; 32]) -> Seq<u8> {
        digest@
    }

    open spec fn width() -> nat {
        32
    }

    proof fn lemma_fixed_width(digest: [u8; 32]) {
    }

    proof fn lemma_bytes_lossless(a: [u8; 32], b: [u8; 32]) {
        assert(a =~= b);
    }

    fn hash(buffer: &[u8]) -> (digest: [u8; 32]) {
        sha256_of(buffer)
    }

    fn hash_size() -> (size: usize) {
        32
    }

    fn to_bytes(digest: &[u8; 32]) -> (out: Vec<u8>) {
        let mut out: Vec<u8> = Vec::with_capacity(32);
        let mut i: usize = 0;
        while i < 32
            invariant
                i <= 32,
                out@ == digest@.take(i as int),
            decreases 32 - i,
        {
            out.push(digest[i]);
            i += 1;
        }
        assert(digest@ =~= digest@.take(32));
        out
    }

    fn from_bytes(bytes: &[u8]) -> (digest: Result<[u8; 32], MalformedDigest>) {
        if bytes.len() != 32 {
            return Err(MalformedDigest { expected: 32, found: bytes.len() });
        }
        let mut out: [u8; 32] = [0u8; 32];
        let mut i: usize = 0;
        while i < 32
            invariant
                i <= 32,
                bytes@.len() == 32,
                out@.take(i as int) == bytes@.take(i as int),
            decreases 32 - i,
        {
            out[i] = bytes[i];
            i += 1;
        }
        assert(out@ =~= out@.take(32) && bytes@ =~= bytes@.take(32));
        Ok(out)
    }
}

} // verus!
