//! The hash burn: random blocks fed through SHA-256, one digest per block.

use rand::Rng;
use sha2::{Digest, Sha256};
use vstd::prelude::*;

verus! {

/// The size in bytes of the block that each iteration hashes.
pub const BLOCK_SIZE: usize = 4096;

/// A SHA-256 hasher that is reused from block to block.
///
/// The hasher of the `sha2` crate is kept opaque: the verifier sees it only
/// through `absorbed`.
#[verifier::external_body]
pub struct BlockHasher {
    inner: Sha256,
}

/// The SHA-256 digest of a message, as the `sha2` crate computes it.
pub uninterp spec fn sha256(message: Seq<u8>) -> Seq<u8>;

/// The bytes a hasher has taken in since it was created or last reset.
pub uninterp spec fn absorbed(hasher: BlockHasher) -> Seq<u8>;

/// `Sha256::new` of the `sha2` crate: a hasher that has taken in nothing.
#[verifier::external_body]
fn hasher_new() -> (hasher: BlockHasher)
    ensures
        absorbed(hasher) == Seq::<u8>::empty(),
{
    BlockHasher { inner: Sha256::new() }
}

/// `Digest::update` of the `sha2` crate: the hasher takes in `data` after
/// what it already holds.
#[verifier::external_body]
fn hasher_update(hasher: &mut BlockHasher, data: &Vec<u8>)
    ensures
        absorbed(*final(hasher)) == absorbed(*old(hasher)) + data@,
{
    hasher.inner.update(data);
}

/// `Digest::finalize_reset` of the `sha2` crate: returns the 32-byte digest
/// of everything taken in, and leaves the hasher as new.
#[verifier::external_body]
fn hasher_finalize_reset(hasher: &mut BlockHasher) -> (digest: [u8; 32])
    ensures
        digest@ == sha256(absorbed(*old(hasher))),
        absorbed(*final(hasher)) == Seq::<u8>::empty(),
{
    hasher.inner.finalize_reset().into()
}

/// `Rng::fill` on `thread_rng()` of the `rand` crate: overwrites the buffer
/// with random bytes. Nothing is known of the bytes; the length stays. The
/// call panics if the operating system cannot seed the generator.
#[verifier::external_body]
fn fill_random(data: &mut Vec<u8>)
    ensures
        final(data)@.len() == old(data)@.len(),
{
    rand::thread_rng().fill(&mut data[..]);
}

impl BlockHasher {
    /// The hasher holds no pending input.
    pub open spec fn is_fresh(&self) -> bool {
        absorbed(*self) == Seq::<u8>::empty()
    }

    /// Creates a hasher that has taken in nothing.
    pub fn new() -> (hasher: BlockHasher)
        ensures
            hasher.is_fresh(),
    {
        hasher_new()
    }

    /// Hashes one block in one shot: the digest covers whatever was pending
    /// followed by `block`, and the hasher is fresh again afterwards.
    pub fn digest_block(&mut self, block: &Vec<u8>) -> (digest: [u8; 32])
        ensures
            digest@ == sha256(absorbed(*old(self)) + block@),
            old(self).is_fresh() ==> digest@ == sha256(block@),
            final(self).is_fresh(),
    {
        hasher_update(self, block);
        assert(Seq::<u8>::empty() + block@ =~= block@);
        hasher_finalize_reset(self)
    }
}

/// A buffer of `len` zero bytes.
pub fn zeroed_block(len: usize) -> (block: Vec<u8>)
    ensures
        block@ == Seq::new(len as nat, |i: int| 0u8),
{
    let mut block: Vec<u8> = Vec::new();
    let mut i: usize = 0;
    while i < len
        invariant
            i <= len,
            block@ == Seq::new(i as nat, |j: int| 0u8),
        decreases len - i,
    {
        block.push(0u8);
        i = i + 1;
        assert(block@ =~= Seq::new(i as nat, |j: int| 0u8));
    }
    block
}

/// Runs `iterations` rounds of refilling `block` with random bytes and
/// hashing it with one reused hasher, and returns the digest of the last
/// round.
///
/// Each round's digest covers that round's block alone: the hasher is reset
/// with every digest. The block keeps its length and ends up holding the
/// bytes of the last round.
pub fn burn_blocks(block: &mut Vec<u8>, iterations: u64) -> (last: Option<[u8; 32]>)
    ensures
        final(block)@.len() == old(block)@.len(),
        iterations == 0 ==> last is None && final(block)@ == old(block)@,
        iterations > 0 ==> last is Some && last->0@ == sha256(final(block)@),
{
    let mut hasher: BlockHasher = BlockHasher::new();
    let mut last: Option<[u8; 32]> = None;
    let mut round: u64 = 0;
    while round < iterations
        invariant
            round <= iterations,
            hasher.is_fresh(),
            block@.len() == old(block)@.len(),
            round == 0 ==> last is None && block@ == old(block)@,
            round > 0 ==> last is Some && last->0@ == sha256(block@),
        decreases iterations - round,
    {
        fill_random(block);
        let digest: [u8; 32] = hasher.digest_block(block);
        last = Some(digest);
        round = round + 1;
    }
    last
}

/// The hash burn: `iterations` random blocks of `BLOCK_SIZE` bytes, each
/// hashed with SHA-256 and its digest dropped.
pub fn sha256_burn(iterations: u64) {
    let mut data: Vec<u8> = zeroed_block(BLOCK_SIZE);
    let _ = burn_blocks(&mut data, iterations);
}

} // verus!
