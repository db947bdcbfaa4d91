//! Shape of the commitment tree, and the writes that keep a tree in step
//! with the ledger.
//!
//! The ledger commits to its accounts through a binary Merkle tree with one
//! leaf per account slot. The tree itself is hashed elsewhere. This module
//! holds what the ledger decides about it: how high a tree for a given number
//! of accounts is, what an unused leaf holds, how wide the two hashes'
//! inputs are, and which leaf a change of the ledger writes.

use crate::record::RECORD_SIZE;
use vstd::arithmetic::power2::{lemma2_to64, lemma_pow2_unfold, pow2};
use vstd::prelude::*;

verus! {

/// The least `h` such that a tree of height `h`, which has `2^h` leaves, has
/// `n` leaves or more. It is 0 for `n = 0`.
pub open spec fn ceil_log2(n: nat) -> nat
    decreases n,
{
    if n <= 1 {
        0
    } else {
        1 + ceil_log2(((n + 1) / 2) as nat)
    }
}

/// `ark_std::log2` returns the number of bits that it takes to tell `x`
/// values apart: 0 for 0 and 1, the exponent for a power of two, and the bit
/// length of `x` otherwise. Trusted: that number is `ceil_log2(x)`.
pub assume_specification[ ark_std::log2 ](x: usize) -> (bits: u32)
    ensures
        bits == ceil_log2(x as nat),
;

/// A tree of height `ceil_log2(n)` has room for `n` leaves.
pub proof fn law_height_covers(n: nat)
    ensures
        n <= pow2(ceil_log2(n)),
    decreases n,
{
    lemma2_to64();
    if n > 1 {
        let half = ((n + 1) / 2) as nat;
        law_height_covers(half);
        lemma_pow2_unfold(ceil_log2(n));
    }
}

/// No lower tree has room for `n` leaves: `ceil_log2(n)` is at most the
/// height of any tree that has.
pub proof fn law_height_least(n: nat, height: nat)
    requires
        n <= pow2(height),
    ensures
        ceil_log2(n) <= height,
    decreases n,
{
    lemma2_to64();
    if n > 1 {
        let half = ((n + 1) / 2) as nat;
        assert(height >= 1);
        lemma_pow2_unfold(height);
        law_height_least(half, (height - 1) as nat);
    }
}

/// Window geometry of the hash that joins two digests: 4 windows of 128 bits.
#[derive(Clone, Copy, Debug, PartialEq, Eq, Hash)]
pub struct TwoToOneWindow;

impl TwoToOneWindow {
    /// Bits in one window.
    pub const WINDOW_SIZE: usize = 128;

    /// Number of windows.
    pub const NUM_WINDOWS: usize = 4;
}

/// Window geometry of the hash that digests a leaf: 4 windows of 144 bits.
#[derive(Clone, Copy, Debug, PartialEq, Eq, Hash)]
pub struct LeafWindow;

impl LeafWindow {
    /// Bits in one window.
    pub const WINDOW_SIZE: usize = 144;

    /// Number of windows.
    pub const NUM_WINDOWS: usize = 4;
}

/// Configuration of the commitment tree: leaves are digested under
/// `LeafWindow`, pairs of digests under `TwoToOneWindow`.
#[derive(Clone, Copy, Debug, PartialEq, Eq, Hash)]
pub struct MerkleConfig;

impl MerkleConfig {
    /// Bytes in a leaf.
    pub const LEAF_SIZE: usize = 72;

    /// Bytes in a digest.
    pub const DIGEST_SIZE: usize = 32;

    /// What a leaf holds before anything is written to it: zeros.
    pub open spec fn blank_leaf_spec() -> Seq<u8> {
        Seq::new(Self::LEAF_SIZE as nat, |i: int| 0u8)
    }

    /// The leaves of a tree of height `height` that nothing was written to.
    pub open spec fn blank_leaves(height: nat) -> Seq<Seq<u8>> {
        Seq::new(pow2(height), |i: int| Self::blank_leaf_spec())
    }

    /// A blank leaf.
    pub fn blank_leaf() -> (leaf: Vec<u8>)
        ensures
            leaf@ == Self::blank_leaf_spec(),
    {
        let mut leaf: Vec<u8> = Vec::new();
        let mut i: usize = 0;
        while i < 72
            invariant
                i <= 72,
                leaf@ == Seq::new(i as nat, |k: int| 0u8),
            decreases 72 - i,
        {
            leaf.push(0u8);
            i = i + 1;
            proof {
                assert(leaf@ =~= Seq::new(i as nat, |k: int| 0u8));
            }
        }
        leaf
    }

    /// Number of levels of a tree of height `height`, the level of the leaves
    /// and that of the root included.
    pub fn levels(height: u32) -> (levels: usize)
        requires
            height <= usize::BITS,
        ensures
            levels == height + 1,
    {
        height as usize + 1
    }
}

/// The windows are as wide as what is hashed under them: the leaf window
/// holds one encoded record, which is one leaf, and the two-to-one window
/// holds two digests.
pub proof fn law_windows_fit()
    ensures
        LeafWindow::WINDOW_SIZE * LeafWindow::NUM_WINDOWS == 8 * MerkleConfig::LEAF_SIZE,
        MerkleConfig::LEAF_SIZE == RECORD_SIZE,
        TwoToOneWindow::WINDOW_SIZE * TwoToOneWindow::NUM_WINDOWS == 8 * (2
            * MerkleConfig::DIGEST_SIZE),
{
}

/// One write into the commitment tree: the leaf at `index` becomes `leaf`.
#[derive(Debug, PartialEq, Eq)]
pub struct LeafUpdate {
    pub index: usize,
    pub leaf: Vec<u8>,
}

impl View for LeafUpdate {
    type V = (int, Seq<u8>);

    /// The index of the leaf and its new content.
    open spec fn view(&self) -> (int, Seq<u8>) {
        (self.index as int, self.leaf@)
    }
}

impl LeafUpdate {
    /// A tree of height `height` can take the write: it has a leaf at the
    /// index, and the content is as long as a leaf is.
    pub open spec fn fits(&self, height: nat) -> bool {
        self.index < pow2(height) && self.leaf@.len() == MerkleConfig::LEAF_SIZE
    }

    /// The leaves of a tree after this write, given its leaves before.
    pub open spec fn applied(&self, leaves: Seq<Seq<u8>>) -> Seq<Seq<u8>> {
        leaves.update(self.index as int, self.leaf@)
    }
}

} // verus!
