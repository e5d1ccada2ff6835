//! Block identity and the transaction merkle root: double SHA-256 over
//! little-endian serializations, with the historical duplicate-last-node
//! padding rule for odd-sized layers.
use vstd::prelude::*;
use crate::hash::double_sha256;
use crate::hash::double_sha256_bytes;
use crate::hash::double_sha256_of;
use crate::parse::views_of;
use crate::error::BlockValidationError;
use crate::LittleEndianSerialization;

verus! {

/// An odd layer of more than one node is padded by duplicating its last
/// node; a layer of one node, or an even layer, is unchanged.
pub open spec fn spec_merkle_pad(layer: Seq<Seq<u8>>) -> Seq<Seq<u8>> {
    if layer.len() > 1 && layer.len() % 2 == 1 {
        layer.push(layer.last())
    } else {
        layer
    }
}

/// Pairs adjacent nodes of an even layer, double-hashing each
/// concatenation to form the next layer.
pub open spec fn spec_merkle_pair(layer: Seq<Seq<u8>>) -> Seq<Seq<u8>> {
    Seq::new(layer.len() / 2, |i: int| double_sha256_of(layer[2 * i] + layer[2 * i + 1]))
}

/// Folds a non-empty layer down to a single node: a layer of one node is
/// that node; otherwise pad, pair, and repeat.
pub open spec fn spec_merkle_fold(layer: Seq<Seq<u8>>) -> Seq<u8>
    recommends
        layer.len() > 0,
    decreases layer.len(),
{
    if layer.len() <= 1 {
        if layer.len() == 1 {
            layer[0]
        } else {
            Seq::empty()
        }
    } else {
        spec_merkle_fold(spec_merkle_pair(spec_merkle_pad(layer)))
    }
}

/// The merkle leaf of one transaction: the double hash of its
/// witness-stripped serialization, in reversed (display) byte order.
pub open spec fn spec_merkle_leaf(t: crate::TransactionView) -> Seq<u8> {
    double_sha256_of(
        crate::Transaction::spec_serialized(crate::spec_strip_witness(t)),
    ).reverse()
}

/// The merkle root of a block's transactions: the all-zero hash for an
/// empty block, else the fold of the leaf layer, reported in reversed
/// (display) byte order.
pub open spec fn spec_merkle_root(b: crate::BlockView) -> Seq<u8> {
    if b.transactions.len() == 0 {
        Seq::new(32, |i: int| 0u8)
    } else {
        spec_merkle_fold(
            b.transactions.map_values(|t: crate::TransactionView| spec_merkle_leaf(t)),
        ).reverse()
    }
}

impl crate::Block {
    /// Computes the block hash: the double SHA-256 of the block header's
    /// little-endian serialization.
    pub fn id(&self) -> (r: crate::Hash)
        ensures
            r@ == double_sha256_of(crate::BlockHeader::spec_serialized(self.header@)),
            r@.len() == 32,
    {
        double_sha256(&self.header)
    }

    /// Computes the merkle root of the block by hashing the transactions
    /// in a merkle tree format. Note that this computes the merkle root
    /// and doesn't just return the merkle root from the header.
    #[verifier::loop_isolation(false)]
    pub fn computed_merkle_root(&self) -> (r: crate::Hash)
        ensures
            r@ == spec_merkle_root(self@),
    {
        let ghost leaves = self@.transactions.map_values(
            |t: crate::TransactionView| spec_merkle_leaf(t),
        );
        if self.transactions.len() == 0 {
            let r = crate::Hash::zero();
            return r;
        }
        let mut layer: Vec<crate::Hash> = Vec::new();
        let mut i: usize = 0;
        while i < self.transactions.len()
            invariant
                i <= self.transactions@.len(),
                layer@.len() == i,
                forall|j: int| 0 <= j < i ==> views_of(layer@)[j] == leaves[j],
            decreases self.transactions@.len() - i,
        {
            let stripped = self.transactions[i].strip_witness_data();
            let h = double_sha256(&stripped);
            layer.push(h.reverse());
            i = i + 1;
        }
        proof {
            assert(views_of(layer@) =~= leaves);
        }
        while layer.len() > 1
            invariant
                layer@.len() >= 1,
                spec_merkle_fold(views_of(layer@)) == spec_merkle_fold(leaves),
            decreases layer@.len(),
        {
            let ghost entry_views = views_of(layer@);
            if layer.len() % 2 == 1 {
                let last = layer[layer.len() - 1];
                layer.push(last);
            }
            proof {
                assert(views_of(layer@) =~= spec_merkle_pad(entry_views));
            }
            let ghost padded = views_of(layer@);
            let mut next: Vec<crate::Hash> = Vec::new();
            let mut k: usize = 0;
            while k + 1 < layer.len()
                invariant
                    layer@.len() % 2 == 0,
                    k % 2 == 0,
                    k <= layer@.len(),
                    next@.len() == k / 2,
                    padded == views_of(layer@),
                    forall|j: int| 0 <= j < k / 2 ==> views_of(next@)[j] == double_sha256_of(
                        padded[2 * j] + padded[2 * j + 1],
                    ),
                decreases layer@.len() - k,
            {
                let mut buf: Vec<u8> = Vec::new();
                let a = layer[k].to_bytes();
                let b = layer[k + 1].to_bytes();
                crate::parse::push_all(&mut buf, a.as_slice());
                crate::parse::push_all(&mut buf, b.as_slice());
                let h = double_sha256_bytes(buf.as_slice());
                let ghost prev_views = views_of(next@);
                next.push(h);
                proof {
                    assert(views_of(next@) =~= prev_views.push(h@));
                    assert(buf@ =~= padded[k as int] + padded[k as int + 1]);
                    assert(2 * (k as int / 2) == k as int);
                    assert(views_of(next@)[k as int / 2] == double_sha256_of(
                        padded[k as int] + padded[k as int + 1],
                    ));
                }
                k = k + 2;
            }
            proof {
                assert(views_of(next@) =~= spec_merkle_pair(padded));
            }
            layer = next;
        }
        let r = layer[0].reverse();
        proof {
            assert(views_of(layer@)[0] == layer@[0]@);
            assert(spec_merkle_fold(views_of(layer@)) == layer@[0]@);
        }
        r
    }

    /// Whether the header's merkle-root commitment matches the root
    /// recomputed from the block's transactions.
    #[verifier::loop_isolation(false)]
    pub fn validate_merkle_root(&self) -> (r: Result<(), BlockValidationError>)
        ensures
            r is Ok <==> spec_merkle_root(self@) == self@.header.merkle_root,
            r is Err ==> r == Err::<(), BlockValidationError>(
                BlockValidationError::MerkleMismatch,
            ),
    {
        let computed = self.computed_merkle_root();
        let expected = self.header.merkle_root;
        let ca = computed.to_bytes();
        let ea = expected.to_bytes();
        let mut i: usize = 0;
        while i < 32
            invariant
                i <= 32,
                ca@ == computed@,
                ea@ == expected@,
                forall|j: int| 0 <= j < i ==> ca@[j] == ea@[j],
            decreases 32 - i,
        {
            if ca[i] != ea[i] {
                return Err(BlockValidationError::MerkleMismatch);
            }
            i = i + 1;
        }
        proof {
            assert(computed@ =~= expected@);
        }
        Ok(())
    }
}

} // verus!
verus! {

/// The duplicate-last-node rule: a block with exactly three transactions
/// computes its root as if a fourth leaf equal to the third were
/// appended — the first two leaves are paired, the third is paired with
/// itself, and the two results are paired.
pub proof fn lemma_merkle_three_duplicates_last(b: crate::BlockView)
    requires
        b.transactions.len() == 3,
    ensures
        spec_merkle_root(b) == double_sha256_of(
            double_sha256_of(
                spec_merkle_leaf(b.transactions[0]) + spec_merkle_leaf(b.transactions[1]),
            ) + double_sha256_of(
                spec_merkle_leaf(b.transactions[2]) + spec_merkle_leaf(b.transactions[2]),
            ),
        ).reverse(),
{
    let leaves = b.transactions.map_values(|t: crate::TransactionView| spec_merkle_leaf(t));
    assert(leaves.len() == 3);
    let padded = spec_merkle_pad(leaves);
    assert(padded =~= leaves.push(leaves[2]));
    let l2 = spec_merkle_pair(padded);
    assert(l2.len() == 2);
    assert(l2[0] == double_sha256_of(leaves[0] + leaves[1]));
    assert(l2[1] == double_sha256_of(leaves[2] + leaves[2]));
    assert(spec_merkle_pad(l2) == l2);
    let l3 = spec_merkle_pair(l2);
    assert(l3.len() == 1);
    assert(l3[0] == double_sha256_of(l2[0] + l2[1]));
    assert(spec_merkle_fold(l3) == l3[0]);
    assert(spec_merkle_fold(l2) == l3[0]);
    assert(spec_merkle_fold(leaves) == l3[0]);
    assert(leaves[0] == spec_merkle_leaf(b.transactions[0]));
    assert(leaves[1] == spec_merkle_leaf(b.transactions[1]));
    assert(leaves[2] == spec_merkle_leaf(b.transactions[2]));
}

/// A block with no transactions has the all-zero merkle root.
pub proof fn lemma_merkle_empty(b: crate::BlockView)
    requires
        b.transactions.len() == 0,
    ensures
        spec_merkle_root(b) == Seq::new(32, |i: int| 0u8),
{
}

} // verus!
