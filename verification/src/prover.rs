//! Proof generation: the fused tree-builder / proof-extractor pass, and the
//! assembly of the proof record handed to an external serializer.
use vstd::prelude::*;
use crate::hashing::{base64_of, Hash32Bytes, encode_hash};
use crate::tree::{
    digest_views, height_of, leaf_views, level_at, lemma_height_bounds, merkle_proof_of,
    next_level, padded_level0, pow2, proof_digests, sibling_of, compute_height,
    hash_leaves_padded, combine_level,
};

verus! {

/// The proof record: the target leaf's position and value together with the
/// ordered sibling digests in their transport encoding, level 0 first. The
/// raw-digest slot is left empty by this generator.
pub struct MerkleProof {
    pub leaf_position: usize,
    pub leaf_value: String,
    pub proof_hash_values_base64: Vec<String>,
    pub proof_hash_values: Option<Vec<Hash32Bytes>>,
}

/// Why a proof request is rejected before any hashing is done.
#[derive(Clone, Copy, Debug, PartialEq, Eq)]
pub enum ProofError {
    /// The leaf sequence was empty; a tree needs at least one leaf.
    EmptyLeafSequence,
    /// The requested position lies at or beyond the leaf count.
    PositionOutOfRange,
}

/// Generate the inclusion proof for the leaf at `leaf_pos`: the sibling
/// digest of the target's path at every level, level 0 first, the sibling
/// nearest the root last. The proof has exactly one digest per tree level.
pub fn gen_merkle_proof(leaves: Vec<String>, leaf_pos: usize) -> (hashes: Vec<Hash32Bytes>)
    requires
        leaf_pos < leaves@.len(),
        leaves@.len() <= usize::MAX / 2,
    ensures
        hashes@.len() == height_of(leaves@.len() as nat),
        digest_views(hashes@) == merkle_proof_of(leaf_views(leaves@), leaf_pos as nat),
{
    let ghost l0 = padded_level0(leaf_views(leaves@));
    let ghost full_height = height_of(leaves@.len() as nat);
    let height = compute_height(leaves.len());
    let mut state = hash_leaves_padded(&leaves);
    let mut hashes: Vec<Hash32Bytes> = Vec::new();
    let mut level_pos = leaf_pos;
    let mut level: usize = 0;
    proof {
        lemma_height_bounds(leaves@.len() as nat);
        assert(Seq::<Seq<u8>>::empty() + proof_digests(l0, leaf_pos as nat, full_height)
            =~= proof_digests(l0, leaf_pos as nat, full_height));
    }
    while level < height
        invariant
            level <= height,
            height as nat == full_height,
            digest_views(state@) == level_at(l0, level as nat),
            state@.len() == pow2((height - level) as nat),
            state@.len() <= usize::MAX,
            level_pos < state@.len(),
            hashes@.len() == level,
            digest_views(hashes@) + proof_digests(
                level_at(l0, level as nat),
                level_pos as nat,
                (height - level) as nat,
            ) == proof_digests(l0, leaf_pos as nat, full_height),
        decreases height - level,
    {
        let ghost cur = digest_views(state@);
        let ghost remaining = proof_digests(cur, level_pos as nat, (height - level) as nat);
        proof {
            assert(pow2((height - level) as nat) == 2 * pow2((height - level - 1) as nat));
        }
        if level_pos % 2 == 0 {
            hashes.push(state[level_pos + 1]);
        } else {
            hashes.push(state[level_pos - 1]);
        }
        proof {
            assert(hashes@.last()@ == sibling_of(cur, level_pos as nat));
            assert(remaining == seq![sibling_of(cur, level_pos as nat)] + proof_digests(
                next_level(cur),
                level_pos as nat / 2,
                (height - level - 1) as nat,
            ));
            assert(digest_views(hashes@) =~= digest_views(hashes@.drop_last()) + seq![
                sibling_of(cur, level_pos as nat),
            ]);
            assert(digest_views(hashes@) + proof_digests(
                next_level(cur),
                level_pos as nat / 2,
                (height - level - 1) as nat,
            ) =~= digest_views(hashes@.drop_last()) + remaining);
        }
        state = combine_level(&state);
        level_pos = level_pos / 2;
        level = level + 1;
    }
    proof {
        assert(proof_digests(level_at(l0, level as nat), level_pos as nat, 0) =~= Seq::<
            Seq<u8>,
        >::empty());
        assert(digest_views(hashes@) + Seq::<Seq<u8>>::empty() =~= digest_views(hashes@));
    }
    hashes
}

/// Produce the full proof record for one leaf of the given sequence: reject
/// an empty sequence or an out-of-range position before any hashing, then
/// bundle the leaf's position and value with the base64 encoding of each
/// sibling digest, in level order.
pub fn run(leaves: Vec<String>, leaf_position: usize) -> (result: Result<MerkleProof, ProofError>)
    requires
        leaves@.len() <= usize::MAX / 2,
    ensures
        result is Ok <==> leaf_position < leaves@.len(),
        leaves@.len() == 0 ==> result == Err::<MerkleProof, ProofError>(
            ProofError::EmptyLeafSequence,
        ),
        leaves@.len() > 0 && leaf_position >= leaves@.len() ==> result == Err::<
            MerkleProof,
            ProofError,
        >(ProofError::PositionOutOfRange),
        result is Ok ==> result->Ok_0.leaf_position == leaf_position,
        result is Ok ==> result->Ok_0.leaf_value@ == leaves@[leaf_position as int]@,
        result is Ok ==> result->Ok_0.proof_hash_values_base64@.len() == height_of(
            leaves@.len() as nat,
        ),
        result is Ok ==> result->Ok_0.proof_hash_values_base64@.map_values(|s: String| s@)
            == merkle_proof_of(leaf_views(leaves@), leaf_position as nat).map_values(
            |d: Seq<u8>| base64_of(d),
        ),
        result is Ok ==> result->Ok_0.proof_hash_values is None,
{
    if leaves.len() == 0 {
        return Err(ProofError::EmptyLeafSequence);
    }
    if leaf_position >= leaves.len() {
        return Err(ProofError::PositionOutOfRange);
    }
    let ghost proof_model = merkle_proof_of(leaf_views(leaves@), leaf_position as nat);
    let leaf_value = leaves[leaf_position].clone();
    let hashes = gen_merkle_proof(leaves, leaf_position);
    let mut proof_hash_values_base64: Vec<String> = Vec::new();
    let mut i: usize = 0;
    while i < hashes.len()
        invariant
            i <= hashes@.len(),
            digest_views(hashes@) == proof_model,
            proof_hash_values_base64@.len() == i,
            forall|j: int|
                0 <= j < i ==> proof_hash_values_base64@[j]@ == base64_of(proof_model[j]),
        decreases hashes@.len() - i,
    {
        let encoded = encode_hash(hashes[i]);
        proof_hash_values_base64.push(encoded);
        i = i + 1;
    }
    proof {
        assert(proof_hash_values_base64@.map_values(|s: String| s@) =~= proof_model.map_values(
            |d: Seq<u8>| base64_of(d),
        ));
    }
    Ok(
        MerkleProof {
            leaf_position,
            leaf_value,
            proof_hash_values_base64,
            proof_hash_values: None,
        },
    )
}

} // verus!
