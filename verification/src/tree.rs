//! The mathematical model of the binary Merkle tree: the padded level-0
//! digest sequence, the level-by-level reduction, the inclusion proof's
//! sibling sequence, the root, and the verifier-side recombination.
use vstd::prelude::*;
use crate::hashing::{leaf_hash_of, node_hash_of, padding_digest, hash_leaf, hash_internal,
    Hash32Bytes};

verus! {

/// The character sequences of a sequence of leaf values.
pub open spec fn leaf_views(leaves: Seq<String>) -> Seq<Seq<char>> {
    leaves.map_values(|s: String| s@)
}

/// The byte sequences of a sequence of digests.
pub open spec fn digest_views(digests: Seq<Hash32Bytes>) -> Seq<Seq<u8>> {
    digests.map_values(|d: Hash32Bytes| d@)
}

/// 2 to the power `e`.
pub open spec fn pow2(e: nat) -> nat
    decreases e,
{
    if e == 0 {
        1
    } else {
        2 * pow2((e - 1) as nat)
    }
}

/// The tree height for `n` leaves: ceil(log2(n)), the least `h` with
/// `n <= 2^h`. Height 0 only for the degenerate single-leaf tree.
pub open spec fn height_of(n: nat) -> nat
    decreases n,
{
    if n <= 1 {
        0
    } else {
        1 + height_of(((n + 1) / 2) as nat)
    }
}

/// Level 0 of the tree: every real leaf hashed in order, then the sentinel
/// digest repeated up to the next power of two.
pub open spec fn padded_level0(leaves: Seq<Seq<char>>) -> Seq<Seq<u8>> {
    Seq::new(
        pow2(height_of(leaves.len())),
        |i: int|
            if i < leaves.len() {
                leaf_hash_of(leaves[i])
            } else {
                padding_digest()
            },
    )
}

/// One reduction step: digest `i` of the next level is the internal hash of
/// the strictly adjacent, non-overlapping pair (2i, 2i+1) below it.
pub open spec fn next_level(level: Seq<Seq<u8>>) -> Seq<Seq<u8>> {
    Seq::new(level.len() / 2, |i: int| node_hash_of(level[2 * i], level[2 * i + 1]))
}

/// The digest sequence `k` levels above `level`.
pub open spec fn level_at(level: Seq<Seq<u8>>, k: nat) -> Seq<Seq<u8>>
    decreases k,
{
    if k == 0 {
        level
    } else {
        next_level(level_at(level, (k - 1) as nat))
    }
}

/// The sibling of position `pos` within one level: the right neighbour when
/// `pos` is even (the node is a left child), the left neighbour when odd.
pub open spec fn sibling_of(level: Seq<Seq<u8>>, pos: nat) -> Seq<u8> {
    if pos % 2 == 0 {
        level[pos as int + 1]
    } else {
        level[pos as int - 1]
    }
}

/// The inclusion proof gathered over `h` levels starting at `level`: the
/// sibling of the target's path at each level, level 0 first, the sibling
/// nearest the root last. The position halves at each step.
pub open spec fn proof_digests(level: Seq<Seq<u8>>, pos: nat, h: nat) -> Seq<Seq<u8>>
    decreases h,
{
    if h == 0 {
        Seq::empty()
    } else {
        seq![sibling_of(level, pos)] + proof_digests(next_level(level), pos / 2, (h - 1) as nat)
    }
}

/// The whole tree's inclusion proof for position `pos` over `leaves`.
pub open spec fn merkle_proof_of(leaves: Seq<Seq<char>>, pos: nat) -> Seq<Seq<u8>> {
    proof_digests(padded_level0(leaves), pos, height_of(leaves.len()))
}

/// The root of the tree over `leaves`: the single digest at the top level.
pub open spec fn root_of(leaves: Seq<Seq<char>>) -> Seq<u8> {
    level_at(padded_level0(leaves), height_of(leaves.len()))[0]
}

/// Recombination as an independent verifier performs it: fold each sibling
/// digest into the running digest, placing the sibling on the right when the
/// evolving position is even and on the left when it is odd.
pub open spec fn recombine(digest: Seq<u8>, siblings: Seq<Seq<u8>>, pos: nat) -> Seq<u8>
    decreases siblings.len(),
{
    if siblings.len() == 0 {
        digest
    } else {
        let parent = if pos % 2 == 0 {
            node_hash_of(digest, siblings[0])
        } else {
            node_hash_of(siblings[0], digest)
        };
        recombine(parent, siblings.drop_first(), pos / 2)
    }
}

/// The height is bounded by the leaf count itself.
proof fn lemma_height_lt(n: nat)
    requires
        n >= 1,
    ensures
        height_of(n) < n,
    decreases n,
{
    if n > 1 {
        lemma_height_lt(((n + 1) / 2) as nat);
    }
}

/// The padded length covers every leaf and is tight: `n <= 2^height_of(n)`,
/// and for more than one leaf the padded length is at most `2*(n-1)`.
pub proof fn lemma_height_bounds(n: nat)
    requires
        n >= 1,
    ensures
        n <= pow2(height_of(n)),
        n >= 2 ==> pow2(height_of(n)) <= 2 * (n - 1),
    decreases n,
{
    if n >= 2 {
        let m = ((n + 1) / 2) as nat;
        lemma_height_bounds(m);
        assert(pow2(height_of(n)) == 2 * pow2(height_of(m)));
        assert(2 * m >= n);
        if m >= 2 {
            assert(pow2(height_of(m)) <= 2 * (m - 1));
            assert(4 * (m - 1) <= 2 * (n - 1));
        }
    }
}

/// Monotonicity of `pow2`.
proof fn lemma_pow2_monotone(a: nat, b: nat)
    requires
        a <= b,
    ensures
        pow2(a) <= pow2(b),
    decreases b,
{
    if a < b {
        lemma_pow2_monotone(a, (b - 1) as nat);
        assert(pow2(b) == 2 * pow2((b - 1) as nat));
        assert(pow2(a) >= 1) by {
            lemma_pow2_pos(a);
        }
    }
}

/// `pow2` is positive.
proof fn lemma_pow2_pos(e: nat)
    ensures
        pow2(e) >= 1,
    decreases e,
{
    if e > 0 {
        lemma_pow2_pos((e - 1) as nat);
    }
}

/// Reducing one level first and then climbing `k` levels reaches the same
/// sequence as climbing `k` levels first and reducing once.
proof fn lemma_level_at_commute(level: Seq<Seq<u8>>, k: nat)
    ensures
        level_at(next_level(level), k) == next_level(level_at(level, k)),
    decreases k,
{
    if k > 0 {
        lemma_level_at_commute(level, (k - 1) as nat);
    }
}

/// Folding the sibling digests gathered over `h` levels into the digest at
/// the target position reproduces the single digest `h` levels up.
proof fn lemma_recombine_level(level: Seq<Seq<u8>>, pos: nat, h: nat)
    requires
        level.len() == pow2(h),
        pos < level.len(),
    ensures
        recombine(level[pos as int], proof_digests(level, pos, h), pos) == level_at(level, h)[0],
    decreases h,
{
    if h == 0 {
        assert(level.len() == 1);
        assert(pos == 0);
    } else {
        let nl = next_level(level);
        assert(level.len() == 2 * pow2((h - 1) as nat));
        assert(nl.len() == pow2((h - 1) as nat));
        assert(pos / 2 < nl.len());
        let sib = sibling_of(level, pos);
        let rest = proof_digests(nl, pos / 2, (h - 1) as nat);
        let whole = proof_digests(level, pos, h);
        assert(whole == seq![sib] + rest);
        assert(whole.len() == 1 + rest.len());
        assert(whole[0] == sib);
        assert(whole.drop_first() =~= rest);
        let parent = if pos % 2 == 0 {
            node_hash_of(level[pos as int], sib)
        } else {
            node_hash_of(sib, level[pos as int])
        };
        assert(nl[pos as int / 2] == node_hash_of(
            level[2 * (pos as int / 2)],
            level[2 * (pos as int / 2) + 1],
        ));
        if pos % 2 == 0 {
            assert(2 * (pos as int / 2) == pos as int);
        } else {
            assert(2 * (pos as int / 2) == pos as int - 1);
        }
        assert(parent == nl[pos as int / 2]);
        assert(recombine(level[pos as int], whole, pos) == recombine(parent, rest, pos / 2));
        lemma_recombine_level(nl, pos / 2, (h - 1) as nat);
        lemma_level_at_commute(level, (h - 1) as nat);
        assert(level_at(nl, (h - 1) as nat) == level_at(level, h));
    }
}

/// Round-trip law: for any leaf sequence and any valid position, recombining
/// the leaf's own digest with the proof's sibling digests, applying the
/// internal hash at each level with operand order determined by the
/// position's evolving parity, reproduces the tree root.
pub proof fn lemma_round_trip(leaves: Seq<Seq<char>>, pos: nat)
    requires
        1 <= leaves.len(),
        pos < leaves.len(),
    ensures
        recombine(leaf_hash_of(leaves[pos as int]), merkle_proof_of(leaves, pos), pos) == root_of(
            leaves,
        ),
{
    lemma_height_bounds(leaves.len());
    let l0 = padded_level0(leaves);
    assert(l0[pos as int] == leaf_hash_of(leaves[pos as int]));
    lemma_recombine_level(l0, pos, height_of(leaves.len()));
}

/// The proof gathered over `h` levels holds exactly `h` digests.
proof fn lemma_proof_digests_len(level: Seq<Seq<u8>>, pos: nat, h: nat)
    ensures
        proof_digests(level, pos, h).len() == h,
    decreases h,
{
    if h > 0 {
        lemma_proof_digests_len(next_level(level), pos / 2, (h - 1) as nat);
    }
}

/// Proof-length law: the proof holds one sibling digest per tree level, and
/// the height is exactly ceil(log2(n)) — zero for a single leaf, otherwise
/// the least exponent `h` with `n <= 2^h`.
pub proof fn lemma_proof_length(leaves: Seq<Seq<char>>, pos: nat)
    requires
        1 <= leaves.len(),
    ensures
        merkle_proof_of(leaves, pos).len() == height_of(leaves.len()),
        leaves.len() == 1 ==> height_of(leaves.len()) == 0,
        leaves.len() >= 2 ==> leaves.len() <= pow2(height_of(leaves.len())),
        leaves.len() >= 2 ==> pow2((height_of(leaves.len()) - 1) as nat) < leaves.len(),
{
    let n = leaves.len();
    lemma_proof_digests_len(padded_level0(leaves), pos, height_of(n));
    lemma_height_bounds(n);
    if n >= 2 {
        assert(height_of(n) >= 1);
        assert(pow2(height_of(n)) == 2 * pow2((height_of(n) - 1) as nat));
    }
}

/// Determinism law: the proof is a function of the leaf sequence and the
/// position alone, so any two generation runs over the same inputs yield
/// byte-identical sibling sequences.
pub proof fn lemma_determinism(
    leaves: Seq<Seq<char>>,
    pos: nat,
    first: Seq<Seq<u8>>,
    second: Seq<Seq<u8>>,
)
    requires
        first == merkle_proof_of(leaves, pos),
        second == merkle_proof_of(leaves, pos),
    ensures
        first == second,
{
}

/// Padding-invariance law: two leaf sequences of equal real length and equal
/// values give identical proofs for the same position; padding is determined
/// by the length alone and adds no degree of freedom.
pub proof fn lemma_padding_invariance(first: Seq<Seq<char>>, second: Seq<Seq<char>>, pos: nat)
    requires
        first.len() == second.len(),
        forall|i: int| 0 <= i < first.len() ==> first[i] == second[i],
    ensures
        merkle_proof_of(first, pos) == merkle_proof_of(second, pos),
{
    assert(first =~= second);
}

/// The tree height for `n` leaves.
pub fn compute_height(n: usize) -> (h: usize)
    requires
        1 <= n,
    ensures
        h as nat == height_of(n as nat),
    decreases n,
{
    if n == 1 {
        0
    } else {
        let m = (n - 1) / 2 + 1;
        proof {
            assert(m as nat == ((n as nat + 1) / 2) as nat);
            lemma_height_lt(m as nat);
        }
        1 + compute_height(m)
    }
}

/// 2 to the power `e`, computed by repeated doubling.
pub fn pow2_exec(e: usize) -> (p: usize)
    requires
        pow2(e as nat) <= usize::MAX,
    ensures
        p as nat == pow2(e as nat),
{
    let mut p: usize = 1;
    let mut i: usize = 0;
    while i < e
        invariant
            i <= e,
            p as nat == pow2(i as nat),
            pow2(e as nat) <= usize::MAX,
        decreases e - i,
    {
        proof {
            lemma_pow2_monotone((i + 1) as nat, e as nat);
        }
        p = 2 * p;
        i = i + 1;
    }
    p
}

/// Level 0 of the tree: hash every leaf in order, then pad with the all-zero
/// sentinel digest up to the next power of two.
pub fn hash_leaves_padded(leaves: &Vec<String>) -> (state: Vec<Hash32Bytes>)
    requires
        1 <= leaves@.len(),
        leaves@.len() <= usize::MAX / 2,
    ensures
        digest_views(state@) == padded_level0(leaf_views(leaves@)),
        state@.len() == pow2(height_of(leaves@.len() as nat)),
{
    let n = leaves.len();
    let h = compute_height(n);
    proof {
        lemma_height_bounds(n as nat);
    }
    let p = pow2_exec(h);
    let mut state: Vec<Hash32Bytes> = Vec::new();
    let mut i: usize = 0;
    while i < n
        invariant
            i <= n,
            n == leaves@.len(),
            state@.len() == i,
            forall|j: int| 0 <= j < i ==> state@[j]@ == leaf_hash_of(leaves@[j]@),
        decreases n - i,
    {
        let digest = hash_leaf(&leaves[i]);
        state.push(digest);
        i = i + 1;
    }
    while state.len() < p
        invariant
            n == leaves@.len(),
            n <= state@.len() <= p,
            p as nat == pow2(height_of(n as nat)),
            forall|j: int| 0 <= j < n ==> state@[j]@ == leaf_hash_of(leaves@[j]@),
            forall|j: int| n <= j < state@.len() ==> state@[j]@ == padding_digest(),
        decreases p - state.len(),
    {
        let zeros: Hash32Bytes = [0u8; 32];
        proof {
            assert(zeros@ =~= padding_digest());
        }
        state.push(zeros);
    }
    proof {
        assert(digest_views(state@) =~= padded_level0(leaf_views(leaves@)));
    }
    state
}

/// One reduction pass: hash each strictly adjacent pair of the current level
/// into its parent digest on the next level.
pub fn combine_level(state: &Vec<Hash32Bytes>) -> (next: Vec<Hash32Bytes>)
    requires
        state@.len() % 2 == 0,
    ensures
        digest_views(next@) == next_level(digest_views(state@)),
        next@.len() == state@.len() / 2,
{
    let half = state.len() / 2;
    let mut next: Vec<Hash32Bytes> = Vec::new();
    let mut i: usize = 0;
    while i < half
        invariant
            i <= half,
            half == state@.len() / 2,
            half <= usize::MAX / 2,
            state@.len() % 2 == 0,
            next@.len() == i,
            forall|j: int|
                0 <= j < i ==> next@[j]@ == node_hash_of(state@[2 * j]@, state@[2 * j + 1]@),
        decreases half - i,
    {
        let digest = hash_internal(state[2 * i], state[2 * i + 1]);
        next.push(digest);
        i = i + 1;
    }
    proof {
        assert(digest_views(next@) =~= next_level(digest_views(state@)));
    }
    next
}

/// The root of the tree over `leaves`: reduce the padded level 0 level by
/// level to the single top digest. For a single leaf the root is the leaf's
/// own digest.
pub fn merkle_root(leaves: &Vec<String>) -> (root: Hash32Bytes)
    requires
        1 <= leaves@.len(),
        leaves@.len() <= usize::MAX / 2,
    ensures
        root@ == root_of(leaf_views(leaves@)),
{
    let ghost l0 = padded_level0(leaf_views(leaves@));
    let height = compute_height(leaves.len());
    let mut state = hash_leaves_padded(leaves);
    let mut level: usize = 0;
    while level < height
        invariant
            level <= height,
            height as nat == height_of(leaves@.len() as nat),
            digest_views(state@) == level_at(l0, level as nat),
            state@.len() == pow2((height - level) as nat),
        decreases height - level,
    {
        proof {
            assert(pow2((height - level) as nat) == 2 * pow2((height - level - 1) as nat));
        }
        state = combine_level(&state);
        level = level + 1;
    }
    proof {
        assert(digest_views(state@)[0] == state@[0]@);
    }
    state[0]
}

} // verus!
