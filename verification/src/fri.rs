//! The low-degree proof stand-in (FRI) and the aggregation of several such
//! proofs into one.

use vstd::prelude::*;
use crate::primitives::{self, lemma_digest_len};

verus! {

/// A low-degree proof: a root and the authentication paths.
#[derive(Debug, Clone)]
pub struct FriProof {
    pub root: primitives::Hash,
    pub paths: Vec<primitives::Hash>,
}

/// The sum, modulo 256, of the first byte of each evaluation.
pub open spec fn first_byte_sum(evals: Seq<primitives::Hash>) -> u8
    decreases evals.len(),
{
    if evals.len() == 0 {
        0
    } else {
        ((first_byte_sum(evals.drop_last()) + evals.last()@[0]) % 256) as u8
    }
}

/// The root of a proof over `evals`: every byte is their first-byte sum.
pub open spec fn low_degree_root(evals: Seq<primitives::Hash>) -> Seq<u8> {
    Seq::new(32, |i: int| first_byte_sum(evals))
}

/// Whether a proof with these paths is accepted: it has at least one.
pub open spec fn accepts(paths: Seq<primitives::Hash>) -> bool {
    paths.len() > 0
}

/// Proves low degree of the evaluations: the root repeats the first-byte
/// sum, and the paths are the evaluations themselves.
pub fn prove_low_degree(evals: &[primitives::Hash]) -> (p: FriProof)
    ensures
        p.root@ == low_degree_root(evals@),
        p.paths@ == evals@,
{
    let mut sum: u8 = 0;
    let mut paths: Vec<primitives::Hash> = Vec::new();
    let mut i: usize = 0;
    while i < evals.len()
        invariant
            i <= evals@.len(),
            sum == first_byte_sum(evals@.subrange(0, i as int)),
            paths@ == evals@.subrange(0, i as int),
        decreases evals@.len() - i,
    {
        let h = evals[i];
        proof {
            lemma_digest_len(h);
        }
        let first = h.as_bytes()[0];
        sum = sum.wrapping_add(first);
        paths.push(h);
        i = i + 1;
        assert(evals@.subrange(0, i as int).drop_last() =~= evals@.subrange(0, i - 1));
        assert(paths@ =~= evals@.subrange(0, i as int));
    }
    assert(evals@.subrange(0, i as int) =~= evals@);
    let root = primitives::Hash::new([sum; 32]);
    assert(root@ =~= low_degree_root(evals@));
    FriProof { root, paths }
}

/// Verifies a low-degree proof: it must carry at least one path.
pub fn verify_low_degree(proof: &FriProof) -> (ok: bool)
    ensures
        ok == accepts(proof.paths@),
{
    !proof.paths.is_empty()
}

/// A proof made from evaluations is accepted exactly when there was at
/// least one evaluation.
pub proof fn law_proof_accepted_iff_nonempty(evals: Seq<primitives::Hash>)
    ensures
        accepts(evals) <==> evals.len() > 0,
{
}

/// Several proofs batched into one.
#[derive(Debug, Clone)]
pub struct AggregatedProof {
    pub aggregated_commitment: primitives::Hash,
    pub proof: FriProof,
    pub original_proof_count: usize,
}

/// Byte `j` of the aggregated commitment: the exclusive or of byte `j` of
/// every proof's root.
pub open spec fn root_lane(roots: Seq<primitives::Hash>, j: int) -> u8
    decreases roots.len(),
{
    if roots.len() == 0 {
        0
    } else {
        root_lane(roots.drop_last(), j) ^ roots.last()@[j]
    }
}

/// The aggregated commitment of proofs with these roots.
pub open spec fn aggregated_root(roots: Seq<primitives::Hash>) -> Seq<u8> {
    Seq::new(32, |j: int| root_lane(roots, j))
}

/// The roots of a sequence of proofs.
pub open spec fn roots_of(proofs: Seq<FriProof>) -> Seq<primitives::Hash> {
    proofs.map_values(|p: FriProof| p.root)
}

/// The message of an aggregation without proofs.
pub open spec fn empty_aggregation_message() -> Seq<char> {
    "Cannot aggregate 0 proofs"@
}

/// The number of paths the proofs carry together.
pub open spec fn total_paths(proofs: Seq<FriProof>) -> nat
    decreases proofs.len(),
{
    if proofs.len() == 0 {
        0
    } else {
        total_paths(proofs.drop_last()) + proofs.last().paths@.len()
    }
}

/// `a` batches `proofs`: its commitment combines their roots, its proof
/// carries that commitment as root and as its single path, and it records
/// how many proofs went in.
pub open spec fn aggregates(proofs: Seq<FriProof>, a: AggregatedProof) -> bool {
    &&& a.aggregated_commitment@ == aggregated_root(roots_of(proofs))
    &&& a.proof.root == a.aggregated_commitment
    &&& a.proof.paths@ == seq![a.aggregated_commitment]
    &&& a.original_proof_count == proofs.len()
}

/// Recursive verification of proofs inside a proof.
pub struct RecursiveProver;

impl RecursiveProver {
    /// Aggregates proofs into one compact batched proof: the commitment
    /// combines their roots, the batched proof carries it as its root and
    /// its one path, and the count is recorded. There must be at least one
    /// proof.
    pub fn aggregate(proofs: &[FriProof]) -> (r: Result<AggregatedProof, &'static str>)
        ensures
            proofs@.len() == 0 <==> r is Err,
            r is Err ==> r->Err_0@ == empty_aggregation_message(),
            r is Ok ==> aggregates(proofs@, r->Ok_0),
    {
        if proofs.len() == 0 {
            return Err("Cannot aggregate 0 proofs");
        }
        let ghost roots = roots_of(proofs@);
        let mut combined_hash = [0u8; 32];
        let mut k: usize = 0;
        while k < proofs.len()
            invariant
                k <= proofs@.len(),
                roots == roots_of(proofs@),
                forall|j: int| 0 <= j < 32 ==> #[trigger] combined_hash@[j] == root_lane(roots.subrange(0, k as int), j),
            decreases proofs@.len() - k,
        {
            let root = proofs[k].root;
            proof {
                lemma_digest_len(root);
            }
            let bytes = root.as_bytes();
            let mut j: usize = 0;
            while j < 32
                invariant
                    k < proofs@.len(),
                    roots == roots_of(proofs@),
                    root == roots[k as int],
                    bytes@ == root@,
                    root@.len() == 32,
                    j <= 32,
                    forall|x: int| 0 <= x < j ==> #[trigger] combined_hash@[x] == root_lane(roots.subrange(0, k + 1), x),
                    forall|x: int| j <= x < 32 ==> #[trigger] combined_hash@[x] == root_lane(roots.subrange(0, k as int), x),
                decreases 32 - j,
            {
                assert(roots.subrange(0, k + 1).drop_last() =~= roots.subrange(0, k as int));
                combined_hash[j] = combined_hash[j] ^ bytes[j];
                j = j + 1;
            }
            k = k + 1;
        }
        assert(roots.subrange(0, k as int) =~= roots);
        let commitment = primitives::Hash::new(combined_hash);
        assert(commitment@ =~= aggregated_root(roots));
        let mut paths: Vec<primitives::Hash> = Vec::new();
        paths.push(commitment);
        let batched_proof = FriProof { root: commitment, paths };
        Ok(
            AggregatedProof {
                aggregated_commitment: commitment,
                proof: batched_proof,
                original_proof_count: proofs.len(),
            },
        )
    }
}

/// The batched proof of accepted proofs is accepted, and carries no more
/// paths than the proofs it replaces.
pub proof fn law_aggregate_is_accepted_and_compact(proofs: Seq<FriProof>, a: AggregatedProof)
    requires
        proofs.len() > 0,
        forall|i: int| 0 <= i < proofs.len() ==> accepts(#[trigger] proofs[i].paths@),
        aggregates(proofs, a),
    ensures
        accepts(a.proof.paths@),
        a.proof.paths@.len() <= total_paths(proofs),
{
    lemma_total_paths_at_least_count(proofs);
}

proof fn lemma_total_paths_at_least_count(proofs: Seq<FriProof>)
    requires
        forall|i: int| 0 <= i < proofs.len() ==> accepts(#[trigger] proofs[i].paths@),
    ensures
        total_paths(proofs) >= proofs.len(),
    decreases proofs.len(),
{
    if proofs.len() > 0 {
        let rest = proofs.drop_last();
        assert forall|i: int| 0 <= i < rest.len() implies accepts(#[trigger] rest[i].paths@) by {
            assert(rest[i] == proofs[i]);
        }
        lemma_total_paths_at_least_count(rest);
        assert(accepts(proofs[proofs.len() - 1].paths@));
    }
}

/// Aggregating a single proof commits to that proof's root.
pub proof fn law_single_aggregate_is_its_root(root: primitives::Hash)
    ensures
        aggregated_root(seq![root]) == root@,
{
    lemma_digest_len(root);
    let s = seq![root];
    assert forall|j: int| 0 <= j < 32 implies #[trigger] aggregated_root(s)[j] == root@[j] by {
        assert(s.drop_last() =~= Seq::<primitives::Hash>::empty());
        assert(root_lane(s.drop_last(), j) == 0);
        let b = root@[j];
        assert(root_lane(s, j) == 0u8 ^ b);
        assert(0u8 ^ b == b) by (bit_vector);
    }
    assert(aggregated_root(s) =~= root@);
}

} // verus!
