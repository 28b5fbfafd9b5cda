//! The single-node prover: arithmetizes a trace, commits to it and proves
//! low degree of its evaluations.

use vstd::prelude::*;
use std::time::{Duration, Instant};
use crate::primitives::{self, Poseidon, poseidon_digest};
use crate::fri::{FriProof, prove_low_degree, low_degree_root, accepts};
use crate::plonkish::{generate_trace_commitment, commitment_root};
use crate::models::ExecutionTrace;

verus! {

#[verifier::external_type_specification]
#[verifier::external_body]
pub struct ExInstant(Instant);

/// Reads the monotonic clock (`std::time::Instant::now`). Nothing is
/// stated of the result: it is the current time.
#[verifier::external_body]
fn instant_now() -> Instant {
    Instant::now()
}

/// The time since `start` (`std::time::Instant::elapsed`). Nothing is
/// stated of the result: it depends on the time of the call.
#[verifier::external_body]
fn instant_elapsed(start: &Instant) -> Duration {
    start.elapsed()
}

/// The whole milliseconds of a duration (`Duration::as_millis`). Nothing is
/// stated of the result: the durations here come from the clock.
#[verifier::external_body]
fn duration_as_millis(d: &Duration) -> u128 {
    d.as_millis()
}

/// A proof of a trace.
#[derive(Debug, Clone)]
pub struct StarkProof {
    pub trace_commitment: primitives::Hash,
    pub fri_proof: FriProof,
    pub public_inputs: Vec<u32>,
    pub metadata: ProofMetadata,
}

/// What is recorded about a proof's generation.
#[derive(Debug, Clone)]
pub struct ProofMetadata {
    pub proof_generation_time_ms: u64,
    pub trace_len: usize,
}

impl ProofMetadata {
    /// The metadata of a proof that took `elapsed_ms` milliseconds: the
    /// time is kept to its low 64 bits.
    pub fn from_elapsed(elapsed_ms: u128, trace_len: usize) -> (m: Self)
        ensures
            m.proof_generation_time_ms == elapsed_ms as u64,
            m.trace_len == trace_len,
    {
        ProofMetadata { proof_generation_time_ms: elapsed_ms as u64, trace_len }
    }
}

/// The leaves the low-degree proof is made over: each evaluation hashed.
pub open spec fn evaluation_leaves_ok(leaves: Seq<primitives::Hash>, evals: Seq<u32>) -> bool {
    &&& leaves.len() == evals.len()
    &&& forall|i: int| 0 <= i < evals.len() ==> #[trigger] leaves[i]@ == poseidon_digest(seq![evals[i]])
}

/// Hashes each evaluation into a leaf.
pub fn hash_evaluations(evals: &Vec<u32>) -> (leaves: Vec<primitives::Hash>)
    ensures
        evaluation_leaves_ok(leaves@, evals@),
{
    let mut leaves: Vec<primitives::Hash> = Vec::new();
    let mut i: usize = 0;
    while i < evals.len()
        invariant
            i <= evals@.len(),
            leaves@.len() == i,
            forall|k: int| 0 <= k < i ==> #[trigger] leaves@[k]@ == poseidon_digest(seq![evals@[k]]),
        decreases evals@.len() - i,
    {
        let one = [evals[i]];
        assert(one@ =~= seq![evals@[i as int]]);
        let h = Poseidon::hash(&one);
        leaves.push(h);
        i = i + 1;
    }
    leaves
}

/// The rows of the table a trace is arithmetized into: one per step, and
/// one padding row for a trace without steps, so that every table has a row.
pub open spec fn table_rows(steps: nat) -> nat {
    if steps == 0 {
        1
    } else {
        steps
    }
}

/// `p` proves `trace`: the fixed trace commitment, a low-degree proof over
/// the hashed zero evaluations of its table, the trace's public inputs and
/// its length. The generation time is not part of it.
pub open spec fn proves_trace(p: StarkProof, trace: ExecutionTrace) -> bool {
    &&& p.trace_commitment@ == commitment_root()
    &&& evaluation_leaves_ok(p.fri_proof.paths@, Seq::new(table_rows(trace.steps@.len()), |i: int| 0u32))
    &&& p.fri_proof.root@ == low_degree_root(p.fri_proof.paths@)
    &&& p.public_inputs@ == trace.public_inputs@
    &&& p.metadata.trace_len == trace.steps@.len()
}

/// Completeness: the low-degree proof of every proved trace is accepted,
/// the trace without steps included.
pub proof fn law_proved_trace_is_accepted(p: StarkProof, trace: ExecutionTrace)
    requires
        proves_trace(p, trace),
    ensures
        accepts(p.fri_proof.paths@),
{
}

/// Proves traces on a single node.
pub struct ProverService;

impl ProverService {
    /// Proves a trace: commits to a table of one row per step (an empty
    /// trace gets one padding row), proves low degree over the hashed
    /// evaluations, keeps the public inputs and records how long it took.
    pub fn prove(trace: ExecutionTrace) -> (p: StarkProof)
        ensures
            proves_trace(p, trace),
            accepts(p.fri_proof.paths@),
    {
        let start = instant_now();
        let trace_len = trace.steps.len();
        let rows = if trace_len == 0 {
            1
        } else {
            trace_len
        };
        let commitment = generate_trace_commitment(rows, 10);
        let leaves = hash_evaluations(&commitment.polynomial_evals);
        let fri_proof = prove_low_degree(leaves.as_slice());
        let duration = instant_elapsed(&start);
        let elapsed_ms = duration_as_millis(&duration);
        StarkProof {
            trace_commitment: commitment.root,
            fri_proof,
            public_inputs: trace.public_inputs,
            metadata: ProofMetadata::from_elapsed(elapsed_ms, trace_len),
        }
    }
}

} // verus!
