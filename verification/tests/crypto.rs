use zkvm::fri::{prove_low_degree, verify_low_degree, FriProof, RecursiveProver};
use zkvm::models::ExecutionTrace;
use zkvm::plonkish::{generate_trace_commitment, TraceCommitment};
use zkvm::primitives::{Blake3, MerkleTree, Poseidon};
use zkvm::prover::{ProofMetadata, ProverService};

fn digest(bytes: [u8; 32]) -> zkvm::primitives::Hash {
    zkvm::primitives::Hash::new(bytes)
}

#[test]
fn hash_exposes_its_bytes() {
    let mut b = [0u8; 32];
    b[3] = 9;
    let h = digest(b);
    assert_eq!(h.as_bytes(), &b);
}

#[test]
fn poseidon_accumulates_low_bytes_per_lane() {
    let mut inputs: Vec<u32> = (0..33).collect();
    inputs[0] = 0x1FF; // low byte 0xFF
    let h = Poseidon::hash(&inputs);
    let bytes = h.as_bytes();
    // Lane 0 holds inputs 0 and 32: 0xFF + 32 wraps to 31.
    assert_eq!(bytes[0], 31);
    assert_eq!(bytes[1], 1);
    assert_eq!(bytes[31], 31);
    assert_eq!(Poseidon::hash(&[]).as_bytes(), &[0u8; 32]);
}

#[test]
fn blake3_xors_bytes_per_lane() {
    let mut inputs = vec![0u8; 34];
    inputs[0] = 0b1010;
    inputs[32] = 0b0110;
    inputs[33] = 7;
    let h = Blake3::hash(&inputs);
    assert_eq!(h.as_bytes()[0], 0b1100);
    assert_eq!(h.as_bytes()[1], 7);
    assert_eq!(Blake3::hash(&[]).as_bytes(), &[0u8; 32]);
}

#[test]
fn merkle_root_xors_leaves() {
    let a = digest([0x0F; 32]);
    let b = digest([0xF0; 32]);
    assert_eq!(MerkleTree::build(&[a, b]).root.as_bytes(), &[0xFF; 32]);
    assert_eq!(MerkleTree::build(&[a]).root.as_bytes(), &[0x0F; 32]);
    assert_eq!(MerkleTree::build(&[a, a]).root.as_bytes(), &[0u8; 32]);
    assert_eq!(MerkleTree::build(&[]).root.as_bytes(), &[0u8; 32]);
}

#[test]
fn low_degree_proof_sums_first_bytes() {
    let mut x = [0u8; 32];
    x[0] = 200;
    let mut y = [0u8; 32];
    y[0] = 100;
    let evals = [digest(x), digest(y)];
    let proof = prove_low_degree(&evals);
    assert_eq!(proof.root.as_bytes(), &[44u8; 32]);
    assert_eq!(proof.paths, evals.to_vec());
    assert!(verify_low_degree(&proof));
    let empty = prove_low_degree(&[]);
    assert_eq!(empty.root.as_bytes(), &[0u8; 32]);
    assert!(!verify_low_degree(&empty));
}

#[test]
fn aggregate_requires_a_proof() {
    assert_eq!(RecursiveProver::aggregate(&[]).unwrap_err(), "Cannot aggregate 0 proofs");
}

#[test]
fn aggregate_combines_roots() {
    let p = FriProof { root: digest([0x33; 32]), paths: vec![digest([1; 32])] };
    let q = FriProof { root: digest([0x0F; 32]), paths: vec![] };
    let single = RecursiveProver::aggregate(&[p.clone()]).unwrap();
    assert_eq!(single.aggregated_commitment.as_bytes(), &[0x33; 32]);
    let both = RecursiveProver::aggregate(&[p, q]).unwrap();
    assert_eq!(both.aggregated_commitment.as_bytes(), &[0x3C; 32]);
    assert_eq!(both.proof.root.as_bytes(), &[0x3C; 32]);
    assert_eq!(both.proof.paths.len(), 1);
    assert_eq!(both.proof.paths[0].as_bytes(), &[0x3C; 32]);
    assert_eq!(both.original_proof_count, 2);
    assert!(verify_low_degree(&both.proof));
}

#[test]
fn aggregate_of_accepted_proofs_is_accepted_and_compact() {
    let p = FriProof { root: digest([2; 32]), paths: vec![digest([1; 32]), digest([3; 32])] };
    let q = FriProof { root: digest([4; 32]), paths: vec![digest([5; 32])] };
    assert!(verify_low_degree(&p) && verify_low_degree(&q));
    let a = RecursiveProver::aggregate(&[p.clone(), q.clone()]).unwrap();
    assert!(verify_low_degree(&a.proof));
    assert!(a.proof.paths.len() <= p.paths.len() + q.paths.len());
}

#[test]
fn trace_commitment_has_one_zero_per_row() {
    let c = generate_trace_commitment(5, 10);
    assert_eq!(c.root.as_bytes(), &[1u8; 32]);
    assert_eq!(c.polynomial_evals, vec![0u32; 5]);
    let d = TraceCommitment::new(digest([2; 32]), vec![4, 5]);
    assert_eq!(d.polynomial_evals, vec![4, 5]);
}

#[test]
fn prover_commits_and_proves_a_trace() {
    let mut vm = zkvm::runtime::VmRuntime::new(
        vec![
            zkvm::models::Instruction::Li(zkvm::models::Register::R1, 1),
            zkvm::models::Instruction::Ecall,
        ],
        vec![42],
        vec![],
    );
    let trace = vm.execute().unwrap();
    let proof = ProverService::prove(trace);
    assert_eq!(proof.trace_commitment.as_bytes(), &[1u8; 32]);
    assert_eq!(proof.public_inputs, vec![42]);
    assert_eq!(proof.metadata.trace_len, 2);
    assert_eq!(proof.fri_proof.paths.len(), 2);
    assert_eq!(proof.fri_proof.paths[0].as_bytes(), &[0u8; 32]);
    assert!(verify_low_degree(&proof.fri_proof));

    let empty = ProverService::prove(ExecutionTrace::default());
    assert!(verify_low_degree(&empty.fri_proof));
    assert_eq!(empty.fri_proof.paths.len(), 1);
    assert_eq!(empty.metadata.trace_len, 0);
}

#[test]
fn metadata_keeps_low_bits_of_elapsed_time() {
    let m = ProofMetadata::from_elapsed(1500, 3);
    assert_eq!(m.proof_generation_time_ms, 1500);
    let m = ProofMetadata::from_elapsed((1u128 << 64) + 7, 3);
    assert_eq!(m.proof_generation_time_ms, 7);
    assert_eq!(m.trace_len, 3);
}

#[test]
fn digests_compare_by_their_bytes() {
    let mut bytes = [7u8; 32];
    assert_eq!(digest(bytes), digest([7u8; 32]));
    bytes[31] = 8;
    assert_ne!(digest(bytes), digest([7u8; 32]));
}
