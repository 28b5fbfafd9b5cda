//! The arithmetization stand-in: turns a trace length into a committed
//! table of polynomial evaluations.

use vstd::prelude::*;
use crate::primitives;

verus! {

/// The shape of the trace table.
pub struct ArithmetizationConfig {
    pub trace_length: usize,
    pub num_columns: usize,
}

/// A commitment to the trace table and its evaluations.
pub struct TraceCommitment {
    pub root: primitives::Hash,
    pub polynomial_evals: Vec<u32>,
}

/// The root every trace commitment carries: 32 bytes of one.
pub open spec fn commitment_root() -> Seq<u8> {
    Seq::new(32, |i: int| 1u8)
}

impl TraceCommitment {
    /// A commitment with the given root and evaluations.
    pub fn new(root: primitives::Hash, evals: Vec<u32>) -> (c: Self)
        ensures
            c.root == root,
            c.polynomial_evals@ == evals@,
    {
        TraceCommitment { root, polynomial_evals: evals }
    }
}

/// Commits to a trace of the given length: the fixed root and one zero
/// evaluation per row. The column count does not enter.
pub fn generate_trace_commitment(trace_length: usize, _columns: usize) -> (c: TraceCommitment)
    ensures
        c.root@ == commitment_root(),
        c.polynomial_evals@ == Seq::new(trace_length as nat, |i: int| 0u32),
{
    let root = primitives::Hash::new([1u8; 32]);
    assert(root@ =~= commitment_root());
    let mut evals: Vec<u32> = Vec::new();
    let mut i: usize = 0;
    while i < trace_length
        invariant
            i <= trace_length,
            evals@ == Seq::new(i as nat, |k: int| 0u32),
        decreases trace_length - i,
    {
        evals.push(0);
        i = i + 1;
        assert(evals@ =~= Seq::new(i as nat, |k: int| 0u32));
    }
    TraceCommitment::new(root, evals)
}

} // verus!
