//! Operator descriptors: immutable descriptions of transformations to
//! apply at specific absolute state-vector indices, and the state
//! modifiers that tag them (or a measurement) onto a merge.

use vstd::prelude::*;

verus! {

/// An operation over quantum state, tagged with the absolute indices it
/// acts on. Generic over the numeric coefficient type `P`, which this
/// core carries but never computes on.
pub enum UnitaryOp<P> {
    /// Ordered indices, flat row-major matrix data of 4^n coefficients.
    Matrix(Vec<u64>, Vec<P>),
    /// Ordered indices; per output row, a sparse list of (column, value).
    SparseMatrix(Vec<u64>, Vec<Vec<(u64, P)>>),
    /// Two disjoint, equal-length index sequences to exchange.
    Swap(Vec<u64>, Vec<u64>),
    /// Control indices, the wrapped operation's own indices, and the
    /// wrapped operation itself.
    Control(Vec<u64>, Vec<u64>, Box<UnitaryOp<P>>),
}

/// All indices an operator descriptor references, in declaration order.
/// A controlled operator contributes its control indices followed by its
/// recorded target indices; it is not unfolded further.
pub open spec fn op_index_seq<P>(op: UnitaryOp<P>) -> Seq<u64> {
    match op {
        UnitaryOp::Matrix(indices, _) => indices@,
        UnitaryOp::SparseMatrix(indices, _) => indices@,
        UnitaryOp::Swap(a, b) => a@ + b@,
        UnitaryOp::Control(cs, os, _) => cs@ + os@,
    }
}

/// The number of indices represented by `op`.
pub fn num_indices<P>(op: &UnitaryOp<P>) -> (r: usize)
    requires
        op_index_seq(*op).len() <= usize::MAX,
    ensures
        r == op_index_seq(*op).len(),
{
    match op {
        UnitaryOp::Matrix(indices, _) => indices.len(),
        UnitaryOp::SparseMatrix(indices, _) => indices.len(),
        UnitaryOp::Swap(a, b) => a.len() + b.len(),
        UnitaryOp::Control(cs, os, _) => cs.len() + os.len(),
    }
}

/// Collect the indices an operator references into a fresh vector.
pub fn op_index_vec<P>(op: &UnitaryOp<P>) -> (r: Vec<u64>)
    ensures
        r@ == op_index_seq(*op),
{
    match op {
        UnitaryOp::Matrix(indices, _) => crate::vecs::copy_vec(indices),
        UnitaryOp::SparseMatrix(indices, _) => crate::vecs::copy_vec(indices),
        UnitaryOp::Swap(a, b) => {
            let mut r = crate::vecs::copy_vec(a);
            crate::vecs::extend_copy(&mut r, b);
            r
        },
        UnitaryOp::Control(cs, os, _) => {
            let mut r = crate::vecs::copy_vec(cs);
            crate::vecs::extend_copy(&mut r, os);
            r
        },
    }
}

/// `op` is a dense matrix descriptor over exactly these indices and data.
pub open spec fn is_matrix_op<P>(op: UnitaryOp<P>, indices: Seq<u64>, data: Seq<P>) -> bool {
    &&& op matches UnitaryOp::Matrix(iv, dv)
    &&& iv@ == indices
    &&& dv@ == data
}

/// `op` is a swap descriptor over exactly these two index lists.
pub open spec fn is_swap_op<P>(op: UnitaryOp<P>, a: Seq<u64>, b: Seq<u64>) -> bool {
    &&& op matches UnitaryOp::Swap(av, bv)
    &&& av@ == a
    &&& bv@ == b
}

/// `op` is `inner` wrapped in one control layer keyed on `controls`,
/// with the wrapped operator's own indices recorded as targets.
pub open spec fn is_controlled<P>(op: UnitaryOp<P>, controls: Seq<u64>, inner: UnitaryOp<P>) -> bool {
    &&& op matches UnitaryOp::Control(cs, os, b)
    &&& cs@ == controls
    &&& os@ == op_index_seq(inner)
    &&& *b == inner
}

/// `op` is `base`-shaped under a nest of control layers, outermost
/// first: an empty chain means `op` is the base itself.
pub open spec fn controlled_matrix_op<P>(
    op: UnitaryOp<P>,
    chain: Seq<Seq<u64>>,
    indices: Seq<u64>,
    data: Seq<P>,
) -> bool
    decreases chain.len(),
{
    if chain.len() == 0 {
        is_matrix_op(op, indices, data)
    } else {
        &&& op matches UnitaryOp::Control(cs, os, b)
        &&& cs@ == chain[0]
        &&& os@ == op_index_seq(*b)
        &&& controlled_matrix_op(*b, chain.drop_first(), indices, data)
    }
}

/// As `controlled_matrix_op`, for a swap base.
pub open spec fn controlled_swap_op<P>(
    op: UnitaryOp<P>,
    chain: Seq<Seq<u64>>,
    a: Seq<u64>,
    b: Seq<u64>,
) -> bool
    decreases chain.len(),
{
    if chain.len() == 0 {
        is_swap_op(op, a, b)
    } else {
        &&& op matches UnitaryOp::Control(cs, os, bx)
        &&& cs@ == chain[0]
        &&& os@ == op_index_seq(*bx)
        &&& controlled_swap_op(*bx, chain.drop_first(), a, b)
    }
}

/// Wrap an already-built operator into a control variant keyed on
/// `control_indices`; the wrapped operator's own indices become the
/// recorded target indices.
pub fn make_control_op<P>(control_indices: Vec<u64>, op: UnitaryOp<P>) -> (r: UnitaryOp<P>)
    ensures
        is_controlled(r, control_indices@, op),
{
    let targets = op_index_vec(&op);
    UnitaryOp::Control(control_indices, targets, Box::new(op))
}

/// The record a merge carries of what happened at that node of the
/// operation graph: a unitary operator, or a measurement marker (state
/// collapsing or probability-only) bearing the operation identity and
/// the measured indices.
pub enum StateModifier<P> {
    /// A unitary operator applied as part of the merge.
    Unitary(UnitaryOp<P>),
    /// A state-collapsing measurement: operation identity, measured indices.
    Measurement(u64, Vec<u64>),
    /// A probability-only measurement: operation identity, measured indices.
    StochasticMeasurement(u64, Vec<u64>),
}

} // verus!
