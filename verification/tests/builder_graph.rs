//! Tests for the operation builders, plain and conditioned.

use num::complex::Complex;

use qip::builder::{NonUnitaryBuilder, OpBuilder, UnitaryBuilder};
use qip::errors::BuildError;
use qip::ops::{StateModifier, UnitaryOp};
use qip::qubits::{Parent, Qubit};

type Cx = Complex<f64>;

fn identity_2x2() -> Vec<Cx> {
    vec![
        Complex::new(1.0, 0.0),
        Complex::new(0.0, 0.0),
        Complex::new(0.0, 0.0),
        Complex::new(1.0, 0.0),
    ]
}

#[test]
fn qubit_of_zero_indices_fails() {
    let mut b = OpBuilder::new();
    let r: Result<Qubit<Cx>, _> = b.qubit(0);
    assert_eq!(r.err().unwrap(), BuildError::ZeroQubits);
}

#[test]
fn qubits_get_disjoint_contiguous_ranges() {
    let mut b = OpBuilder::new();
    let q3: Qubit<Cx> = b.qubit(3).unwrap();
    let q2: Qubit<Cx> = b.qubit(2).unwrap();
    assert_eq!(q3.indices, vec![0, 1, 2]);
    assert_eq!(q2.indices, vec![3, 4]);
    for x in &q3.indices {
        assert!(!q2.indices.contains(x));
    }
    assert!(q2.id > q3.id);
}

#[test]
fn qubit_and_handle_agree_on_indices() {
    let mut b = OpBuilder::new();
    let (q, h): (Qubit<Cx>, _) = b.qubit_and_handle(2).unwrap();
    let (inds, _) = h.make_init_from_index::<Cx>(0).unwrap();
    assert_eq!(inds, q.indices);
}

#[test]
fn mat_rejects_wrong_sizes() {
    let mut b = OpBuilder::new();
    let q: Qubit<Cx> = b.qubit(1).unwrap();
    let three = vec![Complex::new(1.0, 0.0); 3];
    let r = b.mat(q, &three);
    assert_eq!(r.err().unwrap(), BuildError::MatrixWrongSize);

    let q: Qubit<Cx> = b.qubit(2).unwrap();
    let eight = vec![Complex::new(1.0, 0.0); 8];
    let r = b.mat(q, &eight);
    assert_eq!(r.err().unwrap(), BuildError::MatrixWrongSize);
}

#[test]
fn mat_broadcasts_2x2_over_a_register() {
    let mut b = OpBuilder::new();
    let q: Qubit<Cx> = b.qubit(3).unwrap();
    let r = b.mat(q, &identity_2x2()).unwrap();
    assert_eq!(r.indices, vec![0, 1, 2]);
}

#[test]
fn mat_records_the_descriptor_in_the_lineage() {
    let mut b = OpBuilder::new();
    let q: Qubit<Cx> = b.qubit(1).unwrap();
    let r = b.mat(q, &identity_2x2()).unwrap();
    assert_eq!(r.indices, vec![0]);
    match r.parent {
        Some(Parent::Owned(children, Some(StateModifier::Unitary(UnitaryOp::Matrix(iv, data))))) => {
            assert_eq!(children.len(), 1);
            assert_eq!(iv, vec![0]);
            assert_eq!(data.len(), 4);
        }
        _ => panic!("mat must record a dense matrix descriptor"),
    }
}

#[test]
fn swap_requires_equal_sizes() {
    let mut b = OpBuilder::new();
    let qa: Qubit<Cx> = b.qubit(2).unwrap();
    let qb: Qubit<Cx> = b.qubit(1).unwrap();
    let r = b.swap(qa, qb);
    assert_eq!(r.err().unwrap(), BuildError::SwapSizeMismatch);
}

#[test]
fn swap_returns_the_pre_swap_partition() {
    let mut b = OpBuilder::new();
    let qa: Qubit<Cx> = b.qubit(2).unwrap();
    let qb: Qubit<Cx> = b.qubit(2).unwrap();
    let (ra, rb) = b.swap(qa, qb).unwrap();
    assert_eq!(ra.indices, vec![0, 1]);
    assert_eq!(rb.indices, vec![2, 3]);
    match &ra.parent {
        Some(Parent::Shared(merged)) => match &merged.parent {
            Some(Parent::Owned(_, Some(StateModifier::Unitary(UnitaryOp::Swap(a, b))))) => {
                assert_eq!(a, &vec![0, 1]);
                assert_eq!(b, &vec![2, 3]);
            }
            _ => panic!("swap must record a swap descriptor"),
        },
        _ => panic!("swap splits the merged node back apart"),
    }
}

#[test]
fn merge_and_split_are_inverse_on_index_sets() {
    let mut b = OpBuilder::new();
    let qa: Qubit<Cx> = b.qubit(1).unwrap();
    let qb: Qubit<Cx> = b.qubit(2).unwrap();
    let m = b.merge(vec![qa, qb]);
    assert_eq!(m.indices, vec![0, 1, 2]);
    let (s1, s2) = b.split_absolute(m, vec![0]).unwrap();
    assert_eq!(s1.indices, vec![0]);
    assert_eq!(s2.indices, vec![1, 2]);
}

#[test]
fn split_all_yields_one_entity_per_index() {
    let mut b = OpBuilder::new();
    let q: Qubit<Cx> = b.qubit(3).unwrap();
    let qs = b.split_all(q);
    assert_eq!(qs.len(), 3);
    let collected: Vec<u64> = qs.iter().flat_map(|q| q.indices.iter().cloned()).collect();
    assert_eq!(collected, vec![0, 1, 2]);
}

#[test]
fn split_absolute_many_peels_groups_in_order() {
    let mut b = OpBuilder::new();
    let q: Qubit<Cx> = b.qubit(4).unwrap();
    let (qs, rem) = b.split_absolute_many(q, vec![vec![1], vec![3, 0]]).unwrap();
    assert_eq!(qs.len(), 2);
    assert_eq!(qs[0].indices, vec![1]);
    assert_eq!(qs[1].indices, vec![3, 0]);
    assert_eq!(rem.indices, vec![2]);
}

#[test]
fn split_absolute_many_propagates_a_failing_group() {
    let mut b = OpBuilder::new();
    let q: Qubit<Cx> = b.qubit(3).unwrap();
    let r = b.split_absolute_many(q, vec![vec![0], vec![9]]);
    assert_eq!(r.err().unwrap(), BuildError::SplitIndexNotFound);
}

#[test]
fn builder_split_takes_relative_positions() {
    let mut b = OpBuilder::new();
    let q: Qubit<Cx> = b.qubit(3).unwrap();
    let (a, rest) = b.split(q, vec![2]).unwrap();
    assert_eq!(a.indices, vec![2]);
    assert_eq!(rest.indices, vec![0, 1]);
}

#[test]
fn measure_returns_a_handle_for_the_outcome() {
    let mut b = OpBuilder::new();
    let q: Qubit<Cx> = b.qubit(2).unwrap();
    let (qm, id) = b.measure(q);
    assert_eq!(id, 1);
    assert_eq!(qm.id, 1);
    assert_eq!(qm.indices, vec![0, 1]);
    match qm.parent {
        Some(Parent::Owned(_, Some(StateModifier::Measurement(mid, iv)))) => {
            assert_eq!(mid, 1);
            assert_eq!(iv, vec![0, 1]);
        }
        _ => panic!("measure must record a measurement modifier"),
    }
}

#[test]
fn stochastic_measure_is_tagged_separately() {
    let mut b = OpBuilder::new();
    let q: Qubit<Cx> = b.qubit(1).unwrap();
    let (qm, id) = b.stochastic_measure(q);
    assert_eq!(id, 1);
    match qm.parent {
        Some(Parent::Owned(_, Some(StateModifier::StochasticMeasurement(mid, iv)))) => {
            assert_eq!(mid, 1);
            assert_eq!(iv, vec![0]);
        }
        _ => panic!("stochastic measure must record its own modifier"),
    }
}

#[test]
fn conditioned_mat_controls_and_returns_the_control() {
    let mut b = OpBuilder::new();
    let cq: Qubit<Cx> = b.qubit(1).unwrap();
    let t: Qubit<Cx> = b.qubit(1).unwrap();
    let mut cb = b.with_context(cq);
    let tm = cb.mat(t, &identity_2x2()).unwrap();
    assert_eq!(tm.indices, vec![1]);
    match &tm.parent {
        Some(Parent::Shared(parent)) => match &parent.parent {
            Some(Parent::Owned(_, Some(StateModifier::Unitary(UnitaryOp::Control(cs, ts, _))))) => {
                assert_eq!(cs, &vec![0]);
                assert_eq!(ts, &vec![1]);
            }
            _ => panic!("conditioned mat must emit a control-wrapped descriptor"),
        },
        _ => panic!("conditioned mat splits the control back out"),
    }
    let (_b, cq2) = cb.release_qubit();
    assert_eq!(cq2.indices, vec![0]);
}

#[test]
fn conditioned_swap_keeps_the_partition_and_control() {
    let mut b = OpBuilder::new();
    let cq: Qubit<Cx> = b.qubit(1).unwrap();
    let qa: Qubit<Cx> = b.qubit(2).unwrap();
    let qb: Qubit<Cx> = b.qubit(2).unwrap();
    let mut cb = b.with_context(cq);
    let (ra, rb) = cb.swap(qa, qb).unwrap();
    assert_eq!(ra.indices, vec![1, 2]);
    assert_eq!(rb.indices, vec![3, 4]);
    let (_b, cq2) = cb.release_qubit();
    assert_eq!(cq2.indices, vec![0]);
}

#[test]
fn nested_contexts_stack_their_controls() {
    let mut b = OpBuilder::new();
    let c1: Qubit<Cx> = b.qubit(1).unwrap();
    let c2: Qubit<Cx> = b.qubit(1).unwrap();
    let t: Qubit<Cx> = b.qubit(1).unwrap();
    let cb1 = b.with_context(c1);
    let mut cb2 = cb1.with_context(c2);
    let tm = cb2.mat(t, &identity_2x2()).unwrap();
    assert_eq!(tm.indices, vec![2]);
    match &tm.parent {
        Some(Parent::Shared(parent)) => match &parent.parent {
            Some(Parent::Owned(_, Some(StateModifier::Unitary(UnitaryOp::Control(cs, _, inner))))) => {
                assert_eq!(cs, &vec![1]);
                match inner.as_ref() {
                    UnitaryOp::Control(outer_cs, _, _) => assert_eq!(outer_cs, &vec![0]),
                    _ => panic!("stacked controls must nest"),
                }
            }
            _ => panic!("conditioned mat must emit a control-wrapped descriptor"),
        },
        _ => panic!("conditioned mat splits the control back out"),
    }
    let (cb1_back, c2_back) = cb2.release_qubit();
    assert_eq!(c2_back.indices, vec![1]);
    let (_b, c1_back) = cb1_back.release_qubit();
    assert_eq!(c1_back.indices, vec![0]);
}

#[test]
fn conditioned_stochastic_measure_passes_through() {
    let mut b = OpBuilder::new();
    let cq: Qubit<Cx> = b.qubit(1).unwrap();
    let q: Qubit<Cx> = b.qubit(1).unwrap();
    let mut cb = b.with_context(cq);
    let (qm, id) = cb.stochastic_measure(q);
    assert_eq!(id, 2);
    assert_eq!(qm.indices, vec![1]);
    let (_b, cq2) = cb.release_qubit();
    assert_eq!(cq2.indices, vec![0]);
}
