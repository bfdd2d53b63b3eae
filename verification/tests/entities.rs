//! Tests for qubit lineage entities, handles and operator descriptors.

use num::complex::Complex;

use qip::errors::BuildError;
use qip::ops::{make_control_op, num_indices, op_index_vec, UnitaryOp};
use qip::qubits::{InitialState, Parent, Qubit};

type Cx = Complex<f64>;

fn fresh(id: u64, indices: Vec<u64>) -> Qubit<Cx> {
    Qubit { indices, parent: None, id }
}

#[test]
fn merge_sorts_and_unions_indices() {
    let a = fresh(0, vec![4, 2]);
    let b = fresh(1, vec![1, 3]);
    let m = Qubit::merge_with_modifier(7, vec![a, b], None);
    assert_eq!(m.id, 7);
    assert_eq!(m.indices, vec![1, 2, 3, 4]);
    match m.parent {
        Some(Parent::Owned(children, modifier)) => {
            assert_eq!(children.len(), 2);
            assert!(modifier.is_none());
        }
        _ => panic!("merge must record owned lineage"),
    }
}

#[test]
fn split_absolute_partitions_the_indices() {
    let q = fresh(0, vec![0, 1, 2, 3]);
    let (a, b) = Qubit::<Cx>::split_absolute(10, 11, q, vec![2, 0]).unwrap();
    assert_eq!(a.indices, vec![2, 0]);
    assert_eq!(b.indices, vec![1, 3]);
    assert_eq!(a.id, 10);
    assert_eq!(b.id, 11);
    for x in &a.indices {
        assert!(!b.indices.contains(x));
    }
    let mut all: Vec<u64> = a.indices.iter().chain(b.indices.iter()).cloned().collect();
    all.sort();
    assert_eq!(all, vec![0, 1, 2, 3]);
}

#[test]
fn split_absolute_rejects_bad_selections() {
    let q = fresh(0, vec![0, 1, 2]);
    let r = Qubit::<Cx>::split_absolute(1, 2, q, vec![0, 1, 2]);
    assert_eq!(r.err().unwrap(), BuildError::SplitSelectedAll);

    let q = fresh(0, vec![0, 1, 2]);
    let r = Qubit::<Cx>::split_absolute(1, 2, q, vec![]);
    assert_eq!(r.err().unwrap(), BuildError::SplitSelectedNone);

    let q = fresh(0, vec![0, 1, 2]);
    let r = Qubit::<Cx>::split_absolute(1, 2, q, vec![5]);
    assert_eq!(r.err().unwrap(), BuildError::SplitIndexNotFound);
}

#[test]
fn split_takes_relative_positions() {
    let q = fresh(0, vec![10, 20, 30]);
    let (a, b) = Qubit::<Cx>::split(1, 2, q, vec![1]).unwrap();
    assert_eq!(a.indices, vec![20]);
    assert_eq!(b.indices, vec![10, 30]);
}

#[test]
fn split_rejects_relative_position_at_count() {
    let q = fresh(0, vec![10, 20, 30]);
    let r = Qubit::<Cx>::split(1, 2, q, vec![3]);
    assert_eq!(r.err().unwrap(), BuildError::SplitRelativeOutOfRange);
}

#[test]
fn split_then_merge_restores_sorted_index_set() {
    let q = fresh(0, vec![3, 1, 2]);
    let (a, b) = Qubit::<Cx>::split_absolute(1, 2, q, vec![2]).unwrap();
    let m = Qubit::merge_with_modifier(3, vec![a, b], None);
    assert_eq!(m.indices, vec![1, 2, 3]);
}

#[test]
fn siblings_share_the_retired_parent() {
    let q = fresh(9, vec![0, 1]);
    let (a, b) = Qubit::<Cx>::split_absolute(1, 2, q, vec![0]).unwrap();
    match (&a.parent, &b.parent) {
        (Some(Parent::Shared(pa)), Some(Parent::Shared(pb))) => {
            assert_eq!(pa.id, 9);
            assert_eq!(pb.id, 9);
            assert_eq!(pa.indices, vec![0, 1]);
        }
        _ => panic!("split children must share the parent"),
    }
}

#[test]
fn entities_compare_by_identity() {
    let a = fresh(5, vec![0]);
    let b = fresh(5, vec![1, 2]);
    let c = fresh(6, vec![0]);
    assert!(a == b);
    assert!(a != c);
}

#[test]
fn entity_reports_its_index_count() {
    let q = fresh(0, vec![5, 6, 7]);
    assert_eq!(q.n(), 3);
}

#[test]
fn handle_validates_basis_state_index() {
    let q = fresh(0, vec![0, 1]);
    let h = q.handle();
    let (inds, st) = h.make_init_from_index::<Cx>(3).unwrap();
    assert_eq!(inds, vec![0, 1]);
    match st {
        InitialState::Index(i) => assert_eq!(i, 3),
        _ => panic!("expected an index form initial state"),
    }
    let r = h.make_init_from_index::<Cx>(4);
    assert_eq!(r.err().unwrap(), BuildError::InitialIndexTooLarge);
}

#[test]
fn handle_validates_full_state_size() {
    let q = fresh(0, vec![0, 1]);
    let h = q.handle();
    let amp = Complex::new(0.5f64, 0.0);
    let ok = h.make_init_from_state(vec![amp; 4]);
    assert!(ok.is_ok());
    let r = h.make_init_from_state(vec![amp; 3]);
    assert_eq!(r.err().unwrap(), BuildError::InitialStateWrongSize);
}

#[test]
fn num_indices_counts_each_variant() {
    let one = Complex::new(1.0f64, 0.0);
    let mat: UnitaryOp<Cx> = UnitaryOp::Matrix(vec![0, 1], vec![one; 16]);
    assert_eq!(num_indices(&mat), 2);
    let sparse: UnitaryOp<Cx> = UnitaryOp::SparseMatrix(vec![4], vec![vec![(0, one)], vec![(1, one)]]);
    assert_eq!(num_indices(&sparse), 1);
    let swap: UnitaryOp<Cx> = UnitaryOp::Swap(vec![0, 1], vec![2, 3]);
    assert_eq!(num_indices(&swap), 4);
    let inner: UnitaryOp<Cx> = UnitaryOp::Matrix(vec![7], vec![one; 4]);
    let control = make_control_op(vec![2, 5], inner);
    assert_eq!(num_indices(&control), 3);
}

#[test]
fn control_op_records_targets_of_wrapped_op() {
    let one = Complex::new(1.0f64, 0.0);
    let inner: UnitaryOp<Cx> = UnitaryOp::Swap(vec![1], vec![2]);
    let control = make_control_op(vec![0], inner);
    assert_eq!(op_index_vec(&control), vec![0, 1, 2]);
    match control {
        UnitaryOp::Control(cs, ts, boxed) => {
            assert_eq!(cs, vec![0]);
            assert_eq!(ts, vec![1, 2]);
            match *boxed {
                UnitaryOp::Swap(a, b) => {
                    assert_eq!(a, vec![1]);
                    assert_eq!(b, vec![2]);
                }
                _ => panic!("wrapped operator must be kept"),
            }
        }
        _ => panic!("expected a control variant"),
    }
    let _ = one;
}

#[test]
fn error_descriptions_name_the_failed_precondition() {
    assert_eq!(BuildError::ZeroQubits.describe(), "Qubit n must be greater than 0.");
    assert_eq!(
        BuildError::EmptyIndices.describe(),
        "Qubit must have nonzero number of indices."
    );
    assert_eq!(BuildError::MatrixWrongSize.describe(), "Matrix not of expected size");
}
