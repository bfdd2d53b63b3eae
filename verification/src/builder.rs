//! Builders: stateful factories that allocate fresh absolute index
//! ranges and monotonically increasing identities, consume and produce
//! qubit lineage entities, and emit operator descriptors. The
//! conditioned variant wraps any builder and rewrites every operator it
//! emits into a control-gated form keyed on a held control entity.

use vstd::prelude::*;

use crate::errors::BuildError;
use crate::ops::{
    controlled_matrix_op, controlled_swap_op, make_control_op, StateModifier, UnitaryOp,
};
use crate::qubits::{
    all_indices, group_views, lemma_all_indices_of_singletons, lemma_peel_singletons,
    pairwise_disjoint, peel_result, select_relative, split_absolute_err, split_parts,
    split_relative_err, Parent, Qubit, QubitHandle,
};
use crate::vecs::{copy_vec, sorted_seq};

verus! {

/// `q` addresses exactly the `n` consecutive indices starting at `base`.
pub open spec fn fresh_range<P>(q: Qubit<P>, base: u64, n: u64) -> bool {
    &&& q.indices@.len() == n
    &&& forall|i: int| 0 <= i < n ==> q.indices@[i] == base + i
}

/// The concatenated indices of a one-entity sequence are that entity's
/// own indices.
pub proof fn lemma_all_indices_singleton<P>(q: Qubit<P>)
    ensures
        all_indices(seq![q]) == q.indices@,
{
    assert(seq![q].drop_last() =~= Seq::<Qubit<P>>::empty());
    assert(all_indices(Seq::<Qubit<P>>::empty()) == Seq::<u64>::empty());
    assert(all_indices(seq![q]) == Seq::<u64>::empty() + q.indices@);
    assert(Seq::<u64>::empty() + q.indices@ =~= q.indices@);
}

/// Index ranges freshly allocated one after the other never overlap:
/// the builder hands out disjoint, contiguous ranges.
pub proof fn lemma_fresh_ranges_disjoint<P>(
    q1: Qubit<P>,
    base1: u64,
    n1: u64,
    q2: Qubit<P>,
    base2: u64,
    n2: u64,
)
    requires
        fresh_range(q1, base1, n1),
        fresh_range(q2, base2, n2),
        base1 + n1 <= base2,
    ensures
        q1.index_set().disjoint(q2.index_set()),
{
    assert forall|x: u64| q1.index_set().contains(x) implies !q2.index_set().contains(x) by {
        let i = choose|i: int| 0 <= i < q1.indices@.len() && q1.indices@[i] == x;
        if q2.indices@.contains(x) {
            let j = choose|j: int| 0 <= j < q2.indices@.len() && q2.indices@[j] == x;
        }
    }
}

/// The concatenated indices of two entities.
pub proof fn lemma_all_indices_pair<P>(a: Qubit<P>, b: Qubit<P>)
    ensures
        all_indices(seq![a, b]) == a.indices@ + b.indices@,
{
    lemma_all_indices_singleton(a);
    assert(seq![a, b].drop_last() =~= seq![a]);
    assert(all_indices(seq![a, b]) == a.indices@ + b.indices@);
}

/// The concatenated indices of three entities.
pub proof fn lemma_all_indices_triple<P>(a: Qubit<P>, b: Qubit<P>, c: Qubit<P>)
    ensures
        all_indices(seq![a, b, c]) == (a.indices@ + b.indices@) + c.indices@,
{
    lemma_all_indices_pair(a, b);
    assert(seq![a, b, c].drop_last() =~= seq![a, b]);
    assert(all_indices(seq![a, b, c]) == (a.indices@ + b.indices@) + c.indices@);
}

/// The coefficient count a dense matrix over `n` indices must have:
/// 4^n, the square of the 2^n matrix side.
pub open spec fn mat_size_for(n: int) -> u64 {
    1u64 << ((2 * n) as u64)
}

/// The lineage a non-broadcast `mat` call leaves behind: with no held
/// control, the result directly owns the consumed entity and the
/// emitted dense matrix descriptor; with a held control, the result is
/// split off a merged node that owns the control-wrapped descriptor.
pub open spec fn mat_lineage<P>(
    qr: Qubit<P>,
    held: Option<Seq<u64>>,
    chain: Seq<Seq<u64>>,
    indices: Seq<u64>,
    data: Seq<P>,
) -> bool {
    match held {
        None => qr.parent matches Some(Parent::Owned(cs, md)) && (
        md matches Some(StateModifier::Unitary(op)) && controlled_matrix_op(
            op,
            chain,
            indices,
            data,
        )),
        Some(c) => qr.parent matches Some(Parent::Shared(node)) && (
        node.parent matches Some(Parent::Owned(cs, md)) && (
        md matches Some(StateModifier::Unitary(op)) && controlled_matrix_op(
            op,
            chain,
            indices,
            data,
        ))),
    }
}

/// The lineage a successful `swap` leaves on its first result: with no
/// held control it is split directly off the merged node that owns the
/// swap descriptor; with a held control, off the node that remains
/// after the control was split back out of that merged node.
pub open spec fn swap_lineage<P>(
    ra: Qubit<P>,
    held: Option<Seq<u64>>,
    chain: Seq<Seq<u64>>,
    a_indices: Seq<u64>,
    b_indices: Seq<u64>,
) -> bool {
    match held {
        None => ra.parent matches Some(Parent::Shared(node)) && (
        node.parent matches Some(Parent::Owned(cs, md)) && (
        md matches Some(StateModifier::Unitary(op)) && controlled_swap_op(
            op,
            chain,
            a_indices,
            b_indices,
        ))),
        Some(c) => ra.parent matches Some(Parent::Shared(node)) && (
        node.parent matches Some(Parent::Shared(node2)) && (
        node2.parent matches Some(Parent::Owned(cs, md)) && (
        md matches Some(StateModifier::Unitary(op)) && controlled_swap_op(
            op,
            chain,
            a_indices,
            b_indices,
        )))),
    }
}

/// Splitting a selection back out of a merged entity is accepted
/// whenever the selection is a duplicate-free non-empty part of the
/// merged index set and something disjoint from it remains.
pub proof fn lemma_split_back_ok<P>(merged: Qubit<P>, sel: Seq<u64>, witness: u64)
    requires
        merged.wf(),
        sel.no_duplicates(),
        sel.len() > 0,
        forall|x: u64| sel.to_set().contains(x) ==> merged.index_set().contains(x),
        merged.index_set().contains(witness),
        !sel.to_set().contains(witness),
    ensures
        split_absolute_err(merged.indices@, sel) is None,
{
    assert forall|k: int| 0 <= k < sel.len() implies merged.indices@.contains(
        #[trigger] sel[k],
    ) by {
        assert(sel.to_set().contains(sel[k]));
    }
    sel.unique_seq_to_set();
    merged.indices@.unique_seq_to_set();
    assert(sel.to_set().subset_of(merged.index_set()));
    vstd::set_lib::lemma_len_subset(sel.to_set(), merged.index_set());
    sel.to_set().lemma_subset_not_in_lt(merged.index_set(), witness);
    assert(sel.len() < merged.indices@.len());
}

/// The control indices the builder currently holds are disjoint from
/// the given index set (trivially true for an unconditioned builder).
pub open spec fn held_disjoint_from(held: Option<Seq<u64>>, s: Set<u64>) -> bool {
    match held {
        Some(c) => c.to_set().disjoint(s),
        None => true,
    }
}

/// The capability interface every builder offers: allocating identities,
/// merging and splitting entities, and emitting operator descriptors.
/// The conditioned implementation wraps any other implementation and
/// control-wraps every operator it emits.
pub trait UnitaryBuilder<P: Copy>: Sized {
    /// The builder (and any control entity it holds) is in a usable state.
    spec fn wf(&self) -> bool;

    /// The next operation/entity identity this builder will hand out.
    spec fn next_op_id(&self) -> u64;

    /// The next free absolute state-vector index.
    spec fn next_qubit_index(&self) -> u64;

    /// The indices of the control entity this builder holds, if any.
    spec fn held_indices(&self) -> Option<Seq<u64>>;

    /// The control index lists every emitted operator is wrapped in,
    /// outermost first; empty for an unconditioned builder.
    spec fn control_chain(&self) -> Seq<Seq<u64>>;

    /// Build a dense matrix descriptor over the entity's current
    /// indices, wrapped in this builder's control chain. The data length
    /// is not validated here; that is `mat`'s responsibility.
    fn make_mat_op(&self, q: &Qubit<P>, data: Vec<P>) -> (r: UnitaryOp<P>)
        requires
            self.wf(),
        ensures
            controlled_matrix_op(r, self.control_chain(), q.indices@, data@),
    ;

    /// Build a swap descriptor over the two entities' indices, wrapped
    /// in this builder's control chain; the entities must address
    /// equally many indices.
    fn make_swap_op(&self, qa: &Qubit<P>, qb: &Qubit<P>) -> (r: Result<UnitaryOp<P>, BuildError>)
        requires
            self.wf(),
        ensures
            match r {
                Ok(op) => {
                    &&& qa.indices@.len() == qb.indices@.len()
                    &&& controlled_swap_op(op, self.control_chain(), qa.indices@, qb.indices@)
                },
                Err(e) => {
                    &&& qa.indices@.len() != qb.indices@.len()
                    &&& e == BuildError::SwapSizeMismatch
                },
            },
    ;

    /// Merge entities into one fresh entity under an optional emitted
    /// operator; the merged entity addresses the sorted union of its
    /// children's indices.
    fn merge_with_op(&mut self, qs: Vec<Qubit<P>>, op: Option<UnitaryOp<P>>) -> (r: Qubit<P>)
        requires
            old(self).wf(),
            qs@.len() > 0,
            forall|i: int| 0 <= i < qs@.len() ==> (#[trigger] qs@[i]).wf(),
            pairwise_disjoint(qs@),
            old(self).next_op_id() < u64::MAX,
        ensures
            final(self).wf(),
            final(self).control_chain() == old(self).control_chain(),
            final(self).held_indices() == old(self).held_indices(),
            final(self).next_qubit_index() == old(self).next_qubit_index(),
            final(self).next_op_id() == old(self).next_op_id() + 1,
            r.id == old(self).next_op_id(),
            r.wf(),
            sorted_seq(r.indices@),
            r.indices@.to_multiset() == all_indices(qs@).to_multiset(),
            r.index_set() == all_indices(qs@).to_set(),
            r.parent matches Some(Parent::Owned(cs, m)) && cs == qs && (match op {
                Some(o) => m == Some(StateModifier::<P>::Unitary(o)),
                None => m is None,
            }),
    ;

    /// Merge entities into one with no operator attached.
    fn merge(&mut self, qs: Vec<Qubit<P>>) -> (r: Qubit<P>)
        requires
            old(self).wf(),
            qs@.len() > 0,
            forall|i: int| 0 <= i < qs@.len() ==> (#[trigger] qs@[i]).wf(),
            pairwise_disjoint(qs@),
            old(self).next_op_id() < u64::MAX,
        ensures
            final(self).wf(),
            final(self).control_chain() == old(self).control_chain(),
            final(self).held_indices() == old(self).held_indices(),
            final(self).next_qubit_index() == old(self).next_qubit_index(),
            final(self).next_op_id() == old(self).next_op_id() + 1,
            r.id == old(self).next_op_id(),
            r.wf(),
            sorted_seq(r.indices@),
            r.indices@.to_multiset() == all_indices(qs@).to_multiset(),
            r.index_set() == all_indices(qs@).to_set(),
            r.parent matches Some(Parent::Owned(cs, m)) && cs == qs && m is None,
    ;

    /// Split the selected absolute indices out of `q` into their own
    /// entity, the rest into a second. Two fresh identities are drawn
    /// whether or not the split is accepted.
    fn split_absolute(&mut self, q: Qubit<P>, selected_indices: Vec<u64>) -> (r: Result<
        (Qubit<P>, Qubit<P>),
        BuildError,
    >)
        requires
            old(self).wf(),
            q.wf(),
            selected_indices@.no_duplicates(),
            old(self).next_op_id() + 2 <= u64::MAX,
        ensures
            final(self).wf(),
            final(self).control_chain() == old(self).control_chain(),
            final(self).held_indices() == old(self).held_indices(),
            final(self).next_qubit_index() == old(self).next_qubit_index(),
            final(self).next_op_id() == old(self).next_op_id() + 2,
            match r {
                Err(e) => split_absolute_err(q.indices@, selected_indices@) == Some(e),
                Ok((a, b)) => {
                    &&& split_absolute_err(q.indices@, selected_indices@) is None
                    &&& split_parts(q, selected_indices@, a, b)
                    &&& a.id == old(self).next_op_id()
                    &&& b.id == old(self).next_op_id() + 1
                    &&& a.wf()
                    &&& b.wf()
                    &&& a.index_set().disjoint(b.index_set())
                    &&& a.index_set() + b.index_set() == q.index_set()
                    &&& a.parent matches Some(Parent::Shared(p)) && p == q
                    &&& b.parent matches Some(Parent::Shared(p)) && p == q
                },
            },
    ;

    /// Split the indices at the given relative positions out of `q`.
    /// Identities are drawn only when the selection is accepted.
    fn split(&mut self, q: Qubit<P>, indices: Vec<u64>) -> (r: Result<
        (Qubit<P>, Qubit<P>),
        BuildError,
    >)
        requires
            old(self).wf(),
            q.wf(),
            indices@.no_duplicates(),
            old(self).next_op_id() + 2 <= u64::MAX,
        ensures
            final(self).wf(),
            final(self).control_chain() == old(self).control_chain(),
            final(self).held_indices() == old(self).held_indices(),
            final(self).next_qubit_index() == old(self).next_qubit_index(),
            match r {
                Err(e) => {
                    &&& split_relative_err(q.indices@, indices@) == Some(e)
                    &&& final(self).next_op_id() == old(self).next_op_id()
                },
                Ok((a, b)) => {
                    &&& split_relative_err(q.indices@, indices@) is None
                    &&& split_parts(q, select_relative(q.indices@, indices@), a, b)
                    &&& a.id == old(self).next_op_id()
                    &&& b.id == old(self).next_op_id() + 1
                    &&& final(self).next_op_id() == old(self).next_op_id() + 2
                    &&& a.wf()
                    &&& b.wf()
                    &&& a.index_set().disjoint(b.index_set())
                    &&& a.index_set() + b.index_set() == q.index_set()
                    &&& a.parent matches Some(Parent::Shared(p)) && p == q
                    &&& b.parent matches Some(Parent::Shared(p)) && p == q
                },
            },
    {
        for k in 0..indices.len()
            invariant
                *self == *old(self),
                old(self).wf(),
                forall|i: int| 0 <= i < k ==> (#[trigger] indices@[i]) < q.indices@.len(),
        {
            if indices[k] >= q.indices.len() as u64 {
                return Err(BuildError::SplitRelativeOutOfRange);
            }
        }
        if indices.len() == 0 {
            return Err(BuildError::SplitSelectedNone);
        }
        if indices.len() == q.indices.len() {
            return Err(BuildError::SplitSelectedAll);
        }
        let mut selected: Vec<u64> = Vec::new();
        for k in 0..indices.len()
            invariant
                *self == *old(self),
                old(self).wf(),
                forall|i: int| 0 <= i < indices@.len() ==> (#[trigger] indices@[i])
                    < q.indices@.len(),
                selected@.len() == k,
                forall|i: int| 0 <= i < k ==> #[trigger] selected@[i] == q.indices@[indices@[i] as int],
        {
            let pos = indices[k];
            let qlen = q.indices.len();
            proof {
                assert(indices@[k as int] < q.indices@.len());
                assert(pos < qlen as u64);
            }
            selected.push(q.indices[pos as usize]);
            proof {
                assert(selected@[k as int] == q.indices@[pos as int]);
            }
        }
        proof {
            assert(selected@ =~= select_relative(q.indices@, indices@));
            assert forall|i: int, j: int|
                0 <= i < selected@.len() && 0 <= j < selected@.len() && i != j implies selected@[i]
                != selected@[j] by {
            }
            assert forall|k: int| 0 <= k < selected@.len() implies q.indices@.contains(
                #[trigger] selected@[k],
            ) by {
                assert(q.indices@[indices@[k] as int] == selected@[k]);
            }
        }
        match self.split_absolute(q, selected) {
            Ok(pair) => Ok(pair),
            Err(_) => vstd::pervasive::unreached(),
        }
    }

    /// Split each index group out of `q` in order, folding the
    /// remainder forward: the split-off entities in group order, plus
    /// the final remainder. The first group a split rejects aborts the
    /// fold with that split's error.
    fn split_absolute_many(&mut self, q: Qubit<P>, index_groups: Vec<Vec<u64>>) -> (r: Result<
        (Vec<Qubit<P>>, Qubit<P>),
        BuildError,
    >)
        requires
            old(self).wf(),
            q.wf(),
            forall|i: int|
                0 <= i < index_groups@.len() ==> (#[trigger] index_groups@[i])@.no_duplicates(),
            old(self).next_op_id() + 2 * index_groups@.len() <= u64::MAX,
        ensures
            final(self).wf(),
            final(self).control_chain() == old(self).control_chain(),
            final(self).held_indices() == old(self).held_indices(),
            final(self).next_qubit_index() == old(self).next_qubit_index(),
            old(self).next_op_id() <= final(self).next_op_id() <= old(self).next_op_id() + 2
                * index_groups@.len(),
            match r {
                Err(e) => peel_result(q.indices@, group_views(index_groups@)) == Err::<
                    Seq<u64>,
                    BuildError,
                >(e),
                Ok((qs, rem)) => {
                    &&& peel_result(q.indices@, group_views(index_groups@)) == Ok::<
                        Seq<u64>,
                        BuildError,
                    >(rem.indices@)
                    &&& qs@.len() == index_groups@.len()
                    &&& forall|i: int|
                        0 <= i < qs@.len() ==> (#[trigger] qs@[i]).indices@ == index_groups@[i]@
                            && qs@[i].wf()
                    &&& rem.wf()
                    &&& final(self).next_op_id() == old(self).next_op_id() + 2
                        * index_groups@.len()
                },
            },
    {
        let ghost q0 = q;
        let mut out: Vec<Qubit<P>> = Vec::new();
        let mut cur = q;
        proof {
            assert(group_views(index_groups@).skip(0) =~= group_views(index_groups@));
        }
        for k in 0..index_groups.len()
            invariant
                q0 == q,
                self.wf(),
                self.control_chain() == old(self).control_chain(),
                self.held_indices() == old(self).held_indices(),
                self.next_qubit_index() == old(self).next_qubit_index(),
                self.next_op_id() == old(self).next_op_id() + 2 * k,
                old(self).next_op_id() + 2 * index_groups@.len() <= u64::MAX,
                forall|i: int|
                    0 <= i < index_groups@.len() ==> (
                    #[trigger] index_groups@[i])@.no_duplicates(),
                cur.wf(),
                peel_result(q0.indices@, group_views(index_groups@)) == peel_result(
                    cur.indices@,
                    group_views(index_groups@).skip(k as int),
                ),
                out@.len() == k,
                forall|i: int|
                    0 <= i < k ==> (#[trigger] out@[i]).indices@ == index_groups@[i]@
                        && out@[i].wf(),
        {
            let g = copy_vec(&index_groups[k]);
            let ghost cursnap = cur;
            proof {
                assert(group_views(index_groups@).skip(k as int)[0] == index_groups@[k as int]@);
                assert(group_views(index_groups@).skip(k as int).drop_first() =~= group_views(
                    index_groups@,
                ).skip(k + 1));
            }
            match self.split_absolute(cur, g) {
                Ok((hq, tq)) => {
                    proof {
                        assert(split_absolute_err(cursnap.indices@, g@) is None);
                        assert(peel_result(
                            cursnap.indices@,
                            group_views(index_groups@).skip(k as int),
                        ) == peel_result(tq.indices@, group_views(index_groups@).skip(k + 1)));
                    }
                    out.push(hq);
                    cur = tq;
                },
                Err(e) => {
                    proof {
                        assert(split_absolute_err(cursnap.indices@, g@) == Some(e));
                        assert(peel_result(
                            cursnap.indices@,
                            group_views(index_groups@).skip(k as int),
                        ) == Err::<Seq<u64>, BuildError>(e));
                    }
                    return Err(e);
                },
            }
        }
        proof {
            assert(group_views(index_groups@).skip(index_groups@.len() as int) =~= Seq::<
                Seq<u64>,
            >::empty());
            assert(peel_result(cur.indices@, Seq::<Seq<u64>>::empty()) == Ok::<
                Seq<u64>,
                BuildError,
            >(cur.indices@));
        }
        Ok((out, cur))
    }

    /// Split `q` into one single-index entity per index: each entity in
    /// index order, the last index arriving as the final remainder
    /// entity rather than through a redundant last split.
    fn split_all(&mut self, q: Qubit<P>) -> (r: Vec<Qubit<P>>)
        requires
            old(self).wf(),
            q.wf(),
            old(self).next_op_id() + 2 * q.indices@.len() <= u64::MAX,
        ensures
            final(self).wf(),
            final(self).control_chain() == old(self).control_chain(),
            final(self).held_indices() == old(self).held_indices(),
            final(self).next_qubit_index() == old(self).next_qubit_index(),
            old(self).next_op_id() <= final(self).next_op_id() <= old(self).next_op_id() + 2
                * q.indices@.len(),
            r@.len() == q.indices@.len(),
            forall|i: int|
                0 <= i < r@.len() ==> (#[trigger] r@[i]).indices@ == seq![q.indices@[i]]
                    && r@[i].wf(),
            all_indices(r@) == q.indices@,
    {
        let ghost qi = q.indices@;
        let n = q.indices.len();
        let mut groups: Vec<Vec<u64>> = Vec::new();
        for k in 0..n - 1
            invariant
                n == q.indices@.len(),
                n >= 1,
                groups@.len() == k,
                forall|i: int| 0 <= i < k ==> (#[trigger] groups@[i])@ == seq![q.indices@[i]],
        {
            let mut g: Vec<u64> = Vec::new();
            g.push(q.indices[k]);
            groups.push(g);
            proof {
                assert(groups@[k as int]@ =~= seq![q.indices@[k as int]]);
            }
        }
        proof {
            assert forall|i: int| 0 <= i < group_views(groups@).len() implies #[trigger] group_views(
                groups@,
            )[i] == seq![qi[i]] by {
                assert(group_views(groups@)[i] == groups@[i]@);
            }
            lemma_peel_singletons(qi, group_views(groups@));
            assert forall|i: int|
                0 <= i < groups@.len() implies (#[trigger] groups@[i])@.no_duplicates() by {
                assert(groups@[i]@ == seq![qi[i]]);
            }
        }
        match self.split_absolute_many(q, groups) {
            Ok((mut qs, rem)) => {
                proof {
                    assert(rem.indices@ == qi.skip(n - 1));
                    assert(qi.skip(n - 1) =~= seq![qi[n - 1]]);
                }
                qs.push(rem);
                proof {
                    assert forall|i: int|
                        0 <= i < qs@.len() implies (#[trigger] qs@[i]).indices@ == seq![qi[i]]
                            && qs@[i].wf() by {
                        if i < qs@.len() - 1 {
                            assert(qs@[i].indices@ == group_views(groups@)[i]);
                        }
                    }
                    lemma_all_indices_of_singletons(qs@, qi);
                }
                qs
            },
            Err(_) => vstd::pervasive::unreached(),
        }
    }

    /// Apply a matrix to `q`. If `q` addresses several indices and the
    /// matrix is 2x2, the matrix is broadcast: applied to each index
    /// independently and the pieces re-merged. Otherwise the matrix must
    /// hold exactly 4^n coefficients for an n-index entity; any other
    /// size is rejected, leaving the builder untouched.
    fn mat(&mut self, q: Qubit<P>, m: &Vec<P>) -> (r: Result<Qubit<P>, BuildError>)
        requires
            old(self).wf(),
            q.wf(),
            q.indices@.len() < 32,
            held_disjoint_from(old(self).held_indices(), q.index_set()),
            old(self).next_op_id() + 5 * q.indices@.len() + 1 <= u64::MAX,
        ensures
            final(self).wf(),
            final(self).control_chain() == old(self).control_chain(),
            final(self).held_indices() == old(self).held_indices(),
            final(self).next_qubit_index() == old(self).next_qubit_index(),
            old(self).next_op_id() <= final(self).next_op_id() <= old(self).next_op_id() + 5
                * q.indices@.len() + 1,
            match r {
                Err(e) => {
                    &&& e == BuildError::MatrixWrongSize
                    &&& !(q.indices@.len() > 1 && m@.len() == 4)
                    &&& m@.len() != mat_size_for(q.indices@.len() as int)
                    &&& final(self).next_op_id() == old(self).next_op_id()
                },
                Ok(qr) => {
                    &&& (q.indices@.len() > 1 && m@.len() == 4) || m@.len() == mat_size_for(
                        q.indices@.len() as int,
                    )
                    &&& qr.wf()
                    &&& sorted_seq(qr.indices@)
                    &&& qr.index_set() == q.index_set()
                    &&& final(self).next_op_id() > old(self).next_op_id()
                    &&& qr.id == final(self).next_op_id() - 1
                    &&& !(q.indices@.len() > 1 && m@.len() == 4) ==> mat_lineage(
                        qr,
                        old(self).held_indices(),
                        old(self).control_chain(),
                        q.indices@,
                        m@,
                    )
                },
            },
    ;

    /// Exchange the states of `qa` and `qb`, which must address equally
    /// many indices: both are merged under a swap descriptor and split
    /// back apart, so the caller receives two distinct entities matching
    /// the pre-swap index partition.
    fn swap(&mut self, qa: Qubit<P>, qb: Qubit<P>) -> (r: Result<
        (Qubit<P>, Qubit<P>),
        BuildError,
    >)
        requires
            old(self).wf(),
            qa.wf(),
            qb.wf(),
            qa.index_set().disjoint(qb.index_set()),
            held_disjoint_from(old(self).held_indices(), qa.index_set()),
            held_disjoint_from(old(self).held_indices(), qb.index_set()),
            old(self).next_op_id() + 5 <= u64::MAX,
        ensures
            final(self).wf(),
            final(self).control_chain() == old(self).control_chain(),
            final(self).held_indices() == old(self).held_indices(),
            final(self).next_qubit_index() == old(self).next_qubit_index(),
            old(self).next_op_id() <= final(self).next_op_id() <= old(self).next_op_id() + 5,
            match r {
                Err(e) => {
                    &&& e == BuildError::SwapSizeMismatch
                    &&& qa.indices@.len() != qb.indices@.len()
                    &&& final(self).next_op_id() == old(self).next_op_id()
                },
                Ok((ra, rb)) => {
                    &&& qa.indices@.len() == qb.indices@.len()
                    &&& ra.indices@ == qa.indices@
                    &&& ra.index_set() == qa.index_set()
                    &&& sorted_seq(rb.indices@)
                    &&& rb.index_set() == qb.index_set()
                    &&& ra.wf()
                    &&& rb.wf()
                    &&& swap_lineage(
                        ra,
                        old(self).held_indices(),
                        old(self).control_chain(),
                        qa.indices@,
                        qb.indices@,
                    )
                },
            },
    ;

    /// Mark `q` for a probability-only measurement: the entity is
    /// consumed into a fresh one carrying a stochastic-measurement
    /// modifier, and the returned numeric handle retrieves the outcome
    /// from the execution engine's results.
    fn stochastic_measure(&mut self, q: Qubit<P>) -> (r: (Qubit<P>, u64))
        requires
            old(self).wf(),
            q.wf(),
            old(self).next_op_id() < u64::MAX,
        ensures
            final(self).wf(),
            final(self).control_chain() == old(self).control_chain(),
            final(self).held_indices() == old(self).held_indices(),
            final(self).next_qubit_index() == old(self).next_qubit_index(),
            final(self).next_op_id() == old(self).next_op_id() + 1,
            r.1 == old(self).next_op_id(),
            r.0.id == r.1,
            r.0.wf(),
            sorted_seq(r.0.indices@),
            r.0.index_set() == q.index_set(),
            r.0.parent matches Some(Parent::Owned(cs, m)) && cs@ == seq![q] && (
            m matches Some(StateModifier::StochasticMeasurement(mid, iv)) && mid == r.1 && iv@
                == q.indices@),
    ;

}

/// A builder which supports non-unitary operations.
pub trait NonUnitaryBuilder<P: Copy>: UnitaryBuilder<P> {
    /// Mark `q` for a state-collapsing measurement; the returned numeric
    /// handle retrieves the measured value from the execution engine's
    /// results.
    fn measure(&mut self, q: Qubit<P>) -> (r: (Qubit<P>, u64))
        requires
            old(self).wf(),
            q.wf(),
            old(self).next_op_id() < u64::MAX,
        ensures
            final(self).wf(),
            final(self).control_chain() == old(self).control_chain(),
            final(self).held_indices() == old(self).held_indices(),
            final(self).next_qubit_index() == old(self).next_qubit_index(),
            final(self).next_op_id() == old(self).next_op_id() + 1,
            r.1 == old(self).next_op_id(),
            r.0.id == r.1,
            r.0.wf(),
            sorted_seq(r.0.indices@),
            r.0.index_set() == q.index_set(),
            r.0.parent matches Some(Parent::Owned(cs, m)) && cs@ == seq![q] && (
            m matches Some(StateModifier::Measurement(mid, iv)) && mid == r.1 && iv@
                == q.indices@),
    ;
}

/// A basic builder for unitary and non-unitary operations, holding the
/// two process-wide monotone counters: the next free absolute index and
/// the next free operation/entity identity.
pub struct OpBuilder {
    qubit_index: u64,
    op_id: u64,
}

impl Default for OpBuilder {
    /// A builder with both counters at zero.
    fn default() -> (r: OpBuilder)
        ensures
            r.spec_op_id() == 0,
            r.spec_qubit_index() == 0,
    {
        OpBuilder { qubit_index: 0, op_id: 0 }
    }
}

impl OpBuilder {
    /// The next identity this builder will hand out.
    pub closed spec fn spec_op_id(&self) -> u64 {
        self.op_id
    }

    /// The next free absolute state-vector index.
    pub closed spec fn spec_qubit_index(&self) -> u64 {
        self.qubit_index
    }

    /// Build a new builder with both counters at zero.
    pub fn new() -> (r: OpBuilder)
        ensures
            r.spec_op_id() == 0,
            r.spec_qubit_index() == 0,
    {
        Default::default()
    }

    /// Draw the next fresh identity.
    fn get_op_id(&mut self) -> (r: u64)
        requires
            old(self).op_id < u64::MAX,
        ensures
            r == old(self).op_id,
            final(self).op_id == old(self).op_id + 1,
            final(self).qubit_index == old(self).qubit_index,
    {
        let tmp = self.op_id;
        self.op_id = self.op_id + 1;
        tmp
    }

    /// Reserve `n` fresh contiguous absolute indices and return a new
    /// entity over them; `n` must be positive.
    pub fn qubit<P: Copy>(&mut self, n: u64) -> (r: Result<Qubit<P>, BuildError>)
        requires
            old(self).spec_qubit_index() + n <= u64::MAX,
            old(self).spec_op_id() < u64::MAX,
        ensures
            match r {
                Err(e) => {
                    &&& n == 0
                    &&& e == BuildError::ZeroQubits
                    &&& *final(self) == *old(self)
                },
                Ok(q) => {
                    &&& n > 0
                    &&& q.wf()
                    &&& fresh_range(q, old(self).spec_qubit_index(), n)
                    &&& q.id == old(self).spec_op_id()
                    &&& q.parent is None
                    &&& final(self).spec_qubit_index() == old(self).spec_qubit_index() + n
                    &&& final(self).spec_op_id() == old(self).spec_op_id() + 1
                },
            },
    {
        if n == 0 {
            Err(BuildError::ZeroQubits)
        } else {
            let base_index = self.qubit_index;
            let mut idx: Vec<u64> = Vec::new();
            for i in 0..n
                invariant
                    base_index + n <= u64::MAX,
                    idx@.len() == i,
                    forall|j: int| 0 <= j < i ==> idx@[j] == base_index + j,
            {
                idx.push(base_index + i);
            }
            self.qubit_index = base_index + n;
            let id = self.get_op_id();
            proof {
                assert(idx@.no_duplicates());
            }
            match Qubit::new(id, idx) {
                Ok(q) => Ok(q),
                Err(_) => vstd::pervasive::unreached(),
            }
        }
    }

    /// Reserve `n` fresh indices, returning the new entity together with
    /// a handle for feeding in an initial state.
    pub fn qubit_and_handle<P: Copy>(&mut self, n: u64) -> (r: Result<
        (Qubit<P>, QubitHandle),
        BuildError,
    >)
        requires
            old(self).spec_qubit_index() + n <= u64::MAX,
            old(self).spec_op_id() < u64::MAX,
        ensures
            match r {
                Err(e) => {
                    &&& n == 0
                    &&& e == BuildError::ZeroQubits
                    &&& *final(self) == *old(self)
                },
                Ok((q, h)) => {
                    &&& n > 0
                    &&& q.wf()
                    &&& fresh_range(q, old(self).spec_qubit_index(), n)
                    &&& q.id == old(self).spec_op_id()
                    &&& h.spec_indices() == q.indices@
                    &&& final(self).spec_qubit_index() == old(self).spec_qubit_index() + n
                    &&& final(self).spec_op_id() == old(self).spec_op_id() + 1
                },
            },
    {
        let q: Qubit<P> = self.qubit(n)?;
        let h = q.handle();
        Ok((q, h))
    }
}

impl<P: Copy> UnitaryBuilder<P> for OpBuilder {
    open spec fn wf(&self) -> bool {
        true
    }

    open spec fn next_op_id(&self) -> u64 {
        self.spec_op_id()
    }

    open spec fn next_qubit_index(&self) -> u64 {
        self.spec_qubit_index()
    }

    open spec fn held_indices(&self) -> Option<Seq<u64>> {
        None
    }

    open spec fn control_chain(&self) -> Seq<Seq<u64>> {
        Seq::empty()
    }

    fn make_mat_op(&self, q: &Qubit<P>, data: Vec<P>) -> (r: UnitaryOp<P>) {
        UnitaryOp::Matrix(copy_vec(&q.indices), data)
    }

    fn make_swap_op(&self, qa: &Qubit<P>, qb: &Qubit<P>) -> (r: Result<UnitaryOp<P>, BuildError>) {
        if qa.indices.len() == qb.indices.len() {
            Ok(UnitaryOp::Swap(copy_vec(&qa.indices), copy_vec(&qb.indices)))
        } else {
            Err(BuildError::SwapSizeMismatch)
        }
    }

    fn merge_with_op(&mut self, qs: Vec<Qubit<P>>, op: Option<UnitaryOp<P>>) -> (r: Qubit<P>) {
        let modifier = match op {
            Some(o) => Some(StateModifier::Unitary(o)),
            None => None,
        };
        let id = self.get_op_id();
        Qubit::merge_with_modifier(id, qs, modifier)
    }

    fn merge(&mut self, qs: Vec<Qubit<P>>) -> (r: Qubit<P>) {
        self.merge_with_op(qs, None)
    }

    fn split_absolute(&mut self, q: Qubit<P>, selected_indices: Vec<u64>) -> (r: Result<
        (Qubit<P>, Qubit<P>),
        BuildError,
    >) {
        let ida = self.get_op_id();
        let idb = self.get_op_id();
        Qubit::split_absolute(ida, idb, q, selected_indices)
    }


    fn mat(&mut self, q: Qubit<P>, m: &Vec<P>) -> (r: Result<Qubit<P>, BuildError>) {
        let ghost qsnap = q;
        if q.indices.len() > 1 && m.len() == 4 {
            let n = q.indices.len();
            let qs = self.split_all(q);
            let mut rest = qs;
            let mut out: Vec<Qubit<P>> = Vec::new();
            while rest.len() > 0
                invariant
                    n == qsnap.indices@.len(),
                    1 < n < 32,
                    qsnap.wf(),
                    out@.len() + rest@.len() == n,
                    forall|i: int|
                        0 <= i < out@.len() ==> (#[trigger] out@[i]).indices@ == seq![
                            qsnap.indices@[i],
                        ] && out@[i].wf(),
                    forall|i: int|
                        0 <= i < rest@.len() ==> (#[trigger] rest@[i]).indices@ == seq![
                            qsnap.indices@[out@.len() + i],
                        ] && rest@[i].wf(),
                    self.spec_qubit_index() == old(self).spec_qubit_index(),
                    old(self).spec_op_id() <= self.spec_op_id(),
                    self.spec_op_id() <= old(self).spec_op_id() + 2 * n + out@.len(),
                    old(self).spec_op_id() + 5 * n + 1 <= u64::MAX,
                decreases rest@.len(),
            {
                let ghost rest0 = rest@;
                let qq = rest.remove(0);
                let ghost qqsnap = qq;
                let ghost outlen = out@.len();
                let data = copy_vec(m);
                let op = self.make_mat_op(&qq, data);
                proof {
                    lemma_all_indices_singleton(qqsnap);
                }
                let children = vec![qq];
                proof {
                    assert(children@ =~= seq![qqsnap]);
                }
                let merged = self.merge_with_op(children, Some(op));
                out.push(merged);
                proof {
                    assert forall|i: int|
                        0 <= i < rest@.len() implies (#[trigger] rest@[i]).indices@ == seq![
                            qsnap.indices@[out@.len() + i],
                        ] && rest@[i].wf() by {
                        assert(rest@[i] == rest0[i + 1]);
                    }
                    let ghost x = qsnap.indices@[outlen as int];
                    assert(merged.indices@.to_multiset() == seq![x].to_multiset());
                    crate::vecs::lemma_multiset_eq_transfers(seq![x], merged.indices@);
                    seq![x].unique_seq_to_set();
                    merged.indices@.unique_seq_to_set();
                    assert(seq![x][0] == x);
                    assert(seq![x].contains(x));
                    assert(seq![x].to_set().contains(x));
                    assert(merged.indices@.to_set().contains(x));
                    assert(merged.indices@.len() == 1);
                    assert(merged.indices@.contains(x));
                    assert(merged.indices@ =~= seq![x]);
                }
            }
            proof {
                assert(out@.len() == n);
                lemma_all_indices_of_singletons(out@, qsnap.indices@);
                assert forall|i: int, j: int|
                    0 <= i < j < out@.len() implies #[trigger] out@[i].indices@.to_set().disjoint(
                    #[trigger] out@[j].indices@.to_set(),
                ) by {
                    assert forall|x: u64|
                        out@[i].indices@.to_set().contains(x) implies !out@[j].indices@.to_set().contains(x) by {
                        assert(out@[i].indices@ == seq![qsnap.indices@[i]]);
                        assert(out@[j].indices@ == seq![qsnap.indices@[j]]);
                    }
                }
            }
            let result = self.merge_with_op(out, None);
            proof {
                assert(result.index_set() =~= qsnap.index_set());
            }
            Ok(result)
        } else {
            let two_n = 2 * q.indices.len();
            if (m.len() as u64) != (1u64 << (two_n as u64)) {
                return Err(BuildError::MatrixWrongSize);
            }
            let data = copy_vec(m);
            let op = self.make_mat_op(&q, data);
            proof {
                lemma_all_indices_singleton(qsnap);
            }
            let children = vec![q];
            proof {
                assert(children@ =~= seq![qsnap]);
            }
            let merged = self.merge_with_op(children, Some(op));
            proof {
                assert(merged.index_set() =~= qsnap.index_set());
            }
            Ok(merged)
        }
    }

    fn swap(&mut self, qa: Qubit<P>, qb: Qubit<P>) -> (r: Result<
        (Qubit<P>, Qubit<P>),
        BuildError,
    >) {
        let op = match self.make_swap_op(&qa, &qb) {
            Ok(op) => op,
            Err(e) => {
                return Err(e);
            },
        };
        let qa_indices = copy_vec(&qa.indices);
        let ghost qas = qa;
        let ghost qbs = qb;
        let children = vec![qa, qb];
        proof {
            assert(children@ =~= seq![qas, qbs]);
            lemma_all_indices_pair(qas, qbs);
            crate::vecs::lemma_concat_no_dup(qas.indices@, qbs.indices@);
        }
        let merged = self.merge_with_op(children, Some(op));
        proof {
            crate::vecs::lemma_multiset_eq_transfers(
                qas.indices@ + qbs.indices@,
                merged.indices@,
            );
            crate::vecs::lemma_concat_to_set(qas.indices@, qbs.indices@);
            assert(merged.index_set() == qas.index_set() + qbs.index_set());
            assert forall|x: u64| qas.index_set().contains(x) implies merged.index_set().contains(
                x,
            ) by {
            }
            assert(qbs.indices@.contains(qbs.indices@[0]));
            assert(merged.index_set().contains(qbs.indices@[0]));
            lemma_split_back_ok(merged, qas.indices@, qbs.indices@[0]);
        }
        let (ra, rb) = match self.split_absolute(merged, qa_indices) {
            Ok(p) => p,
            Err(_) => vstd::pervasive::unreached(),
        };
        proof {
            assert(ra.indices@ == qas.indices@);
            assert(ra.index_set() =~= qas.index_set());
            assert forall|x: u64| rb.index_set().contains(x) implies qbs.index_set().contains(
                x,
            ) by {
                assert(merged.index_set().contains(x));
                assert(!ra.index_set().contains(x));
            }
            assert forall|x: u64| qbs.index_set().contains(x) implies rb.index_set().contains(
                x,
            ) by {
                assert(merged.index_set().contains(x));
                assert(!qas.index_set().contains(x));
            }
            assert(rb.index_set() =~= qbs.index_set());
            crate::vecs::lemma_filter_sorted(
                merged.indices@,
                crate::qubits::not_in(qas.indices@),
            );
        }
        Ok((ra, rb))
    }

    fn stochastic_measure(&mut self, q: Qubit<P>) -> (r: (Qubit<P>, u64)) {
        let id = self.get_op_id();
        let iv = copy_vec(&q.indices);
        let modifier = Some(StateModifier::StochasticMeasurement(id, iv));
        let ghost qsnap = q;
        let children = vec![q];
        proof {
            assert(children@ =~= seq![qsnap]);
            lemma_all_indices_singleton(qsnap);
        }
        let q2 = Qubit::merge_with_modifier(id, children, modifier);
        (q2, id)
    }
}

impl<P: Copy> NonUnitaryBuilder<P> for OpBuilder {
    fn measure(&mut self, q: Qubit<P>) -> (r: (Qubit<P>, u64)) {
        let id = self.get_op_id();
        let iv = copy_vec(&q.indices);
        let modifier = Some(StateModifier::Measurement(id, iv));
        let ghost qsnap = q;
        let children = vec![q];
        proof {
            assert(children@ =~= seq![qsnap]);
            lemma_all_indices_singleton(qsnap);
        }
        let q2 = Qubit::merge_with_modifier(id, children, modifier);
        (q2, id)
    }
}

/// A builder whose every emitted operator is conditioned on the value of
/// a held control entity. It owns its parent builder for the duration of
/// the conditional scope and returns it on release.
pub struct ConditionalContextBuilder<P, B> {
    parent_builder: B,
    conditioned_qubit: Option<Qubit<P>>,
}

impl<P: Copy, B: UnitaryBuilder<P>> ConditionalContextBuilder<P, B> {
    /// The wrapped parent builder.
    pub closed spec fn spec_parent(self) -> B {
        self.parent_builder
    }

    /// The control entity currently held, if any.
    pub closed spec fn spec_held(self) -> Option<Qubit<P>> {
        self.conditioned_qubit
    }

    /// Merge the held control entity with `qq` under the already
    /// control-wrapped operator `op`, then split the control back out
    /// and re-store it, returning the operand's successor entity.
    fn apply_controlled(&mut self, qq: Qubit<P>, op: UnitaryOp<P>) -> (r: Qubit<P>)
        requires
            old(self).wf(),
            qq.wf(),
            held_disjoint_from(old(self).held_indices(), qq.index_set()),
            old(self).next_op_id() + 3 <= u64::MAX,
        ensures
            final(self).wf(),
            final(self).control_chain() == old(self).control_chain(),
            final(self).held_indices() == old(self).held_indices(),
            final(self).next_qubit_index() == old(self).next_qubit_index(),
            final(self).next_op_id() == old(self).next_op_id() + 3,
            r.wf(),
            sorted_seq(r.indices@),
            r.index_set() == qq.index_set(),
            r.id == old(self).next_op_id() + 2,
            r.parent matches Some(Parent::Shared(node)) && (node.parent matches Some(
                Parent::Owned(cs, md),
            ) && md == Some(StateModifier::<P>::Unitary(op))),
    {
        let cq = match self.conditioned_qubit.take() {
            Some(c) => c,
            None => vstd::pervasive::unreached(),
        };
        let cq_indices = copy_vec(&cq.indices);
        let ghost cqs = cq;
        let ghost qqs = qq;
        let children = vec![cq, qq];
        proof {
            assert(children@ =~= seq![cqs, qqs]);
            lemma_all_indices_pair(cqs, qqs);
            assert forall|i: int, j: int|
                0 <= i < j < children@.len() implies #[trigger] children@[i].indices@.to_set().disjoint(
                #[trigger] children@[j].indices@.to_set(),
            ) by {
                assert(children@[0] == cqs && children@[1] == qqs);
            }
        }
        let merged = self.parent_builder.merge_with_op(children, Some(op));
        proof {
            crate::vecs::lemma_concat_no_dup(cqs.indices@, qqs.indices@);
            crate::vecs::lemma_multiset_eq_transfers(cqs.indices@ + qqs.indices@, merged.indices@);
            crate::vecs::lemma_concat_to_set(cqs.indices@, qqs.indices@);
            assert(merged.index_set() == cqs.index_set() + qqs.index_set());
            assert(qqs.indices@.contains(qqs.indices@[0]));
            assert(merged.index_set().contains(qqs.indices@[0]));
            lemma_split_back_ok(merged, cqs.indices@, qqs.indices@[0]);
        }
        let (cq2, qr) = match self.parent_builder.split_absolute(merged, cq_indices) {
            Ok(p) => p,
            Err(_) => vstd::pervasive::unreached(),
        };
        proof {
            assert(cq2.indices@ == cqs.indices@);
            assert forall|x: u64| qr.index_set().contains(x) implies qqs.index_set().contains(
                x,
            ) by {
                assert(merged.index_set().contains(x));
                assert(!cq2.index_set().contains(x));
            }
            assert forall|x: u64| qqs.index_set().contains(x) implies qr.index_set().contains(
                x,
            ) by {
                assert(merged.index_set().contains(x));
                assert(!cqs.index_set().contains(x));
            }
            assert(qr.index_set() =~= qqs.index_set());
            crate::vecs::lemma_filter_sorted(merged.indices@, crate::qubits::not_in(cqs.indices@));
        }
        self.conditioned_qubit = Some(cq2);
        qr
    }

    /// End the conditional scope: give back the parent builder and the
    /// control entity, with its indices intact.
    pub fn release_qubit(self) -> (r: (B, Qubit<P>))
        requires
            self.wf(),
        ensures
            self.spec_held() == Some(r.1),
            r.0 == self.spec_parent(),
            r.1.wf(),
    {
        let ConditionalContextBuilder { parent_builder, conditioned_qubit } = self;
        match conditioned_qubit {
            Some(q) => (parent_builder, q),
            None => vstd::pervasive::unreached(),
        }
    }
}

impl<P: Copy, B: UnitaryBuilder<P>> UnitaryBuilder<P> for ConditionalContextBuilder<P, B> {
    open spec fn wf(&self) -> bool {
        match self.spec_held() {
            Some(q) => q.wf() && self.spec_parent().wf(),
            None => false,
        }
    }

    open spec fn next_op_id(&self) -> u64 {
        self.spec_parent().next_op_id()
    }

    open spec fn next_qubit_index(&self) -> u64 {
        self.spec_parent().next_qubit_index()
    }

    open spec fn held_indices(&self) -> Option<Seq<u64>> {
        match self.spec_held() {
            Some(q) => Some(q.indices@),
            None => None,
        }
    }

    open spec fn control_chain(&self) -> Seq<Seq<u64>> {
        match self.spec_held() {
            Some(q) => seq![q.indices@] + self.spec_parent().control_chain(),
            None => self.spec_parent().control_chain(),
        }
    }

    fn make_mat_op(&self, q: &Qubit<P>, data: Vec<P>) -> (r: UnitaryOp<P>) {
        match &self.conditioned_qubit {
            Some(cq) => {
                let inner = self.parent_builder.make_mat_op(q, data);
                let r = make_control_op(copy_vec(&cq.indices), inner);
                proof {
                    assert(self.control_chain().drop_first() =~= self.spec_parent(
                    ).control_chain());
                    assert(self.control_chain()[0] == cq.indices@);
                }
                r
            },
            None => vstd::pervasive::unreached(),
        }
    }

    fn make_swap_op(&self, qa: &Qubit<P>, qb: &Qubit<P>) -> (r: Result<UnitaryOp<P>, BuildError>) {
        match &self.conditioned_qubit {
            Some(cq) => {
                match self.parent_builder.make_swap_op(qa, qb) {
                    Ok(inner) => {
                        let r = make_control_op(copy_vec(&cq.indices), inner);
                        proof {
                            assert(self.control_chain().drop_first() =~= self.spec_parent(
                            ).control_chain());
                            assert(self.control_chain()[0] == cq.indices@);
                        }
                        Ok(r)
                    },
                    Err(e) => Err(e),
                }
            },
            None => vstd::pervasive::unreached(),
        }
    }

    fn merge_with_op(&mut self, qs: Vec<Qubit<P>>, op: Option<UnitaryOp<P>>) -> (r: Qubit<P>) {
        self.parent_builder.merge_with_op(qs, op)
    }

    fn merge(&mut self, qs: Vec<Qubit<P>>) -> (r: Qubit<P>) {
        self.parent_builder.merge_with_op(qs, None)
    }

    fn split_absolute(&mut self, q: Qubit<P>, selected_indices: Vec<u64>) -> (r: Result<
        (Qubit<P>, Qubit<P>),
        BuildError,
    >) {
        self.parent_builder.split_absolute(q, selected_indices)
    }


    fn mat(&mut self, q: Qubit<P>, m: &Vec<P>) -> (r: Result<Qubit<P>, BuildError>) {
        let ghost qsnap = q;
        if q.indices.len() > 1 && m.len() == 4 {
            let n = q.indices.len();
            let qs = self.split_all(q);
            let mut rest = qs;
            let mut out: Vec<Qubit<P>> = Vec::new();
            while rest.len() > 0
                invariant
                    n == qsnap.indices@.len(),
                    1 < n < 32,
                    qsnap.wf(),
                    out@.len() + rest@.len() == n,
                    forall|i: int|
                        0 <= i < out@.len() ==> (#[trigger] out@[i]).indices@ == seq![
                            qsnap.indices@[i],
                        ] && out@[i].wf(),
                    forall|i: int|
                        0 <= i < rest@.len() ==> (#[trigger] rest@[i]).indices@ == seq![
                            qsnap.indices@[out@.len() + i],
                        ] && rest@[i].wf(),
                    self.wf(),
                    self.control_chain() == old(self).control_chain(),
                    self.held_indices() == old(self).held_indices(),
                    self.next_qubit_index() == old(self).next_qubit_index(),
                    held_disjoint_from(old(self).held_indices(), qsnap.index_set()),
                    old(self).next_op_id() <= self.next_op_id(),
                    self.next_op_id() <= old(self).next_op_id() + 2 * n + 3 * out@.len(),
                    old(self).next_op_id() + 5 * n + 1 <= u64::MAX,
                decreases rest@.len(),
            {
                let ghost rest0 = rest@;
                let qq = rest.remove(0);
                let ghost qqsnap = qq;
                let ghost outlen = out@.len();
                let data = copy_vec(m);
                let op = self.make_mat_op(&qq, data);
                proof {
                    assert(qqsnap.indices@ == seq![qsnap.indices@[outlen as int]]);
                    assert forall|x: u64| qqsnap.index_set().contains(x) implies qsnap.index_set().contains(
                        x,
                    ) by {
                        assert(qqsnap.indices@[0] == qsnap.indices@[outlen as int]);
                        assert(qsnap.indices@.contains(qsnap.indices@[outlen as int]));
                    }
                    assert(held_disjoint_from(self.held_indices(), qqsnap.index_set()));
                }
                let qr = self.apply_controlled(qq, op);
                out.push(qr);
                proof {
                    assert forall|i: int|
                        0 <= i < rest@.len() implies (#[trigger] rest@[i]).indices@ == seq![
                            qsnap.indices@[out@.len() + i],
                        ] && rest@[i].wf() by {
                        assert(rest@[i] == rest0[i + 1]);
                    }
                    assert(qr.index_set() == qqsnap.index_set());
                    qr.indices@.unique_seq_to_set();
                    qqsnap.indices@.unique_seq_to_set();
                    assert(qr.indices@.len() == 1);
                    assert(qr.indices@.contains(qr.indices@[0]));
                    assert(qr.index_set().contains(qr.indices@[0]));
                    assert(qqsnap.index_set().contains(qsnap.indices@[outlen as int]));
                    assert(qr.indices@[0] == qsnap.indices@[outlen as int]);
                    assert(qr.indices@ =~= seq![qsnap.indices@[outlen as int]]);
                }
            }
            proof {
                assert(out@.len() == n);
                lemma_all_indices_of_singletons(out@, qsnap.indices@);
                assert forall|i: int, j: int|
                    0 <= i < j < out@.len() implies #[trigger] out@[i].indices@.to_set().disjoint(
                    #[trigger] out@[j].indices@.to_set(),
                ) by {
                    assert forall|x: u64|
                        out@[i].indices@.to_set().contains(x) implies !out@[j].indices@.to_set().contains(
                        x,
                    ) by {
                        assert(out@[i].indices@ == seq![qsnap.indices@[i]]);
                        assert(out@[j].indices@ == seq![qsnap.indices@[j]]);
                    }
                }
            }
            let result = self.merge_with_op(out, None);
            proof {
                assert(result.index_set() =~= qsnap.index_set());
            }
            Ok(result)
        } else {
            let two_n = 2 * q.indices.len();
            if (m.len() as u64) != (1u64 << (two_n as u64)) {
                return Err(BuildError::MatrixWrongSize);
            }
            let data = copy_vec(m);
            let op = self.make_mat_op(&q, data);
            let qr = self.apply_controlled(q, op);
            Ok(qr)
        }
    }

    fn swap(&mut self, qa: Qubit<P>, qb: Qubit<P>) -> (r: Result<
        (Qubit<P>, Qubit<P>),
        BuildError,
    >) {
        let op = match self.make_swap_op(&qa, &qb) {
            Ok(op) => op,
            Err(e) => {
                return Err(e);
            },
        };
        let cq = match self.conditioned_qubit.take() {
            Some(c) => c,
            None => vstd::pervasive::unreached(),
        };
        let cq_indices = copy_vec(&cq.indices);
        let qa_indices = copy_vec(&qa.indices);
        let ghost cqs = cq;
        let ghost qas = qa;
        let ghost qbs = qb;
        let children = vec![cq, qa, qb];
        proof {
            assert(children@ =~= seq![cqs, qas, qbs]);
            lemma_all_indices_triple(cqs, qas, qbs);
            assert forall|i: int, j: int|
                0 <= i < j < children@.len() implies #[trigger] children@[i].indices@.to_set().disjoint(
                #[trigger] children@[j].indices@.to_set(),
            ) by {
                assert(children@[0] == cqs && children@[1] == qas && children@[2] == qbs);
            }
        }
        let merged = self.parent_builder.merge_with_op(children, Some(op));
        proof {
            crate::vecs::lemma_concat_to_set(cqs.indices@, qas.indices@);
            crate::vecs::lemma_concat_to_set(cqs.indices@ + qas.indices@, qbs.indices@);
            crate::vecs::lemma_concat_no_dup(cqs.indices@, qas.indices@);
            assert forall|x: u64|
                (cqs.indices@ + qas.indices@).to_set().contains(x) implies !qbs.indices@.to_set().contains(
                x,
            ) by {
            }
            crate::vecs::lemma_concat_no_dup(cqs.indices@ + qas.indices@, qbs.indices@);
            crate::vecs::lemma_multiset_eq_transfers(
                (cqs.indices@ + qas.indices@) + qbs.indices@,
                merged.indices@,
            );
            assert(merged.index_set() == (cqs.index_set() + qas.index_set()) + qbs.index_set());
            assert(qas.indices@.contains(qas.indices@[0]));
            assert(merged.index_set().contains(qas.indices@[0]));
            lemma_split_back_ok(merged, cqs.indices@, qas.indices@[0]);
        }
        let (cq2, rest) = match self.parent_builder.split_absolute(merged, cq_indices) {
            Ok(p) => p,
            Err(_) => vstd::pervasive::unreached(),
        };
        proof {
            assert(cq2.indices@ == cqs.indices@);
            assert forall|x: u64| rest.index_set().contains(x) implies (qas.index_set()
                + qbs.index_set()).contains(x) by {
                assert(merged.index_set().contains(x));
                assert(!cq2.index_set().contains(x));
            }
            assert forall|x: u64| (qas.index_set() + qbs.index_set()).contains(x)
                implies rest.index_set().contains(x) by {
                assert(merged.index_set().contains(x));
                assert(!cqs.index_set().contains(x));
            }
            assert(rest.index_set() =~= qas.index_set() + qbs.index_set());
            crate::vecs::lemma_filter_sorted(merged.indices@, crate::qubits::not_in(cqs.indices@));
            assert(qas.indices@.contains(qas.indices@[0]));
            assert(qbs.indices@.contains(qbs.indices@[0]));
            assert(rest.index_set().contains(qbs.indices@[0]));
            assert forall|x: u64| qas.indices@.to_set().contains(x) implies rest.index_set().contains(
                x,
            ) by {
            }
            lemma_split_back_ok(rest, qas.indices@, qbs.indices@[0]);
        }
        let (ra, rb) = match self.parent_builder.split_absolute(rest, qa_indices) {
            Ok(p) => p,
            Err(_) => vstd::pervasive::unreached(),
        };
        proof {
            assert(ra.indices@ == qas.indices@);
            assert(ra.index_set() =~= qas.index_set());
            assert forall|x: u64| rb.index_set().contains(x) implies qbs.index_set().contains(
                x,
            ) by {
                assert(rest.index_set().contains(x));
                assert(!ra.index_set().contains(x));
            }
            assert forall|x: u64| qbs.index_set().contains(x) implies rb.index_set().contains(
                x,
            ) by {
                assert(rest.index_set().contains(x));
                assert(!qas.index_set().contains(x));
            }
            assert(rb.index_set() =~= qbs.index_set());
            crate::vecs::lemma_filter_sorted(rest.indices@, crate::qubits::not_in(qas.indices@));
        }
        self.conditioned_qubit = Some(cq2);
        Ok((ra, rb))
    }

    fn stochastic_measure(&mut self, q: Qubit<P>) -> (r: (Qubit<P>, u64)) {
        self.parent_builder.stochastic_measure(q)
    }
}

impl OpBuilder {
    /// Enter a conditioned context: every operator the returned builder
    /// emits is additionally controlled on `q`'s indices.
    pub fn with_context<P: Copy>(self, q: Qubit<P>) -> (r: ConditionalContextBuilder<P, OpBuilder>)
        requires
            q.wf(),
        ensures
            r.wf(),
            r.spec_parent() == self,
            r.spec_held() == Some(q),
            r.next_op_id() == UnitaryBuilder::<P>::next_op_id(&self),
            r.next_qubit_index() == UnitaryBuilder::<P>::next_qubit_index(&self),
            r.held_indices() == Some(q.indices@),
            r.control_chain() == seq![q.indices@],
    {
        ConditionalContextBuilder { parent_builder: self, conditioned_qubit: Some(q) }
    }
}

impl<P: Copy, B: UnitaryBuilder<P>> ConditionalContextBuilder<P, B> {
    /// Nest a further conditioned context inside this one: operators
    /// emitted by the returned builder are controlled on `q`'s indices
    /// and on every control this builder already holds.
    pub fn with_context(self, q: Qubit<P>) -> (r: ConditionalContextBuilder<P, Self>)
        requires
            self.wf(),
            q.wf(),
        ensures
            r.wf(),
            r.spec_parent() == self,
            r.spec_held() == Some(q),
            r.next_op_id() == self.next_op_id(),
            r.next_qubit_index() == self.next_qubit_index(),
            r.held_indices() == Some(q.indices@),
            r.control_chain() == seq![q.indices@] + self.control_chain(),
    {
        ConditionalContextBuilder { parent_builder: self, conditioned_qubit: Some(q) }
    }
}

} // verus!
