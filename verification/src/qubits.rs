//! Qubit lineage entities: immutable-once-built handles over a set of
//! absolute state-vector indices, with a record of how each handle was
//! derived (an owned merge of consumed children, or a shared split from
//! a retired parent).

use std::rc::Rc;
use vstd::prelude::*;

use crate::errors::BuildError;
use crate::ops::StateModifier;
use crate::vecs::sorted_seq;

verus! {

/// How a qubit entity relates to the entities it was derived from.
pub enum Parent<P> {
    /// The entity consumed these children, optionally applying a state
    /// modifier as part of the merge.
    Owned(Vec<Qubit<P>>, Option<StateModifier<P>>),
    /// The entity was split off a single retired parent whose storage is
    /// shared with the sibling split.
    Shared(Rc<Qubit<P>>),
}

/// A logical qubit handle, possibly over several absolute indices.
pub struct Qubit<P> {
    /// The absolute state-vector indices this handle currently addresses.
    pub indices: Vec<u64>,
    /// The lineage record: how this entity was derived, if not fresh.
    pub parent: Option<Parent<P>>,
    /// Unique identity, monotonically assigned by the builder.
    pub id: u64,
}

/// The indices of every entity in the sequence, concatenated in order.
pub open spec fn all_indices<P>(qs: Seq<Qubit<P>>) -> Seq<u64>
    decreases qs.len(),
{
    if qs.len() == 0 {
        Seq::empty()
    } else {
        all_indices(qs.drop_last()) + qs.last().indices@
    }
}

/// Concatenated indices of a non-empty well-formed entity sequence are
/// themselves non-empty.
pub proof fn lemma_all_indices_nonempty<P>(qs: Seq<Qubit<P>>)
    requires
        qs.len() > 0,
        forall|i: int| 0 <= i < qs.len() ==> (#[trigger] qs[i]).wf(),
    ensures
        all_indices(qs).len() > 0,
    decreases qs.len(),
{
    assert(qs.last().wf());
}

/// Any two distinct entities in the sequence address disjoint index sets.
pub open spec fn pairwise_disjoint<P>(qs: Seq<Qubit<P>>) -> bool {
    forall|i: int, j: int|
        0 <= i < j < qs.len() ==> #[trigger] qs[i].indices@.to_set().disjoint(
            #[trigger] qs[j].indices@.to_set(),
        )
}

impl<P> Qubit<P> {
    /// A well-formed entity addresses at least one index and never
    /// addresses the same index twice.
    pub open spec fn wf(self) -> bool {
        self.indices@.len() > 0 && self.indices@.no_duplicates()
    }

    /// The set of absolute indices this entity addresses.
    pub open spec fn index_set(self) -> Set<u64> {
        self.indices@.to_set()
    }

    /// Build a fresh entity over `indices`, with no lineage.
    pub(crate) fn new(id: u64, indices: Vec<u64>) -> (r: Result<Qubit<P>, BuildError>)
        requires
            indices@.no_duplicates(),
        ensures
            match r {
                Ok(q) => {
                    &&& indices@.len() > 0
                    &&& q.indices@ == indices@
                    &&& q.id == id
                    &&& q.parent is None
                    &&& q.wf()
                },
                Err(e) => indices@.len() == 0 && e == BuildError::EmptyIndices,
            },
    {
        if indices.len() == 0 {
            Err(BuildError::EmptyIndices)
        } else {
            Ok(Qubit { indices, parent: None, id })
        }
    }

    /// Create a read-only handle over this entity's indices, for
    /// validating and building initial-state requests.
    pub fn handle(&self) -> (r: QubitHandle)
        ensures
            r.spec_indices() == self.indices@,
    {
        QubitHandle { indices: crate::vecs::copy_vec(&self.indices) }
    }

    /// The number of absolute indices this entity addresses.
    pub fn n(&self) -> (r: u64)
        ensures
            r == self.indices@.len(),
    {
        self.indices.len() as u64
    }

    /// Merge entities into one: the new entity addresses the sorted
    /// concatenation of its children's indices, consumes the children
    /// as owned lineage, and records an optional applied modifier.
    pub fn merge_with_modifier(
        id: u64,
        qubits: Vec<Qubit<P>>,
        modifier: Option<StateModifier<P>>,
    ) -> (r: Qubit<P>)
        requires
            qubits@.len() > 0,
            forall|i: int| 0 <= i < qubits@.len() ==> (#[trigger] qubits@[i]).wf(),
            pairwise_disjoint(qubits@),
        ensures
            r.id == id,
            r.wf(),
            sorted_seq(r.indices@),
            r.indices@.to_multiset() == all_indices(qubits@).to_multiset(),
            r.index_set() == all_indices(qubits@).to_set(),
            r.parent matches Some(Parent::Owned(cs, m)) && cs == qubits && m == modifier,
    {
        let mut all: Vec<u64> = Vec::new();
        for k in 0..qubits.len()
            invariant
                all@ == all_indices(qubits@.take(k as int)),
                all@.no_duplicates(),
                forall|x: u64| #[trigger]
                    all@.contains(x) ==> exists|j: int|
                        0 <= j < k && (#[trigger] qubits@[j]).indices@.contains(x),
                forall|i: int| 0 <= i < qubits@.len() ==> (#[trigger] qubits@[i]).wf(),
                pairwise_disjoint(qubits@),
        {
            proof {
                assert forall|x: u64| all@.contains(x) implies !qubits@[k as int].indices@.contains(
                    x,
                ) by {
                    let j = choose|j: int|
                        0 <= j < k && (#[trigger] qubits@[j]).indices@.contains(x);
                    assert(qubits@[j].indices@.to_set().contains(x));
                    assert(qubits@[j].indices@.to_set().disjoint(
                        qubits@[k as int].indices@.to_set(),
                    ));
                }
                assert(all@.to_set().disjoint(qubits@[k as int].indices@.to_set()));
                crate::vecs::lemma_concat_no_dup(all@, qubits@[k as int].indices@);
            }
            let ghost all_before = all@;
            crate::vecs::extend_copy(&mut all, &qubits[k].indices);
            proof {
                assert(qubits@.take(k + 1).drop_last() =~= qubits@.take(k as int));
                assert(qubits@.take(k + 1).last() == qubits@[k as int]);
                assert(all@ == all_indices(qubits@.take(k + 1)));
                assert forall|x: u64| #[trigger] all@.contains(x) implies exists|j: int|
                    0 <= j < k + 1 && (#[trigger] qubits@[j]).indices@.contains(x) by {
                    let i = choose|i: int| 0 <= i < all@.len() && all@[i] == x;
                    if i < all_before.len() {
                        assert(all_before[i] == x);
                        assert(all_before.contains(x));
                    } else {
                        assert(qubits@[k as int].indices@[i - all_before.len()] == x);
                        assert(qubits@[k as int].indices@.contains(x));
                    }
                }
            }
        }
        proof {
            assert(qubits@.take(qubits@.len() as int) =~= qubits@);
            assert(all@ == all_indices(qubits@));
            lemma_all_indices_nonempty(qubits@);
        }
        let sorted = crate::vecs::sort_indices(all);
        proof {
            crate::vecs::lemma_multiset_eq_transfers(all@, sorted@);
        }
        Qubit { indices: sorted, parent: Some(Parent::Owned(qubits, modifier)), id }
    }
}

/// The predicate selecting values that do not occur in `sel`.
pub open spec fn not_in(sel: Seq<u64>) -> spec_fn(u64) -> bool {
    |x: u64| !sel.contains(x)
}

/// What remains of the index list `qi` after the selected indices `sel`
/// are split away, in original order.
pub open spec fn remainder_of(qi: Seq<u64>, sel: Seq<u64>) -> Seq<u64> {
    qi.filter(not_in(sel))
}

/// The error a split reports for this parent index list and selection,
/// if any: selecting everything, selecting nothing, and selecting an
/// absent index are rejected, in that order.
pub open spec fn split_absolute_err(qi: Seq<u64>, sel: Seq<u64>) -> Option<BuildError> {
    if sel.len() == qi.len() {
        Some(BuildError::SplitSelectedAll)
    } else if sel.len() == 0 {
        Some(BuildError::SplitSelectedNone)
    } else if !(forall|k: int| 0 <= k < sel.len() ==> qi.contains(#[trigger] sel[k])) {
        Some(BuildError::SplitIndexNotFound)
    } else {
        None
    }
}

/// `a` and `b` are the two halves of splitting `sel` out of `q`: `a`
/// addresses exactly the selection, `b` the remainder in parent order.
pub open spec fn split_parts<P>(q: Qubit<P>, sel: Seq<u64>, a: Qubit<P>, b: Qubit<P>) -> bool {
    &&& a.indices@ == sel
    &&& b.indices@ == remainder_of(q.indices@, sel)
}

/// Two sibling splits of the same parent always have disjoint index
/// sets, whose union equals the parent's index set; the remainder side
/// is itself well-formed whenever the selection leaves something behind.
pub proof fn lemma_split_siblings_partition<P>(q: Qubit<P>, sel: Seq<u64>, a: Qubit<P>, b: Qubit<P>)
    requires
        q.wf(),
        sel.no_duplicates(),
        forall|k: int| 0 <= k < sel.len() ==> q.indices@.contains(#[trigger] sel[k]),
        0 < sel.len(),
        sel.len() != q.indices@.len(),
        split_parts(q, sel, a, b),
    ensures
        a.index_set().disjoint(b.index_set()),
        a.index_set() + b.index_set() == q.index_set(),
        b.indices@.no_duplicates(),
        b.indices@.len() > 0,
        sel.len() < q.indices@.len(),
{
    let qi = q.indices@;
    let pred = not_in(sel);
    crate::vecs::lemma_filter_no_dup(qi, pred);
    assert(sel.to_set().subset_of(qi.to_set()));
    sel.unique_seq_to_set();
    qi.unique_seq_to_set();
    vstd::set_lib::lemma_len_subset(sel.to_set(), qi.to_set());
    assert(sel.len() < qi.len());
    crate::vecs::lemma_filter_remainder_nonempty(qi, sel);
    assert forall|x: u64| b.index_set().contains(x) implies !a.index_set().contains(x) by {
        let i = choose|i: int| 0 <= i < b.indices@.len() && b.indices@[i] == x;
        qi.lemma_filter_pred(pred, i);
    }
    assert forall|x: u64| q.index_set().contains(x) implies (a.index_set() + b.index_set()).contains(
        x,
    ) by {
        if !sel.contains(x) {
            let i = choose|i: int| 0 <= i < qi.len() && qi[i] == x;
            qi.lemma_filter_contains(pred, i);
        }
    }
    assert forall|x: u64| b.index_set().contains(x) implies q.index_set().contains(x) by {
        qi.lemma_filter_contains_rev(pred, x);
    }
    assert(a.index_set() + b.index_set() =~= q.index_set());
}

impl<P> Qubit<P> {
    /// Split the selected absolute indices out of `q` into their own
    /// entity, the rest into a second; both share the retired parent.
    /// Selecting every index, no index, or an index the entity does not
    /// hold is rejected.
    pub fn split_absolute(
        ida: u64,
        idb: u64,
        q: Qubit<P>,
        selected_indices: Vec<u64>,
    ) -> (r: Result<(Qubit<P>, Qubit<P>), BuildError>)
        requires
            q.wf(),
            selected_indices@.no_duplicates(),
        ensures
            match r {
                Err(e) => split_absolute_err(q.indices@, selected_indices@) == Some(e),
                Ok((a, b)) => {
                    &&& split_absolute_err(q.indices@, selected_indices@) is None
                    &&& split_parts(q, selected_indices@, a, b)
                    &&& a.id == ida
                    &&& b.id == idb
                    &&& a.wf()
                    &&& b.wf()
                    &&& a.index_set().disjoint(b.index_set())
                    &&& a.index_set() + b.index_set() == q.index_set()
                    &&& a.parent matches Some(Parent::Shared(p)) && p == q
                    &&& b.parent matches Some(Parent::Shared(p)) && p == q
                },
            },
    {
        if selected_indices.len() == q.indices.len() {
            return Err(BuildError::SplitSelectedAll);
        }
        if selected_indices.len() == 0 {
            return Err(BuildError::SplitSelectedNone);
        }
        for k in 0..selected_indices.len()
            invariant
                selected_indices@.len() != q.indices@.len(),
                selected_indices@.len() > 0,
                forall|i: int| 0 <= i < k ==> q.indices@.contains(#[trigger] selected_indices@[i]),
        {
            if !crate::vecs::contains_u64(&q.indices, selected_indices[k]) {
                proof {
                    assert(!q.indices@.contains(selected_indices@[k as int]));
                    assert(split_absolute_err(q.indices@, selected_indices@) == Some(
                        BuildError::SplitIndexNotFound,
                    ));
                }
                return Err(BuildError::SplitIndexNotFound);
            }
        }
        let mut remaining: Vec<u64> = Vec::new();
        for k in 0..q.indices.len()
            invariant
                remaining@ == q.indices@.take(k as int).filter(not_in(selected_indices@)),
        {
            let x = q.indices[k];
            let is_selected = crate::vecs::contains_u64(&selected_indices, x);
            if !is_selected {
                remaining.push(x);
            }
            proof {
                reveal(Seq::filter);
                let pred = not_in(selected_indices@);
                assert(pred(x) == !selected_indices@.contains(x));
                assert(q.indices@.take(k + 1) =~= q.indices@.take(k as int) + seq![x]);
                Seq::filter_distributes_over_add(q.indices@.take(k as int), seq![x], pred);
                assert(seq![x].drop_last() =~= Seq::<u64>::empty());
                assert(Seq::<u64>::empty().filter(pred) =~= Seq::<u64>::empty());
                if is_selected {
                    assert(seq![x].filter(pred) =~= Seq::<u64>::empty());
                } else {
                    assert(seq![x].filter(pred) =~= seq![x]);
                }
                assert(remaining@ == q.indices@.take(k + 1).filter(pred));
            }
        }
        proof {
            assert(q.indices@.take(q.indices@.len() as int) =~= q.indices@);
            assert(remaining@ == remainder_of(q.indices@, selected_indices@));
        }
        let ghost qsnap = q;
        let ghost sel = selected_indices@;
        let shared_parent = Rc::new(q);
        let a = Qubit {
            indices: selected_indices,
            parent: Some(Parent::Shared(shared_parent.clone())),
            id: ida,
        };
        let b = Qubit { indices: remaining, parent: Some(Parent::Shared(shared_parent)), id: idb };
        proof {
            lemma_split_siblings_partition(qsnap, sel, a, b);
        }
        Ok((a, b))
    }
}

/// The error a relative-position split reports, if any: a position at or
/// beyond the entity's index count, then selecting everything, then
/// selecting nothing, in that order.
pub open spec fn split_relative_err(qi: Seq<u64>, rel: Seq<u64>) -> Option<BuildError> {
    if !(forall|k: int| 0 <= k < rel.len() ==> (#[trigger] rel[k]) < qi.len()) {
        Some(BuildError::SplitRelativeOutOfRange)
    } else if rel.len() == qi.len() {
        Some(BuildError::SplitSelectedAll)
    } else if rel.len() == 0 {
        Some(BuildError::SplitSelectedNone)
    } else {
        None
    }
}

/// The absolute indices of `qi` at the relative positions `rel`.
pub open spec fn select_relative(qi: Seq<u64>, rel: Seq<u64>) -> Seq<u64> {
    Seq::new(rel.len(), |k: int| qi[rel[k] as int])
}

impl<P> Qubit<P> {
    /// Split the indices at the given relative positions (0-based within
    /// this entity's index list) out of `q` into their own entity, the
    /// rest into a second. A position at or beyond the index count, or a
    /// selection of everything or of nothing, is rejected.
    pub fn split(ida: u64, idb: u64, q: Qubit<P>, indices: Vec<u64>) -> (r: Result<
        (Qubit<P>, Qubit<P>),
        BuildError,
    >)
        requires
            q.wf(),
            indices@.no_duplicates(),
        ensures
            match r {
                Err(e) => split_relative_err(q.indices@, indices@) == Some(e),
                Ok((a, b)) => {
                    &&& split_relative_err(q.indices@, indices@) is None
                    &&& split_parts(q, select_relative(q.indices@, indices@), a, b)
                    &&& a.id == ida
                    &&& b.id == idb
                    &&& a.wf()
                    &&& b.wf()
                    &&& a.index_set().disjoint(b.index_set())
                    &&& a.index_set() + b.index_set() == q.index_set()
                    &&& a.parent matches Some(Parent::Shared(p)) && p == q
                    &&& b.parent matches Some(Parent::Shared(p)) && p == q
                },
            },
    {
        for k in 0..indices.len()
            invariant
                forall|i: int| 0 <= i < k ==> (#[trigger] indices@[i]) < q.indices@.len(),
        {
            if indices[k] >= q.indices.len() as u64 {
                return Err(BuildError::SplitRelativeOutOfRange);
            }
        }
        if indices.len() == q.indices.len() {
            return Err(BuildError::SplitSelectedAll);
        }
        if indices.len() == 0 {
            return Err(BuildError::SplitSelectedNone);
        }
        let mut selected: Vec<u64> = Vec::new();
        for k in 0..indices.len()
            invariant
                forall|i: int| 0 <= i < indices@.len() ==> (#[trigger] indices@[i])
                    < q.indices@.len(),
                selected@.len() == k,
                forall|i: int| 0 <= i < k ==> #[trigger] selected@[i] == q.indices@[indices@[i] as int],
        {
            let pos = indices[k];
            let qlen = q.indices.len();
            proof {
                assert(indices@[k as int] < q.indices@.len());
                assert(pos < qlen as u64);
            }
            selected.push(q.indices[pos as usize]);
            proof {
                assert(selected@[k as int] == q.indices@[pos as int]);
            }
        }
        proof {
            assert(selected@ =~= select_relative(q.indices@, indices@));
            assert forall|i: int, j: int|
                0 <= i < selected@.len() && 0 <= j < selected@.len() && i != j implies selected@[i]
                != selected@[j] by {
            }
            assert forall|k: int| 0 <= k < selected@.len() implies q.indices@.contains(
                #[trigger] selected@[k],
            ) by {
                assert(q.indices@[indices@[k] as int] == selected@[k]);
            }
        }
        Qubit::split_absolute(ida, idb, q, selected)
    }
}

/// The views of a list of index-group vectors.
pub open spec fn group_views(gs: Seq<Vec<u64>>) -> Seq<Seq<u64>> {
    Seq::new(gs.len(), |i: int| gs[i]@)
}

/// Splitting each group out of `qi` in order, folding the remainder
/// forward: the remainder after all groups, or the first split error.
pub open spec fn peel_result(qi: Seq<u64>, groups: Seq<Seq<u64>>) -> Result<Seq<u64>, BuildError>
    decreases groups.len(),
{
    if groups.len() == 0 {
        Ok(qi)
    } else {
        match split_absolute_err(qi, groups[0]) {
            Some(e) => Err(e),
            None => peel_result(remainder_of(qi, groups[0]), groups.drop_first()),
        }
    }
}

/// Peeling one single-index group per index off the front of a
/// duplicate-free index list always succeeds and leaves the last index.
pub proof fn lemma_peel_singletons(qi: Seq<u64>, gs: Seq<Seq<u64>>)
    requires
        qi.no_duplicates(),
        qi.len() > 0,
        gs.len() == qi.len() - 1,
        forall|i: int| 0 <= i < gs.len() ==> #[trigger] gs[i] == seq![qi[i]],
    ensures
        peel_result(qi, gs) == Ok::<Seq<u64>, BuildError>(qi.skip(gs.len() as int)),
    decreases gs.len(),
{
    if gs.len() == 0 {
        assert(qi.skip(0) =~= qi);
    } else {
        let g0 = gs[0];
        assert(g0 == seq![qi[0]]);
        assert(qi.contains(qi[0]));
        assert forall|k: int| 0 <= k < g0.len() implies qi.contains(#[trigger] g0[k]) by {
            assert(g0[k] == qi[0]);
        }
        assert(split_absolute_err(qi, g0) is None);
        let pred = not_in(g0);
        reveal(Seq::filter);
        assert(qi =~= qi.take(1) + qi.skip(1));
        Seq::filter_distributes_over_add(qi.take(1), qi.skip(1), pred);
        assert(qi.take(1) =~= seq![qi[0]]);
        assert(seq![qi[0]].drop_last() =~= Seq::<u64>::empty());
        assert(Seq::<u64>::empty().filter(pred) =~= Seq::<u64>::empty());
        assert(g0.contains(qi[0]));
        assert(seq![qi[0]].filter(pred) =~= Seq::<u64>::empty());
        assert forall|i: int| 0 <= i < qi.skip(1).len() implies pred(#[trigger] qi.skip(1)[i]) by {
            assert(qi.skip(1)[i] == qi[i + 1]);
            assert(qi[i + 1] != qi[0]);
            if g0.contains(qi[i + 1]) {
                let k = choose|k: int| 0 <= k < g0.len() && g0[k] == qi[i + 1];
                assert(g0[k] == qi[0]);
            }
        }
        crate::vecs::lemma_filter_keep_all(qi.skip(1), pred);
        assert(remainder_of(qi, g0) == (qi.take(1) + qi.skip(1)).filter(pred));
        assert(remainder_of(qi, g0) == Seq::<u64>::empty() + qi.skip(1));
        assert(Seq::<u64>::empty() + qi.skip(1) =~= qi.skip(1));
        assert forall|i: int, j: int|
            0 <= i < qi.skip(1).len() && 0 <= j < qi.skip(1).len() && i != j implies qi.skip(1)[i]
            != qi.skip(1)[j] by {
            assert(qi.skip(1)[i] == qi[i + 1] && qi.skip(1)[j] == qi[j + 1]);
        }
        assert forall|i: int| 0 <= i < gs.drop_first().len() implies #[trigger] gs.drop_first()[i]
            == seq![qi.skip(1)[i]] by {
            assert(gs.drop_first()[i] == gs[i + 1]);
            assert(gs[i + 1] == seq![qi[i + 1]]);
            assert(qi.skip(1)[i] == qi[i + 1]);
        }
        lemma_peel_singletons(qi.skip(1), gs.drop_first());
        assert(qi.skip(1).skip(gs.len() - 1) =~= qi.skip(gs.len() as int));
    }
}

/// If every entity in a sequence addresses exactly one index, matching
/// an index list position for position, the concatenation of their
/// indices is that list.
pub proof fn lemma_all_indices_of_singletons<P>(qs: Seq<Qubit<P>>, qi: Seq<u64>)
    requires
        qs.len() == qi.len(),
        forall|i: int| 0 <= i < qs.len() ==> (#[trigger] qs[i]).indices@ == seq![qi[i]],
    ensures
        all_indices(qs) == qi,
    decreases qs.len(),
{
    if qs.len() == 0 {
        assert(all_indices(qs) =~= qi);
    } else {
        assert forall|i: int|
            0 <= i < qs.drop_last().len() implies (#[trigger] qs.drop_last()[i]).indices@ == seq![
            qi.drop_last()[i],
        ] by {
            assert(qs.drop_last()[i] == qs[i]);
            assert(qi.drop_last()[i] == qi[i]);
        }
        lemma_all_indices_of_singletons(qs.drop_last(), qi.drop_last());
        assert(all_indices(qs) == qi.drop_last() + qs.last().indices@);
        assert(qs.last().indices@ == seq![qi[qi.len() - 1]]);
        assert(qi.drop_last() + seq![qi[qi.len() - 1]] =~= qi);
    }
}

/// Splitting any entity into two and merging the two again yields an
/// entity over exactly the original index set, in sorted order.
pub proof fn lemma_split_merge_round_trip<P>(
    q: Qubit<P>,
    sel: Seq<u64>,
    a: Qubit<P>,
    b: Qubit<P>,
    m: Qubit<P>,
)
    requires
        q.wf(),
        sel.no_duplicates(),
        forall|k: int| 0 <= k < sel.len() ==> q.indices@.contains(#[trigger] sel[k]),
        0 < sel.len(),
        sel.len() != q.indices@.len(),
        split_parts(q, sel, a, b),
        sorted_seq(m.indices@),
        m.indices@.to_multiset() == all_indices(seq![a, b]).to_multiset(),
    ensures
        m.index_set() == q.index_set(),
        sorted_seq(m.indices@),
{
    lemma_split_siblings_partition(q, sel, a, b);
    assert(seq![a, b].drop_last() =~= seq![a]);
    assert(seq![a].drop_last() =~= Seq::<Qubit<P>>::empty());
    assert(all_indices(Seq::<Qubit<P>>::empty()) == Seq::<u64>::empty());
    assert(all_indices(seq![a]) == Seq::<u64>::empty() + a.indices@);
    assert(all_indices(seq![a, b]) == (Seq::<u64>::empty() + a.indices@) + b.indices@);
    assert((Seq::<u64>::empty() + a.indices@) + b.indices@ =~= a.indices@ + b.indices@);
    crate::vecs::lemma_concat_no_dup(a.indices@, b.indices@);
    crate::vecs::lemma_multiset_eq_transfers(a.indices@ + b.indices@, m.indices@);
    let ab = a.indices@ + b.indices@;
    assert forall|x: u64| ab.contains(x) implies (a.index_set() + b.index_set()).contains(x) by {
        let i = choose|i: int| 0 <= i < ab.len() && ab[i] == x;
        if i < a.indices@.len() {
            assert(a.indices@[i] == x);
        } else {
            assert(b.indices@[i - a.indices@.len()] == x);
        }
    }
    assert forall|x: u64| (a.index_set() + b.index_set()).contains(x) implies ab.contains(x) by {
        if a.indices@.contains(x) {
            let i = choose|i: int| 0 <= i < a.indices@.len() && a.indices@[i] == x;
            assert(ab[i] == x);
        } else {
            let i = choose|i: int| 0 <= i < b.indices@.len() && b.indices@[i] == x;
            assert(ab[a.indices@.len() + i] == x);
        }
    }
    assert(ab.to_set() =~= a.index_set() + b.index_set());
    assert(m.index_set() == q.index_set());
}

impl<P> PartialEq for Qubit<P> {
    /// Entities compare by identity alone, never by address or indices.
    fn eq(&self, other: &Qubit<P>) -> (r: bool) {
        self.id == other.id
    }
}

impl<P> vstd::std_specs::cmp::PartialEqSpecImpl for Qubit<P> {
    open spec fn obeys_eq_spec() -> bool {
        true
    }

    open spec fn eq_spec(&self, other: &Qubit<P>) -> bool {
        self.id == other.id
    }
}

impl<P> Eq for Qubit<P> {
}

/// A lightweight read-only view of an entity's index list, detached from
/// lineage, used to validate and build initial-state requests.
pub struct QubitHandle {
    indices: Vec<u64>,
}

/// An initial-state request for a group of indices: either a single
/// basis state given by its index, or a full vector of 2^n amplitudes.
pub enum InitialState<P> {
    /// The basis state with this index; all other amplitudes are zero.
    Index(u64),
    /// An explicit amplitude for each of the 2^n basis states.
    FullState(Vec<P>),
}

/// An initial-state request paired with the absolute indices it feeds.
pub type QubitInitialState<P> = (Vec<u64>, InitialState<P>);

impl QubitHandle {
    /// The indices this handle addresses.
    pub closed spec fn spec_indices(self) -> Seq<u64> {
        self.indices@
    }

    /// Request the basis state `index` over this handle's indices; the
    /// index must be below 2^n for a handle over n indices.
    pub fn make_init_from_index<P>(&self, index: u64) -> (r: Result<
        QubitInitialState<P>,
        BuildError,
    >)
        requires
            self.spec_indices().len() < 64,
        ensures
            match r {
                Ok((inds, st)) => {
                    &&& index < (1u64 << self.spec_indices().len())
                    &&& inds@ == self.spec_indices()
                    &&& st == InitialState::<P>::Index(index)
                },
                Err(e) => {
                    &&& index >= (1u64 << self.spec_indices().len())
                    &&& e == BuildError::InitialIndexTooLarge
                },
            },
    {
        if index < 1u64 << (self.indices.len() as u64) {
            Ok((crate::vecs::copy_vec(&self.indices), InitialState::Index(index)))
        } else {
            Err(BuildError::InitialIndexTooLarge)
        }
    }

    /// Request an explicit initial state over this handle's indices; the
    /// vector must hold exactly 2^n amplitudes for a handle over n
    /// indices.
    pub fn make_init_from_state<P>(&self, state: Vec<P>) -> (r: Result<
        QubitInitialState<P>,
        BuildError,
    >)
        requires
            self.spec_indices().len() < 64,
        ensures
            match r {
                Ok((inds, st)) => {
                    &&& state@.len() == (1u64 << self.spec_indices().len())
                    &&& inds@ == self.spec_indices()
                    &&& st matches InitialState::FullState(v) && v@ == state@
                },
                Err(e) => {
                    &&& state@.len() != (1u64 << self.spec_indices().len())
                    &&& e == BuildError::InitialStateWrongSize
                },
            },
    {
        if state.len() as u64 == 1u64 << (self.indices.len() as u64) {
            Ok((crate::vecs::copy_vec(&self.indices), InitialState::FullState(state)))
        } else {
            Err(BuildError::InitialStateWrongSize)
        }
    }
}

} // verus!
