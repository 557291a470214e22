//! Matching the containers of a run to the stages of its integration plan.
//!
//! Each container handed to a run has a label (its slot in the dependency
//! model) and an argument position (its place in the call). Results come back
//! by stage, each stage naming the label of the container it integrated, and
//! are returned to the caller by argument position.

use vstd::prelude::*;

verus! {

/// Why the containers of a run cannot be planned.
#[derive(Debug, PartialEq, Eq, Structural)]
pub enum PlanError {
    /// A container label is beyond the model capacity.
    LabelOutOfRange { label: usize },
    /// The same container was handed to the run more than once.
    DuplicateContainer,
}

/// The container at argument position `i` cannot be planned: its label is
/// beyond the capacity, or an earlier container has the same label.
pub open spec fn misplaced(labels: Seq<usize>, capacity: usize, i: int) -> bool {
    ||| labels[i] >= capacity
    ||| exists|j: int| 0 <= j < i && labels[j] == labels[i]
}

/// `positions` sends each label of `labels` to the argument position that has
/// it, and every other label below the capacity to `None`.
pub open spec fn indexes_labels(positions: Seq<Option<usize>>, labels: Seq<usize>, capacity: usize) -> bool {
    &&& positions.len() == capacity
    &&& forall|i: int|
        0 <= i < labels.len() ==> positions[#[trigger] labels[i] as int] is Some && positions[labels[i] as int]->0 == i
    &&& forall|l: int|
        0 <= l < capacity && (#[trigger] positions[l]) is Some ==> {
            let i = positions[l]->0 as int;
            0 <= i < labels.len() && labels[i] == l
        }
}

/// The argument position of every label of a run: the containers with labels
/// `labels` (in argument order) fill a table of `capacity` label slots. The
/// first container that cannot be placed ends the planning with its error.
pub fn argument_positions_by_label(labels: &[usize], capacity: usize) -> (r: Result<Vec<Option<usize>>, PlanError>)
    ensures
        r is Ok <==> forall|i: int| 0 <= i < labels@.len() ==> !#[trigger] misplaced(labels@, capacity, i),
        r matches Ok(positions) ==> indexes_labels(positions@, labels@, capacity),
        r matches Err(e) ==> exists|i: int|
            #![trigger labels@[i]]
            {
                &&& 0 <= i < labels@.len()
                &&& misplaced(labels@, capacity, i)
                &&& forall|j: int| 0 <= j < i ==> !#[trigger] misplaced(labels@, capacity, j)
                &&& e == if labels@[i] >= capacity {
                    PlanError::LabelOutOfRange { label: labels@[i] }
                } else {
                    PlanError::DuplicateContainer
                }
            },
{
    let mut positions: Vec<Option<usize>> = Vec::new();
    let mut l: usize = 0;
    while l < capacity
        invariant
            l <= capacity,
            positions@.len() == l,
            forall|m: int| 0 <= m < l ==> positions@[m] is None,
        decreases capacity - l,
    {
        positions.push(None);
        l += 1;
    }
    let mut i: usize = 0;
    while i < labels.len()
        invariant
            i <= labels@.len(),
            positions@.len() == capacity,
            forall|j: int| 0 <= j < i ==> !#[trigger] misplaced(labels@, capacity, j),
            forall|j: int|
                0 <= j < i ==> positions@[#[trigger] labels@[j] as int] is Some && positions@[labels@[j] as int]->0 == j,
            forall|m: int|
                0 <= m < capacity && (#[trigger] positions@[m]) is Some ==> {
                    let j = positions@[m]->0 as int;
                    0 <= j < i && labels@[j] == m
                },
        decreases labels@.len() - i,
    {
        let label = labels[i];
        if label >= capacity {
            assert(misplaced(labels@, capacity, i as int));
            return Err(PlanError::LabelOutOfRange { label });
        }
        if positions[label].is_some() {
            assert(misplaced(labels@, capacity, i as int)) by {
                let j = positions@[label as int]->0 as int;
                assert(labels@[j] == labels@[i as int]);
            }
            return Err(PlanError::DuplicateContainer);
        }
        assert(!misplaced(labels@, capacity, i as int)) by {
            if exists|j: int| 0 <= j < i && labels@[j] == labels@[i as int] {
                let j = choose|j: int| 0 <= j < i && labels@[j] == labels@[i as int];
                assert(positions@[labels@[j] as int]->0 == j);
            }
        }
        let ghost before = positions@;
        positions.set(label, Some(i));
        assert forall|j: int| 0 <= j < i + 1 implies positions@[#[trigger] labels@[j] as int] is Some
            && positions@[labels@[j] as int]->0 == j by {
            if j < i {
                assert(!misplaced(labels@, capacity, j));
                assert(labels@[j] != label);
                assert(positions@[labels@[j] as int] == before[labels@[j] as int]);
            }
        }
        i += 1;
    }
    Ok(positions)
}

/// Why the results of a run cannot be handed back.
#[derive(Debug, PartialEq, Eq, Structural)]
pub enum OutputError {
    /// A stage produced a result but names no container.
    OutputWithoutSource,
    /// A stage produced a result for a label that no argument of the run has.
    OutputForUnknownContainer,
    /// An argument that carries a particle state got no result.
    MissingOutput,
}

/// Stage `k` produced a result that cannot be handed back: it names no
/// container, or its container has no argument position.
pub open spec fn stage_fault(
    produced: Seq<bool>,
    stage_labels: Seq<Option<usize>>,
    positions: Seq<Option<usize>>,
    k: int,
) -> bool {
    &&& produced[k]
    &&& (stage_labels[k] is None || positions[stage_labels[k]->0 as int] is None)
}

/// Stage `k` produced a result for the argument at position `q`.
pub open spec fn stage_serves(
    produced: Seq<bool>,
    stage_labels: Seq<Option<usize>>,
    positions: Seq<Option<usize>>,
    k: int,
    q: int,
) -> bool {
    &&& produced[k]
    &&& stage_labels[k] is Some
    &&& positions[stage_labels[k]->0 as int] is Some
    &&& positions[stage_labels[k]->0 as int]->0 == q
}

/// The last of the first `k` stages that produced a result for the argument at
/// position `q`, if any did.
pub open spec fn last_serving_stage(
    produced: Seq<bool>,
    stage_labels: Seq<Option<usize>>,
    positions: Seq<Option<usize>>,
    q: int,
    k: int,
) -> Option<int>
    decreases k,
{
    if k <= 0 {
        None
    } else if stage_serves(produced, stage_labels, positions, k - 1, q) {
        Some(k - 1)
    } else {
        last_serving_stage(produced, stage_labels, positions, q, k - 1)
    }
}

/// A stage index as a mathematical integer.
pub open spec fn stage_index(s: Option<usize>) -> Option<int> {
    match s {
        Some(k) => Some(k as int),
        None => None,
    }
}

/// The number of stages whose results are handed back: those that have both
/// a result slot and a container label.
pub open spec fn stage_span(produced: Seq<bool>, stage_labels: Seq<Option<usize>>) -> int {
    if produced.len() < stage_labels.len() {
        produced.len() as int
    } else {
        stage_labels.len() as int
    }
}

/// Decides which stage's result goes back to each argument of a run.
///
/// `produced[k]` says whether stage `k` produced a result, `stage_labels[k]`
/// names the label of the container that stage integrated, `positions` is the
/// argument position of each label and `has_state[q]` whether the argument at
/// position `q` carries a particle state. Entry `q` of the answer is the stage
/// whose result goes back at position `q` (the last one, should several
/// serve it), or `None` where the argument gets no result. Stages are examined
/// in order and the first faulty one ends the run; afterwards an argument with
/// a particle state but no result is an error.
pub fn output_sources(
    produced: &[bool],
    stage_labels: &[Option<usize>],
    positions: &[Option<usize>],
    has_state: &[bool],
) -> (r: Result<Vec<Option<usize>>, OutputError>)
    requires
        forall|k: int|
            0 <= k < stage_span(produced@, stage_labels@) && produced@[k] && (#[trigger] stage_labels@[k]) is Some
                ==> {
                let l = stage_labels@[k]->0 as int;
                &&& l < positions@.len()
                &&& positions@[l] matches Some(q) ==> q < has_state@.len()
            },
    ensures
        r matches Ok(sources) ==> {
            &&& sources@.len() == has_state@.len()
            &&& forall|q: int|
                0 <= q < has_state@.len() ==> stage_index(#[trigger] sources@[q]) == last_serving_stage(
                    produced@,
                    stage_labels@,
                    positions@,
                    q,
                    stage_span(produced@, stage_labels@),
                )
            &&& forall|q: int| 0 <= q < has_state@.len() && #[trigger] has_state@[q] ==> sources@[q] is Some
            &&& forall|k: int|
                0 <= k < stage_span(produced@, stage_labels@) ==> !#[trigger] stage_fault(
                    produced@,
                    stage_labels@,
                    positions@,
                    k,
                )
        },
        (forall|k: int|
            0 <= k < stage_span(produced@, stage_labels@) ==> !#[trigger] stage_fault(
                produced@,
                stage_labels@,
                positions@,
                k,
            )) ==> (r is Ok <==> forall|q: int|
            0 <= q < has_state@.len() && #[trigger] has_state@[q] ==> last_serving_stage(
                produced@,
                stage_labels@,
                positions@,
                q,
                stage_span(produced@, stage_labels@),
            ) is Some),
        r matches Err(e) ==> (e == OutputError::MissingOutput <==> forall|k: int|
            0 <= k < stage_span(produced@, stage_labels@) ==> !#[trigger] stage_fault(
                produced@,
                stage_labels@,
                positions@,
                k,
            )),
        r matches Err(e) ==> e != OutputError::MissingOutput ==> exists|k: int|
            #![trigger stage_labels@[k]]
            {
                &&& 0 <= k < stage_span(produced@, stage_labels@)
                &&& stage_fault(produced@, stage_labels@, positions@, k)
                &&& forall|j: int| 0 <= j < k ==> !#[trigger] stage_fault(produced@, stage_labels@, positions@, j)
                &&& e == if stage_labels@[k] is None {
                    OutputError::OutputWithoutSource
                } else {
                    OutputError::OutputForUnknownContainer
                }
            },
{
    let span = if produced.len() < stage_labels.len() { produced.len() } else { stage_labels.len() };
    let mut sources: Vec<Option<usize>> = Vec::new();
    let mut q: usize = 0;
    while q < has_state.len()
        invariant
            q <= has_state@.len(),
            sources@.len() == q,
            forall|m: int| 0 <= m < q ==> sources@[m] is None,
        decreases has_state@.len() - q,
    {
        sources.push(None);
        q += 1;
    }
    let mut k: usize = 0;
    while k < span
        invariant
            span == stage_span(produced@, stage_labels@),
            span <= produced@.len(),
            span <= stage_labels@.len(),
            k <= span,
            sources@.len() == has_state@.len(),
            forall|j: int|
                0 <= j < stage_span(produced@, stage_labels@) && produced@[j] && (#[trigger] stage_labels@[j]) is Some
                    ==> {
                    let l = stage_labels@[j]->0 as int;
                    &&& l < positions@.len()
                    &&& positions@[l] matches Some(q) ==> q < has_state@.len()
                },
            forall|j: int| 0 <= j < k ==> !#[trigger] stage_fault(produced@, stage_labels@, positions@, j),
            forall|m: int|
                0 <= m < has_state@.len() ==> stage_index(#[trigger] sources@[m]) == last_serving_stage(
                    produced@,
                    stage_labels@,
                    positions@,
                    m,
                    k as int,
                ),
        decreases span - k,
    {
        let ghost before = sources@;
        if produced[k] {
            match stage_labels[k] {
                None => {
                    assert(stage_fault(produced@, stage_labels@, positions@, k as int));
                    return Err(OutputError::OutputWithoutSource);
                },
                Some(label) => {
                    match positions[label] {
                        None => {
                            assert(stage_fault(produced@, stage_labels@, positions@, k as int));
                            return Err(OutputError::OutputForUnknownContainer);
                        },
                        Some(position) => {
                            sources.set(position, Some(k));
                            assert(stage_serves(produced@, stage_labels@, positions@, k as int, position as int));
                            assert forall|m: int| 0 <= m < has_state@.len() implies stage_index(#[trigger] sources@[m])
                                == last_serving_stage(produced@, stage_labels@, positions@, m, k + 1) by {
                                if m != position {
                                    assert(!stage_serves(produced@, stage_labels@, positions@, k as int, m));
                                    assert(sources@[m] == before[m]);
                                } else {
                                    assert(last_serving_stage(produced@, stage_labels@, positions@, m, k + 1) == Some(k as int));
                                }
                            }
                        },
                    }
                },
            }
        }
        if !produced[k] {
            assert forall|m: int| 0 <= m < has_state@.len() implies stage_index(#[trigger] sources@[m])
                == last_serving_stage(produced@, stage_labels@, positions@, m, k + 1) by {
                assert(!stage_serves(produced@, stage_labels@, positions@, k as int, m));
            }
        }
        k += 1;
    }
    let mut q: usize = 0;
    while q < has_state.len()
        invariant
            q <= has_state@.len(),
            sources@.len() == has_state@.len(),
            span == stage_span(produced@, stage_labels@),
            forall|j: int| 0 <= j < span ==> !#[trigger] stage_fault(produced@, stage_labels@, positions@, j),
            forall|m: int|
                0 <= m < has_state@.len() ==> stage_index(#[trigger] sources@[m]) == last_serving_stage(
                    produced@,
                    stage_labels@,
                    positions@,
                    m,
                    span as int,
                ),
            forall|m: int| 0 <= m < q && #[trigger] has_state@[m] ==> sources@[m] is Some,
        decreases has_state@.len() - q,
    {
        if has_state[q] && sources[q].is_none() {
            return Err(OutputError::MissingOutput);
        }
        q += 1;
    }
    Ok(sources)
}

/// What goes back to the argument at position `q` is a result of that very
/// container: when `positions` indexes the labels of the run's arguments, the
/// stage chosen for position `q` produced a result and integrated the
/// container labelled `labels[q]`.
pub proof fn lemma_result_returns_to_its_container(
    produced: Seq<bool>,
    stage_labels: Seq<Option<usize>>,
    positions: Seq<Option<usize>>,
    labels: Seq<usize>,
    capacity: usize,
    q: int,
    span: int,
)
    requires
        indexes_labels(positions, labels, capacity),
        0 <= q < labels.len(),
        0 <= span <= produced.len(),
        span <= stage_labels.len(),
        forall|k: int|
            0 <= k < span && produced[k] && (#[trigger] stage_labels[k]) is Some ==> stage_labels[k]->0 < capacity,
    ensures
        last_serving_stage(produced, stage_labels, positions, q, span) matches Some(k) ==> {
            &&& k < span
            &&& produced[k]
            &&& stage_labels[k] == Some(labels[q])
        },
    decreases span,
{
    if span > 0 {
        if stage_serves(produced, stage_labels, positions, span - 1, q) {
            let l = stage_labels[span - 1]->0 as int;
            assert(positions[l] is Some);
            assert(labels[positions[l]->0 as int] == l);
        } else {
            lemma_result_returns_to_its_container(produced, stage_labels, positions, labels, capacity, q, span - 1);
        }
    }
}

/// Every container that a stage integrated gets a result back: when stage `k`
/// produced a result for the container labelled `labels[q]`, the argument at
/// position `q` is served by stage `k` or a later one.
pub proof fn lemma_integrated_container_is_served(
    produced: Seq<bool>,
    stage_labels: Seq<Option<usize>>,
    positions: Seq<Option<usize>>,
    labels: Seq<usize>,
    capacity: usize,
    q: int,
    k: int,
    span: int,
)
    requires
        indexes_labels(positions, labels, capacity),
        0 <= q < labels.len(),
        0 <= k < span <= produced.len(),
        span <= stage_labels.len(),
        produced[k],
        stage_labels[k] == Some(labels[q]),
    ensures
        last_serving_stage(produced, stage_labels, positions, q, span) matches Some(j) && k <= j < span,
    decreases span,
{
    if span - 1 == k {
        assert(positions[labels[q] as int]->0 == q);
        assert(stage_serves(produced, stage_labels, positions, k, q));
    } else if !stage_serves(produced, stage_labels, positions, span - 1, q) {
        lemma_integrated_container_is_served(produced, stage_labels, positions, labels, capacity, q, k, span - 1);
    }
}

/// An argument without a particle state gets no result: when stages produce
/// results only where they had an input state (`stage_has_state[k]`), and a
/// stage has one exactly when the argument whose container it integrates
/// does, no stage serves an argument without a state.
pub proof fn lemma_stateless_argument_gets_nothing(
    produced: Seq<bool>,
    stage_labels: Seq<Option<usize>>,
    positions: Seq<Option<usize>>,
    stage_has_state: Seq<bool>,
    has_state: Seq<bool>,
    q: int,
    span: int,
)
    requires
        0 <= q < has_state.len(),
        !has_state[q],
        0 <= span <= produced.len(),
        span <= stage_labels.len(),
        span <= stage_has_state.len(),
        forall|k: int| 0 <= k < span && #[trigger] produced[k] ==> stage_has_state[k],
        forall|k: int|
            0 <= k < span && (#[trigger] stage_labels[k]) is Some ==> {
                let l = stage_labels[k]->0 as int;
                &&& l < positions.len()
                &&& positions[l] matches Some(p) ==> p < has_state.len() && stage_has_state[k] == has_state[p as int]
            },
    ensures
        last_serving_stage(produced, stage_labels, positions, q, span) is None,
    decreases span,
{
    if span > 0 {
        if stage_serves(produced, stage_labels, positions, span - 1, q) {
            assert(stage_labels[span - 1] is Some);
            assert(produced[span - 1]);
        }
        lemma_stateless_argument_gets_nothing(produced, stage_labels, positions, stage_has_state, has_state, q, span - 1);
    }
}

} // verus!
