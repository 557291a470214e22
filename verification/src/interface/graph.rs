//! The container graph of a run: per-run labels for the containers, the
//! explicit dependencies between them, their grouping into backgrounds,
//! particle groups and test groups, and the model component of each stage.

use vstd::prelude::*;

use crate::dispatch::tree::{gained_dependencies, tree_constructor, Container};
use crate::interface::plan::{indexes_labels, last_serving_stage, lemma_stateless_argument_gets_nothing};

verus! {

/// Containers that one model can hold: every label is below this bound.
pub const MAX_STATES: usize = 8;

/// Whether bit `k` of `bits` is set.
pub open spec fn bit_set(bits: u64, k: u64) -> bool {
    (bits >> k) & 1 == 1
}

proof fn lemma_bit_update(bits: u64, k: u64, t: u64)
    by (bit_vector)
    requires
        k < 64,
        t < 64,
    ensures
        bit_set(bits | (1u64 << k), t) == (t == k || bit_set(bits, t)),
        bit_set(bits & !(1u64 << k), t) == (t != k && bit_set(bits, t)),
{
}

/// Explicit dependencies between container labels, one bit per ordered pair
/// of labels below `MAX_STATES`: bit `row * MAX_STATES + col` says that the
/// container labelled `col` depends on the one labelled `row`.
#[derive(Clone, Copy, Debug)]
pub struct AdjacencyMatrix(pub u64);

impl AdjacencyMatrix {
    /// Whether the container labelled `col` depends on the one labelled `row`.
    pub open spec fn holds(self, row: int, col: int) -> bool {
        &&& 0 <= row < MAX_STATES
        &&& 0 <= col < MAX_STATES
        &&& bit_set(self.0, (row * MAX_STATES + col) as u64)
    }

    /// Records (`value` true) or removes (`value` false) the dependency of
    /// `col` on `row`; a label at or beyond `MAX_STATES` changes nothing.
    pub fn set(&mut self, row: usize, col: usize, value: bool)
        ensures
            forall|r: int, c: int|
                #[trigger] final(self).holds(r, c) == if r == row && c == col && row < MAX_STATES && col < MAX_STATES {
                    value
                } else {
                    old(self).holds(r, c)
                },
    {
        if row >= MAX_STATES || col >= MAX_STATES {
            return;
        }
        let k: u64 = (row * MAX_STATES + col) as u64;
        let bits = self.0;
        let ghost before = *self;
        if value {
            self.0 = bits | (1u64 << k);
        } else {
            self.0 = bits & !(1u64 << k);
        }
        proof {
            assert forall|r: int, c: int|
                #[trigger] self.holds(r, c) == if r == row && c == col && row < MAX_STATES && col < MAX_STATES {
                    value
                } else {
                    before.holds(r, c)
                } by {
                if 0 <= r < MAX_STATES && 0 <= c < MAX_STATES {
                    lemma_bit_update(bits, k, (r * 8 + c) as u64);
                    assert(bit_set(bits, k) || !bit_set(bits, k));
                }
            }
        }
    }

    /// Whether the container labelled `col` depends on the one labelled `row`.
    pub fn get(&self, row: usize, col: usize) -> (r: bool)
        ensures
            r == self.holds(row as int, col as int),
    {
        if row >= MAX_STATES || col >= MAX_STATES {
            return false;
        }
        let k: u64 = (row * MAX_STATES + col) as u64;
        (self.0 >> k) & 1 == 1
    }
}

/// The distinct identities of `ids` in the order of their first appearance.
pub open spec fn first_seen(ids: Seq<u64>) -> Seq<u64>
    decreases ids.len(),
{
    if ids.len() == 0 {
        Seq::empty()
    } else {
        let before = first_seen(ids.drop_last());
        if before.contains(ids.last()) {
            before
        } else {
            before.push(ids.last())
        }
    }
}

/// Where `id` stands in `distinct`, if it stands there at all.
fn position_of(distinct: &[u64], id: u64) -> (r: Option<usize>)
    ensures
        r matches Some(j) ==> j < distinct@.len() && distinct@[j as int] == id,
        r is None <==> !distinct@.contains(id),
{
    let mut j: usize = 0;
    while j < distinct.len()
        invariant
            j <= distinct@.len(),
            forall|m: int| 0 <= m < j ==> distinct@[m] != id,
        decreases distinct@.len() - j,
    {
        if distinct[j] == id {
            return Some(j);
        }
        j += 1;
    }
    None
}

/// Some argument among the first `n` has the label `l`.
pub open spec fn label_used(labels: Seq<usize>, n: int, l: int) -> bool {
    exists|i: int| 0 <= i < n && #[trigger] labels[i] == l
}

/// Labels for the containers of a run, given by their identities (in argument
/// order): the distinct identities in the order of first appearance, and for
/// every argument the label of its identity, its place in that list.
pub fn labels_by_identity(identities: &[u64]) -> (r: (Vec<usize>, Vec<u64>))
    ensures
        r.1@ == first_seen(identities@),
        r.1@.no_duplicates(),
        r.0@.len() == identities@.len(),
        forall|i: int|
            0 <= i < identities@.len() ==> (#[trigger] r.0@[i] as int) < r.1@.len() && r.1@[r.0@[i] as int]
                == identities@[i],
        forall|i: int, j: int|
            0 <= i < identities@.len() && 0 <= j < identities@.len() ==> ((#[trigger] r.0@[i] == #[trigger] r.0@[j])
                <==> identities@[i] == identities@[j]),
        forall|l: int| 0 <= l < r.1@.len() ==> #[trigger] label_used(r.0@, identities@.len() as int, l),
{
    let mut labels: Vec<usize> = Vec::new();
    let mut distinct: Vec<u64> = Vec::new();
    let mut i: usize = 0;
    while i < identities.len()
        invariant
            i <= identities@.len(),
            distinct@ == first_seen(identities@.take(i as int)),
            distinct@.no_duplicates(),
            distinct@.len() <= i,
            labels@.len() == i,
            forall|q: int|
                0 <= q < i ==> (#[trigger] labels@[q] as int) < distinct@.len() && distinct@[labels@[q] as int]
                    == identities@[q],
            forall|m: int| 0 <= m < distinct@.len() ==> #[trigger] label_used(labels@, i as int, m),
        decreases identities@.len() - i,
    {
        let id = identities[i];
        let ghost prefix = identities@.take(i as int + 1);
        assert(prefix.drop_last() =~= identities@.take(i as int));
        assert(prefix.last() == id);
        let ghost old_labels = labels@;
        match position_of(&distinct, id) {
            Some(j) => {
                labels.push(j);
                assert forall|m: int| 0 <= m < distinct@.len() implies #[trigger] label_used(labels@, i + 1, m) by {
                    assert(label_used(old_labels, i as int, m));
                    let q = choose|q: int| 0 <= q < i && #[trigger] old_labels[q] == m;
                    assert(labels@[q] == m);
                }
            },
            None => {
                let ghost before = distinct@;
                labels.push(distinct.len());
                distinct.push(id);
                assert(distinct@.no_duplicates()) by {
                    assert forall|a: int, b: int| 0 <= a < b < distinct@.len() implies distinct@[a] != distinct@[b] by {
                        if b == before.len() {
                            assert(before.contains(before[a]));
                        }
                    }
                }
                assert forall|q: int| 0 <= q < i implies (#[trigger] labels@[q] as int) < distinct@.len()
                    && distinct@[labels@[q] as int] == identities@[q] by {
                    assert(distinct@[labels@[q] as int] == before[labels@[q] as int]);
                }
                assert forall|m: int| 0 <= m < distinct@.len() implies #[trigger] label_used(labels@, i + 1, m) by {
                    if m < before.len() {
                        assert(label_used(old_labels, i as int, m));
                        let q = choose|q: int| 0 <= q < i && #[trigger] old_labels[q] == m;
                        assert(labels@[q] == m);
                    } else {
                        assert(labels@[i as int] == m);
                    }
                }
            },
        }
        i += 1;
    }
    assert(identities@.take(identities@.len() as int) =~= identities@);
    assert forall|i: int, j: int|
        0 <= i < identities@.len() && 0 <= j < identities@.len() implies ((#[trigger] labels@[i] == #[trigger] labels@[j])
            <==> identities@[i] == identities@[j]) by {
        if identities@[i] == identities@[j] && labels@[i] != labels@[j] {
            assert(distinct@[labels@[i] as int] == distinct@[labels@[j] as int]);
        }
    }
    (labels, distinct)
}

/// Some explicit dependency among the first `n` of `dependencies`, each a
/// (dependency, dependent) pair of identities, names the containers at places
/// `row` and `col` of `distinct`.
pub open spec fn declared(distinct: Seq<u64>, dependencies: Seq<(u64, u64)>, n: int, row: int, col: int) -> bool {
    exists|k: int| 0 <= k < n && #[trigger] dependencies[k] == (distinct[row], distinct[col])
}

/// `matrix` with every explicit dependency added whose two containers are both
/// among `distinct` (a dependency of the container at place `col` on the one at
/// place `row`), as far as the matrix has room for their labels.
pub open spec fn with_declared(
    matrix: AdjacencyMatrix,
    distinct: Seq<u64>,
    dependencies: Seq<(u64, u64)>,
    n: int,
    row: int,
    col: int,
) -> bool {
    ||| matrix.holds(row, col)
    ||| {
        &&& 0 <= row < distinct.len()
        &&& 0 <= col < distinct.len()
        &&& row < MAX_STATES
        &&& col < MAX_STATES
        &&& declared(distinct, dependencies, n, row, col)
    }
}

/// Adds the explicit dependencies, given as (dependency, dependent) pairs of
/// container identities, to `matrix`; a container's label is its place in
/// `distinct`, and a pair naming a container outside `distinct` is skipped.
pub fn with_declared_dependencies(
    matrix: AdjacencyMatrix,
    distinct: &[u64],
    dependencies: &[(u64, u64)],
) -> (r: AdjacencyMatrix)
    requires
        distinct@.no_duplicates(),
    ensures
        forall|row: int, col: int|
            #[trigger] r.holds(row, col) == with_declared(
                matrix,
                distinct@,
                dependencies@,
                dependencies@.len() as int,
                row,
                col,
            ),
{
    let mut result = matrix;
    let mut i: usize = 0;
    while i < dependencies.len()
        invariant
            i <= dependencies@.len(),
            distinct@.no_duplicates(),
            forall|row: int, col: int|
                #[trigger] result.holds(row, col) == with_declared(matrix, distinct@, dependencies@, i as int, row, col),
        decreases dependencies@.len() - i,
    {
        let (dependency, dependent) = dependencies[i];
        let ghost before = result;
        let found_row = position_of(distinct, dependency);
        let found_col = position_of(distinct, dependent);
        if let (Some(row), Some(col)) = (found_row, found_col) {
            result.set(row, col, true);
            proof {
                assert forall|r: int, c: int|
                    #[trigger] result.holds(r, c) == with_declared(matrix, distinct@, dependencies@, i + 1, r, c) by {
                    if declared(distinct@, dependencies@, i + 1, r, c) && !declared(distinct@, dependencies@, i as int, r, c)
                        && 0 <= r < distinct@.len() && 0 <= c < distinct@.len() {
                        let k = choose|k: int| 0 <= k < i + 1 && #[trigger] dependencies@[k] == (distinct@[r], distinct@[c]);
                        assert(k == i);
                        assert(distinct@[r] == distinct@[row as int]);
                        assert(distinct@[c] == distinct@[col as int]);
                    }
                    if r == row && c == col && 0 <= r < MAX_STATES && 0 <= c < MAX_STATES {
                        assert(dependencies@[i as int] == (distinct@[r], distinct@[c]));
                    }
                    if declared(distinct@, dependencies@, i as int, r, c) {
                        let k = choose|k: int| 0 <= k < i && #[trigger] dependencies@[k] == (distinct@[r], distinct@[c]);
                        assert(0 <= k < i + 1 && dependencies@[k] == (distinct@[r], distinct@[c]));
                    }
                }
            }
        } else {
            proof {
                assert forall|r: int, c: int|
                    #[trigger] result.holds(r, c) == with_declared(matrix, distinct@, dependencies@, i + 1, r, c) by {
                    if declared(distinct@, dependencies@, i + 1, r, c) && 0 <= r < distinct@.len() && 0 <= c
                        < distinct@.len() {
                        let k = choose|k: int| 0 <= k < i + 1 && #[trigger] dependencies@[k] == (distinct@[r], distinct@[c]);
                        if k == i {
                            assert(distinct@.contains(distinct@[r]));
                            assert(distinct@.contains(distinct@[c]));
                        }
                    }
                    if declared(distinct@, dependencies@, i as int, r, c) {
                        let k = choose|k: int| 0 <= k < i && #[trigger] dependencies@[k] == (distinct@[r], distinct@[c]);
                        assert(0 <= k < i + 1 && dependencies@[k] == (distinct@[r], distinct@[c]));
                    }
                }
            }
        }
        i += 1;
    }
    result
}

/// `list` is the dependency list of label `label` among the labels below
/// `count`: the labels it depends on, in increasing order.
pub open spec fn lists_row(list: Seq<usize>, matrix: AdjacencyMatrix, label: int, count: int) -> bool {
    &&& forall|a: int, b: int| 0 <= a < b < list.len() ==> list[a] < list[b]
    &&& forall|k: int| 0 <= k < list.len() ==> #[trigger] list[k] < count && matrix.holds(list[k] as int, label)
    &&& forall|c: usize| c < count && matrix.holds(c as int, label) ==> #[trigger] list.contains(c)
}

/// The labels below `c` that the container labelled `label` depends on, in
/// increasing order.
pub open spec fn row_upto(matrix: AdjacencyMatrix, label: int, c: int) -> Seq<usize>
    decreases c,
{
    if c <= 0 {
        Seq::empty()
    } else {
        row_upto(matrix, label, c - 1) + if matrix.holds(c - 1, label) {
            seq![(c - 1) as usize]
        } else {
            Seq::<usize>::empty()
        }
    }
}

/// The labels below `count` that the container labelled `label` depends on,
/// in increasing order.
fn row_list(matrix: AdjacencyMatrix, label: usize, count: usize) -> (r: Vec<usize>)
    ensures
        r@ == row_upto(matrix, label as int, count as int),
        lists_row(r@, matrix, label as int, count as int),
{
        let mut row: Vec<usize> = Vec::new();
        let mut col: usize = 0;
        while col < count
            invariant
                col <= count,
                row@ == row_upto(matrix, label as int, col as int),
                forall|a: int, b: int| 0 <= a < b < row@.len() ==> row@[a] < row@[b],
                forall|k: int| 0 <= k < row@.len() ==> #[trigger] row@[k] < col && matrix.holds(row@[k] as int, label as int),
                forall|c: usize| c < col && matrix.holds(c as int, label as int) ==> #[trigger] row@.contains(c),
            decreases count - col,
        {
            if matrix.get(col, label) {
                let ghost before = row@;
                row.push(col);
                assert forall|c: usize| c < col + 1 && matrix.holds(c as int, label as int) implies #[trigger] row@.contains(c) by {
                    if c < col {
                        assert(before.contains(c));
                        let k = choose|k: int| 0 <= k < before.len() && before[k] == c;
                        assert(row@[k] == c);
                    } else {
                        assert(row@[before.len() as int] == c);
                    }
                }
            }
            col += 1;
        }
        row
}

/// For every label below `count`, the labels below `count` that it depends on,
/// in increasing order.
pub fn dependency_lists(matrix: AdjacencyMatrix, count: usize) -> (r: Vec<Vec<usize>>)
    ensures
        r@.len() == count,
        forall|label: int| 0 <= label < count ==> (#[trigger] r@[label])@ == row_upto(matrix, label, count as int),
        forall|label: int| 0 <= label < count ==> lists_row((#[trigger] r@[label])@, matrix, label, count as int),
{
    let mut lists: Vec<Vec<usize>> = Vec::new();
    let mut label: usize = 0;
    while label < count
        invariant
            label <= count,
            lists@.len() == label,
            forall|l: int| 0 <= l < label ==> (#[trigger] lists@[l])@ == row_upto(matrix, l, count as int),
            forall|l: int| 0 <= l < label ==> lists_row((#[trigger] lists@[l])@, matrix, l, count as int),
        decreases count - label,
    {
        let row = row_list(matrix, label, count);
        lists.push(row);
        label += 1;
    }
    lists
}

/// `list` names, in increasing order, exactly the places below `len` that `pick` chooses.
pub open spec fn lists_picked(list: Seq<usize>, len: int, pick: spec_fn(int) -> bool) -> bool {
    &&& forall|a: int, b: int| 0 <= a < b < list.len() ==> list[a] < list[b]
    &&& forall|k: int| 0 <= k < list.len() ==> #[trigger] list[k] < len && pick(list[k] as int)
    &&& forall|c: usize| c < len && pick(c as int) ==> #[trigger] list.contains(c)
}

/// A container without a state is a background.
pub open spec fn is_background(kinds: Seq<(bool, bool)>, x: int) -> bool {
    !kinds[x].0
}

/// A container with a state and a potential of its own is a particle group.
pub open spec fn is_particle_group(kinds: Seq<(bool, bool)>, x: int) -> bool {
    kinds[x].0 && kinds[x].1
}

/// A container with a state and no potential of its own is a test group.
pub open spec fn is_test_group(kinds: Seq<(bool, bool)>, x: int) -> bool {
    kinds[x].0 && !kinds[x].1
}

/// The container below `len` of kind `kinds` whose state presence is
/// `want_state` and, where `want_recipe` says so, whose potential presence is
/// that value, in increasing order.
pub open spec fn picked_kind(kinds: Seq<(bool, bool)>, len: int, want_state: bool, want_recipe: Option<bool>) -> Seq<
    usize,
>
    decreases len,
{
    if len <= 0 {
        Seq::empty()
    } else {
        picked_kind(kinds, len - 1, want_state, want_recipe) + if kinds[len - 1].0 == want_state && (
        want_recipe matches Some(w) ==> kinds[len - 1].1 == w) {
            seq![(len - 1) as usize]
        } else {
            Seq::<usize>::empty()
        }
    }
}

/// The labels below `kinds.len()` that `pick` chooses, in increasing order.
fn picked_labels(kinds: &[(bool, bool)], want_state: bool, want_recipe: Option<bool>) -> (r: Vec<usize>)
    ensures
        r@ == picked_kind(kinds@, kinds@.len() as int, want_state, want_recipe),
        lists_picked(
            r@,
            kinds@.len() as int,
            |x: int| kinds@[x].0 == want_state && (want_recipe matches Some(w) ==> kinds@[x].1 == w),
        ),
{
    let ghost pick = |x: int| kinds@[x].0 == want_state && (want_recipe matches Some(w) ==> kinds@[x].1 == w);
    let mut list: Vec<usize> = Vec::new();
    let mut x: usize = 0;
    while x < kinds.len()
        invariant
            x <= kinds@.len(),
            list@ == picked_kind(kinds@, x as int, want_state, want_recipe),
            pick == (|x: int| kinds@[x].0 == want_state && (want_recipe matches Some(w) ==> kinds@[x].1 == w)),
            forall|a: int, b: int| 0 <= a < b < list@.len() ==> list@[a] < list@[b],
            forall|k: int| 0 <= k < list@.len() ==> #[trigger] list@[k] < x && pick(list@[k] as int),
            forall|c: usize| c < x && pick(c as int) ==> #[trigger] list@.contains(c),
        decreases kinds@.len() - x,
    {
        let (has_state, has_recipe) = kinds[x];
        let chosen = has_state == want_state && match want_recipe {
            Some(w) => has_recipe == w,
            None => true,
        };
        if chosen {
            let ghost before = list@;
            list.push(x);
            assert forall|c: usize| c < x + 1 && pick(c as int) implies #[trigger] list@.contains(c) by {
                if c < x {
                    assert(before.contains(c));
                    let k = choose|k: int| 0 <= k < before.len() && before[k] == c;
                    assert(list@[k] == c);
                } else {
                    assert(list@[before.len() as int] == c);
                }
            }
        }
        x += 1;
    }
    list
}

/// The containers of a run, by label, sorted by kind (each described by
/// whether it has a state and whether it has a potential of its own): the
/// backgrounds, the particle groups and the test groups, each in increasing
/// label order. Together they name every label exactly once.
pub fn group_labels(kinds: &[(bool, bool)]) -> (r: (Vec<usize>, Vec<usize>, Vec<usize>))
    ensures
        r.0@ == picked_kind(kinds@, kinds@.len() as int, false, None),
        r.1@ == picked_kind(kinds@, kinds@.len() as int, true, Some(true)),
        r.2@ == picked_kind(kinds@, kinds@.len() as int, true, Some(false)),
        lists_picked(r.0@, kinds@.len() as int, |x: int| is_background(kinds@, x)),
        lists_picked(r.1@, kinds@.len() as int, |x: int| is_particle_group(kinds@, x)),
        lists_picked(r.2@, kinds@.len() as int, |x: int| is_test_group(kinds@, x)),
        crate::dispatch::tree::partitions_nodes(kinds@.len(), r.0@, r.1@, r.2@),
{
    let backgrounds = picked_labels(kinds, false, None);
    let particles = picked_labels(kinds, true, Some(true));
    let tests = picked_labels(kinds, true, Some(false));
    let ghost b = backgrounds@;
    let ghost p = particles@;
    let ghost t = tests@;
    let ghost all = b + p + t;
    assert(lists_picked(b, kinds@.len() as int, |x: int| is_background(kinds@, x)));
    assert(lists_picked(p, kinds@.len() as int, |x: int| is_particle_group(kinds@, x)));
    assert(lists_picked(t, kinds@.len() as int, |x: int| is_test_group(kinds@, x)));
    assert forall|i: int| 0 <= i < all.len() implies #[trigger] all[i] < kinds@.len() by {
        if i < b.len() {
            assert(all[i] == b[i]);
        } else if i < b.len() + p.len() {
            assert(all[i] == p[i - b.len()]);
        } else {
            assert(all[i] == t[i - b.len() - p.len()]);
        }
    }
    assert forall|i: int, j: int| 0 <= i < all.len() && 0 <= j < all.len() && i != j implies all[i] != all[j] by {
        let (lo, hi) = if i < j { (i, j) } else { (j, i) };
        let u = all[lo];
        let v = all[hi];
        if hi < b.len() {
            assert(b[lo] < b[hi]);
        } else if lo < b.len() && hi < b.len() + p.len() {
            assert(u == b[lo] && v == p[hi - b.len()]);
            assert(!kinds@[u as int].0 && kinds@[v as int].0);
        } else if lo < b.len() {
            assert(u == b[lo] && v == t[hi - b.len() - p.len()]);
            assert(!kinds@[u as int].0 && kinds@[v as int].0);
        } else if hi < b.len() + p.len() {
            assert(p[lo - b.len()] < p[hi - b.len()]);
        } else if lo < b.len() + p.len() {
            assert(u == p[lo - b.len()] && v == t[hi - b.len() - p.len()]);
            assert(kinds@[u as int].1 && !kinds@[v as int].1);
        } else {
            assert(t[lo - b.len() - p.len()] < t[hi - b.len() - p.len()]);
        }
    }
    (backgrounds, particles, tests)
}

/// The potential of the first dependency in `dependencies` that has one of its
/// own (dependencies beyond `potentials` skipped), or none.
pub open spec fn first_dependency_potential<R>(dependencies: Seq<usize>, potentials: Seq<Option<R>>) -> Option<R>
    decreases dependencies.len(),
{
    if dependencies.len() == 0 {
        None
    } else if (dependencies[0] as int) < potentials.len() && potentials[dependencies[0] as int] is Some {
        potentials[dependencies[0] as int]
    } else {
        first_dependency_potential(dependencies.drop_first(), potentials)
    }
}

/// The model component a stage runs in: the potential of its own container,
/// else that of the first container it depends on that has one, else none.
pub fn stage_component<R: Copy>(own: Option<R>, dependencies: &[usize], potentials: &[Option<R>]) -> (r: Option<R>)
    ensures
        r == if own is Some {
            own
        } else {
            first_dependency_potential(dependencies@, potentials@)
        },
{
    if own.is_some() {
        return own;
    }
    let mut k: usize = 0;
    assert(dependencies@.skip(0) =~= dependencies@);
    while k < dependencies.len()
        invariant
            own is None,
            k <= dependencies@.len(),
            first_dependency_potential(dependencies@, potentials@) == first_dependency_potential(
                dependencies@.skip(k as int),
                potentials@,
            ),
        decreases dependencies@.len() - k,
    {
        let d = dependencies[k];
        assert(dependencies@.skip(k as int).len() > 0);
        assert(dependencies@.skip(k as int)[0] == d);
        if d < potentials.len() {
            if let Some(potential) = potentials[d] {
                return Some(potential);
            }
        }
        assert(dependencies@.skip(k as int).drop_first() =~= dependencies@.skip(k as int + 1));
        k += 1;
    }
    None
}

/// The kind of each container of a run, by label: whether it has a state and
/// whether it has a potential of its own. The container labelled `l` is the
/// argument at position `positions[l]`.
pub open spec fn label_kinds<R, S>(
    potentials: Seq<Option<R>>,
    states: Seq<Option<S>>,
    positions: Seq<Option<usize>>,
    count: int,
) -> Seq<(bool, bool)> {
    Seq::new(
        count as nat,
        |l: int| (states[positions[l]->0 as int] is Some, potentials[positions[l]->0 as int] is Some),
    )
}

/// The potential of each container of a run, by label.
pub open spec fn label_potentials<R>(potentials: Seq<Option<R>>, positions: Seq<Option<usize>>, count: int) -> Seq<
    Option<R>,
> {
    Seq::new(count as nat, |l: int| potentials[positions[l]->0 as int])
}

/// The backgrounds of a run, by label, in increasing order.
pub open spec fn backgrounds_of(kinds: Seq<(bool, bool)>) -> Seq<usize> {
    picked_kind(kinds, kinds.len() as int, false, None)
}

/// The particle groups of a run, by label, in increasing order.
pub open spec fn particle_groups_of(kinds: Seq<(bool, bool)>) -> Seq<usize> {
    picked_kind(kinds, kinds.len() as int, true, Some(true))
}

/// The test groups of a run, by label, in increasing order.
pub open spec fn test_groups_of(kinds: Seq<(bool, bool)>) -> Seq<usize> {
    picked_kind(kinds, kinds.len() as int, true, Some(false))
}

/// The order in which the containers of a run are integrated: backgrounds,
/// then particle groups, then test groups.
pub open spec fn stage_order(kinds: Seq<(bool, bool)>) -> Seq<usize> {
    backgrounds_of(kinds) + particle_groups_of(kinds) + test_groups_of(kinds)
}

/// The dependencies of the container labelled `l` once the dependency tree is
/// wired: its explicit ones, then those its group gains.
pub open spec fn wired_dependencies(matrix: AdjacencyMatrix, kinds: Seq<(bool, bool)>, l: int) -> Seq<usize> {
    row_upto(matrix, l, kinds.len() as int) + gained_dependencies(
        l as usize,
        backgrounds_of(kinds),
        particle_groups_of(kinds),
        test_groups_of(kinds),
    )
}

/// The model component of a stage whose own potential is `own`, given its
/// dependencies and the potentials of all containers by label.
pub open spec fn component_of<R>(own: Option<R>, dependencies: Seq<usize>, potentials: Seq<Option<R>>) -> Option<R> {
    if own is Some {
        own
    } else {
        first_dependency_potential(dependencies, potentials)
    }
}

proof fn lemma_groups_cover(kinds: Seq<(bool, bool)>, len: int)
    requires
        0 <= len <= kinds.len(),
    ensures
        picked_kind(kinds, len, false, None).len() + picked_kind(kinds, len, true, Some(true)).len() + picked_kind(
            kinds,
            len,
            true,
            Some(false),
        ).len() == len,
    decreases len,
{
    if len > 0 {
        lemma_groups_cover(kinds, len - 1);
    }
}

/// Stage `k` of a run is planned: it integrates the container labelled
/// `stage_order(kinds)[k]`, starts from a copy of that container's state when
/// it has one, and runs in the container's own potential, else that of the
/// first of its wired dependencies that has one.
pub open spec fn stage_planned<R, S: Clone>(
    potentials: Seq<Option<R>>,
    states: Seq<Option<S>>,
    positions: Seq<Option<usize>>,
    count: int,
    matrix: AdjacencyMatrix,
    model: Seq<Option<R>>,
    input_frame: Seq<Option<S>>,
    labels: Seq<Option<usize>>,
    k: int,
) -> bool {
    let kinds = label_kinds(potentials, states, positions, count);
    let l = stage_order(kinds)[k];
    &&& (l as int) < count
    &&& labels[k] == Some(l)
    &&& (input_frame[k] is Some <==> states[positions[l as int]->0 as int] is Some)
    &&& (input_frame[k] matches Some(state) ==> cloned::<S>(states[positions[l as int]->0 as int]->0, state))
    &&& model[k] == component_of(
        potentials[positions[l as int]->0 as int],
        wired_dependencies(matrix, kinds, l as int),
        label_potentials(potentials, positions, count),
    )
}

/// The stages of a run: every container, by label, in the order backgrounds,
/// particle groups, test groups. The container labelled `l` is the argument at
/// position `positions[l]`, with potential `potentials[..]` and state
/// `states[..]`; `matrix` holds the explicit dependencies between labels.
///
/// Stage `k` integrates the container labelled `stage_order(kinds)[k]` (the
/// third result), starts from a clone of that container's own state, the
/// state of the argument at its position (the second)
/// and runs in the model component (the first): the container's own
/// potential, else that of the first of its wired dependencies that has one.
pub fn plan_stages<R: Copy, S: Clone>(
    count: usize,
    positions: &[Option<usize>],
    potentials: &[Option<R>],
    states: &[Option<S>],
    matrix: AdjacencyMatrix,
) -> (r: (Vec<Option<R>>, Vec<Option<S>>, Vec<Option<usize>>))
    requires
        count <= positions@.len(),
        potentials@.len() == states@.len(),
        forall|l: int| 0 <= l < count ==> (#[trigger] positions@[l]) is Some && positions@[l]->0 < states@.len(),
    ensures
        r.0@.len() == count,
        r.1@.len() == count,
        r.2@.len() == count,
        stage_order(label_kinds(potentials@, states@, positions@, count as int)).len() == count,
        forall|k: int|
            0 <= k < count ==> #[trigger] stage_planned(
                potentials@,
                states@,
                positions@,
                count as int,
                matrix,
                r.0@,
                r.1@,
                r.2@,
                k,
            ),
{
    let ghost kinds_spec = label_kinds(potentials@, states@, positions@, count as int);
    let ghost pots_spec = label_potentials(potentials@, positions@, count as int);
    let mut pots: Vec<Option<R>> = Vec::new();
    let mut kinds: Vec<(bool, bool)> = Vec::new();
    let mut nodes: Vec<Container<Option<R>, usize>> = Vec::new();
    let mut l: usize = 0;
    while l < count
        invariant
            l <= count,
            count <= positions@.len(),
            potentials@.len() == states@.len(),
            forall|m: int| 0 <= m < count ==> (#[trigger] positions@[m]) is Some && positions@[m]->0 < states@.len(),
            kinds_spec == label_kinds(potentials@, states@, positions@, count as int),
            pots_spec == label_potentials(potentials@, positions@, count as int),
            pots@.len() == l,
            kinds@.len() == l,
            nodes@.len() == l,
            forall|m: int| 0 <= m < l ==> #[trigger] pots@[m] == pots_spec[m],
            forall|m: int| 0 <= m < l ==> #[trigger] kinds@[m] == kinds_spec[m],
            forall|m: int|
                0 <= m < l ==> {
                    &&& (#[trigger] nodes@[m]).potential == pots_spec[m]
                    &&& nodes@[m].istate == positions@[m]->0
                    &&& nodes@[m].dependencies@ == row_upto(matrix, m, count as int)
                },
        decreases count - l,
    {
        assert(positions@[l as int] is Some);
        let q = match positions[l] {
            Some(q) => q,
            None => 0,
        };
        let potential = potentials[q];
        pots.push(potential);
        kinds.push((states[q].is_some(), potential.is_some()));
        let dependencies = row_list(matrix, l, count);
        nodes.push(Container { potential, istate: q, dependencies });
        l += 1;
    }
    assert(kinds@ =~= kinds_spec);
    assert(pots@ =~= pots_spec);
    let (backgrounds, particles, tests) = group_labels(&kinds);
    let order = tree_constructor(&mut nodes, &backgrounds, &particles, &tests);
    proof {
        lemma_groups_cover(kinds_spec, count as int);
    }
    assert(order@ == stage_order(kinds_spec));
    let mut model: Vec<Option<R>> = Vec::new();
    let mut input_frame: Vec<Option<S>> = Vec::new();
    let mut labels: Vec<Option<usize>> = Vec::new();
    let mut k: usize = 0;
    while k < order.len()
        invariant
            k <= order@.len(),
            order@.len() == count,
            order@ == stage_order(kinds_spec),
            crate::dispatch::tree::partitions_nodes(count as nat, backgrounds@, particles@, tests@),
            order@ == backgrounds@ + particles@ + tests@,
            backgrounds@ == backgrounds_of(kinds_spec),
            particles@ == particle_groups_of(kinds_spec),
            tests@ == test_groups_of(kinds_spec),
            kinds_spec.len() == count,
            pots@ == pots_spec,
            nodes@.len() == count,
            forall|m: int|
                0 <= m < count ==> {
                    &&& (#[trigger] nodes@[m]).potential == pots_spec[m]
                    &&& nodes@[m].istate == positions@[m]->0
                    &&& nodes@[m].dependencies@ == wired_dependencies(matrix, kinds_spec, m)
                },
            forall|m: int| 0 <= m < count ==> (#[trigger] positions@[m]) is Some && positions@[m]->0 < states@.len(),
            model@.len() == k,
            input_frame@.len() == k,
            labels@.len() == k,
            forall|j: int|
                0 <= j < k ==> {
                    let lj = order@[j];
                    &&& (lj as int) < count
                    &&& #[trigger] labels@[j] == Some(lj)
                    &&& (input_frame@[j] is Some <==> states@[positions@[lj as int]->0 as int] is Some)
                    &&& (input_frame@[j] matches Some(state) ==> cloned::<S>(
                        states@[positions@[lj as int]->0 as int]->0,
                        state,
                    ))
                    &&& model@[j] == component_of(
                        pots_spec[lj as int],
                        wired_dependencies(matrix, kinds_spec, lj as int),
                        pots_spec,
                    )
                },
        decreases count - k,
    {
        let label = order[k];
        assert((backgrounds@ + particles@ + tests@)[k as int] == label);
        assert(label < count);
        let node = &nodes[label];
        let component = stage_component(node.potential, node.dependencies.as_slice(), pots.as_slice());
        let state = states[node.istate].clone();
        model.push(component);
        input_frame.push(state);
        labels.push(Some(label));
        k += 1;
    }
    assert forall|k: int| 0 <= k < count implies #[trigger] stage_planned(
        potentials@,
        states@,
        positions@,
        count as int,
        matrix,
        model@,
        input_frame@,
        labels@,
        k,
    ) by {
        let l = order@[k];
        assert(labels@[k] == Some(l));
        assert(pots_spec[l as int] == potentials@[positions@[l as int]->0 as int]);
    }
    (model, input_frame, labels)
}

/// An argument without a state gets no result from a run planned by
/// `plan_stages`: when stages produce results only where they start from a
/// state (as `dispatch_stages` guarantees), no stage serves the argument at
/// position `q` if it has no state.
pub proof fn lemma_planned_run_skips_stateless_argument<R, S: Clone>(
    potentials: Seq<Option<R>>,
    states: Seq<Option<S>>,
    positions: Seq<Option<usize>>,
    count: int,
    matrix: AdjacencyMatrix,
    model: Seq<Option<R>>,
    input_frame: Seq<Option<S>>,
    labels: Seq<Option<usize>>,
    produced: Seq<bool>,
    q: int,
)
    requires
        0 <= count <= positions.len(),
        potentials.len() == states.len(),
        forall|l: int| 0 <= l < count ==> (#[trigger] positions[l]) is Some && positions[l]->0 < states.len(),
        forall|k: int|
            0 <= k < count ==> #[trigger] stage_planned(
                potentials,
                states,
                positions,
                count,
                matrix,
                model,
                input_frame,
                labels,
                k,
            ),
        labels.len() == count,
        input_frame.len() == count,
        produced.len() == count,
        forall|k: int| 0 <= k < count && #[trigger] produced[k] ==> input_frame[k] is Some,
        0 <= q < states.len(),
        states[q] is None,
    ensures
        last_serving_stage(produced, labels, positions, q, count) is None,
{
    let stage_has_state = Seq::new(count as nat, |k: int| input_frame[k] is Some);
    let has_state = Seq::new(states.len(), |p: int| states[p] is Some);
    assert forall|k: int| 0 <= k < count && #[trigger] produced[k] implies stage_has_state[k] by {}
    assert forall|k: int| 0 <= k < count && (#[trigger] labels[k]) is Some implies {
        let l = labels[k]->0 as int;
        &&& l < positions.len()
        &&& positions[l] matches Some(p) ==> p < has_state.len() && stage_has_state[k] == has_state[p as int]
    } by {
        assert(stage_planned(potentials, states, positions, count, matrix, model, input_frame, labels, k));
        let l = labels[k]->0 as int;
        assert(positions[l] is Some);
    }
    lemma_stateless_argument_gets_nothing(produced, labels, positions, stage_has_state, has_state, q, count);
}

/// Every label of a run has an argument position: when `positions` indexes
/// the labels of the arguments (as `argument_positions_by_label` gives them)
/// and every label below `count` is used (as `labels_by_identity` gives them),
/// each such label has the position of an argument, so `plan_stages` can be
/// called with these `positions` and `count`.
pub proof fn lemma_every_label_has_a_position(
    labels: Seq<usize>,
    count: int,
    positions: Seq<Option<usize>>,
    capacity: usize,
)
    requires
        indexes_labels(positions, labels, capacity),
        forall|i: int| 0 <= i < labels.len() ==> #[trigger] labels[i] < capacity,
        forall|l: int| 0 <= l < count ==> #[trigger] label_used(labels, labels.len() as int, l),
        0 <= count,
    ensures
        count <= capacity,
        forall|l: int| 0 <= l < count ==> (#[trigger] positions[l]) is Some && positions[l]->0 < labels.len(),
{
    if count > capacity {
        assert(label_used(labels, labels.len() as int, capacity as int));
        let i = choose|i: int| 0 <= i < labels.len() && #[trigger] labels[i] == capacity as int;
        assert(labels[i] < capacity);
    }
    assert forall|l: int| 0 <= l < count implies (#[trigger] positions[l]) is Some && positions[l]->0 < labels.len() by {
        assert(label_used(labels, labels.len() as int, l));
        let i = choose|i: int| 0 <= i < labels.len() && #[trigger] labels[i] == l;
        assert(positions[labels[i] as int] is Some);
    }
}

} // verus!
