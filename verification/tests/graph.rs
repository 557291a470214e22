use drift::interface::graph::{
    dependency_lists, group_labels, plan_stages, labels_by_identity, stage_component, with_declared_dependencies,
    AdjacencyMatrix, MAX_STATES,
};

#[test]
fn labels_follow_first_appearance() {
    let (labels, distinct) = labels_by_identity(&[42, 7, 42, 9, 7]);
    assert_eq!(distinct, vec![42, 7, 9]);
    assert_eq!(labels, vec![0, 1, 0, 2, 1]);
    let (labels, distinct) = labels_by_identity(&[]);
    assert!(labels.is_empty() && distinct.is_empty());
}

#[test]
fn matrix_sets_and_clears_single_edges() {
    let mut m = AdjacencyMatrix(0);
    m.set(2, 5, true);
    assert!(m.get(2, 5));
    assert!(!m.get(5, 2));
    assert_eq!(m.0, 1u64 << (2 * MAX_STATES + 5));
    m.set(7, 7, true);
    m.set(2, 5, false);
    assert!(!m.get(2, 5));
    assert!(m.get(7, 7));
    m.set(8, 0, true);
    m.set(0, 8, true);
    assert!(!m.get(8, 0) && !m.get(0, 8));
    assert_eq!(m.0, 1u64 << 63);
}

#[test]
fn declared_dependencies_join_the_matrix() {
    let mut base = AdjacencyMatrix(0);
    base.set(0, 0, true);
    // Pairs are (dependency, dependent): 10 depends on 30, 30 depends on 20.
    let m = with_declared_dependencies(base, &[10, 20, 30], &[(30, 10), (99, 10), (20, 30)]);
    assert!(m.get(0, 0));
    assert!(m.get(2, 0));
    assert!(m.get(1, 2));
    assert!(!m.get(0, 2));
    assert_eq!(dependency_lists(m, 3), vec![vec![0, 2], vec![], vec![1]]);
}

#[test]
fn kinds_sort_into_groups() {
    // (has state, has potential)
    let kinds = [(true, false), (false, true), (true, true), (false, false), (true, true)];
    let (backgrounds, particles, tests) = group_labels(&kinds);
    assert_eq!(backgrounds, vec![1, 3]);
    assert_eq!(particles, vec![2, 4]);
    assert_eq!(tests, vec![0]);
}

#[test]
fn stage_component_prefers_own_then_first_dependency() {
    let potentials = [None, Some('a'), None, Some('c')];
    assert_eq!(stage_component(Some('x'), &[1], &potentials), Some('x'));
    assert_eq!(stage_component(None, &[0, 9, 3, 1], &potentials), Some('c'));
    assert_eq!(stage_component(None, &[0, 2], &potentials), None);
    assert_eq!(stage_component::<char>(None, &[], &potentials), None);
}

#[test]
fn stages_follow_groups_and_carry_states() {
    // Arguments: 0 a test group (state, no potential), 1 a background, 2 a particle group.
    // Labels are the argument positions.
    let positions = [Some(0), Some(1), Some(2), None, None, None, None, None];
    let potentials = [None, Some('b'), Some('p')];
    let states = [Some(10), None, Some(30)];
    let (model, input_frame, labels) = plan_stages(3, &positions, &potentials, &states, AdjacencyMatrix(0));
    assert_eq!(labels, vec![Some(1), Some(2), Some(0)]);
    assert_eq!(input_frame, vec![None, Some(30), Some(10)]);
    // The test group runs in the potential of its first dependency: the particle group.
    assert_eq!(model, vec![Some('b'), Some('p'), Some('p')]);
}

#[test]
fn explicit_dependency_comes_before_gained_ones() {
    // Two backgrounds (labels 0, 1) and a test group (label 2) that explicitly depends on background 1.
    let positions = [Some(0), Some(1), Some(2), None, None, None, None, None];
    let potentials = [Some('a'), Some('c'), None];
    let states = [None, None, Some(5)];
    let mut m = AdjacencyMatrix(0);
    m.set(1, 2, true);
    let (model, _, labels) = plan_stages(3, &positions, &potentials, &states, m);
    assert_eq!(labels, vec![Some(0), Some(1), Some(2)]);
    assert_eq!(model[2], Some('c'));
}
