use drift::dispatch::tree::{tree_constructor, Container};

fn node(name: &'static str) -> Container<&'static str, Vec<f64>> {
    Container { potential: name, istate: vec![], dependencies: vec![] }
}

#[test]
fn groups_depend_on_what_moves_them() {
    // Nodes: 0 test, 1 background, 2 particle group, 3 background.
    let mut nodes = vec![node("t"), node("b1"), node("p"), node("b2")];
    let order = tree_constructor(&mut nodes, &[1, 3], &[2], &[0]);
    assert_eq!(order, vec![1, 3, 2, 0]);
    assert_eq!(nodes[2].dependencies, vec![1, 3]);
    assert_eq!(nodes[0].dependencies, vec![2, 1, 3]);
    assert!(nodes[1].dependencies.is_empty());
    assert!(nodes[3].dependencies.is_empty());
    assert_eq!(nodes[0].potential, "t");
}

#[test]
fn existing_dependencies_are_kept() {
    let mut nodes = vec![node("b"), node("p")];
    nodes[1].dependencies.push(7);
    let order = tree_constructor(&mut nodes, &[0], &[1], &[]);
    assert_eq!(order, vec![0, 1]);
    assert_eq!(nodes[1].dependencies, vec![7, 0]);
}

#[test]
fn dependencies_precede_dependents_in_order() {
    let mut nodes = vec![node("a"), node("b"), node("c"), node("d"), node("e")];
    let order = tree_constructor(&mut nodes, &[4], &[0, 3], &[1, 2]);
    for (i, &x) in order.iter().enumerate() {
        for d in &nodes[x].dependencies {
            let j = order.iter().position(|y| y == d).unwrap();
            assert!(j < i);
        }
    }
}
