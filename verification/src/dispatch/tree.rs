//! The dependency tree of a simulation: background potentials, particle groups
//! that move in them, and test groups that move in both.

use vstd::prelude::*;

verus! {

/// A node of the simulation: its potential `P`, its initial state `S`, and the
/// nodes (by index into the node list) whose evolution it depends on.
pub struct Container<P, S> {
    pub potential: P,
    pub istate: S,
    pub dependencies: Vec<usize>,
}

/// The dependencies that node `x` gains: a particle group depends on every
/// background; a test group depends on every particle group and then every
/// background; a background gains nothing.
pub open spec fn gained_dependencies(
    x: usize,
    backgrounds: Seq<usize>,
    particles: Seq<usize>,
    tests: Seq<usize>,
) -> Seq<usize> {
    if particles.contains(x) {
        backgrounds
    } else if tests.contains(x) {
        particles + backgrounds
    } else {
        Seq::empty()
    }
}

/// The node lists name distinct nodes of a list of `len` nodes, no node twice.
pub open spec fn partitions_nodes(len: nat, backgrounds: Seq<usize>, particles: Seq<usize>, tests: Seq<usize>) -> bool {
    let all = backgrounds + particles + tests;
    &&& forall|i: int| 0 <= i < all.len() ==> #[trigger] all[i] < len
    &&& all.no_duplicates()
}

fn append_all(target: &mut Vec<usize>, items: &[usize])
    ensures
        final(target)@ == old(target)@ + items@,
{
    let ghost start = target@;
    let mut i: usize = 0;
    while i < items.len()
        invariant
            i <= items@.len(),
            target@ == start + items@.subrange(0, i as int),
        decreases items@.len() - i,
    {
        target.push(items[i]);
        i += 1;
        assert(target@ =~= start + items@.subrange(0, i as int));
    }
    assert(items@.subrange(0, items@.len() as int) =~= items@);
}

/// Wires the dependency tree: each particle group comes to depend on every
/// background and each test group on every particle group and every
/// background. Returns the traversal order: the backgrounds, then the particle
/// groups, then the test groups.
pub fn tree_constructor<P, S>(
    nodes: &mut Vec<Container<P, S>>,
    backgrounds: &[usize],
    particles: &[usize],
    tests: &[usize],
) -> (order: Vec<usize>)
    requires
        partitions_nodes(old(nodes)@.len(), backgrounds@, particles@, tests@),
    ensures
        order@ == backgrounds@ + particles@ + tests@,
        final(nodes)@.len() == old(nodes)@.len(),
        forall|x: usize|
            x < old(nodes)@.len() ==> {
                &&& (#[trigger] final(nodes)@[x as int]).potential == old(nodes)@[x as int].potential
                &&& final(nodes)@[x as int].istate == old(nodes)@[x as int].istate
                &&& final(nodes)@[x as int].dependencies@ == old(nodes)@[x as int].dependencies@ + gained_dependencies(
                    x,
                    backgrounds@,
                    particles@,
                    tests@,
                )
            },
{
    let ghost start = nodes@;
    let ghost all = backgrounds@ + particles@ + tests@;
    proof {
        assert forall|i: int| 0 <= i < particles@.len() implies #[trigger] particles@[i] < start.len()
            && !backgrounds@.contains(particles@[i]) && !tests@.contains(particles@[i]) by {
            assert(all[backgrounds@.len() + i] == particles@[i]);
            if backgrounds@.contains(particles@[i]) {
                let j = choose|j: int| 0 <= j < backgrounds@.len() && backgrounds@[j] == particles@[i];
                assert(all[j] == particles@[i]);
            }
            if tests@.contains(particles@[i]) {
                let j = choose|j: int| 0 <= j < tests@.len() && tests@[j] == particles@[i];
                assert(all[backgrounds@.len() + particles@.len() + j] == particles@[i]);
            }
        }
        assert forall|i: int| 0 <= i < tests@.len() implies #[trigger] tests@[i] < start.len() by {
            assert(all[backgrounds@.len() + particles@.len() + i] == tests@[i]);
        }
        assert forall|i: int, j: int| 0 <= i < j < particles@.len() implies particles@[i] != particles@[j] by {
            assert(all[backgrounds@.len() + i] == particles@[i]);
            assert(all[backgrounds@.len() + j] == particles@[j]);
        }
        assert forall|i: int, j: int| 0 <= i < j < tests@.len() implies tests@[i] != tests@[j] by {
            assert(all[backgrounds@.len() + particles@.len() + i] == tests@[i]);
            assert(all[backgrounds@.len() + particles@.len() + j] == tests@[j]);
        }
    }
    let mut i: usize = 0;
    while i < particles.len()
        invariant
            i <= particles@.len(),
            nodes@.len() == start.len(),
            forall|k: int| 0 <= k < particles@.len() ==> #[trigger] particles@[k] < start.len(),
            forall|a: int, b: int| 0 <= a < b < particles@.len() ==> particles@[a] != particles@[b],
            forall|x: usize|
                x < start.len() ==> {
                    &&& (#[trigger] nodes@[x as int]).potential == start[x as int].potential
                    &&& nodes@[x as int].istate == start[x as int].istate
                    &&& nodes@[x as int].dependencies@ == start[x as int].dependencies@ + if particles@.subrange(0, i as int).contains(
                        x,
                    ) {
                        backgrounds@
                    } else {
                        Seq::empty()
                    }
                },
        decreases particles@.len() - i,
    {
        let p = particles[i];
        let ghost before = nodes@;
        append_all(&mut nodes[p].dependencies, backgrounds);
        proof {
            assert forall|x: usize| x < start.len() implies {
                &&& (#[trigger] nodes@[x as int]).potential == start[x as int].potential
                &&& nodes@[x as int].istate == start[x as int].istate
                &&& nodes@[x as int].dependencies@ == start[x as int].dependencies@ + if particles@.subrange(0, i + 1).contains(
                    x,
                ) {
                    backgrounds@
                } else {
                    Seq::empty()
                }
            } by {
                let done = particles@.subrange(0, i as int);
                let next = particles@.subrange(0, i + 1);
                assert(next =~= done.push(p));
                if x == p {
                    assert(!done.contains(p)) by {
                        if done.contains(p) {
                            let k = choose|k: int| 0 <= k < done.len() && done[k] == p;
                            assert(particles@[k] == particles@[i as int]);
                        }
                    }
                    assert(next.contains(p)) by {
                        assert(next[i as int] == p);
                    }
                    assert(before[x as int].dependencies@ == start[x as int].dependencies@);
                } else {
                    assert(nodes@[x as int] == before[x as int]);
                    assert(next.contains(x) == done.contains(x));
                }
            }
        }
        i += 1;
    }
    assert(particles@.subrange(0, particles@.len() as int) =~= particles@);
    let ghost mid = nodes@;
    let mut group_deps: Vec<usize> = Vec::new();
    append_all(&mut group_deps, particles);
    append_all(&mut group_deps, backgrounds);
    let mut i: usize = 0;
    while i < tests.len()
        invariant
            i <= tests@.len(),
            nodes@.len() == start.len(),
            group_deps@ == particles@ + backgrounds@,
            forall|k: int| 0 <= k < tests@.len() ==> #[trigger] tests@[k] < start.len(),
            forall|a: int, b: int| 0 <= a < b < tests@.len() ==> tests@[a] != tests@[b],
            forall|x: usize|
                x < start.len() ==> {
                    &&& (#[trigger] nodes@[x as int]).potential == start[x as int].potential
                    &&& nodes@[x as int].istate == start[x as int].istate
                    &&& nodes@[x as int].dependencies@ == mid[x as int].dependencies@ + if tests@.subrange(0, i as int).contains(
                        x,
                    ) {
                        particles@ + backgrounds@
                    } else {
                        Seq::empty()
                    }
                },
        decreases tests@.len() - i,
    {
        let t = tests[i];
        let ghost before = nodes@;
        append_all(&mut nodes[t].dependencies, group_deps.as_slice());
        proof {
            assert forall|x: usize| x < start.len() implies {
                &&& (#[trigger] nodes@[x as int]).potential == start[x as int].potential
                &&& nodes@[x as int].istate == start[x as int].istate
                &&& nodes@[x as int].dependencies@ == mid[x as int].dependencies@ + if tests@.subrange(0, i + 1).contains(
                    x,
                ) {
                    particles@ + backgrounds@
                } else {
                    Seq::empty()
                }
            } by {
                let done = tests@.subrange(0, i as int);
                let next = tests@.subrange(0, i + 1);
                assert(next =~= done.push(t));
                if x == t {
                    assert(!done.contains(t)) by {
                        if done.contains(t) {
                            let k = choose|k: int| 0 <= k < done.len() && done[k] == t;
                            assert(tests@[k] == tests@[i as int]);
                        }
                    }
                    assert(next.contains(t)) by {
                        assert(next[i as int] == t);
                    }
                } else {
                    assert(nodes@[x as int] == before[x as int]);
                    assert(next.contains(x) == done.contains(x));
                }
            }
        }
        i += 1;
    }
    assert(tests@.subrange(0, tests@.len() as int) =~= tests@);
    proof {
        assert forall|x: usize| x < start.len() implies nodes@[x as int].dependencies@ == start[x as int].dependencies@
            + gained_dependencies(x, backgrounds@, particles@, tests@) by {
            if particles@.contains(x) {
                let k = choose|k: int| 0 <= k < particles@.len() && particles@[k] == x;
                assert(!tests@.contains(x));
            } else if tests@.contains(x) {
                assert(mid[x as int].dependencies@ =~= start[x as int].dependencies@ + Seq::<usize>::empty());
            } else {
                assert(mid[x as int].dependencies@ =~= start[x as int].dependencies@ + Seq::<usize>::empty());
                assert(nodes@[x as int].dependencies@ =~= start[x as int].dependencies@ + Seq::<usize>::empty());
            }
        }
    }
    let mut order: Vec<usize> = Vec::new();
    append_all(&mut order, backgrounds);
    append_all(&mut order, particles);
    append_all(&mut order, tests);
    order
}

/// The traversal order puts every gained dependency before the node that
/// depends on it: if `order[i]` gains a dependency on `d`, then `d` is
/// `order[j]` for some `j < i`.
pub proof fn lemma_dependencies_come_first(
    backgrounds: Seq<usize>,
    particles: Seq<usize>,
    tests: Seq<usize>,
    len: nat,
    i: int,
    d: usize,
)
    requires
        partitions_nodes(len, backgrounds, particles, tests),
        0 <= i < (backgrounds + particles + tests).len(),
        gained_dependencies((backgrounds + particles + tests)[i], backgrounds, particles, tests).contains(d),
    ensures
        exists|j: int| 0 <= j < i && (backgrounds + particles + tests)[j] == d,
{
    let order = backgrounds + particles + tests;
    let x = order[i];
    let nb = backgrounds.len() as int;
    let np = particles.len() as int;
    // `x` sits in exactly one of the three groups, and its position tells which.
    if i < nb {
        assert(backgrounds.contains(x) && backgrounds[i] == x);
        if particles.contains(x) {
            let k = choose|k: int| 0 <= k < np && particles[k] == x;
            assert(order[nb + k] == x);
        }
        if tests.contains(x) {
            let k = choose|k: int| 0 <= k < tests.len() && tests[k] == x;
            assert(order[nb + np + k] == x);
        }
    } else if i < nb + np {
        assert(particles[i - nb] == x);
        assert(particles.contains(x));
    } else {
        assert(tests[i - nb - np] == x);
        if particles.contains(x) {
            let k = choose|k: int| 0 <= k < np && particles[k] == x;
            assert(order[nb + k] == x);
        }
    }
    let deps = gained_dependencies(x, backgrounds, particles, tests);
    let k = choose|k: int| 0 <= k < deps.len() && deps[k] == d;
    if particles.contains(x) {
        assert(order[k] == d);
    } else {
        if k < np {
            assert(order[nb + k] == d);
        } else {
            assert(order[k - np] == d);
        }
    }
}

} // verus!
