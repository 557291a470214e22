//! The integer side of device introspection and throughput estimation.

use vstd::prelude::*;

use super::selector::same_text;

verus! {

/// Force evaluations per integration step of the method named `method`, for
/// the methods that have a throughput model.
pub open spec fn stages_named(method: Seq<char>) -> Option<usize> {
    if method == "DOPR54"@ {
        Some(6)
    } else if method == "DOP853"@ {
        Some(12)
    } else {
        None
    }
}

/// Stages per integration step (the Dormand-Prince pair sizes): 6 for
/// "DOPR54", 12 for "DOP853", none for any other name.
pub fn stages_per_step(method: &str) -> (r: Option<usize>)
    ensures
        r == stages_named(method@),
        method@ == "DOPR54"@ ==> r == Some(6usize),
        method@ == "DOP853"@ ==> r == Some(12usize),
        r is Some ==> (method@ == "DOPR54"@ || method@ == "DOP853"@),
{
    proof {
        reveal_strlit("DOPR54");
        reveal_strlit("DOP853");
        assert("DOPR54"@[3] != "DOP853"@[3]);
    }
    if same_text(method, "DOPR54") {
        Some(6)
    } else if same_text(method, "DOP853") {
        Some(12)
    } else {
        None
    }
}

/// CUDA cores (32-bit floating-point lanes) per streaming multiprocessor of
/// the compute capabilities in NVIDIA's tables: 8 on 1.x, 32 on 2.0, 48 on
/// 2.1, 192 on 3.x, 128 on 5.x, 64 on 6.0, 128 on 6.1 and 6.2, 64 on 7.x and
/// 8.0, and 128 on 8.6, 8.7, 8.9, 9.0, 10.0, 10.3, 11.0, 12.0 and 12.1.
pub open spec fn occupancy_table(major: i32, minor: i32) -> Option<u32> {
    match (major, minor) {
        (1, 0) | (1, 1) | (1, 2) | (1, 3) => Some(8),
        (2, 0) => Some(32),
        (2, 1) => Some(48),
        (3, 0) | (3, 2) | (3, 5) | (3, 7) => Some(192),
        (5, 0) | (5, 2) | (5, 3) => Some(128),
        (6, 0) => Some(64),
        (6, 1) | (6, 2) => Some(128),
        (7, 0) | (7, 2) | (7, 5) => Some(64),
        (8, 0) => Some(64),
        (8, 6) | (8, 7) | (8, 9) | (9, 0) | (10, 0) | (10, 3) | (11, 0) | (12, 0) | (12, 1) => Some(128),
        _ => None,
    }
}

/// CUDA cores per streaming multiprocessor for compute capability `major.minor`:
/// the table value, and 64 (the conservative pre-Ampere value) for a
/// capability outside the table.
pub open spec fn cores_per_sm_spec(major: i32, minor: i32) -> u32 {
    match occupancy_table(major, minor) {
        Some(cores) => cores,
        None => 64,
    }
}

/// CUDA cores per streaming multiprocessor for compute capability `major.minor`.
pub fn cores_per_sm(major: i32, minor: i32) -> (r: u32)
    ensures
        r == cores_per_sm_spec(major, minor),
        major == 8 && minor == 0 ==> r == 64,
        major == 8 && minor == 6 ==> r == 128,
        major == 8 && minor == 7 ==> r == 128,
        major == 8 && minor == 9 ==> r == 128,
        major == 9 && minor == 0 ==> r == 128,
        major == 10 && minor == 0 ==> r == 128,
        major == 10 && minor == 3 ==> r == 128,
        major == 11 && minor == 0 ==> r == 128,
        major == 12 && minor == 0 ==> r == 128,
        major == 12 && minor == 1 ==> r == 128,
        major == 7 && (minor == 0 || minor == 2 || minor == 5) ==> r == 64,
        major == 6 && minor == 0 ==> r == 64,
        major == 6 && (minor == 1 || minor == 2) ==> r == 128,
        major == 5 && (minor == 0 || minor == 2 || minor == 3) ==> r == 128,
        major == 3 && (minor == 0 || minor == 2 || minor == 5 || minor == 7) ==> r == 192,
        major == 2 && minor == 0 ==> r == 32,
        major == 2 && minor == 1 ==> r == 48,
        major == 1 && 0 <= minor <= 3 ==> r == 8,
        r == 8 || r == 32 || r == 48 || r == 64 || r == 128 || r == 192,
{
    match (major, minor) {
        (1, 0) | (1, 1) | (1, 2) | (1, 3) => 8,
        (2, 0) => 32,
        (2, 1) => 48,
        (3, 0) | (3, 2) | (3, 5) | (3, 7) => 192,
        (5, 0) | (5, 2) | (5, 3) => 128,
        (6, 0) => 64,
        (6, 1) | (6, 2) => 128,
        (7, 0) | (7, 2) | (7, 5) => 64,
        (8, 0) => 64,
        (8, 6) | (8, 7) | (8, 9) | (9, 0) | (10, 0) | (10, 3) | (11, 0) | (12, 0) | (12, 1) => 128,
        _ => 64,
    }
}

/// Total CUDA cores of a device with `multiprocessor_count` multiprocessors of
/// compute capability `major.minor`.
pub fn cuda_cores(multiprocessor_count: i32, major: i32, minor: i32) -> (r: u32)
    requires
        0 <= multiprocessor_count,
        multiprocessor_count * cores_per_sm_spec(major, minor) <= u32::MAX,
    ensures
        r == multiprocessor_count * cores_per_sm_spec(major, minor),
        major == 8 && minor == 0 ==> r == multiprocessor_count * 64,
        (major == 8 && (minor == 6 || minor == 7 || minor == 9)) || (major == 9 && minor == 0) ==> r
            == multiprocessor_count * 128,
{
    let count = multiprocessor_count as u32;
    count * cores_per_sm(major, minor)
}

/// The particle workload of a simulation setup.
pub struct Workload {
    /// Containers that carry a particle state.
    pub components_integrated: usize,
    /// Particles over all those containers.
    pub particles_total: usize,
    /// Particles of the largest of those containers.
    pub particles_max_component: usize,
}

/// Why no throughput estimate can be given.
#[derive(Debug, PartialEq, Eq, Structural)]
pub enum ThroughputError {
    /// No container carries a particle state (or every state is empty).
    NoParticleStates,
}

/// Containers among the first `k` that carry a particle state.
pub open spec fn state_count(counts: Seq<Option<usize>>, k: int) -> int
    decreases k,
{
    if k <= 0 {
        0
    } else {
        state_count(counts, k - 1) + if counts[k - 1] is Some {
            1int
        } else {
            0int
        }
    }
}

/// Particles in the states among the first `k` containers.
pub open spec fn particle_sum(counts: Seq<Option<usize>>, k: int) -> int
    decreases k,
{
    if k <= 0 {
        0
    } else {
        particle_sum(counts, k - 1) + match counts[k - 1] {
            Some(n) => n as int,
            None => 0int,
        }
    }
}

/// The largest particle count among the states of the first `k` containers (0 when none).
pub open spec fn particle_max(counts: Seq<Option<usize>>, k: int) -> int
    decreases k,
{
    if k <= 0 {
        0
    } else {
        let before = particle_max(counts, k - 1);
        match counts[k - 1] {
            Some(n) => if n > before {
                n as int
            } else {
                before
            },
            None => before,
        }
    }
}

proof fn lemma_sums_grow(counts: Seq<Option<usize>>, j: int, k: int)
    requires
        0 <= j <= k <= counts.len(),
    ensures
        particle_sum(counts, j) <= particle_sum(counts, k),
        state_count(counts, j) <= state_count(counts, k),
        state_count(counts, k) <= k,
    decreases k,
{
    if k > j {
        lemma_sums_grow(counts, j, k - 1);
    } else if k > 0 {
        lemma_sums_grow(counts, 0, k - 1);
    }
}

/// Tallies the particle workload over the containers' particle counts
/// (`None` for a container without a particle state).
pub fn tally_workload(particle_counts: &[Option<usize>]) -> (r: Result<Workload, ThroughputError>)
    requires
        particle_sum(particle_counts@, particle_counts@.len() as int) <= usize::MAX,
    ensures
        r is Err <==> particle_sum(particle_counts@, particle_counts@.len() as int) == 0,
        r matches Ok(w) ==> {
            &&& w.components_integrated == state_count(particle_counts@, particle_counts@.len() as int)
            &&& w.particles_total == particle_sum(particle_counts@, particle_counts@.len() as int)
            &&& w.particles_max_component == particle_max(particle_counts@, particle_counts@.len() as int)
        },
        r matches Err(e) ==> e == ThroughputError::NoParticleStates,
        r matches Ok(w) ==> forall|i: int|
            0 <= i < particle_counts@.len() ==> (#[trigger] particle_counts@[i] matches Some(n) ==> n
                <= w.particles_max_component),
        r matches Ok(w) ==> exists|i: int|
            0 <= i < particle_counts@.len() && #[trigger] particle_counts@[i] == Some(w.particles_max_component),
        r matches Ok(w) ==> w.particles_max_component <= w.particles_total,
{
    let ghost counts = particle_counts@;
    let mut components_integrated: usize = 0;
    let mut particles_total: usize = 0;
    let mut particles_max_component: usize = 0;
    let mut k: usize = 0;
    while k < particle_counts.len()
        invariant
            counts == particle_counts@,
            k <= counts.len(),
            particle_sum(counts, counts.len() as int) <= usize::MAX,
            components_integrated == state_count(counts, k as int),
            particles_total == particle_sum(counts, k as int),
            particles_max_component == particle_max(counts, k as int),
        decreases counts.len() - k,
    {
        proof {
            lemma_sums_grow(counts, k + 1, counts.len() as int);
            lemma_sums_grow(counts, 0, k + 1);
        }
        match particle_counts[k] {
            Some(n) => {
                components_integrated += 1;
                particles_total += n;
                if n > particles_max_component {
                    particles_max_component = n;
                }
            },
            None => {},
        }
        k += 1;
    }
    proof {
        lemma_largest_component_is_largest(counts, counts.len() as int);
        lemma_largest_component_within_total(counts, counts.len() as int);
    }
    if particles_total == 0 {
        Err(ThroughputError::NoParticleStates)
    } else {
        Ok(Workload { components_integrated, particles_total, particles_max_component })
    }
}

/// The largest component is the largest: no container among the first `k`
/// holds more particles, and when some container holds particles, one of
/// them holds exactly that many.
pub proof fn lemma_largest_component_is_largest(counts: Seq<Option<usize>>, k: int)
    requires
        0 <= k <= counts.len(),
    ensures
        forall|i: int| 0 <= i < k ==> (#[trigger] counts[i] matches Some(n) ==> n <= particle_max(counts, k)),
        particle_sum(counts, k) > 0 ==> exists|i: int|
            0 <= i < k && (#[trigger] counts[i] matches Some(n) && n == particle_max(counts, k)),
    decreases k,
{
    if k > 0 {
        lemma_largest_component_is_largest(counts, k - 1);
        lemma_largest_component_within_total(counts, k - 1);
        if particle_sum(counts, k) > 0 {
            match counts[k - 1] {
                Some(n) => {
                    if n <= particle_max(counts, k - 1) {
                        if particle_sum(counts, k - 1) == 0 {
                            assert(particle_max(counts, k - 1) == 0);
                            assert(counts[k - 1] matches Some(m) && m == particle_max(counts, k));
                        }
                    } else {
                        assert(counts[k - 1] matches Some(m) && m == particle_max(counts, k));
                    }
                },
                None => {},
            }
        }
    }
}

/// The largest component never holds more particles than all components together.
pub proof fn lemma_largest_component_within_total(counts: Seq<Option<usize>>, k: int)
    requires
        0 <= k <= counts.len(),
    ensures
        0 <= particle_max(counts, k) <= particle_sum(counts, k),
    decreases k,
{
    if k > 0 {
        lemma_largest_component_within_total(counts, k - 1);
        lemma_sums_grow(counts, k - 1, k);
    }
}

proof fn lemma_tally_prefix(counts: Seq<Option<usize>>, x: Option<usize>, k: int)
    requires
        0 <= k <= counts.len(),
    ensures
        particle_sum(counts.push(x), k) == particle_sum(counts, k),
        state_count(counts.push(x), k) == state_count(counts, k),
        particle_max(counts.push(x), k) == particle_max(counts, k),
    decreases k,
{
    if k > 0 {
        lemma_tally_prefix(counts, x, k - 1);
        assert(counts.push(x)[k - 1] == counts[k - 1]);
    }
}

/// Tallying one more container adds its particles to the total, counts it
/// when it has a state, and raises the largest component to its particle
/// count when that is larger.
pub proof fn lemma_tally_of_one_more(counts: Seq<Option<usize>>, x: Option<usize>)
    ensures
        particle_sum(counts.push(x), counts.len() + 1int) == particle_sum(counts, counts.len() as int) + match x {
            Some(n) => n as int,
            None => 0int,
        },
        state_count(counts.push(x), counts.len() + 1int) == state_count(counts, counts.len() as int) + if x is Some {
            1int
        } else {
            0int
        },
        particle_max(counts.push(x), counts.len() + 1int) == match x {
            Some(n) => if n > particle_max(counts, counts.len() as int) {
                n as int
            } else {
                particle_max(counts, counts.len() as int)
            },
            None => particle_max(counts, counts.len() as int),
        },
{
    lemma_tally_prefix(counts, x, counts.len() as int);
    assert(counts.push(x)[counts.len() as int] == x);
}

} // verus!
