use std::cell::Cell;
use drift::index_helpers::{find_last_times_and_indices_by, find_preceding_step_by, Clamp};
use drift::index_helpers::{find_last_times_and_indices, find_preceding_step};

// Two particles, four steps, step-major: time of step s of particle p at s * 2 + p.
fn times() -> Vec<i64> {
    vec![0, 0, 10, 5, 20, 10, 30, 15]
}

#[test]
fn preceding_step_is_last_at_or_before() {
    let t = times();
    assert_eq!(find_preceding_step(&t, 2, 0, 4, 25), (20, 2));
    assert_eq!(find_preceding_step(&t, 2, 0, 4, 20), (20, 2));
    assert_eq!(find_preceding_step(&t, 2, 0, 4, 100), (30, 3));
    assert_eq!(find_preceding_step(&t, 2, 1, 4, 12), (10, 2));
    assert_eq!(find_preceding_step(&t, 2, 1, 4, 0), (0, 0));
}

#[test]
fn preceding_step_before_first_is_zero() {
    let t = times();
    assert_eq!(find_preceding_step(&t, 2, 0, 4, -5), (0, 0));
}

#[test]
fn preceding_step_respects_filled_length() {
    let t = times();
    assert_eq!(find_preceding_step(&t, 2, 0, 2, 100), (10, 1));
    assert_eq!(find_preceding_step(&t, 2, 0, 1, 100), (0, 0));
}

#[test]
fn lookups_clamp_to_recorded_span() {
    let t = times();
    let (vals, idx) = find_last_times_and_indices(&t, &[-3, 12, 40], 2, 4, &[3, 9]);
    // Particle 0 uses 3 steps: times 0, 10, 20.
    assert_eq!(vals[0], vec![0, 10, 20]);
    assert_eq!(idx[0], vec![0, 1, 2]);
    // Particle 1 is capped at 4 steps: times 0, 5, 10, 15.
    assert_eq!(vals[1], vec![0, 10, 15]);
    assert_eq!(idx[1], vec![0, 2, 3]);
}

#[test]
fn lookups_use_at_least_one_step() {
    let t = times();
    let (vals, idx) = find_last_times_and_indices(&t, &[7], 2, 4, &[0, 0]);
    assert_eq!(vals, vec![vec![0], vec![0]]);
    assert_eq!(idx, vec![vec![0], vec![0]]);
}

#[test]
fn lookups_of_no_particles() {
    let (vals, idx) = find_last_times_and_indices(&[], &[1, 2], 0, 0, &[]);
    assert!(vals.is_empty());
    assert!(idx.is_empty());
}

#[test]
fn preceding_step_reads_only_the_particles_slots() {
    // The last row is short: particle 0's slots are in range, particle 1's last is not needed.
    let t = vec![0, 0, 10, 5, 20];
    assert_eq!(find_preceding_step(&t, 2, 0, 3, 15), (10, 1));
    // A column beyond the particle count still follows the same stride.
    let wide = vec![0, 1, 2, 3, 4, 5, 6];
    assert_eq!(find_preceding_step(&wide, 2, 2, 3, 4), (4, 1));
}

#[test]
fn lookups_through_a_reader_report_clamping() {
    let t = times();
    let read = |i: usize| t[i];
    let (key, step, _) = find_preceding_step_by(&read, t.len(), 2, 1, 4, 12);
    assert_eq!((key, step), (10, 2));
    let (vals, idx, clamps) = find_last_times_and_indices_by(&read, t.len(), &[-3, 12, 40], 2, 4, &[3, 9]);
    assert_eq!(vals[0], vec![0, 10, 20]);
    assert_eq!(idx[1], vec![0, 2, 3]);
    assert_eq!(clamps[0], vec![Clamp::ToFirst { slot: 0 }, Clamp::Within, Clamp::ToLast { slot: 4 }]);
    assert_eq!(clamps[1], vec![Clamp::ToFirst { slot: 1 }, Clamp::Within, Clamp::ToLast { slot: 7 }]);
}

#[test]
fn bisection_reads_few_slots() {
    // 1000 steps of one particle among 3: times 0, 1, 2, ... at slots 3 * s + 1.
    let t: Vec<i64> = (0..3000).map(|i| if i % 3 == 1 { (i / 3) as i64 } else { -7 }).collect();
    let reads = Cell::new(0usize);
    let read = |i: usize| {
        reads.set(reads.get() + 1);
        assert_eq!(i % 3, 1);
        t[i]
    };
    let (key, step, _) = find_preceding_step_by(&read, t.len(), 3, 1, 1000, 617);
    assert_eq!((key, step), (617, 617));
    // 1000 has 10 binary digits: at most 11 reads.
    assert!(reads.get() <= 11);
}
