use drift::dispatch::cpu::integrate_particles;
use drift::dispatch::cpu::store_trajectory;
use drift::dispatch::gpu::{gather_states, gather_states_nested_extended, grid_size, BLOCK_SIZE};

#[test]
fn grid_covers_every_particle() {
    assert_eq!(grid_size(0), (0, 128));
    assert_eq!(grid_size(1), (1, 128));
    assert_eq!(grid_size(128), (1, 128));
    assert_eq!(grid_size(129), (2, 128));
    assert_eq!(grid_size(1000), (8, BLOCK_SIZE));
}

#[test]
fn grid_width_wraps_at_32_bits() {
    if usize::BITS == 64 {
        let n = (1u64 << 32) as usize + 300;
        assert_eq!(grid_size(n), (3, 128));
    }
}

#[test]
fn gather_copies_indexed_states() {
    let src: Vec<f64> = (0..18).map(|v| v as f64).collect();
    let out = gather_states(&src, &[2, 0], 2, 1);
    assert_eq!(out, vec![12.0, 13.0, 14.0, 15.0, 16.0, 17.0, 0.0, 1.0, 2.0, 3.0, 4.0, 5.0]);
    assert!(gather_states(&src, &[], 0, 0).is_empty());
}

#[test]
fn nested_gather_pads_each_state() {
    let src: Vec<f64> = (0..12).map(|v| v as f64).collect();
    let out = gather_states_nested_extended(&src, &[vec![1], vec![0, 1], vec![]], 3, 2, 0.0);
    assert_eq!(out.len(), 3);
    assert_eq!(out[0], vec![6.0, 7.0, 8.0, 9.0, 10.0, 11.0, 0.0, 0.0, 0.0]);
    assert_eq!(
        out[1],
        vec![0.0, 1.0, 2.0, 3.0, 4.0, 5.0, 0.0, 0.0, 0.0, 6.0, 7.0, 8.0, 9.0, 10.0, 11.0, 0.0, 0.0, 0.0]
    );
    assert!(out[2].is_empty());
}

#[test]
fn trajectory_goes_to_time_major_slots() {
    // Two output times, three particles: particle 1's states land in the
    // middle slot of each time.
    let mut output = vec![-1.0f64; 2 * 3 * 6];
    let trajectory: Vec<f64> = (0..12).map(|v| v as f64).collect();
    store_trajectory(&mut output, &trajectory, 1, 3);
    assert_eq!(&output[6..12], &[0.0, 1.0, 2.0, 3.0, 4.0, 5.0]);
    assert_eq!(&output[24..30], &[6.0, 7.0, 8.0, 9.0, 10.0, 11.0]);
    assert!(output[..6].iter().all(|&v| v == -1.0));
    assert!(output[12..24].iter().all(|&v| v == -1.0));
    assert!(output[30..].iter().all(|&v| v == -1.0));
}

#[test]
fn trajectory_store_leaves_extra_output_alone() {
    let mut output = vec![-1; 14];
    let trajectory = vec![1, 2, 3, 4, 5, 6];
    store_trajectory(&mut output, &trajectory, 1, 2);
    assert_eq!(&output[6..12], &[1, 2, 3, 4, 5, 6]);
    assert!(output[..6].iter().all(|&v| v == -1));
    assert!(output[12..].iter().all(|&v| v == -1));
}

#[test]
fn particles_fill_their_own_slots() {
    // Two particles, two output times; particle p's state at time t is 10 * p + t in every component.
    let out: Result<Vec<i32>, ()> = integrate_particles(2, 2, 0, |p: usize| {
        Ok(vec![10 * p as i32; 6].into_iter().chain(vec![10 * p as i32 + 1; 6]).collect())
    });
    let out = out.unwrap();
    assert_eq!(out.len(), 24);
    assert_eq!(&out[0..6], &[0; 6]);
    assert_eq!(&out[6..12], &[10; 6]);
    assert_eq!(&out[12..18], &[1; 6]);
    assert_eq!(&out[18..24], &[11; 6]);
}

#[test]
fn short_trajectories_leave_zeros_and_failures_stop() {
    let out: Result<Vec<i32>, &str> = integrate_particles(1, 2, -1, |_| Ok(vec![5; 6]));
    assert_eq!(out.unwrap(), vec![5, 5, 5, 5, 5, 5, -1, -1, -1, -1, -1, -1]);
    let failed: Result<Vec<i32>, usize> = integrate_particles(3, 1, 0, |p| if p == 1 { Err(p) } else { Ok(vec![1; 6]) });
    assert_eq!(failed, Err(1));
}
