use drift::interface::info::{cores_per_sm, cuda_cores, stages_per_step, tally_workload, ThroughputError};

#[test]
fn throughput_stages_by_method() {
    assert_eq!(stages_per_step("DOPR54"), Some(6));
    assert_eq!(stages_per_step("DOP853"), Some(12));
    assert_eq!(stages_per_step("RK45"), None);
}

#[test]
fn cores_by_capability() {
    assert_eq!(cores_per_sm(8, 0), 64);
    assert_eq!(cores_per_sm(8, 6), 128);
    assert_eq!(cores_per_sm(9, 0), 128);
    assert_eq!(cores_per_sm(12, 0), 128);
    assert_eq!(cores_per_sm(7, 5), 64);
    assert_eq!(cores_per_sm(6, 0), 64);
    assert_eq!(cores_per_sm(6, 1), 128);
    assert_eq!(cores_per_sm(5, 2), 128);
    assert_eq!(cores_per_sm(3, 5), 192);
    assert_eq!(cores_per_sm(2, 1), 48);
    assert_eq!(cores_per_sm(1, 3), 8);
}

#[test]
fn unknown_capability_falls_back_to_sixty_four() {
    assert_eq!(cores_per_sm(99, 9), 64);
    assert_eq!(cores_per_sm(7, 4), 64);
    assert_eq!(cores_per_sm(4, 0), 64);
    assert_eq!(cores_per_sm(-1, 0), 64);
    assert_eq!(cuda_cores(10, 99, 9), 640);
    assert_eq!(cuda_cores(108, 8, 0), 6912);
    assert_eq!(cuda_cores(84, 8, 6), 10752);
}

#[test]
fn workload_counts_state_carriers() {
    let w = tally_workload(&[Some(100), None, Some(250), Some(0)]).unwrap();
    assert_eq!(w.components_integrated, 3);
    assert_eq!(w.particles_total, 350);
    assert_eq!(w.particles_max_component, 250);
}

#[test]
fn workload_without_particles_is_refused() {
    assert_eq!(tally_workload(&[None, None]).err(), Some(ThroughputError::NoParticleStates));
    assert_eq!(tally_workload(&[Some(0)]).err(), Some(ThroughputError::NoParticleStates));
    assert_eq!(tally_workload(&[]).err(), Some(ThroughputError::NoParticleStates));
}
