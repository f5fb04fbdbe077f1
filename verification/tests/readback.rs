use tectonic_plate_simulator::error::SolverError;
use tectonic_plate_simulator::mantle_grid::MantleGrid;
use tectonic_plate_simulator::pressure_buffers::{prepare_buffers, ActiveBuffer};
use tectonic_plate_simulator::pressure_solver::dispatch_pressure_solver;
use tectonic_plate_simulator::readback::{
    collect_sample, readback_pressure, ReadbackRequest, ReadbackSampler, READBACK_INTERVAL,
};

#[test]
fn fresh_sampler_is_due_every_sixtieth_tick() {
    let mut sampler = ReadbackSampler::new();
    assert_eq!(sampler.interval, 60);
    assert_eq!(READBACK_INTERVAL, 60);
    for tick in 1..=240u32 {
        assert_eq!(sampler.tick(), tick % 60 == 0);
        assert_eq!(sampler.elapsed, tick % 60);
    }
}

#[test]
fn sampler_with_interval_one_is_due_at_every_tick() {
    let mut sampler = ReadbackSampler::with_interval(1);
    for _ in 0..5 {
        assert!(sampler.tick());
        assert_eq!(sampler.elapsed, 0);
    }
}

#[test]
fn sampler_with_interval_three() {
    let mut sampler = ReadbackSampler::with_interval(3);
    let due: Vec<bool> = (0..7).map(|_| sampler.tick()).collect();
    assert_eq!(due, vec![false, false, true, false, false, true, false]);
}

#[test]
fn counter_does_not_run_out() {
    let mut sampler = ReadbackSampler { elapsed: u32::MAX - 1, interval: u32::MAX };
    assert!(sampler.tick());
    assert_eq!(sampler.elapsed, 0);
}

#[test]
fn readback_copies_the_active_buffer() {
    let grid = MantleGrid::new(0).unwrap();
    let mut buffers = prepare_buffers(&grid, None);
    let mut sampler = ReadbackSampler::with_interval(2);
    assert_eq!(readback_pressure(&mut sampler, &buffers), None);
    assert_eq!(
        readback_pressure(&mut sampler, &buffers),
        Some(ReadbackRequest { source: ActiveBuffer::ActiveA, byte_len: 80 })
    );
    dispatch_pressure_solver(&mut buffers, true).unwrap();
    assert_eq!(readback_pressure(&mut sampler, &buffers), None);
    assert_eq!(
        readback_pressure(&mut sampler, &buffers),
        Some(ReadbackRequest { source: ActiveBuffer::ActiveB, byte_len: 80 })
    );
}

#[test]
fn sample_is_kept_when_the_wait_succeeds() {
    let sample = collect_sample(true, vec![0.5f32, 1.5, 2.5]);
    assert_eq!(sample, Ok(vec![0.5f32, 1.5, 2.5]));
}

#[test]
fn sample_is_dropped_when_the_wait_fails() {
    let sample = collect_sample(false, vec![0.5f32, 1.5, 2.5]);
    assert_eq!(sample, Err(SolverError::DeviceWaitFailure));
}

#[test]
fn dropped_sample_leaves_the_cadence_alone() {
    let mut sampler = ReadbackSampler::with_interval(2);
    assert!(!sampler.tick());
    assert!(sampler.tick());
    assert!(collect_sample(false, vec![1u32]).is_err());
    assert!(!sampler.tick());
    assert!(sampler.tick());
}
