use tectonic_plate_simulator::error::SolverError;
use tectonic_plate_simulator::mantle_grid::MantleGrid;
use tectonic_plate_simulator::pressure_buffers::{prepare_buffers, ActiveBuffer, PressureBuffers};
use tectonic_plate_simulator::pressure_solver::DiffusionDispatch;
use tectonic_plate_simulator::readback::ReadbackSampler;
use tectonic_plate_simulator::simulation::{run_tick, Readiness};

const ALL_READY: Readiness =
    Readiness { diffusion_pipeline: true, average_pipeline: true, vertex_buffer: true };

fn tetrahedron_buffers() -> PressureBuffers {
    let grid = MantleGrid::from_parts(4, vec![0, 1, 2, 0, 3, 1, 1, 3, 2, 2, 3, 0]).unwrap();
    prepare_buffers(&grid, None)
}

fn triple(own: u32, _a: u32, _b: u32, _c: u32) -> u32 {
    own * 3
}

fn mean_of_four(own: u32, a: u32, b: u32, c: u32) -> u32 {
    ((own as u64 + a as u64 + b as u64 + c as u64) / 4) as u32
}

#[test]
fn tick_averages_what_it_has_just_diffused() {
    let mut buffers = tetrahedron_buffers();
    let mut sampler = ReadbackSampler::with_interval(2);
    let first = run_tick(&mut buffers, &mut sampler, ALL_READY, triple);
    assert_eq!(
        first.diffusion,
        Ok(DiffusionDispatch {
            read: ActiveBuffer::ActiveA,
            write: ActiveBuffer::ActiveB,
            workgroups: 1
        })
    );
    assert_eq!(buffers.active, ActiveBuffer::ActiveB);
    assert_eq!(buffers.pressure_buffer_b, vec![0, 3, 6, 9]);
    assert_eq!(first.vertex_pressures, Ok(vec![4, 3, 5, 6]));
    assert_eq!(first.sample, None);
    let second = run_tick(&mut buffers, &mut sampler, ALL_READY, triple);
    assert_eq!(buffers.active, ActiveBuffer::ActiveA);
    assert_eq!(buffers.pressure_buffer_a, vec![0, 9, 18, 27]);
    assert_eq!(second.vertex_pressures, Ok(vec![12, 9, 15, 18]));
    assert_eq!(second.sample, Some(vec![0, 9, 18, 27]));
}

#[test]
fn tick_without_diffusion_pipeline_touches_no_pressure() {
    let mut buffers = tetrahedron_buffers();
    let mut sampler = ReadbackSampler::with_interval(1);
    let ready = Readiness { diffusion_pipeline: false, average_pipeline: true, vertex_buffer: true };
    let output = run_tick(&mut buffers, &mut sampler, ready, triple);
    assert_eq!(output.diffusion, Err(SolverError::PipelineNotReady));
    assert_eq!(buffers.active, ActiveBuffer::ActiveA);
    assert_eq!(buffers.pressure_buffer_a, vec![0, 1, 2, 3]);
    assert_eq!(buffers.pressure_buffer_b, vec![0, 1, 2, 3]);
    assert_eq!(output.vertex_pressures, Ok(vec![1, 1, 1, 2]));
    assert_eq!(output.sample, Some(vec![0, 1, 2, 3]));
}

#[test]
fn tick_without_vertex_buffer_still_diffuses() {
    let mut buffers = tetrahedron_buffers();
    let mut sampler = ReadbackSampler::new();
    let ready = Readiness { diffusion_pipeline: true, average_pipeline: true, vertex_buffer: false };
    let output = run_tick(&mut buffers, &mut sampler, ready, triple);
    assert!(output.diffusion.is_ok());
    assert_eq!(output.vertex_pressures, Err(SolverError::MissingDeviceResource));
    assert_eq!(buffers.pressure_buffer_b, vec![0, 3, 6, 9]);
    let ready = Readiness { diffusion_pipeline: true, average_pipeline: false, vertex_buffer: false };
    let output = run_tick(&mut buffers, &mut sampler, ready, triple);
    assert_eq!(output.vertex_pressures, Err(SolverError::PipelineNotReady));
    assert_eq!(sampler.elapsed, 2);
}

#[test]
fn skipped_ticks_are_made_up_later() {
    let mut waited = tetrahedron_buffers();
    let mut direct = tetrahedron_buffers();
    let mut sampler = ReadbackSampler::new();
    let not_ready =
        Readiness { diffusion_pipeline: false, average_pipeline: false, vertex_buffer: false };
    for _ in 0..3 {
        run_tick(&mut waited, &mut sampler, not_ready, mean_of_four);
    }
    run_tick(&mut waited, &mut sampler, ALL_READY, mean_of_four);
    run_tick(&mut direct, &mut sampler, ALL_READY, mean_of_four);
    assert_eq!(waited.active, direct.active);
    assert_eq!(waited.active_pressures(), direct.active_pressures());
}

#[test]
fn mean_policy_levels_the_pressures_of_the_sphere() {
    let grid = MantleGrid::new(1).unwrap();
    let mut buffers = prepare_buffers(&grid, None);
    let mut sampler = ReadbackSampler::new();
    let start = buffers.active;
    let before: u64 = buffers.active_pressures().iter().map(|&p| p as u64).max().unwrap();
    for tick in 1..=60u32 {
        let output = run_tick(&mut buffers, &mut sampler, ALL_READY, mean_of_four);
        assert_eq!(buffers.active == start, tick % 2 == 0);
        assert_eq!(output.sample.is_some(), tick == 60);
        assert_eq!(output.vertex_pressures.unwrap().len(), 42);
    }
    let after: u64 = buffers.active_pressures().iter().map(|&p| p as u64).max().unwrap();
    assert_eq!(before, 79);
    assert!(after < before);
}
