use tectonic_plate_simulator::error::SolverError;
use tectonic_plate_simulator::mantle_grid::MantleGrid;
use tectonic_plate_simulator::pressure_buffers::{
    prepare_buffers, ActiveBuffer, PressureBuffers, UNUSED_SLOT,
};
use tectonic_plate_simulator::pressure_solver::{
    average_vertices, diffuse, dispatch_pressure_solver, dispatch_vertex_pressure_solver,
    workgroup_count, DiffusionDispatch, VertexDispatch,
};

fn tetrahedron_buffers() -> PressureBuffers {
    let grid = MantleGrid::from_parts(4, vec![0, 1, 2, 0, 3, 1, 1, 3, 2, 2, 3, 0]).unwrap();
    prepare_buffers(&grid, None)
}

fn mean_of_four(own: u32, a: u32, b: u32, c: u32) -> u32 {
    ((own as u64 + a as u64 + b as u64 + c as u64) / 4) as u32
}

fn own_plus_first(own: u32, a: u32, _b: u32, _c: u32) -> u32 {
    own.wrapping_mul(10).wrapping_add(a)
}

#[test]
fn workgroups_cover_the_items() {
    assert_eq!(workgroup_count(0), 0);
    assert_eq!(workgroup_count(1), 1);
    assert_eq!(workgroup_count(20), 1);
    assert_eq!(workgroup_count(64), 1);
    assert_eq!(workgroup_count(65), 2);
    assert_eq!(workgroup_count(128), 2);
    assert_eq!(workgroup_count(5120), 80);
    assert_eq!(workgroup_count(u32::MAX), 67108864);
}

#[test]
fn dispatch_is_skipped_while_the_pipeline_is_not_ready() {
    let mut buffers = tetrahedron_buffers();
    let result = dispatch_pressure_solver(&mut buffers, false);
    assert_eq!(result, Err(SolverError::PipelineNotReady));
    assert_eq!(buffers.active, ActiveBuffer::ActiveA);
    assert_eq!(buffers.pressure_buffer_a, vec![0, 1, 2, 3]);
    assert_eq!(buffers.pressure_buffer_b, vec![0, 1, 2, 3]);
}

#[test]
fn dispatch_reads_the_active_buffer_and_flips() {
    let mut buffers = tetrahedron_buffers();
    let first = dispatch_pressure_solver(&mut buffers, true).unwrap();
    assert_eq!(
        first,
        DiffusionDispatch { read: ActiveBuffer::ActiveA, write: ActiveBuffer::ActiveB, workgroups: 1 }
    );
    assert_eq!(buffers.active, ActiveBuffer::ActiveB);
    let second = dispatch_pressure_solver(&mut buffers, true).unwrap();
    assert_eq!(
        second,
        DiffusionDispatch { read: ActiveBuffer::ActiveB, write: ActiveBuffer::ActiveA, workgroups: 1 }
    );
    assert_eq!(buffers.active, ActiveBuffer::ActiveA);
}

#[test]
fn selector_is_back_after_an_even_number_of_dispatches() {
    let mut buffers = tetrahedron_buffers();
    let start = buffers.active;
    for done in 1..=9u32 {
        dispatch_pressure_solver(&mut buffers, true).unwrap();
        assert_eq!(buffers.active == start, done % 2 == 0);
    }
}

#[test]
fn skipped_ticks_do_not_count_for_the_selector() {
    let mut buffers = tetrahedron_buffers();
    assert!(dispatch_pressure_solver(&mut buffers, false).is_err());
    assert!(dispatch_pressure_solver(&mut buffers, false).is_err());
    assert!(dispatch_pressure_solver(&mut buffers, true).is_ok());
    assert_eq!(buffers.active, ActiveBuffer::ActiveB);
}

#[test]
fn diffusion_reads_own_and_three_neighbors() {
    let read = vec![0, 10, 20, 30];
    let neighbors = vec![1, 2, 3, 3, 2, 0, 1, 3, 0, 2, 1, 0];
    let written = diffuse(&read, &neighbors, own_plus_first);
    assert_eq!(written, vec![10, 130, 210, 320]);
    let averaged = diffuse(&read, &neighbors, mean_of_four);
    assert_eq!(averaged, vec![15, 15, 15, 15]);
}

#[test]
fn diffusion_with_a_closure_policy() {
    let read = vec![4, 8, 12, 16];
    let neighbors = vec![1, 2, 3, 3, 2, 0, 1, 3, 0, 2, 1, 0];
    let weight = 2u32;
    let written = diffuse(&read, &neighbors, |own: u32, a: u32, b: u32, c: u32| {
        (weight * own + a + b + c) / 5
    });
    assert_eq!(written, vec![(8 + 36) / 5, (16 + 32) / 5, (24 + 28) / 5, (32 + 24) / 5]);
}

#[test]
fn two_runs_from_the_same_buffer_write_the_same() {
    let grid = MantleGrid::new(2).unwrap();
    let buffers = prepare_buffers(&grid, None);
    let first = diffuse(&buffers.pressure_buffer_a, &buffers.neighbors_buffer, mean_of_four);
    let second = diffuse(&buffers.pressure_buffer_a, &buffers.neighbors_buffer, mean_of_four);
    assert_eq!(first, second);
    assert_eq!(first.len(), 320);
}

#[test]
fn applied_dispatch_writes_the_other_buffer_only() {
    let mut buffers = tetrahedron_buffers();
    let dispatch = dispatch_pressure_solver(&mut buffers, true).unwrap();
    buffers.apply_diffusion(dispatch, own_plus_first);
    assert_eq!(buffers.pressure_buffer_a, vec![0, 1, 2, 3]);
    assert_eq!(buffers.pressure_buffer_b, vec![1, 13, 21, 32]);
    assert_eq!(buffers.active, ActiveBuffer::ActiveB);
    assert_eq!(buffers.active_pressures(), &vec![1, 13, 21, 32]);
}

#[test]
fn step_writes_the_inactive_buffer_then_flips() {
    let mut buffers = tetrahedron_buffers();
    buffers.step(own_plus_first);
    assert_eq!(buffers.active, ActiveBuffer::ActiveB);
    assert_eq!(buffers.pressure_buffer_a, vec![0, 1, 2, 3]);
    assert_eq!(buffers.pressure_buffer_b, vec![1, 13, 21, 32]);
    buffers.step(own_plus_first);
    assert_eq!(buffers.active, ActiveBuffer::ActiveA);
    assert_eq!(buffers.pressure_buffer_b, vec![1, 13, 21, 32]);
    assert_eq!(buffers.pressure_buffer_a, vec![23, 162, 223, 341]);
}

#[test]
fn vertex_dispatch_needs_pipeline_and_vertex_buffer() {
    let buffers = tetrahedron_buffers();
    assert_eq!(
        dispatch_vertex_pressure_solver(&buffers, false, true),
        Err(SolverError::PipelineNotReady)
    );
    assert_eq!(
        dispatch_vertex_pressure_solver(&buffers, false, false),
        Err(SolverError::PipelineNotReady)
    );
    assert_eq!(
        dispatch_vertex_pressure_solver(&buffers, true, false),
        Err(SolverError::MissingDeviceResource)
    );
    assert_eq!(
        dispatch_vertex_pressure_solver(&buffers, true, true),
        Ok(VertexDispatch { source: ActiveBuffer::ActiveA, workgroups: 1 })
    );
}

#[test]
fn vertex_dispatch_reads_what_diffusion_just_wrote() {
    let mut buffers = tetrahedron_buffers();
    dispatch_pressure_solver(&mut buffers, true).unwrap();
    let dispatch = dispatch_vertex_pressure_solver(&buffers, true, true).unwrap();
    assert_eq!(dispatch.source, ActiveBuffer::ActiveB);
}

#[test]
fn vertex_average_is_the_mean_of_the_named_cells() {
    let u = UNUSED_SLOT;
    let pressures = vec![10, 20, 60, 7];
    let slots = vec![0, 1, 2, u, u, u, u, u, 3, u, u, u, u, u, u, u, 0, 1, 2, 3, 0, 1, 2, 3];
    let averages = average_vertices(&pressures, &slots);
    assert_eq!(averages, vec![30, 7, 24]);
}

#[test]
fn vertex_average_rounds_down() {
    let u = UNUSED_SLOT;
    let averages = average_vertices(&vec![1, 2], &vec![0, 1, u, u, u, u, u, u]);
    assert_eq!(averages, vec![1]);
}

#[test]
fn vertex_without_cells_averages_to_zero() {
    let u = UNUSED_SLOT;
    let averages = average_vertices(&vec![5, 6], &vec![u, u, u, u, u, u, u, u]);
    assert_eq!(averages, vec![0]);
}

#[test]
fn slot_that_names_no_cell_is_passed_over() {
    let u = UNUSED_SLOT;
    let averages = average_vertices(&vec![5, 9], &vec![2, 0, 1000, 1, u, u, u, u]);
    assert_eq!(averages, vec![7]);
    let empty = average_vertices(&Vec::new(), &vec![0, 1, 2, 3, 4, 5, 6, 7]);
    assert_eq!(empty, vec![0]);
}

#[test]
fn large_pressures_do_not_overflow_the_average() {
    let pressures = vec![u32::MAX; 8];
    let averages = average_vertices(&pressures, &vec![0, 1, 2, 3, 4, 5, 6, 7]);
    assert_eq!(averages, vec![u32::MAX]);
}

#[test]
fn end_to_end_average_at_the_first_vertex_of_the_icosahedron() {
    let grid = MantleGrid::new(0).unwrap();
    assert_eq!(grid.cells.len(), 20);
    assert_eq!(grid.sphere.vertex_count, 12);
    let buffers = prepare_buffers(&grid, None);
    assert_eq!(buffers.pressure_buffer_a, (0..20).collect::<Vec<u32>>());
    let incident = &grid.vertex_triangles[0];
    assert_eq!(incident, &vec![0, 1, 2, 3, 4]);
    let sum: u32 = incident.iter().map(|&cell| buffers.active_pressures()[cell]).sum();
    let expected = sum as f64 / incident.len() as f64;
    let averages = buffers.vertex_pressures();
    assert_eq!(averages.len(), 12);
    assert_eq!(averages[0], 2);
    assert!((averages[0] as f64 - expected).abs() < 1e-6);
}

#[test]
fn vertex_pressures_follow_the_active_buffer() {
    let mut buffers = tetrahedron_buffers();
    assert_eq!(buffers.vertex_pressures(), vec![1, 1, 1, 2]);
    buffers.step(|own: u32, _a: u32, _b: u32, _c: u32| own * 3);
    assert_eq!(buffers.active_pressures(), &vec![0, 3, 6, 9]);
    assert_eq!(buffers.vertex_pressures(), vec![4, 3, 5, 6]);
}
