use tectonic_plate_simulator::mantle_grid::MantleGrid;
use tectonic_plate_simulator::pressure_buffers::{
    flatten_neighbors, incidence_fits, pad_incidence, prepare_buffers, ActiveBuffer,
    MAX_TRIANGLES_PER_VERTEX, UNUSED_SLOT,
};

fn tetrahedron_grid() -> MantleGrid {
    MantleGrid::from_parts(4, vec![0, 1, 2, 0, 3, 1, 1, 3, 2, 2, 3, 0]).unwrap()
}

#[test]
fn flat_neighbors_have_three_entries_for_each_cell() {
    let flat = flatten_neighbors(&vec![vec![1, 2, 3], vec![3, 2, 0], vec![1, 3, 0], vec![2, 1, 0]]);
    assert_eq!(flat, vec![1, 2, 3, 3, 2, 0, 1, 3, 0, 2, 1, 0]);
}

#[test]
fn rows_are_padded_with_the_unused_mark() {
    let padded = pad_incidence(&vec![vec![0, 1, 3], vec![], vec![7]]);
    let u = UNUSED_SLOT;
    assert_eq!(
        padded,
        vec![0, 1, 3, u, u, u, u, u, u, u, u, u, u, u, u, u, 7, u, u, u, u, u, u, u]
    );
}

#[test]
fn full_row_has_no_unused_slot() {
    let padded = pad_incidence(&vec![vec![10, 11, 12, 13, 14, 15, 16, 17]]);
    assert_eq!(padded, vec![10, 11, 12, 13, 14, 15, 16, 17]);
}

#[test]
fn row_longer_than_the_capacity_does_not_fit() {
    assert!(incidence_fits(&vec![vec![0; MAX_TRIANGLES_PER_VERTEX], vec![]]));
    assert!(!incidence_fits(&vec![vec![0, 1], vec![0; MAX_TRIANGLES_PER_VERTEX + 1]]));
    assert!(incidence_fits(&Vec::new()));
}

#[test]
fn buffers_of_a_tetrahedron() {
    let grid = tetrahedron_grid();
    assert!(incidence_fits(&grid.vertex_triangles));
    let buffers = prepare_buffers(&grid, None);
    let u = UNUSED_SLOT;
    assert_eq!(buffers.num_cells, 4);
    assert_eq!(buffers.num_vertices, 4);
    assert_eq!(buffers.active, ActiveBuffer::ActiveA);
    assert_eq!(buffers.pressure_buffer_a, vec![0, 1, 2, 3]);
    assert_eq!(buffers.pressure_buffer_b, vec![0, 1, 2, 3]);
    assert_eq!(buffers.neighbors_buffer, vec![1, 2, 3, 3, 2, 0, 1, 3, 0, 2, 1, 0]);
    assert_eq!(
        buffers.vertex_triangles_buffer,
        vec![
            0, 1, 3, u, u, u, u, u, 0, 1, 2, u, u, u, u, u, 0, 2, 3, u, u, u, u, u, 1, 2, 3, u, u,
            u, u, u
        ]
    );
}

#[test]
fn buffers_are_allocated_once() {
    let grid = tetrahedron_grid();
    let mut first = prepare_buffers(&grid, None);
    first.pressure_buffer_a[0] = 99;
    first.active = ActiveBuffer::ActiveB;
    let again = prepare_buffers(&grid, Some(first));
    assert_eq!(again.pressure_buffer_a, vec![99, 1, 2, 3]);
    assert_eq!(again.active, ActiveBuffer::ActiveB);
}

#[test]
fn used_slots_are_three_for_each_cell() {
    for level in 0..4usize {
        let grid = MantleGrid::new(level).unwrap();
        assert!(incidence_fits(&grid.vertex_triangles));
        let buffers = prepare_buffers(&grid, None);
        let used = buffers.vertex_triangles_buffer.iter().filter(|&&slot| slot != UNUSED_SLOT).count();
        assert_eq!(used, 3 * grid.cells.len());
        assert_eq!(buffers.vertex_triangles_buffer.len(), 8 * grid.sphere.vertex_count);
        assert_eq!(buffers.neighbors_buffer.len(), 3 * grid.cells.len());
    }
}

#[test]
fn table_images_hold_the_words_in_memory_order() {
    let grid = tetrahedron_grid();
    let buffers = prepare_buffers(&grid, None);
    let images = buffers.table_images();
    assert_eq!(images.neighbors.len(), 48);
    assert_eq!(images.vertex_triangles.len(), 128);
    let low_first: Vec<u8> =
        buffers.neighbors_buffer.iter().flat_map(|word| word.to_le_bytes()).collect();
    let high_first: Vec<u8> =
        buffers.neighbors_buffer.iter().flat_map(|word| word.to_be_bytes()).collect();
    assert!(images.neighbors == low_first || images.neighbors == high_first);
    let native: Vec<u8> =
        buffers.vertex_triangles_buffer.iter().flat_map(|word| word.to_ne_bytes()).collect();
    assert_eq!(images.vertex_triangles, native);
}

#[test]
fn flipped_twice_is_the_same_buffer() {
    assert_eq!(ActiveBuffer::ActiveA.flipped(), ActiveBuffer::ActiveB);
    assert_eq!(ActiveBuffer::ActiveB.flipped(), ActiveBuffer::ActiveA);
    assert_eq!(ActiveBuffer::ActiveA.flipped().flipped(), ActiveBuffer::ActiveA);
}

#[test]
fn prepared_buffers_are_well_formed() {
    let buffers = prepare_buffers(&tetrahedron_grid(), None);
    assert!(buffers.is_well_formed());
}

#[test]
fn tampered_buffers_are_not_well_formed() {
    let mut buffers = prepare_buffers(&tetrahedron_grid(), None);
    buffers.neighbors_buffer[5] = 4;
    assert!(!buffers.is_well_formed());

    let mut buffers = prepare_buffers(&tetrahedron_grid(), None);
    buffers.pressure_buffer_b.push(0);
    assert!(!buffers.is_well_formed());

    let mut buffers = prepare_buffers(&tetrahedron_grid(), None);
    buffers.vertex_triangles_buffer.pop();
    assert!(!buffers.is_well_formed());

    let mut buffers = prepare_buffers(&tetrahedron_grid(), None);
    buffers.num_cells = 5;
    assert!(!buffers.is_well_formed());
}
