use tectonic_plate_simulator::gizmos::draw_triangle_grid;
use tectonic_plate_simulator::mantle_grid::MantleGrid;

#[test]
fn overlay_of_a_tetrahedron() {
    let grid = MantleGrid::from_parts(4, vec![0, 1, 2, 0, 3, 1, 1, 3, 2, 2, 3, 0]).unwrap();
    let overlay = draw_triangle_grid(&grid);
    assert_eq!(
        overlay.edges,
        vec![
            (0, 1),
            (1, 2),
            (2, 0),
            (0, 3),
            (3, 1),
            (1, 0),
            (1, 3),
            (3, 2),
            (2, 1),
            (2, 3),
            (3, 0),
            (0, 2)
        ]
    );
    assert_eq!(overlay.centers, vec![0, 1, 2, 3]);
    assert_eq!(overlay.links, vec![(0, 1), (0, 2), (0, 3), (1, 3), (1, 2), (2, 3)]);
}

#[test]
fn every_pair_of_neighbors_is_linked_once() {
    let grid = MantleGrid::new(2).unwrap();
    let overlay = draw_triangle_grid(&grid);
    assert_eq!(overlay.edges.len(), 3 * grid.cells.len());
    assert_eq!(overlay.centers.len(), grid.cells.len());
    assert_eq!(overlay.links.len(), 3 * grid.cells.len() / 2);
    for &(from, to) in &overlay.links {
        assert!(from < to);
        assert!(grid.neighbors[from].contains(&to));
    }
    let mut sorted = overlay.links.clone();
    sorted.sort();
    sorted.dedup();
    assert_eq!(sorted.len(), overlay.links.len());
}
