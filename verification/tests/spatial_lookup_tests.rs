use fluid_simulation::spatial_lookup::SpatialLookup;

#[test]
fn new_grid_has_the_dimensions_asked_for() {
    let lookup = SpatialLookup::new(20, (60, 45));
    assert_eq!(lookup.dimensions(), (60, 45));
    assert_eq!(lookup.cell_size(), 20);
}

#[test]
fn query_on_an_empty_grid_finds_nothing() {
    let lookup = SpatialLookup::new(20, (6, 4));
    assert_eq!(lookup.query_radius((50, 50), 20), Vec::<usize>::new());
    assert_eq!(lookup.query_radius((50, 50), 1_000_000), Vec::<usize>::new());
    assert_eq!(lookup.query_radius((-5, 900), 0), Vec::<usize>::new());
}

#[test]
fn a_particle_is_filed_in_the_cell_of_its_position() {
    // Cells are 20 wide: (25, 47) lies in cell (1, 2).
    let mut lookup = SpatialLookup::new(20, (6, 4));
    lookup.add_particle(7, (25, 47));
    // A radius of zero reaches the cell of the point only.
    assert_eq!(lookup.query_radius((20, 40), 0), vec![7]);
    assert_eq!(lookup.query_radius((39, 59), 0), vec![7]);
    assert_eq!(lookup.query_radius((40, 59), 0), Vec::<usize>::new());
    assert_eq!(lookup.query_radius((39, 60), 0), Vec::<usize>::new());
    assert_eq!(lookup.query_radius((19, 40), 0), Vec::<usize>::new());
    assert_eq!(lookup.query_radius((20, 39), 0), Vec::<usize>::new());
}

#[test]
fn a_radius_below_zero_reaches_the_cell_of_the_point_only() {
    let mut lookup = SpatialLookup::new(20, (6, 4));
    lookup.add_particle(0, (30, 30));
    lookup.add_particle(1, (50, 30));
    lookup.add_particle(2, (30, 50));
    assert_eq!(lookup.query_radius((25, 25), -1), vec![0]);
    assert_eq!(lookup.query_radius((25, 25), -1_000), vec![0]);
    assert_eq!(lookup.query_radius((25, 25), i64::MIN), vec![0]);
    assert_eq!(lookup.query_radius((45, 25), -3), vec![1]);
}

#[test]
fn a_query_reaches_the_cells_that_its_square_touches() {
    let mut lookup = SpatialLookup::new(10, (5, 5));
    // One particle in the middle of every cell; index = 5 * x + y.
    for x in 0..5usize {
        for y in 0..5usize {
            lookup.add_particle(5 * x + y, (10 * x as i64 + 5, 10 * y as i64 + 5));
        }
    }
    // Around (25, 25) with radius 10: from 15 to 35, cells 1 to 3 both ways.
    assert_eq!(
        lookup.query_radius((25, 25), 10),
        vec![6, 7, 8, 11, 12, 13, 16, 17, 18]
    );
    // With radius 4: from 21 to 29, the cell (2, 2) alone.
    assert_eq!(lookup.query_radius((25, 25), 4), vec![12]);
    // With radius 5: from 20 to 30, cells 2 to 3.
    assert_eq!(lookup.query_radius((25, 25), 5), vec![12, 13, 17, 18]);
    // With radius 6: from 19 to 31, cells 1 to 3.
    assert_eq!(
        lookup.query_radius((25, 25), 6),
        vec![6, 7, 8, 11, 12, 13, 16, 17, 18]
    );
}

#[test]
fn results_come_column_by_column_in_the_order_of_filing() {
    let mut lookup = SpatialLookup::new(10, (2, 2));
    lookup.add_particle(5, (15, 15));
    lookup.add_particle(3, (5, 15));
    lookup.add_particle(9, (5, 5));
    lookup.add_particle(1, (15, 5));
    lookup.add_particle(4, (5, 5));
    lookup.add_particle(9, (5, 5));
    assert_eq!(lookup.query_radius((10, 10), 10), vec![9, 4, 9, 3, 1, 5]);
}

#[test]
fn positions_off_the_grid_are_filed_in_the_cells_at_its_edge() {
    let mut lookup = SpatialLookup::new(10, (3, 2));
    lookup.add_particle(0, (-1, -1));
    lookup.add_particle(1, (i64::MIN, 5));
    lookup.add_particle(2, (1_000, 1_000));
    lookup.add_particle(3, (i64::MAX, i64::MAX));
    lookup.add_particle(4, (15, i64::MAX));
    lookup.add_particle(5, (30, 20));
    assert_eq!(lookup.query_radius((0, 0), 0), vec![0, 1]);
    assert_eq!(lookup.query_radius((25, 15), 0), vec![2, 3, 5]);
    assert_eq!(lookup.query_radius((15, 15), 0), vec![4]);
    // A query far off the grid looks into the cells at the edge.
    assert_eq!(lookup.query_radius((-500, -500), 3), vec![0, 1]);
    assert_eq!(lookup.query_radius((i64::MAX, i64::MAX), 5), vec![2, 3, 5]);
    // From zero to beyond the far edge: the whole grid.
    assert_eq!(
        lookup.query_radius((i64::MAX, i64::MAX), i64::MAX),
        vec![0, 1, 4, 2, 3, 5]
    );
    assert_eq!(lookup.query_radius((i64::MIN, i64::MIN), i64::MAX), vec![0, 1]);
}

#[test]
fn a_query_over_the_whole_grid_finds_everything() {
    let mut lookup = SpatialLookup::new(10, (3, 2));
    let positions = [(29, 19), (0, 0), (15, 5), (15, 15), (0, 19), (-4, 100)];
    for (index, position) in positions.iter().enumerate() {
        lookup.add_particle(index, *position);
    }
    let mut found = lookup.query_radius((15, 10), 30);
    assert_eq!(found, vec![1, 4, 5, 2, 3, 0]);
    found.sort();
    assert_eq!(found, vec![0, 1, 2, 3, 4, 5]);
}

#[test]
fn clear_empties_every_cell_and_keeps_the_shape() {
    let mut lookup = SpatialLookup::new(10, (3, 2));
    lookup.add_particle(0, (5, 5));
    lookup.add_particle(1, (25, 15));
    lookup.clear();
    assert_eq!(lookup.dimensions(), (3, 2));
    assert_eq!(lookup.cell_size(), 10);
    assert_eq!(lookup.query_radius((15, 10), 100), Vec::<usize>::new());
    lookup.add_particle(2, (5, 5));
    assert_eq!(lookup.query_radius((15, 10), 100), vec![2]);
}

#[test]
fn a_copy_has_the_same_cells_and_a_life_of_its_own() {
    let mut lookup = SpatialLookup::new(10, (3, 2));
    lookup.add_particle(0, (5, 5));
    lookup.add_particle(1, (25, 15));
    let mut copy = lookup.copy();
    assert_eq!(copy.dimensions(), (3, 2));
    assert_eq!(copy.cell_size(), 10);
    assert_eq!(copy.query_radius((15, 10), 100), vec![0, 1]);
    copy.add_particle(2, (5, 5));
    assert_eq!(copy.query_radius((15, 10), 100), vec![0, 2, 1]);
    assert_eq!(lookup.query_radius((15, 10), 100), vec![0, 1]);
}

#[test]
fn a_grid_of_one_cell_holds_everything() {
    let mut lookup = SpatialLookup::new(1, (1, 1));
    lookup.add_particle(0, (0, 0));
    lookup.add_particle(1, (77, -3));
    assert_eq!(lookup.query_radius((1_000, 1_000), 0), vec![0, 1]);
    assert_eq!(lookup.query_radius((0, 0), -7), vec![0, 1]);
}
