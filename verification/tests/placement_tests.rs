use fluid_simulation::config::Config;
use fluid_simulation::game_context::GameContext;
use fluid_simulation::placement::overlaps;

fn small() -> Config {
    Config {
        particle_count: 10,
        area_size: (100, 80),
        particle_radius: 2,
        particle_spacing: 5,
        smoothing_radius: 16,
        heatmap_resolution: 8,
    }
}

fn check_random_placement(config: &Config, positions: &Vec<(i64, i64)>) {
    let r = config.particle_radius as i64;
    let (w, h) = (config.area_size.0 as i64, config.area_size.1 as i64);
    assert_eq!(positions.len(), config.particle_count);
    for p in positions {
        assert!(r <= p.0 && p.0 < w - r);
        assert!(r <= p.1 && p.1 < h - r);
    }
    for i in 0..positions.len() {
        for j in 0..i {
            let dx = positions[i].0 - positions[j].0;
            let dy = positions[i].1 - positions[j].1;
            assert!(dx * dx + dy * dy >= 4 * r * r);
        }
    }
}

#[test]
fn particles_overlap_when_closer_than_two_radii() {
    let placed = vec![(10, 10), (40, 40)];
    // Radius 3: closer than 6 is too close.
    assert!(overlaps(&placed, (10, 10), 3));
    assert!(overlaps(&placed, (15, 10), 3));
    assert!(overlaps(&placed, (10, 5), 3));
    assert!(!overlaps(&placed, (16, 10), 3));
    assert!(!overlaps(&placed, (10, 4), 3));
    // 4 * 4 + 4 * 4 = 32 < 36, 5 * 5 + 4 * 4 = 41 >= 36.
    assert!(overlaps(&placed, (14, 14), 3));
    assert!(!overlaps(&placed, (15, 14), 3));
    // 3 * 3 + 5 * 5 = 34 < 36, 6 * 6 + 0 = 36.
    assert!(overlaps(&placed, (43, 35), 3));
    assert!(!overlaps(&placed, (46, 40), 3));
    assert!(!overlaps(&placed, (25, 25), 3));
}

#[test]
fn nothing_overlaps_with_radius_zero_or_no_particles() {
    let placed = vec![(10, 10)];
    assert!(!overlaps(&placed, (10, 10), 0));
    assert!(!overlaps(&placed, (11, 10), 0));
    assert!(!overlaps(&Vec::new(), (10, 10), 3));
    assert!(!overlaps(&Vec::new(), (10, 10), u32::MAX));
}

#[test]
fn overlap_is_told_for_the_largest_numbers() {
    let placed = vec![(i64::MIN, i64::MIN), (i64::MAX, i64::MAX)];
    assert!(!overlaps(&placed, (0, 0), u32::MAX));
    assert!(overlaps(&placed, (i64::MAX, i64::MAX), 1));
    assert!(overlaps(&placed, (i64::MIN + 1, i64::MIN), 1));
    assert!(!overlaps(&placed, (i64::MIN + 2, i64::MIN), 1));
    assert!(overlaps(
        &placed,
        (i64::MAX - 2 * (u32::MAX as i64) + 1, i64::MAX),
        u32::MAX
    ));
    assert!(!overlaps(
        &placed,
        (i64::MAX - 2 * (u32::MAX as i64), i64::MAX),
        u32::MAX
    ));
}

#[test]
fn the_standard_lattice_stands_in_the_middle_of_the_area() {
    let config = Config::standard();
    assert_eq!(config.check(), Ok(()));
    let positions = GameContext::create_particles_grid(&config);
    assert_eq!(positions.len(), 2048);
    // 46 to a row: the lattice is 46 * 6 = 276 wide and 2048 * 6 / 46 = 267
    // high; its corner lies at (1200 - 276) / 2 = 462 and (900 - 267) / 2,
    // rounded down, = 316.
    assert_eq!(positions[0], (462, 316));
    assert_eq!(positions[1], (468, 316));
    assert_eq!(positions[45], (732, 316));
    assert_eq!(positions[46], (462, 322));
    assert_eq!(positions[47], (468, 322));
    assert_eq!(positions[2047], (462 + 23 * 6, 316 + 44 * 6));
    for (index, position) in positions.iter().enumerate() {
        let index = index as i64;
        assert_eq!(*position, (462 + (index % 46) * 6, 316 + (index / 46) * 6));
    }
}

#[test]
fn a_small_lattice_is_filled_row_by_row() {
    let config = small();
    assert_eq!(config.check(), Ok(()));
    // Four to a row: 20 wide, 10 * 5 / 4 = 12 high; corner at (40, 34).
    assert_eq!(
        GameContext::create_particles_grid(&config),
        vec![
            (40, 34),
            (45, 34),
            (50, 34),
            (55, 34),
            (40, 39),
            (45, 39),
            (50, 39),
            (55, 39),
            (40, 44),
            (45, 44)
        ]
    );
}

#[test]
fn a_lattice_of_one_particle_is_its_corner() {
    let mut config = small();
    config.particle_count = 1;
    config.area_size = (10, 9);
    assert_eq!(config.check(), Ok(()));
    // (10 - 5) / 2 = 2 rounded down, (9 - 5) / 2 = 2.
    assert_eq!(GameContext::create_particles_grid(&config), vec![(2, 2)]);
}

#[test]
fn the_particles_of_a_lattice_do_not_overlap() {
    let config = Config::standard();
    let positions = GameContext::create_particles_grid(&config);
    for i in 0..positions.len() {
        assert!(!overlaps(
            &positions[..i].to_vec(),
            positions[i],
            config.particle_radius
        ));
        assert!(3 <= positions[i].0 && positions[i].0 <= 1200 - 3);
        assert!(3 <= positions[i].1 && positions[i].1 <= 900 - 3);
    }
}

#[test]
fn random_particles_lie_within_the_area_and_do_not_overlap() {
    let config = small();
    assert_eq!(config.check(), Ok(()));
    for _ in 0..20 {
        let positions = GameContext::create_particles_random_pos(&config);
        check_random_placement(&config, &positions);
    }
}

#[test]
fn the_standard_random_placement_is_valid() {
    let config = Config::standard();
    let positions = GameContext::create_particles_random_pos(&config);
    check_random_placement(&config, &positions);
}

#[test]
fn random_particles_are_spread_over_the_area() {
    // Were every draw the least number of its range, the particles would
    // fill the area from the near corner, row by row, and none of fifty
    // would get beyond the first two columns of places.
    let mut config = Config::standard();
    config.particle_count = 50;
    assert_eq!(config.check(), Ok(()));
    let positions = GameContext::create_particles_random_pos(&config);
    check_random_placement(&config, &positions);
    assert!(positions.iter().any(|p| p.0 >= 100));
    assert!(positions.iter().any(|p| p.1 >= 100));
    assert!(positions.iter().any(|p| p.0 < 1100));
    assert!(positions.iter().any(|p| p.1 < 800));
}

#[test]
fn two_random_placements_differ() {
    let config = Config::standard();
    let first = GameContext::create_particles_random_pos(&config);
    let second = GameContext::create_particles_random_pos(&config);
    assert_ne!(first, second);
}

#[test]
fn a_crowded_area_is_filled_to_the_last_place() {
    // Radius 1: a particle takes at most 9 places, so 6 particles need more
    // than 45 places. An area of 10 by 8 has 8 * 6 = 48 places; the lattice
    // of 3 by 2 fits.
    let config = Config {
        particle_count: 6,
        area_size: (10, 8),
        particle_radius: 1,
        particle_spacing: 2,
        smoothing_radius: 4,
        heatmap_resolution: 2,
    };
    assert_eq!(config.check(), Ok(()));
    for _ in 0..50 {
        let positions = GameContext::create_particles_random_pos(&config);
        check_random_placement(&config, &positions);
    }
}

#[test]
fn particles_without_radius_may_share_a_place() {
    let config = Config {
        particle_count: 40,
        area_size: (2, 3),
        particle_radius: 0,
        particle_spacing: 0,
        smoothing_radius: 1,
        heatmap_resolution: 1,
    };
    assert_eq!(config.check(), Ok(()));
    let positions = GameContext::create_particles_random_pos(&config);
    check_random_placement(&config, &positions);
    // The lattice has no extent: all particles stand in the middle.
    assert_eq!(GameContext::create_particles_grid(&config), vec![(1, 1); 40]);
}
