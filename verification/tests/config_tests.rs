use fluid_simulation::config::{Config, SetupError};
use fluid_simulation::constants::{
    HEATMAP_RESOLUTION, PARTICLE_AMT, PARTICLE_RADIUS, PARTICLE_SPACING, SMOOTHING_RADIUS,
    WINDOW_SIZE,
};

fn small() -> Config {
    Config {
        particle_count: 10,
        area_size: (100, 80),
        particle_radius: 2,
        particle_spacing: 5,
        smoothing_radius: 16,
        heatmap_resolution: 8,
    }
}

#[test]
fn the_standard_settings_are_the_constants() {
    let config = Config::standard();
    assert_eq!(config.particle_count, PARTICLE_AMT);
    assert_eq!(config.area_size, WINDOW_SIZE);
    assert_eq!(config.particle_radius, PARTICLE_RADIUS);
    assert_eq!(config.particle_spacing, PARTICLE_SPACING);
    assert_eq!(config.smoothing_radius, SMOOTHING_RADIUS);
    assert_eq!(config.heatmap_resolution, HEATMAP_RESOLUTION);
    assert_eq!(config.particle_count, 2048);
    assert_eq!(config.area_size, (1200, 900));
    assert_eq!(config.particle_radius, 3);
    assert_eq!(config.particle_spacing, 6);
    assert_eq!(config.smoothing_radius, 20);
    assert_eq!(config.heatmap_resolution, 8);
}

#[test]
fn the_standard_settings_are_valid() {
    assert_eq!(Config::standard().check(), Ok(()));
    assert_eq!(small().check(), Ok(()));
}

#[test]
fn the_lattice_side_is_the_root_rounded_up() {
    let mut config = small();
    let expected = [
        (0usize, 0u64),
        (1, 1),
        (2, 2),
        (3, 2),
        (4, 2),
        (5, 3),
        (9, 3),
        (10, 4),
        (16, 4),
        (17, 5),
        (2047, 46),
        (2048, 46),
        (2116, 46),
        (2117, 47),
        (1_000_000, 1000),
        (1_000_001, 1001),
    ];
    for (count, side) in expected {
        config.particle_count = count;
        assert_eq!(config.lattice_side(), side);
    }
}

#[test]
fn the_lookup_covers_the_area_with_cells_of_the_smoothing_radius() {
    assert_eq!(Config::standard().lookup_dimensions(), (60, 45));
    // 100 / 16 = 6.25 and 80 / 16 = 5.
    assert_eq!(small().lookup_dimensions(), (7, 5));
    let mut config = small();
    config.smoothing_radius = 1;
    assert_eq!(config.lookup_dimensions(), (100, 80));
    config.smoothing_radius = 1_000;
    assert_eq!(config.lookup_dimensions(), (1, 1));
    config.area_size = (u32::MAX, 0);
    assert_eq!(config.lookup_dimensions(), (4_294_968, 0));
}

#[test]
fn the_heatmap_has_a_sample_every_few_pixels() {
    assert_eq!(Config::standard().heatmap_dimensions(), (151, 113));
    // 100 / 8 = 12.5 and 80 / 8 = 10.
    assert_eq!(small().heatmap_dimensions(), (13, 11));
    assert_eq!(Config::standard().heatmap_point(0, 0), (0, 0));
    assert_eq!(Config::standard().heatmap_point(150, 112), (1200, 896));
    assert_eq!(small().heatmap_point(3, 10), (24, 80));
    let mut config = small();
    config.heatmap_resolution = 1;
    config.area_size = (u32::MAX, 5);
    assert_eq!(config.heatmap_dimensions(), (4_294_967_296, 6));
    assert_eq!(
        config.heatmap_point(4_294_967_295, 5),
        (4_294_967_295, 5)
    );
}

#[test]
fn settings_without_particles_are_refused() {
    let mut config = small();
    config.particle_count = 0;
    assert_eq!(config.check(), Err(SetupError::NoParticles));
    // The first flaw is the one reported.
    config.smoothing_radius = 0;
    config.heatmap_resolution = 0;
    assert_eq!(config.check(), Err(SetupError::NoParticles));
}

#[test]
fn settings_without_a_smoothing_radius_are_refused() {
    let mut config = small();
    config.smoothing_radius = 0;
    assert_eq!(config.check(), Err(SetupError::NoSmoothingRadius));
    config.heatmap_resolution = 0;
    config.particle_spacing = 0;
    assert_eq!(config.check(), Err(SetupError::NoSmoothingRadius));
}

#[test]
fn settings_without_a_heatmap_resolution_are_refused() {
    let mut config = small();
    config.heatmap_resolution = 0;
    assert_eq!(config.check(), Err(SetupError::NoHeatmapResolution));
    config.particle_spacing = 0;
    assert_eq!(config.check(), Err(SetupError::NoHeatmapResolution));
}

#[test]
fn a_spacing_below_two_radii_is_refused() {
    let mut config = small();
    config.particle_spacing = 3;
    assert_eq!(config.check(), Err(SetupError::SpacingTooSmall));
    config.particle_spacing = 4;
    assert_eq!(config.check(), Ok(()));
    config.particle_radius = u32::MAX;
    config.particle_spacing = u32::MAX;
    assert_eq!(config.check(), Err(SetupError::SpacingTooSmall));
    config.area_size = (0, 0);
    assert_eq!(config.check(), Err(SetupError::SpacingTooSmall));
}

#[test]
fn an_area_without_a_strip_for_the_centres_is_refused() {
    let mut config = small();
    config.particle_count = 1;
    config.area_size = (4, 80);
    assert_eq!(config.check(), Err(SetupError::AreaTooSmall));
    config.area_size = (100, 4);
    assert_eq!(config.check(), Err(SetupError::AreaTooSmall));
    config.area_size = (0, 0);
    assert_eq!(config.check(), Err(SetupError::AreaTooSmall));
    // One particle, a lattice of one: 5 + 4 <= 9 both ways.
    config.area_size = (9, 9);
    assert_eq!(config.check(), Ok(()));
    config.area_size = (8, 9);
    assert_eq!(config.check(), Err(SetupError::AreaTooSmall));
    config.area_size = (9, 8);
    assert_eq!(config.check(), Err(SetupError::AreaTooSmall));
}

#[test]
fn an_area_with_too_few_places_is_refused() {
    // Radius 2: a particle takes at most 7 * 7 = 49 places from the others.
    // A hundred particles need more than 99 * 49 = 4851 places.
    let mut config = small();
    config.particle_count = 100;
    // 70 * 70 = 4900 places; the lattice is 10 * 5 = 50 wide.
    config.area_size = (74, 74);
    assert_eq!(config.check(), Ok(()));
    // 70 * 69 = 4830 places.
    config.area_size = (74, 73);
    assert_eq!(config.check(), Err(SetupError::AreaTooSmall));
    // 4851 = 63 * 77: exactly as many places as can be taken.
    config.area_size = (67, 81);
    assert_eq!(config.check(), Err(SetupError::AreaTooSmall));
    config.area_size = (67, 82);
    assert_eq!(config.check(), Ok(()));
}

#[test]
fn an_area_that_the_lattice_does_not_fit_is_refused() {
    // Ten particles: a lattice of four columns, 4 * 5 = 20 wide, and
    // 10 * 5 / 4 = 12 high; with two radii, 24 by 16. Radius 0 leaves room
    // for any number of particles placed at random.
    let mut config = small();
    config.particle_radius = 0;
    config.area_size = (20, 12);
    assert_eq!(config.check(), Ok(()));
    config.area_size = (19, 12);
    assert_eq!(config.check(), Err(SetupError::AreaTooSmall));
    config.area_size = (20, 11);
    assert_eq!(config.check(), Err(SetupError::AreaTooSmall));
    config.particle_spacing = 0;
    config.area_size = (1, 1);
    assert_eq!(config.check(), Ok(()));
}

#[test]
fn huge_settings_are_checked_without_overflow() {
    let config = Config {
        particle_count: usize::MAX,
        area_size: (u32::MAX, u32::MAX),
        particle_radius: 1,
        particle_spacing: u32::MAX,
        smoothing_radius: u32::MAX,
        heatmap_resolution: u32::MAX,
    };
    assert_eq!(config.check(), Err(SetupError::AreaTooSmall));
    let config = Config {
        particle_count: 1_000_000,
        area_size: (u32::MAX, u32::MAX),
        particle_radius: 1_000,
        particle_spacing: 2_000,
        smoothing_radius: 1,
        heatmap_resolution: 1,
    };
    assert_eq!(config.check(), Ok(()));
}
