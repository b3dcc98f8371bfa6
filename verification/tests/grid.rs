use physarum::config::{ConfigError, PopulationConfig, MAX_SIDE, TRAIL_MAX};
use physarum::grid::{combine, Grid};
use physarum::util::UNIT;

fn config() -> PopulationConfig {
    PopulationConfig {
        sensor_distance: 2 * UNIT,
        step_distance: UNIT,
        sensor_angle: 1,
        rotation_angle: 1,
        decay_factor: UNIT / 2,
        deposition_amount: 5 * UNIT,
    }
}

fn lasting() -> PopulationConfig {
    PopulationConfig { decay_factor: UNIT, ..config() }
}

fn ramp() -> Grid {
    Grid::from_field(2, 2, config(), vec![0, UNIT, 2 * UNIT, 3 * UNIT]).unwrap()
}

fn sensing(grid: Grid) -> Grid {
    let mut grids = vec![grid];
    combine(&mut grids, &vec![vec![UNIT]]);
    grids.pop().unwrap()
}

#[test]
fn new_grid_has_small_random_trail_and_a_zero_buffer() {
    let grid = Grid::new(8, 4, config()).unwrap();
    assert_eq!(grid.width(), 8);
    assert_eq!(grid.height(), 4);
    assert_eq!(grid.config(), config());
    assert_eq!(grid.data().len(), 32);
    assert_eq!(grid.buffer().len(), 32);
    assert!(grid.data().iter().all(|&v| 0 <= v && v < UNIT));
    assert!(grid.buffer().iter().all(|&v| v == 0));
}

#[test]
fn new_grid_draws_its_trail_at_random() {
    let grid = Grid::new(16, 16, config()).unwrap();
    let first = grid.data()[0];
    assert!(grid.data().iter().any(|&v| v != first));
}

#[test]
fn grid_without_cells_is_refused() {
    assert_eq!(Grid::new(0, 4, config()).err(), Some(ConfigError::EmptyGrid));
    assert_eq!(Grid::new(4, 0, config()).err(), Some(ConfigError::EmptyGrid));
    assert_eq!(Grid::from_field(0, 0, config(), Vec::new()).err(), Some(ConfigError::EmptyGrid));
}

#[test]
fn grid_beyond_the_largest_side_is_refused() {
    assert_eq!(Grid::new(MAX_SIDE + 1, 1, config()).err(), Some(ConfigError::GridTooLarge));
    assert_eq!(
        Grid::from_field(1, MAX_SIDE + 1, config(), vec![0]).err(),
        Some(ConfigError::GridTooLarge)
    );
}

#[test]
fn grid_with_an_invalid_population_is_refused() {
    let fading_up = PopulationConfig { decay_factor: UNIT + 1, ..config() };
    assert_eq!(Grid::new(2, 2, fading_up).err(), Some(ConfigError::InvalidPopulation));
    let backward = PopulationConfig { step_distance: -1, ..config() };
    assert_eq!(Grid::new(2, 2, backward).err(), Some(ConfigError::InvalidPopulation));
    let flooding = PopulationConfig { deposition_amount: TRAIL_MAX + 1, ..config() };
    assert_eq!(
        Grid::from_field(1, 1, flooding, vec![0]).err(),
        Some(ConfigError::InvalidPopulation)
    );
}

#[test]
fn field_of_the_wrong_length_is_refused() {
    assert_eq!(
        Grid::from_field(2, 2, config(), vec![0, 0, 0]).err(),
        Some(ConfigError::FieldShape)
    );
}

#[test]
fn field_with_a_value_out_of_range_is_refused() {
    assert_eq!(
        Grid::from_field(2, 1, config(), vec![0, -1]).err(),
        Some(ConfigError::TrailOutOfRange)
    );
    assert_eq!(
        Grid::from_field(2, 1, config(), vec![TRAIL_MAX + 1, 0]).err(),
        Some(ConfigError::TrailOutOfRange)
    );
    assert!(Grid::from_field(2, 1, config(), vec![TRAIL_MAX, 0]).is_ok());
}

#[test]
fn field_given_is_the_field_held() {
    let grid = ramp();
    assert_eq!(grid.data(), &vec![0, UNIT, 2 * UNIT, 3 * UNIT]);
    assert_eq!(grid.buffer(), &vec![0i128; 4]);
}

#[test]
fn sample_at_a_lattice_point_is_the_value_there() {
    let grid = sensing(ramp());
    assert_eq!(grid.sample(0, 0), 0);
    assert_eq!(grid.sample(UNIT, 0), UNIT as i128);
    assert_eq!(grid.sample(0, UNIT), 2 * UNIT as i128);
    assert_eq!(grid.sample(UNIT, UNIT), 3 * UNIT as i128);
}

#[test]
fn sample_between_lattice_points_interpolates() {
    let grid = sensing(ramp());
    assert_eq!(grid.sample(UNIT / 2, 0), (UNIT / 2) as i128);
    assert_eq!(grid.sample(0, UNIT / 2), UNIT as i128);
    assert_eq!(grid.sample(UNIT / 2, UNIT / 2), (3 * UNIT / 2) as i128);
    assert_eq!(grid.sample(UNIT / 4, 0), (UNIT / 4) as i128);
}

#[test]
fn sample_wraps_past_the_edge() {
    let grid = sensing(ramp());
    assert_eq!(grid.sample(3 * UNIT / 2, 0), (UNIT / 2) as i128);
    assert_eq!(grid.sample(0, 3 * UNIT / 2), UNIT as i128);
    assert_eq!(grid.sample(2 * UNIT, 2 * UNIT), 0);
    assert_eq!(grid.sample(-UNIT, 0), UNIT as i128);
    assert_eq!(grid.sample(-UNIT / 2, 0), (UNIT / 2) as i128);
    for x in [-5 * UNIT / 4, UNIT / 3, 7 * UNIT / 8] {
        for y in [-UNIT / 7, UNIT / 2, 9 * UNIT / 5] {
            let here = grid.sample(x, y);
            assert_eq!(grid.sample(x + 2 * UNIT, y), here);
            assert_eq!(grid.sample(x, y - 4 * UNIT), here);
        }
    }
}

#[test]
fn sample_reads_the_buffer_and_not_the_trail() {
    let grid = ramp();
    assert_eq!(grid.sample(UNIT, UNIT), 0);
}

#[test]
fn deposit_lands_on_the_nearest_cell() {
    let mut grid = Grid::from_field(4, 4, config(), vec![0; 16]).unwrap();
    grid.deposit(6 * UNIT / 10, 0);
    assert_eq!(grid.data()[1], 5 * UNIT);
    grid.deposit(2 * UNIT + UNIT / 4, UNIT + UNIT / 2);
    assert_eq!(grid.data()[2 * 4 + 2], 5 * UNIT);
    grid.deposit(UNIT / 2 - 1, 3 * UNIT);
    assert_eq!(grid.data()[3 * 4], 5 * UNIT);
    let touched = [1usize, 10, 12];
    for (cell, &value) in grid.data().iter().enumerate() {
        if !touched.contains(&cell) {
            assert_eq!(value, 0);
        }
    }
}

#[test]
fn deposit_wraps_a_point_off_the_grid() {
    let mut grid = Grid::from_field(4, 4, config(), vec![0; 16]).unwrap();
    grid.deposit(-4 * UNIT / 10, 0);
    assert_eq!(grid.data()[0], 5 * UNIT);
    grid.deposit(-6 * UNIT / 10, 0);
    assert_eq!(grid.data()[3], 5 * UNIT);
    grid.deposit(3 * UNIT + 6 * UNIT / 10, 0);
    assert_eq!(grid.data()[0], 10 * UNIT);
    grid.deposit(9 * UNIT, -3 * UNIT);
    assert_eq!(grid.data()[4 + 1], 5 * UNIT);
}

#[test]
fn deposit_accumulates_and_saturates() {
    let mut grid = Grid::from_field(1, 1, config(), vec![TRAIL_MAX - 7 * UNIT]).unwrap();
    grid.deposit(0, 0);
    assert_eq!(grid.data()[0], TRAIL_MAX - 2 * UNIT);
    grid.deposit(0, 0);
    assert_eq!(grid.data()[0], TRAIL_MAX);
    grid.deposit(0, 0);
    assert_eq!(grid.data()[0], TRAIL_MAX);
}

#[test]
fn deposit_leaves_the_buffer_alone() {
    let mut grid = sensing(ramp());
    let before = grid.buffer().clone();
    grid.deposit(UNIT, UNIT);
    assert_eq!(grid.buffer(), &before);
}

#[test]
fn deposit_without_blur_or_decay_changes_one_cell() {
    let field: Vec<i64> = (0..20).map(|c| c * 1000).collect();
    let mut grid = Grid::from_field(5, 4, lasting(), field.clone()).unwrap();
    grid.deposit(3 * UNIT, 2 * UNIT);
    grid.diffuse(0);
    for (cell, &value) in grid.data().iter().enumerate() {
        if cell == 2 * 5 + 3 {
            assert_eq!(value, field[cell] + 5 * UNIT);
        } else {
            assert_eq!(value, field[cell]);
        }
    }
}

#[test]
fn diffuse_with_radius_zero_only_decays() {
    let mut grid = ramp();
    grid.diffuse(0);
    assert_eq!(grid.data(), &vec![0, UNIT / 2, UNIT, 3 * UNIT / 2]);
}

#[test]
fn diffuse_spreads_a_peak_over_its_neighbourhood() {
    let mut field = vec![0i64; 16];
    field[4 + 1] = 9 * UNIT;
    let mut grid = Grid::from_field(4, 4, lasting(), field).unwrap();
    grid.diffuse(1);
    for row in 0..4 {
        for column in 0..4 {
            let expected = if row <= 2 && column <= 2 { UNIT } else { 0 };
            assert_eq!(grid.data()[row * 4 + column], expected);
        }
    }
}

#[test]
fn diffuse_wraps_at_the_edges() {
    let mut field = vec![0i64; 25];
    field[0] = 9 * UNIT;
    let mut grid = Grid::from_field(5, 5, config(), field).unwrap();
    grid.diffuse(1);
    for row in 0..5usize {
        for column in 0..5usize {
            let near = |i: usize| i <= 1 || i == 4;
            let expected = if near(row) && near(column) { UNIT / 2 } else { 0 };
            assert_eq!(grid.data()[row * 5 + column], expected);
        }
    }
}

#[test]
fn diffuse_with_a_window_wider_than_the_grid_counts_every_turn() {
    let mut grid = Grid::from_field(2, 1, lasting(), vec![3 * UNIT, 0]).unwrap();
    grid.diffuse(1);
    assert_eq!(grid.data(), &vec![UNIT, 2 * UNIT]);
}

#[test]
fn diffuse_rounds_the_mean_down() {
    let mut grid = Grid::from_field(3, 1, lasting(), vec![1, 1, 0]).unwrap();
    grid.diffuse(1);
    assert_eq!(grid.data(), &vec![0, 0, 0]);
    let mut grid = Grid::from_field(3, 1, lasting(), vec![10, 0, 0]).unwrap();
    grid.diffuse(1);
    assert_eq!(grid.data(), &vec![3, 3, 3]);
}

#[test]
fn diffuse_leaves_the_buffer_alone() {
    let mut grid = sensing(ramp());
    let before = grid.buffer().clone();
    grid.diffuse(1);
    assert_eq!(grid.buffer(), &before);
}

#[test]
fn quantile_of_nothing_and_everything_are_minimum_and_maximum() {
    let grid = Grid::from_field(3, 2, config(), vec![40, 7, 99, 7, 1000, 12]).unwrap();
    assert_eq!(grid.quantile(0), 7);
    assert_eq!(grid.quantile(UNIT), 1000);
}

#[test]
fn quantile_picks_the_value_at_its_rank() {
    let grid = Grid::from_field(3, 2, config(), vec![40, 7, 99, 7, 1000, 12]).unwrap();
    assert_eq!(grid.quantile(UNIT / 6), 7);
    assert_eq!(grid.quantile(UNIT / 2), 40);
    assert_eq!(grid.quantile(UNIT / 3 + 1), 12);
    assert_eq!(grid.quantile(2 * UNIT / 3 + 1), 99);
    assert_eq!(grid.quantile(UNIT - 1), 1000);
}

#[test]
fn quantile_of_a_flat_field_is_its_value() {
    let grid = Grid::from_field(4, 4, config(), vec![0; 16]).unwrap();
    assert_eq!(grid.quantile(0), 0);
    assert_eq!(grid.quantile(65470), 0);
    assert_eq!(grid.quantile(UNIT), 0);
    let full = Grid::from_field(2, 2, config(), vec![TRAIL_MAX; 4]).unwrap();
    assert_eq!(full.quantile(0), TRAIL_MAX);
    assert_eq!(full.quantile(UNIT), TRAIL_MAX);
}

#[test]
fn quantile_agrees_with_sorting() {
    let field: Vec<i64> = (0..64).map(|c| (c * 7919 + 13) % 1009).collect();
    let grid = Grid::from_field(8, 8, config(), field.clone()).unwrap();
    let mut sorted = field;
    sorted.sort();
    for q in [0, 1, 1024, UNIT / 3, UNIT / 2, 65470, UNIT - 1, UNIT] {
        let rank = ((64 * q / UNIT) as usize).min(63);
        assert_eq!(grid.quantile(q), sorted[rank]);
    }
}

#[test]
fn snapshot_does_not_follow_the_grid() {
    let mut grid = sensing(ramp());
    let copy = grid.snapshot();
    assert_eq!(copy.data(), grid.data());
    assert_eq!(copy.buffer(), grid.buffer());
    assert_eq!(copy.width(), 2);
    assert_eq!(copy.height(), 2);
    assert_eq!(copy.config(), config());
    grid.deposit(0, 0);
    grid.diffuse(1);
    assert_eq!(copy.data(), &vec![0, UNIT, 2 * UNIT, 3 * UNIT]);
    assert_ne!(copy.data(), grid.data());
}

#[test]
fn combine_with_the_identity_table_copies_each_trail() {
    let first = Grid::from_field(2, 2, config(), vec![1, 20, 300, 4000]).unwrap();
    let second = Grid::from_field(2, 2, config(), vec![5, 0, TRAIL_MAX, 7]).unwrap();
    let third = Grid::from_field(2, 2, config(), vec![9, 9, 9, 9]).unwrap();
    let mut grids = vec![first, second, third];
    let table = vec![vec![UNIT, 0, 0], vec![0, UNIT, 0], vec![0, 0, UNIT]];
    combine(&mut grids, &table);
    for grid in &grids {
        let trail: Vec<i128> = grid.data().iter().map(|&v| v as i128).collect();
        assert_eq!(grid.buffer(), &trail);
    }
    assert_eq!(grids[1].data(), &vec![5, 0, TRAIL_MAX, 7]);
}

#[test]
fn combine_weighs_every_trail() {
    let first = Grid::from_field(1, 2, config(), vec![3 * UNIT, UNIT]).unwrap();
    let second = Grid::from_field(1, 2, config(), vec![UNIT, 4 * UNIT]).unwrap();
    let mut grids = vec![first, second];
    combine(&mut grids, &vec![vec![UNIT, -UNIT], vec![-UNIT, UNIT]]);
    assert_eq!(grids[0].buffer(), &vec![2 * UNIT as i128, -3 * UNIT as i128]);
    assert_eq!(grids[1].buffer(), &vec![-2 * UNIT as i128, 3 * UNIT as i128]);
    combine(&mut grids, &vec![vec![UNIT / 2, 2 * UNIT], vec![0, -UNIT / 4]]);
    assert_eq!(grids[0].buffer(), &vec![(7 * UNIT / 2) as i128, (17 * UNIT / 2) as i128]);
    assert_eq!(grids[1].buffer(), &vec![(-UNIT / 4) as i128, -UNIT as i128]);
}

#[test]
fn combine_rounds_the_sum_down_once() {
    let first = Grid::from_field(1, 1, config(), vec![1]).unwrap();
    let second = Grid::from_field(1, 1, config(), vec![1]).unwrap();
    let mut grids = vec![first, second];
    combine(&mut grids, &vec![vec![UNIT / 2, UNIT / 2], vec![-1, 0]]);
    assert_eq!(grids[0].buffer(), &vec![1i128]);
    assert_eq!(grids[1].buffer(), &vec![-1i128]);
}

#[test]
fn combine_overwrites_the_buffer_and_keeps_the_trail() {
    let mut grids = vec![ramp()];
    combine(&mut grids, &vec![vec![UNIT]]);
    combine(&mut grids, &vec![vec![-2 * UNIT]]);
    assert_eq!(
        grids[0].buffer(),
        &vec![0, -2 * UNIT as i128, -4 * UNIT as i128, -6 * UNIT as i128]
    );
    assert_eq!(grids[0].data(), &vec![0, UNIT, 2 * UNIT, 3 * UNIT]);
}

#[test]
fn random_population_is_within_its_ranges() {
    for turn in [1usize, 2, 3, 360, 3600] {
        for _ in 0..100 {
            let drawn = PopulationConfig::random(turn);
            assert!(drawn.is_valid());
            assert!(0 <= drawn.sensor_distance && drawn.sensor_distance <= 64 * UNIT);
            assert!(13107 <= drawn.step_distance && drawn.step_distance <= 2 * UNIT);
            assert!(drawn.sensor_angle <= turn / 3);
            assert!(drawn.rotation_angle <= turn / 3);
            assert_eq!(drawn.decay_factor, 6554);
            assert_eq!(drawn.deposition_amount, 5 * UNIT);
        }
    }
}

#[test]
fn random_populations_differ() {
    let drawn: Vec<PopulationConfig> = (0..32).map(|_| PopulationConfig::random(3600)).collect();
    assert!(drawn.iter().any(|c| c.sensor_distance != drawn[0].sensor_distance));
    assert!(drawn.iter().any(|c| c.step_distance != drawn[0].step_distance));
    assert!(drawn.iter().any(|c| c.sensor_angle != drawn[0].sensor_angle));
    assert!(drawn.iter().any(|c| c.rotation_angle != drawn[0].rotation_angle));
}

#[test]
fn population_within_the_limits_is_valid() {
    assert!(config().is_valid());
    assert!(!PopulationConfig { sensor_distance: -1, ..config() }.is_valid());
    assert!(!PopulationConfig { deposition_amount: -1, ..config() }.is_valid());
    assert!(!PopulationConfig { decay_factor: -1, ..config() }.is_valid());
    assert!(PopulationConfig { decay_factor: 0, sensor_angle: usize::MAX, ..config() }.is_valid());
}
