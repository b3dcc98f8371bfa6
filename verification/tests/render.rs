use physarum::agent::Agent;
use physarum::compass::Compass;
use physarum::config::PopulationConfig;
use physarum::grid::Grid;
use physarum::model::Model;
use physarum::render::{exposure, gray_level, headroom, render, render_gray};
use physarum::render::{ToneCurve, SATURATING_QUANTILE};
use physarum::util::UNIT;

#[test]
fn saturating_quantile_is_just_below_the_whole() {
    assert_eq!(SATURATING_QUANTILE, (0.999 * UNIT as f64) as i64);
    assert!(SATURATING_QUANTILE < UNIT);
}

#[test]
fn headroom_adds_a_half() {
    assert_eq!(headroom(100), 150);
    assert_eq!(headroom(3), 4);
    assert_eq!(headroom(1), 1);
    assert_eq!(headroom(0), 0);
    assert_eq!(headroom(2 * UNIT), 3 * UNIT as i128);
    assert_eq!(headroom(i64::MAX), i64::MAX as i128 + (i64::MAX / 2) as i128);
}

#[test]
fn exposure_is_the_share_of_the_saturation_level() {
    assert_eq!(exposure(0, 100), 0);
    assert_eq!(exposure(50, 100), UNIT / 2);
    assert_eq!(exposure(25, 100), UNIT / 4);
    assert_eq!(exposure(1, 3), 21845);
    assert_eq!(exposure(99, 100), 64880);
}

#[test]
fn exposure_stays_between_dark_and_full() {
    assert_eq!(exposure(100, 100), UNIT);
    assert_eq!(exposure(101, 100), UNIT);
    assert_eq!(exposure(i64::MAX, 1), UNIT);
    assert_eq!(exposure(-5, 100), 0);
    assert_eq!(exposure(i64::MIN, 100), 0);
}

#[test]
fn exposure_of_an_empty_field_is_dark() {
    assert_eq!(exposure(0, 0), 0);
    assert_eq!(exposure(7, 0), 0);
    assert_eq!(exposure(7, -1), 0);
    assert_eq!(gray_level(7, 0), 0);
}

#[test]
fn gray_level_runs_from_black_to_white() {
    assert_eq!(gray_level(0, 100), 0);
    assert_eq!(gray_level(50, 100), 127);
    assert_eq!(gray_level(100, 100), 255);
    assert_eq!(gray_level(1000, 100), 255);
    assert_eq!(gray_level(1, 255), 0);
    assert_eq!(gray_level(2, 255), 1);
}

#[test]
fn model_snapshot_does_not_follow_the_model() {
    let config = PopulationConfig {
        sensor_distance: 2 * UNIT,
        step_distance: UNIT,
        sensor_angle: 1,
        rotation_angle: 1,
        decay_factor: UNIT / 2,
        deposition_amount: 5 * UNIT,
    };
    let compass = Compass::new(vec![(UNIT, 0), (0, UNIT), (-UNIT, 0), (0, -UNIT)]).unwrap();
    let field: Vec<i64> = (0..16).map(|c| c * UNIT).collect();
    let grid = Grid::from_field(4, 4, config, field.clone()).unwrap();
    let agent = Agent::at(UNIT, UNIT, 0, 0);
    let mut model = Model::from_parts(vec![agent], vec![grid], vec![vec![UNIT]], 1, compass).unwrap();
    let kept = model.snapshot();
    assert_eq!(kept.len(), 1);
    assert_eq!(kept[0].data(), &field);
    model.step();
    model.step();
    assert_eq!(kept[0].data(), &field);
    assert!(kept[0].buffer().iter().all(|&v| v == 0));
    assert_ne!(model.grids()[0].data(), &field);
    let later = model.snapshot();
    assert_eq!(later[0].data(), model.grids()[0].data());
    assert_eq!(later[0].buffer(), model.grids()[0].buffer());
}

fn small_model() -> Model {
    let config = PopulationConfig {
        sensor_distance: 2 * UNIT,
        step_distance: UNIT,
        sensor_angle: 1,
        rotation_angle: 1,
        decay_factor: UNIT / 2,
        deposition_amount: 5 * UNIT,
    };
    let compass = Compass::new(vec![(UNIT, 0), (0, UNIT), (-UNIT, 0), (0, -UNIT)]).unwrap();
    let grid = Grid::from_field(4, 4, config, vec![0; 16]).unwrap();
    let agent = Agent::at(UNIT, UNIT, 0, 0);
    Model::from_parts(vec![agent], vec![grid], vec![vec![UNIT]], 0, compass).unwrap()
}

#[test]
fn model_starts_with_nothing_kept() {
    assert!(small_model().image_data().is_empty());
}

#[test]
fn saved_image_data_is_kept_in_order() {
    let mut model = small_model();
    model.save_image_data();
    model.step();
    let after_one = model.grids()[0].data().clone();
    model.save_image_data();
    model.step();
    model.step();
    model.save_image_data();
    let kept = model.image_data();
    assert_eq!(kept.len(), 3);
    assert_eq!(kept[0].iteration(), 0);
    assert_eq!(kept[1].iteration(), 1);
    assert_eq!(kept[2].iteration(), 3);
    assert_eq!(kept[0].grids()[0].data(), &vec![0i64; 16]);
    assert_eq!(kept[1].grids()[0].data(), &after_one);
    assert_eq!(kept[1].grids()[0].data()[4 + 2], 5 * UNIT / 2);
    assert_eq!(kept[2].grids()[0].data(), model.grids()[0].data());
    assert_eq!(kept[2].grids().len(), 1);
}

#[test]
fn saving_image_data_leaves_the_model_as_it_was() {
    let mut model = small_model();
    model.step();
    let field = model.grids()[0].data().clone();
    let place = (model.agents()[0].x(), model.agents()[0].y(), model.agents()[0].heading());
    model.save_image_data();
    assert_eq!(model.grids()[0].data(), &field);
    assert_eq!(model.iteration(), 1);
    assert_eq!(
        (model.agents()[0].x(), model.agents()[0].y(), model.agents()[0].heading()),
        place
    );
}

#[test]
fn flushed_image_data_is_gone() {
    let mut model = small_model();
    model.save_image_data();
    model.step();
    model.save_image_data();
    let field = model.grids()[0].data().clone();
    model.flush_image_data();
    assert!(model.image_data().is_empty());
    assert_eq!(model.iteration(), 1);
    assert_eq!(model.grids()[0].data(), &field);
    model.flush_image_data();
    assert!(model.image_data().is_empty());
    model.save_image_data();
    assert_eq!(model.image_data().len(), 1);
    assert_eq!(model.image_data()[0].iteration(), 1);
}

fn config() -> PopulationConfig {
    PopulationConfig {
        sensor_distance: 2 * UNIT,
        step_distance: UNIT,
        sensor_angle: 1,
        rotation_angle: 1,
        decay_factor: UNIT / 2,
        deposition_amount: 5 * UNIT,
    }
}

fn straight() -> ToneCurve {
    ToneCurve::new((0..=UNIT).collect()).unwrap()
}

fn threshold() -> ToneCurve {
    ToneCurve::new((0..=UNIT).map(|t| if t >= UNIT / 2 { UNIT } else { 0 }).collect()).unwrap()
}

fn peaked() -> Vec<i64> {
    let mut field = vec![10i64; 1024];
    field[5 * 32 + 7] = 1000;
    field
}

#[test]
fn tone_curve_needs_a_level_for_every_exposure() {
    assert!(ToneCurve::new(Vec::new()).is_none());
    assert!(ToneCurve::new(vec![0; UNIT as usize]).is_none());
    assert!(ToneCurve::new(vec![0; UNIT as usize + 2]).is_none());
    assert!(ToneCurve::new(vec![0; UNIT as usize + 1]).is_some());
}

#[test]
fn tone_curve_refuses_a_level_out_of_range() {
    let mut levels: Vec<i64> = (0..=UNIT).collect();
    levels[100] = -1;
    assert!(ToneCurve::new(levels).is_none());
    let mut levels: Vec<i64> = (0..=UNIT).collect();
    levels[UNIT as usize] = UNIT + 1;
    assert!(ToneCurve::new(levels).is_none());
    assert!(ToneCurve::new(vec![UNIT; UNIT as usize + 1]).is_some());
}

#[test]
fn tone_curve_gives_the_level_of_an_exposure() {
    let curve = ToneCurve::new((0..=UNIT).map(|t| UNIT - t).collect()).unwrap();
    assert_eq!(curve.level(0), UNIT);
    assert_eq!(curve.level(1), UNIT - 1);
    assert_eq!(curve.level(UNIT / 4), 3 * UNIT / 4);
    assert_eq!(curve.level(UNIT), 0);
}

#[test]
fn gray_image_runs_up_to_the_saturating_quantile() {
    let grid = Grid::from_field(2, 2, config(), vec![0, 50, 100, 200]).unwrap();
    assert_eq!(render_gray(&grid), vec![0, 63, 127, 255]);
}

#[test]
fn gray_image_saturates_above_the_quantile() {
    let grid = Grid::from_field(32, 32, config(), peaked()).unwrap();
    assert_eq!(grid.quantile(SATURATING_QUANTILE), 10);
    let pixels = render_gray(&grid);
    assert_eq!(pixels.len(), 1024);
    assert!(pixels.iter().all(|&level| level == 255));
    let mut field = peaked();
    field[0] = 0;
    field[1] = 5;
    field[2] = 9;
    let pixels = render_gray(&Grid::from_field(32, 32, config(), field).unwrap());
    assert_eq!(&pixels[..4], &[0, 127, 229, 255]);
}

#[test]
fn gray_image_of_an_empty_field_is_black() {
    let grid = Grid::from_field(3, 2, config(), vec![0; 6]).unwrap();
    assert_eq!(render_gray(&grid), vec![0; 6]);
}

#[test]
fn colour_image_weighs_the_colour_by_exposure() {
    let grids = vec![Grid::from_field(2, 2, config(), vec![0, 50, 100, 200]).unwrap()];
    let pixels = render(&grids, &vec![(255, 128, 0)], &straight());
    assert_eq!(pixels, vec![(0, 0, 0), (42, 21, 0), (84, 42, 0), (169, 85, 0)]);
}

#[test]
fn colour_image_applies_the_tone_curve() {
    let grids = vec![Grid::from_field(2, 2, config(), vec![0, 50, 100, 200]).unwrap()];
    let pixels = render(&grids, &vec![(255, 128, 7)], &threshold());
    assert_eq!(pixels, vec![(0, 0, 0), (0, 0, 0), (0, 0, 0), (255, 128, 7)]);
}

#[test]
fn colour_image_adds_the_populations_and_stops_at_white() {
    let grids = vec![
        Grid::from_field(32, 32, config(), peaked()).unwrap(),
        Grid::from_field(32, 32, config(), peaked()).unwrap(),
    ];
    let pixels = render(&grids, &vec![(200, 10, 0), (100, 10, 1)], &straight());
    assert_eq!(pixels.len(), 1024);
    assert_eq!(pixels[5 * 32 + 7], (255, 20, 1));
    assert_eq!(pixels[0], (199, 13, 0));
    assert_eq!(pixels[1023], (199, 13, 0));
}

#[test]
fn colour_image_keeps_each_population_to_its_own_field() {
    let grids = vec![
        Grid::from_field(2, 1, config(), vec![200, 0]).unwrap(),
        Grid::from_field(2, 1, config(), vec![0, 200]).unwrap(),
    ];
    let pixels = render(&grids, &vec![(255, 0, 0), (0, 0, 255)], &straight());
    assert_eq!(pixels, vec![(169, 0, 0), (0, 0, 169)]);
}

#[test]
fn colour_image_leaves_out_populations_without_a_colour() {
    let grids = vec![
        Grid::from_field(2, 1, config(), vec![200, 0]).unwrap(),
        Grid::from_field(2, 1, config(), vec![0, 200]).unwrap(),
    ];
    let pixels = render(&grids, &vec![(255, 0, 0)], &straight());
    assert_eq!(pixels, vec![(169, 0, 0), (0, 0, 0)]);
    let pixels = render(&grids, &Vec::new(), &straight());
    assert_eq!(pixels, vec![(0, 0, 0), (0, 0, 0)]);
    let colours = vec![(255, 0, 0), (0, 0, 255), (0, 255, 0)];
    let pixels = render(&grids, &colours, &straight());
    assert_eq!(pixels, vec![(169, 0, 0), (0, 0, 169)]);
}

#[test]
fn colour_image_of_an_empty_field_is_black() {
    let grids = vec![Grid::from_field(2, 2, config(), vec![0; 4]).unwrap()];
    let pixels = render(&grids, &vec![(255, 255, 255)], &straight());
    assert_eq!(pixels, vec![(0, 0, 0); 4]);
}
