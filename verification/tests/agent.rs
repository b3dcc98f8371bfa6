use physarum::agent::{steer_among, Agent};
use physarum::compass::Compass;
use physarum::config::PopulationConfig;
use physarum::grid::{combine, Grid};
use physarum::util::UNIT;

fn quarter_turns() -> Compass {
    Compass::new(vec![(UNIT, 0), (0, UNIT), (-UNIT, 0), (0, -UNIT)]).unwrap()
}

fn fine_compass(turn: usize) -> Compass {
    let table = (0..turn)
        .map(|k| {
            let angle = (k as f64) * std::f64::consts::TAU / (turn as f64);
            (
                (angle.cos() * UNIT as f64).round() as i64,
                (angle.sin() * UNIT as f64).round() as i64,
            )
        })
        .collect();
    Compass::new(table).unwrap()
}

fn config() -> PopulationConfig {
    PopulationConfig {
        sensor_distance: 2 * UNIT,
        step_distance: UNIT,
        sensor_angle: 1,
        rotation_angle: 1,
        decay_factor: UNIT / 2,
        deposition_amount: 5 * UNIT,
    }
}

fn sensing(width: usize, height: usize, field: Vec<i64>) -> Grid {
    let mut grids = vec![Grid::from_field(width, height, config(), field).unwrap()];
    combine(&mut grids, &vec![vec![UNIT]]);
    grids.pop().unwrap()
}

fn state(agent: &Agent) -> (i64, i64, usize, usize) {
    (agent.x(), agent.y(), agent.heading(), agent.population_id())
}

#[test]
fn agent_is_what_it_was_made_of() {
    let agent = Agent::at(3 * UNIT, 5 * UNIT / 2, 2, 7);
    assert_eq!(state(&agent), (3 * UNIT, 5 * UNIT / 2, 2, 7));
}

#[test]
fn new_agent_stands_on_the_grid() {
    for id in 0..200 {
        let agent = Agent::new(8, 3, id, 5);
        assert!(0 <= agent.x() && agent.x() < 8 * UNIT);
        assert!(0 <= agent.y() && agent.y() < 3 * UNIT);
        assert!(agent.heading() < 5);
        assert_eq!(agent.population_id(), id);
    }
}

#[test]
fn new_agents_are_spread_at_random() {
    let agents: Vec<Agent> = (0..64).map(|_| Agent::new(1024, 1024, 0, 360)).collect();
    assert!(agents.iter().any(|a| a.x() != agents[0].x()));
    assert!(agents.iter().any(|a| a.y() != agents[0].y()));
    assert!(agents.iter().any(|a| a.heading() != agents[0].heading()));
}

#[test]
fn moving_straight_keeps_the_heading() {
    let compass = quarter_turns();
    let mut agent = Agent::at(UNIT, UNIT, 0, 0);
    agent.rotate_and_move(0, 1, UNIT, 8, 8, &compass);
    assert_eq!(state(&agent), (2 * UNIT, UNIT, 0, 0));
    agent.rotate_and_move(0, 3, UNIT / 2, 8, 8, &compass);
    assert_eq!(state(&agent), (5 * UNIT / 2, UNIT, 0, 0));
}

#[test]
fn turning_comes_before_moving() {
    let compass = quarter_turns();
    let mut agent = Agent::at(UNIT, UNIT, 0, 4);
    agent.rotate_and_move(1, 1, UNIT, 8, 8, &compass);
    assert_eq!(state(&agent), (UNIT, 2 * UNIT, 1, 4));
    agent.rotate_and_move(-1, 2, 3 * UNIT, 8, 8, &compass);
    assert_eq!(state(&agent), (UNIT, 7 * UNIT, 3, 4));
    agent.rotate_and_move(1, 3, UNIT, 8, 8, &compass);
    assert_eq!(state(&agent), (0, 7 * UNIT, 2, 4));
}

#[test]
fn moving_wraps_on_both_axes() {
    let compass = quarter_turns();
    let mut agent = Agent::at(15 * UNIT / 2, 0, 0, 0);
    agent.rotate_and_move(0, 1, UNIT, 8, 4, &compass);
    assert_eq!(state(&agent), (UNIT / 2, 0, 0, 0));
    agent.rotate_and_move(-1, 1, UNIT, 8, 4, &compass);
    assert_eq!(state(&agent), (UNIT / 2, 3 * UNIT, 3, 0));
    agent.rotate_and_move(-1, 1, UNIT, 8, 4, &compass);
    assert_eq!(state(&agent), (15 * UNIT / 2, 3 * UNIT, 2, 0));
    agent.rotate_and_move(-1, 1, 9 * UNIT, 8, 4, &compass);
    assert_eq!(state(&agent), (15 * UNIT / 2, 0, 1, 0));
}

#[test]
fn moving_along_a_diagonal_uses_the_compass() {
    let compass = fine_compass(8);
    let (cosine, sine) = compass.direction(1);
    assert_eq!(cosine, 46341);
    assert_eq!(sine, 46341);
    let mut agent = Agent::at(UNIT, UNIT, 0, 0);
    agent.rotate_and_move(1, 1, 2 * UNIT, 8, 8, &compass);
    assert_eq!(state(&agent), (UNIT + 2 * 46341, UNIT + 2 * 46341, 1, 0));
    agent.rotate_and_move(1, 4, UNIT, 8, 8, &compass);
    assert_eq!(state(&agent), (UNIT + 46341, UNIT + 46341, 5, 0));
}

#[test]
fn moving_rounds_each_component_down() {
    let compass = fine_compass(8);
    let mut agent = Agent::at(UNIT, UNIT, 1, 0);
    agent.rotate_and_move(0, 0, 3, 8, 8, &compass);
    assert_eq!(state(&agent), (UNIT + 2, UNIT + 2, 1, 0));
    agent.rotate_and_move(1, 4, 3, 8, 8, &compass);
    assert_eq!(state(&agent), (UNIT - 1, UNIT - 1, 5, 0));
}

#[test]
fn agent_stays_in_bounds_whatever_it_is_told() {
    let compass = fine_compass(360);
    let mut agent = Agent::at(i64::MAX, i64::MIN, usize::MAX, 0);
    let orders = [
        (1i8, usize::MAX, i64::MAX),
        (-1, usize::MAX, i64::MIN),
        (i8::MIN, 17, 1),
        (i8::MAX, 359, -UNIT),
        (0, 0, 0),
    ];
    for (direction, rotation, step) in orders {
        agent.rotate_and_move(direction, rotation, step, 7, 5, &compass);
        assert!(0 <= agent.x() && agent.x() < 7 * UNIT);
        assert!(0 <= agent.y() && agent.y() < 5 * UNIT);
        assert!(agent.heading() < 360);
    }
}

#[test]
fn sensors_sit_ahead_left_and_right() {
    let compass = quarter_turns();
    let mut field = vec![0i64; 64];
    field[4 * 8 + 6] = 10 * UNIT;
    field[2 * 8 + 4] = 20 * UNIT;
    field[6 * 8 + 4] = 30 * UNIT;
    let grid = sensing(8, 8, field);
    let east = Agent::at(4 * UNIT, 4 * UNIT, 0, 0);
    assert_eq!(
        east.sense(&grid, &compass),
        (10 * UNIT as i128, 20 * UNIT as i128, 30 * UNIT as i128)
    );
    let west = Agent::at(4 * UNIT, 4 * UNIT, 2, 0);
    assert_eq!(west.sense(&grid, &compass), (0, 30 * UNIT as i128, 20 * UNIT as i128));
    let south = Agent::at(4 * UNIT, 4 * UNIT, 1, 0);
    assert_eq!(south.sense(&grid, &compass), (30 * UNIT as i128, 10 * UNIT as i128, 0));
}

#[test]
fn sensors_reach_round_the_torus() {
    let compass = quarter_turns();
    let mut field = vec![0i64; 16];
    field[1] = 7 * UNIT;
    let grid = sensing(4, 4, field);
    let agent = Agent::at(3 * UNIT, 0, 0, 0);
    assert_eq!(agent.sense(&grid, &compass).0, 7 * UNIT as i128);
}

#[test]
fn steering_turns_toward_the_stronger_side() {
    let compass = quarter_turns();
    let mut field = vec![0i64; 64];
    field[6 * 8 + 4] = 30 * UNIT;
    let grid = sensing(8, 8, field);
    let mut agent = Agent::at(4 * UNIT, 4 * UNIT, 0, 0);
    agent.steer(&grid, &compass);
    assert_eq!(state(&agent), (4 * UNIT, 5 * UNIT, 1, 0));

    let mut field = vec![0i64; 64];
    field[2 * 8 + 4] = 30 * UNIT;
    let grid = sensing(8, 8, field);
    let mut agent = Agent::at(4 * UNIT, 4 * UNIT, 0, 0);
    agent.steer(&grid, &compass);
    assert_eq!(state(&agent), (4 * UNIT, 3 * UNIT, 3, 0));
}

#[test]
fn steering_goes_straight_on_a_flat_buffer() {
    let compass = quarter_turns();
    let grid = sensing(8, 8, vec![UNIT; 64]);
    let mut agent = Agent::at(4 * UNIT, 4 * UNIT, 2, 0);
    agent.steer(&grid, &compass);
    assert_eq!(state(&agent), (3 * UNIT, 4 * UNIT, 2, 0));
}

#[test]
fn steering_in_a_tie_turns_one_way_or_the_other() {
    let compass = quarter_turns();
    let mut field = vec![0i64; 64];
    field[2 * 8 + 4] = 30 * UNIT;
    field[6 * 8 + 4] = 20 * UNIT;
    let grid = sensing(8, 8, field);
    let mut lefts = 0;
    let mut rights = 0;
    for _ in 0..200 {
        let mut agent = Agent::at(4 * UNIT, 4 * UNIT, 0, 0);
        agent.steer(&grid, &compass);
        if state(&agent) == (4 * UNIT, 3 * UNIT, 3, 0) {
            lefts += 1;
        } else {
            assert_eq!(state(&agent), (4 * UNIT, 5 * UNIT, 1, 0));
            rights += 1;
        }
    }
    assert!(lefts > 0 && rights > 0);
}

#[test]
fn steering_among_grids_uses_the_grid_of_the_population() {
    let compass = quarter_turns();
    let mut toward_left = vec![0i64; 64];
    toward_left[2 * 8 + 4] = 30 * UNIT;
    let mut toward_right = vec![0i64; 64];
    toward_right[6 * 8 + 4] = 30 * UNIT;
    let grids = vec![sensing(8, 8, toward_left), sensing(8, 8, toward_right)];
    let mut first = Agent::at(4 * UNIT, 4 * UNIT, 0, 0);
    steer_among(&mut first, &grids, &compass);
    assert_eq!(state(&first), (4 * UNIT, 3 * UNIT, 3, 0));
    let mut second = Agent::at(4 * UNIT, 4 * UNIT, 0, 1);
    steer_among(&mut second, &grids, &compass);
    assert_eq!(state(&second), (4 * UNIT, 5 * UNIT, 1, 1));
}
