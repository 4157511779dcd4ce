use escape_maze::player::{Direction, Player, CELL_UNITS, ONE};
use escape_maze::scene::{cell_index, check_victory, Scene};

fn units(x: i64) -> i64 {
    x * ONE as i64
}

fn player_at(x: i64, y: i64) -> Player {
    Player { x, y, heading: Direction::new(0, ONE) }
}

fn scene(goal: Option<(usize, usize)>) -> Scene {
    Scene { maze_data: Vec::new(), goal }
}

#[test]
fn cell_index_rounds_to_the_nearest_cell() {
    assert_eq!(CELL_UNITS, 100);
    assert_eq!(cell_index(units(0)), 0);
    assert_eq!(cell_index(units(49)), 0);
    assert_eq!(cell_index(units(51)), 1);
    assert_eq!(cell_index(units(100)), 1);
    assert_eq!(cell_index(units(149)), 1);
    assert_eq!(cell_index(units(151)), 2);
    assert_eq!(cell_index(units(1234)), 12);
}

#[test]
fn cell_index_rounds_halves_up() {
    assert_eq!(cell_index(units(50)), 1);
    assert_eq!(cell_index(units(50) - 1), 0);
    assert_eq!(cell_index(units(150)), 2);
    assert_eq!(cell_index(units(150) - 1), 1);
    assert_eq!(cell_index(units(250)), 3);
}

#[test]
fn cell_index_below_zero_is_zero() {
    assert_eq!(cell_index(-1), 0);
    assert_eq!(cell_index(units(-49)), 0);
    assert_eq!(cell_index(units(-50)), 0);
    assert_eq!(cell_index(units(-1000)), 0);
    assert_eq!(cell_index(i64::MIN), 0);
}

#[test]
fn cell_index_is_the_nearest_cell() {
    for pos in [0i64, 1, 3276799, 3276800, 6553600, 9830399, 9830400, 1 << 40, i64::MAX] {
        let cell = cell_index(pos) as i128;
        let twice = 2 * pos as i128;
        assert!((2 * cell - 1) * 6553600 <= twice && twice < (2 * cell + 1) * 6553600);
    }
}

#[test]
fn cell_index_of_the_largest_position() {
    let expected = (2 * (i64::MAX as i128) + 6553600) / 13107200;
    assert_eq!(cell_index(i64::MAX) as i128, expected);
}

#[test]
fn victory_when_the_cell_is_the_goal() {
    let s = scene(Some((1, 2)));
    assert!(check_victory(&player_at(units(200), units(100)), &s));
    assert!(check_victory(&player_at(units(150), units(50)), &s));
    assert!(check_victory(&player_at(units(250) - 1, units(150) - 1), &s));
}

#[test]
fn no_victory_next_to_the_goal() {
    let s = scene(Some((1, 2)));
    assert!(!check_victory(&player_at(units(150) - 1, units(100)), &s));
    assert!(!check_victory(&player_at(units(250), units(100)), &s));
    assert!(!check_victory(&player_at(units(200), units(50) - 1), &s));
    assert!(!check_victory(&player_at(units(200), units(150)), &s));
}

#[test]
fn goal_is_row_then_column() {
    let s = scene(Some((1, 2)));
    assert!(!check_victory(&player_at(units(100), units(200)), &s));
    let t = scene(Some((2, 1)));
    assert!(check_victory(&player_at(units(100), units(200)), &t));
}

#[test]
fn no_victory_without_a_goal() {
    let s = scene(None);
    assert!(!check_victory(&player_at(0, 0), &s));
    assert!(!check_victory(&player_at(units(200), units(100)), &s));
}

#[test]
fn victory_at_the_origin_from_negative_positions() {
    let s = scene(Some((0, 0)));
    assert!(check_victory(&player_at(units(-300), units(-1)), &s));
    assert!(check_victory(&player_at(units(49), units(49)), &s));
    assert!(!check_victory(&player_at(units(50), units(49)), &s));
}
