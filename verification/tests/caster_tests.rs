use escape_maze::caster::{
    cast_ray, probe, sample_coord, step_limit, texture_u, Probe, PATH_COLOR, TEXTURE_SIZE,
};
use escape_maze::framebuffer::Framebuffer;
use escape_maze::player::{Direction, Player, ONE};

fn grid(lines: &[&str]) -> Vec<Vec<char>> {
    lines.iter().map(|l| l.chars().collect()).collect()
}

fn room() -> Vec<Vec<char>> {
    grid(&["+--+", "|  |", "|  |", "+--+"])
}

fn at(x: i64, y: i64) -> Player {
    Player { x: x * ONE as i64, y: y * ONE as i64, heading: Direction::new(ONE, 0) }
}

fn east() -> Direction {
    Direction::new(ONE, 0)
}

fn west() -> Direction {
    Direction::new(-ONE, 0)
}

fn south() -> Direction {
    Direction::new(0, ONE)
}

fn north() -> Direction {
    Direction::new(0, -ONE)
}

#[test]
fn direction_keeps_components_in_range() {
    let d = Direction::new(123, -456);
    assert_eq!((d.cos(), d.sin()), (123, -456));
    let d = Direction::new(ONE, -ONE);
    assert_eq!((d.cos(), d.sin()), (65536, -65536));
}

#[test]
fn direction_clamps_components_out_of_range() {
    let d = Direction::new(ONE + 1, -ONE - 1);
    assert_eq!((d.cos(), d.sin()), (65536, -65536));
    let d = Direction::new(i32::MIN, i32::MAX);
    assert_eq!((d.cos(), d.sin()), (-65536, 65536));
}

#[test]
fn sample_coord_truncates_the_position() {
    assert_eq!(sample_coord(15 * 65536, 65536, 15), 30);
    assert_eq!(sample_coord(65535, 0, 5), 0);
    assert_eq!(sample_coord(65536, 0, 5), 1);
    assert_eq!(sample_coord(3 * 65536 + 1, 32768, 3), 4);
    assert_eq!(sample_coord(15 * 65536, 46341, 21), 29);
    assert_eq!(sample_coord(15 * 65536, 46341, 22), 30);
}

#[test]
fn sample_coord_below_zero_is_zero() {
    assert_eq!(sample_coord(0, -65536, 1), 0);
    assert_eq!(sample_coord(-1, 0, 0), 0);
    assert_eq!(sample_coord(-5 * 65536, 65536, 4), 0);
    assert_eq!(sample_coord(-5 * 65536, 65536, 5), 0);
    assert_eq!(sample_coord(-5 * 65536, 65536, 6), 1);
    assert_eq!(sample_coord(i64::MIN, i32::MIN, u32::MAX), 0);
}

#[test]
fn sample_coord_of_the_largest_inputs() {
    let p = i64::MAX as i128 + (u32::MAX as i128) * (i32::MAX as i128);
    assert_eq!(sample_coord(i64::MAX, i32::MAX, u32::MAX) as i128, p / 65536);
}

#[test]
fn texture_u_takes_the_horizontal_offset_inside_the_cell() {
    assert_eq!(texture_u(5, 3, 10), 64);
    assert_eq!(texture_u(2, 3, 10), 25);
    assert_eq!(texture_u(8, 3, 10), 102);
    assert_eq!(texture_u(50, 0, 100), 64);
    assert_eq!(texture_u(98, 7, 100), 125);
}

#[test]
fn texture_u_takes_the_vertical_offset_at_the_edges() {
    assert_eq!(texture_u(0, 3, 10), 38);
    assert_eq!(texture_u(1, 3, 10), 38);
    assert_eq!(texture_u(9, 3, 10), 38);
    assert_eq!(texture_u(99, 7, 100), 8);
    assert_eq!(texture_u(1, 99, 100), 126);
    assert_eq!(texture_u(0, 0, 1), 0);
    assert_eq!(texture_u(1, 1, 2), 64);
}

#[test]
fn texture_u_stays_below_the_texture_width() {
    assert_eq!(TEXTURE_SIZE, 128);
    for block in [1usize, 2, 3, 7, 100, 129, 1000] {
        for hit in 0..block {
            assert!(texture_u(hit, block - 1, block) < 128);
            assert!(texture_u(block - 1, hit, block) < 128);
        }
    }
    assert_eq!(texture_u(usize::MAX - 2, 0, usize::MAX), 127);
}

#[test]
fn probe_tells_open_wall_and_outside() {
    let maze = room();
    assert!(matches!(probe(&maze, 15, 15, 10), Probe::Open));
    assert!(matches!(probe(&maze, 29, 29, 10), Probe::Open));
    assert!(matches!(probe(&maze, 30, 15, 10), Probe::Hit { impact: '|', tx: 64 }));
    assert!(matches!(probe(&maze, 17, 30, 10), Probe::Hit { impact: '-', tx: 89 }));
    assert!(matches!(probe(&maze, 0, 0, 10), Probe::Hit { impact: '+', tx: 0 }));
    assert!(matches!(probe(&maze, 40, 15, 10), Probe::Escaped));
    assert!(matches!(probe(&maze, 15, 40, 10), Probe::Escaped));
    assert!(matches!(probe(&maze, usize::MAX, usize::MAX, 10), Probe::Escaped));
}

#[test]
fn probe_sees_the_goal_as_a_wall() {
    let maze = grid(&["+-+", "|g|", "+-+"]);
    assert!(matches!(probe(&maze, 15, 13, 10), Probe::Hit { impact: 'g', tx: 64 }));
}

#[test]
fn probe_checks_each_row_by_its_own_length() {
    let maze = grid(&["+--+", "|", "+--+"]);
    assert!(matches!(probe(&maze, 25, 15, 10), Probe::Escaped));
    assert!(matches!(probe(&maze, 25, 5, 10), Probe::Hit { impact: '-', .. }));
    assert!(matches!(probe(&Vec::new(), 0, 0, 10), Probe::Escaped));
}

#[test]
fn step_limit_is_twice_the_grid_span_and_one() {
    assert_eq!(step_limit(&room(), 10), 161);
    assert_eq!(step_limit(&room(), 100), 1601);
    assert_eq!(step_limit(&grid(&["    "]), 10), 101);
    assert_eq!(step_limit(&Vec::new(), 10), 1);
    assert_eq!(step_limit(&room(), 0), 1);
    assert_eq!(step_limit(&room(), usize::MAX), u32::MAX);
    assert_eq!(step_limit(&room(), 268435455), 4294967281);
    assert_eq!(step_limit(&room(), 268435456), u32::MAX);
}

#[test]
fn ray_east_stops_at_the_wall() {
    let mut fb = Framebuffer::new(40, 40);
    let hit = cast_ray(&mut fb, &room(), &at(15, 15), east(), 10, false);
    assert_eq!(hit.distance, 15);
    assert_eq!(hit.impact, '|');
    assert_eq!(hit.tx, 64);
}

#[test]
fn ray_west_north_south_stop_at_the_walls() {
    let mut fb = Framebuffer::new(40, 40);
    let maze = room();
    let hit = cast_ray(&mut fb, &maze, &at(15, 13), west(), 10, false);
    assert_eq!((hit.distance, hit.impact, hit.tx), (6, '|', 38));
    let hit = cast_ray(&mut fb, &maze, &at(17, 15), south(), 10, false);
    assert_eq!((hit.distance, hit.impact, hit.tx), (15, '-', 89));
    let hit = cast_ray(&mut fb, &maze, &at(12, 15), north(), 10, false);
    assert_eq!((hit.distance, hit.impact, hit.tx), (6, '-', 25));
}

#[test]
fn ray_distance_is_the_number_of_steps_to_the_wall() {
    let mut fb = Framebuffer::new(1, 1);
    let maze = grid(&["+----------+", "|          |", "+----------+"]);
    for n in 1..100u32 {
        let start = 110 - n as i64;
        let hit = cast_ray(&mut fb, &maze, &at(start, 15), east(), 10, false);
        assert_eq!(hit.distance, n);
        assert_eq!(hit.impact, '|');
    }
}

#[test]
fn ray_along_the_diagonal_stops_in_the_corner() {
    let mut fb = Framebuffer::new(40, 40);
    let dir = Direction::new(46341, 46341);
    let hit = cast_ray(&mut fb, &room(), &at(15, 15), dir, 10, false);
    assert_eq!((hit.distance, hit.impact, hit.tx), (22, '+', 0));
}

#[test]
fn ray_that_starts_in_a_wall_has_distance_zero() {
    let mut fb = Framebuffer::new(40, 40);
    let hit = cast_ray(&mut fb, &room(), &at(5, 15), east(), 10, true);
    assert_eq!((hit.distance, hit.impact, hit.tx), (0, '|', 64));
    assert!(fb.buffer().iter().all(|&p| p == 0));
}

#[test]
fn ray_from_a_negative_position_starts_at_zero() {
    let mut fb = Framebuffer::new(40, 40);
    let hit = cast_ray(&mut fb, &room(), &at(-5, 15), east(), 10, false);
    assert_eq!((hit.distance, hit.impact), (0, '|'));
}

#[test]
fn ray_that_leaves_the_grid_reports_no_impact() {
    let mut fb = Framebuffer::new(50, 10);
    let maze = grid(&["    "]);
    let hit = cast_ray(&mut fb, &maze, &at(5, 5), east(), 10, false);
    assert_eq!((hit.distance, hit.impact, hit.tx), (35, ' ', 0));
    let hit = cast_ray(&mut fb, &maze, &at(5, 5), south(), 10, false);
    assert_eq!((hit.distance, hit.impact, hit.tx), (5, ' ', 0));
    let hit = cast_ray(&mut fb, &Vec::new(), &at(5, 5), south(), 10, false);
    assert_eq!((hit.distance, hit.impact, hit.tx), (0, ' ', 0));
}

#[test]
fn ray_that_does_not_move_ends_at_the_step_limit() {
    let mut fb = Framebuffer::new(40, 40);
    let hit = cast_ray(&mut fb, &room(), &at(15, 15), Direction::new(0, 0), 10, false);
    assert_eq!((hit.distance, hit.impact, hit.tx), (161, ' ', 0));
}

#[test]
fn ray_in_a_closed_grid_always_hits() {
    let maze = grid(&["+---+", "|   |", "| + |", "|   |", "+---+"]);
    let mut fb = Framebuffer::new(1, 1);
    let dirs = [
        (65536, 0),
        (-65536, 0),
        (0, 65536),
        (0, -65536),
        (46341, 46341),
        (-46341, 46341),
        (46341, -46341),
        (-46341, -46341),
        (56756, 32768),
        (32768, -56756),
        (-65516, 1608),
        (3, 65536),
        (32768, 0),
    ];
    for px in [10i64, 15, 19, 25, 39] {
        for py in [10i64, 17, 33, 39] {
            for (c, s) in dirs {
                let hit = cast_ray(&mut fb, &maze, &at(px, py), Direction::new(c, s), 10, false);
                assert_ne!(hit.impact, ' ', "from ({}, {}) along ({}, {})", px, py, c, s);
                assert!(hit.distance < step_limit(&maze, 10));
                assert!(hit.tx < 128);
            }
        }
    }
}

#[test]
fn ray_sets_the_path_color_without_drawing() {
    let mut fb = Framebuffer::new(40, 40);
    fb.set_current_color(0x123456);
    cast_ray(&mut fb, &room(), &at(15, 15), east(), 10, false);
    assert!(fb.buffer().iter().all(|&p| p == 0));
    fb.point(0, 0);
    assert_eq!(PATH_COLOR, 0xFFFFFF);
    assert_eq!(fb.buffer()[0], 0xFFFFFF);
}

#[test]
fn ray_records_its_path() {
    let mut fb = Framebuffer::new(40, 40);
    fb.set_current_color(0x123456);
    let hit = cast_ray(&mut fb, &room(), &at(15, 15), east(), 10, true);
    assert_eq!(hit.distance, 15);
    for y in 0..40 {
        for x in 0..40 {
            let expected = if y == 15 && (15..30).contains(&x) { 0xFFFFFF } else { 0 };
            assert_eq!(fb.buffer()[y * 40 + x], expected, "pixel ({}, {})", x, y);
        }
    }
}

#[test]
fn ray_path_off_the_surface_is_not_drawn() {
    let mut fb = Framebuffer::new(20, 16);
    let hit = cast_ray(&mut fb, &room(), &at(15, 15), east(), 10, true);
    assert_eq!(hit.distance, 15);
    for y in 0..16 {
        for x in 0..20 {
            let expected = if y == 15 && x >= 15 { 0xFFFFFF } else { 0 };
            assert_eq!(fb.buffer()[y * 20 + x], expected);
        }
    }
}
