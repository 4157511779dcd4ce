use escape_maze::framebuffer::Framebuffer;
use escape_maze::minimap::{
    draw_cell, render_minimap, MARKER_COLOR, MARKER_RADIUS, MINIMAP_BACKGROUND, MINIMAP_SCALE,
    MINIMAP_X, MINIMAP_Y, TILE_COLOR,
};
use escape_maze::player::{Direction, Player, ONE};

fn lines(rows: &[&str]) -> Vec<Vec<char>> {
    rows.iter().map(|l| l.chars().collect()).collect()
}

fn player_at(x_units: i64, y_units: i64) -> Player {
    Player { x: x_units * ONE as i64, y: y_units * ONE as i64, heading: Direction::new(ONE, 0) }
}

fn expected_map(maze: &Vec<Vec<char>>, marker: (i64, i64), x: usize, y: usize, under: u32) -> u32 {
    let cols = maze[0].len();
    let rows = maze.len();
    let (dx, dy) = (x as i64 - marker.0, y as i64 - marker.1);
    if dx * dx + dy * dy <= 9 {
        return 0xFF0000;
    }
    if x < 10 || y < 5 || x >= 10 + cols * 15 || y >= 5 + rows * 15 {
        return under;
    }
    let (col, row) = ((x - 10) / 15, (y - 5) / 15);
    match maze[row].get(col) {
        Some(' ') | Some('g') | None => 0x202020,
        Some(_) => 0xEEEEEE,
    }
}

fn assert_map(fb: &Framebuffer, maze: &Vec<Vec<char>>, marker: (i64, i64), under: u32) {
    let (w, h) = (fb.width(), fb.height());
    for y in 0..h {
        for x in 0..w {
            let expected = expected_map(maze, marker, x, y, under);
            assert_eq!(fb.buffer()[y * w + x], expected, "pixel ({}, {})", x, y);
        }
    }
}

#[test]
fn minimap_constants() {
    assert_eq!((MINIMAP_X, MINIMAP_Y, MINIMAP_SCALE), (10, 5, 15));
    assert_eq!((MINIMAP_BACKGROUND, TILE_COLOR, MARKER_COLOR), (0x202020, 0xEEEEEE, 0xFF0000));
    assert_eq!(MARKER_RADIUS, 3);
}

#[test]
fn cell_of_a_wall_is_a_filled_square() {
    let mut fb = Framebuffer::new(8, 8);
    draw_cell(&mut fb, 2, 3, 4, '+');
    for y in 0..8usize {
        for x in 0..8usize {
            let inside = (2..6).contains(&x) && (3..7).contains(&y);
            assert_eq!(fb.buffer()[y * 8 + x], if inside { 0xEEEEEE } else { 0 });
        }
    }
    fb.point(0, 0);
    assert_eq!(fb.buffer()[0], 0xEEEEEE);
}

#[test]
fn cell_of_any_other_symbol_is_drawn_too() {
    for cell in ['-', '|', 'x', 'G', '#', '\t'] {
        let mut fb = Framebuffer::new(2, 2);
        draw_cell(&mut fb, 0, 0, 1, cell);
        assert_eq!(fb.buffer(), &vec![0xEEEEEE, 0, 0, 0], "cell {:?}", cell);
    }
}

#[test]
fn cell_that_is_empty_is_not_drawn() {
    let mut fb = Framebuffer::new(8, 8);
    fb.set_current_color(0x123456);
    draw_cell(&mut fb, 2, 3, 4, ' ');
    assert!(fb.buffer().iter().all(|&p| p == 0));
    fb.point(0, 0);
    assert_eq!(fb.buffer()[0], 0x123456);
}

#[test]
fn cell_of_the_goal_is_not_drawn() {
    let mut fb = Framebuffer::new(8, 8);
    fb.set_current_color(0x123456);
    draw_cell(&mut fb, 2, 3, 4, 'g');
    assert!(fb.buffer().iter().all(|&p| p == 0));
    fb.point(0, 0);
    assert_eq!(fb.buffer()[0], 0x123456);
}

#[test]
fn cell_at_the_edge_is_clipped() {
    let mut fb = Framebuffer::new(3, 3);
    draw_cell(&mut fb, 2, 2, 15, '+');
    draw_cell(&mut fb, 3, 0, 15, '+');
    draw_cell(&mut fb, usize::MAX, usize::MAX, usize::MAX, '+');
    assert_eq!(fb.buffer(), &vec![0, 0, 0, 0, 0, 0, 0, 0, 0xEEEEEE]);
}

#[test]
fn minimap_shows_walls_and_the_player() {
    let maze = lines(&["+--+", "|  |", "|  |", "+--+"]);
    let mut fb = Framebuffer::new(80, 70);
    render_minimap(&mut fb, &player_at(150, 150), &maze);
    assert_map(&fb, &maze, (40, 35), 0);
    assert_eq!(fb.buffer()[5 * 80 + 10], 0xEEEEEE);
    assert_eq!(fb.buffer()[20 * 80 + 25], 0x202020);
    assert_eq!(fb.buffer()[35 * 80 + 43], 0xFF0000);
    assert_eq!(fb.buffer()[35 * 80 + 44], 0x202020);
    assert_eq!(fb.buffer()[4 * 80 + 10], 0);
    assert_eq!(fb.buffer()[64 * 80 + 69], 0xEEEEEE);
    assert_eq!(fb.buffer()[65 * 80 + 69], 0);
}

#[test]
fn minimap_hides_the_goal() {
    let with_goal = lines(&["+--+", "| g|", "|  |", "+--+"]);
    let without = lines(&["+--+", "|  |", "|  |", "+--+"]);
    let mut a = Framebuffer::new(80, 70);
    let mut b = Framebuffer::new(80, 70);
    render_minimap(&mut a, &player_at(100, 200), &with_goal);
    render_minimap(&mut b, &player_at(100, 200), &without);
    assert_eq!(a.buffer(), b.buffer());
    assert_map(&a, &with_goal, (25, 35), 0);
    for y in 20..35usize {
        for x in 40..55usize {
            assert_eq!(a.buffer()[y * 80 + x], 0x202020);
        }
    }
}

#[test]
fn minimap_keeps_the_marker_inside_the_grid() {
    let maze = lines(&["+--+", "|  |", "|  |", "+--+"]);
    let mut fb = Framebuffer::new(80, 70);
    render_minimap(&mut fb, &player_at(1_000_000, 1_000_000), &maze);
    assert_map(&fb, &maze, (55, 50), 0);
    let mut origin = Framebuffer::new(80, 70);
    render_minimap(&mut origin, &player_at(-500, -500), &maze);
    assert_map(&origin, &maze, (10, 5), 0);
    let mut edge = Framebuffer::new(80, 70);
    render_minimap(&mut edge, &player_at(250, 349), &maze);
    assert_map(&edge, &maze, (55, 50), 0);
}

#[test]
fn minimap_is_drawn_over_the_frame() {
    let maze = lines(&["++", "++"]);
    let mut fb = Framebuffer::new(50, 40);
    fb.set_background_color(0x445566);
    fb.clear();
    render_minimap(&mut fb, &player_at(0, 100), &maze);
    assert_map(&fb, &maze, (10, 20), 0x445566);
    fb.point(0, 0);
    assert_eq!(fb.buffer()[0], 0xFF0000);
}

#[test]
fn minimap_is_clipped_by_a_small_surface() {
    let maze = lines(&["+--+", "|  |", "|  |", "+--+"]);
    let mut fb = Framebuffer::new(30, 12);
    render_minimap(&mut fb, &player_at(150, 150), &maze);
    assert_map(&fb, &maze, (40, 35), 0);
    let mut tiny = Framebuffer::new(5, 5);
    render_minimap(&mut tiny, &player_at(150, 150), &maze);
    assert!(tiny.buffer().iter().all(|&p| p == 0));
}

#[test]
fn minimap_of_rows_of_different_length() {
    let maze = lines(&["+-+", "|", "+-+++"]);
    let mut fb = Framebuffer::new(100, 60);
    render_minimap(&mut fb, &player_at(0, 0), &maze);
    assert_map(&fb, &maze, (10, 5), 0);
    assert_eq!(fb.buffer()[40 * 100 + 56], 0);
}
