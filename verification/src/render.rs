//! The frame composer: backdrop, one textured wall slab per screen column,
//! and the minimap on top.

use vstd::prelude::*;
use vstd::arithmetic::div_mod::lemma_fundamental_div_mod_converse;
use crate::canvas::{
    in_rect,
    lemma_paint_pointwise,
    lemma_plot_pixels,
    lemma_with_current_pixels,
    Canvas,
};
use crate::caster::{cast_ray, ray_of, spec_cast_ray, PATH_COLOR};
use crate::framebuffer::{spec_draw_texture, Framebuffer};
use crate::maze::grid_view;
use crate::minimap::{
    render_minimap,
    spec_render_minimap,
    MINIMAP_SCALE,
    MINIMAP_X,
    MINIMAP_Y,
};
use crate::player::{Direction, Player, ONE};
use crate::scene::Scene;
use crate::texture::Texture;

verus! {

/// The colour of the upper half of the backdrop.
pub const SKY_COLOR: u32 = 0x083863;

/// The colour of the lower half of the backdrop.
pub const FLOOR_COLOR: u32 = 0x443c33;

/// The colour of a wall whose symbol has no texture.
pub const DEFAULT_WALL_COLOR: u32 = 0x805E3C;

/// The projection constant: a wall at distance 1 is this many times as high
/// as the surface.
pub const PROJECTION_SCALE: u64 = 70;

/// The side of a grid cell in world units.
pub const BLOCK_SIZE: usize = 100;

/// The textures of the four kinds of wall.
pub struct WallTextures {
    /// The texture of `-` cells.
    pub wall1: Texture,
    /// The texture of `|` cells.
    pub wall2: Texture,
    /// The texture of `+` cells.
    pub wall4: Texture,
    /// The texture of the goal cell.
    pub wall5: Texture,
}

/// The colour of a wall with symbol `cell` at texture coordinate
/// `(tx, ty)`: a texel of the symbol's texture, or the default colour for a
/// symbol without one.
pub open spec fn spec_cell_color(textures: WallTextures, cell: char, tx: int, ty: int) -> u32 {
    if cell == '+' {
        textures.wall4.color_at(tx, ty)
    } else if cell == '-' {
        textures.wall1.color_at(tx, ty)
    } else if cell == '|' {
        textures.wall2.color_at(tx, ty)
    } else if cell == 'g' {
        textures.wall5.color_at(tx, ty)
    } else {
        DEFAULT_WALL_COLOR
    }
}

/// The cosine of the angle between a ray and the heading, in fixed point:
/// their dot product, and 0 where that is not positive.
pub open spec fn spec_fisheye(ray: Direction, heading: Direction) -> int {
    let dot = ray.dx() * heading.dx() + ray.dy() * heading.dy();
    if dot <= 0 {
        0
    } else {
        dot / (ONE as int)
    }
}

/// A distance kept positive: the distance itself, and the smallest positive
/// distance where it is zero or less.
pub open spec fn spec_clamped(corrected: int) -> int {
    if corrected < 1 {
        1
    } else {
        corrected
    }
}

/// The distance of a hit from the plane of view, in fixed point: the steps
/// marched times the cosine of the angle between ray and heading, kept
/// positive.
pub open spec fn spec_corrected_distance(distance: int, ray: Direction, heading: Direction) -> int {
    spec_clamped(distance * spec_fisheye(ray, heading))
}

/// The first row of the slab of a wall at the given distance on a surface
/// `height` rows high: half the height less half the slab's height, rounded
/// down, and 0 where the slab overshoots the top.
pub open spec fn spec_slab_top(height: int, corrected: int) -> int {
    let c = spec_clamped(corrected);
    let n = height * c - PROJECTION_SCALE * ONE * height;
    if n <= 0 {
        0
    } else {
        n / (2 * c)
    }
}

/// The row after the last of the slab: half the height plus half the slab's
/// height, rounded down; at most the largest `usize`.
pub open spec fn spec_slab_bottom(height: int, corrected: int) -> int {
    let c = spec_clamped(corrected);
    let b = (height * c + PROJECTION_SCALE * ONE * height) / (2 * c);
    if b > usize::MAX {
        usize::MAX as int
    } else {
        b
    }
}

/// The vertical texture coordinate of row `y` of a slab: its share of the
/// slab's height scaled to 128 and rounded, halves upward.
pub open spec fn spec_texture_v(y: int, top: int, bottom: int) -> int {
    ((y - top) * 256 + (bottom - top)) / (2 * (bottom - top))
}

/// Whether `(px, py)` lies in the slab of one column.
pub open spec fn in_stake(column: int, top: int, bottom: int, px: int, py: int) -> bool {
    px == column && top <= py < bottom
}

/// The surface with one slab on it: every pixel of the column between `top`
/// and `bottom` takes the wall's colour for its row, and the current colour
/// becomes that of the slab's last row. An empty slab changes nothing.
pub open spec fn spec_draw_stake(
    canvas: Canvas,
    textures: WallTextures,
    column: int,
    top: int,
    bottom: int,
    impact: char,
    tx: int,
) -> Canvas {
    if top >= bottom {
        canvas
    } else {
        canvas.paint(
            |px: int, py: int| in_stake(column, top, bottom, px, py),
            |px: int, py: int| spec_cell_color(textures, impact, tx, spec_texture_v(py, top, bottom)),
        ).with_current(
            spec_cell_color(textures, impact, tx, spec_texture_v(bottom - 1, top, bottom)),
        )
    }
}

/// The corrected distance of what the ray of one column meets: the distance
/// that the column's slab is projected from and that is recorded for it.
pub open spec fn spec_column_depth(grid: Seq<Seq<char>>, player: Player, dir: Direction) -> int {
    spec_corrected_distance(
        spec_cast_ray(grid, ray_of(player, dir), BLOCK_SIZE as int).distance as int,
        dir,
        player.heading,
    )
}

/// The surface after one column was composed: the ray is cast, and the slab
/// of what it met is drawn.
pub open spec fn spec_column(
    canvas: Canvas,
    textures: WallTextures,
    grid: Seq<Seq<char>>,
    player: Player,
    dir: Direction,
    column: int,
) -> Canvas {
    let hit = spec_cast_ray(grid, ray_of(player, dir), BLOCK_SIZE as int);
    let depth = spec_column_depth(grid, player, dir);
    spec_draw_stake(
        canvas.with_current(PATH_COLOR),
        textures,
        column,
        spec_slab_top(canvas.height as int, depth),
        spec_slab_bottom(canvas.height as int, depth),
        hit.impact,
        hit.tx as int,
    )
}

/// The surface after the first `n` columns were composed.
pub open spec fn spec_columns(
    canvas: Canvas,
    textures: WallTextures,
    grid: Seq<Seq<char>>,
    player: Player,
    rays: Seq<Direction>,
    n: nat,
) -> Canvas
    decreases n,
{
    if n == 0 {
        canvas
    } else {
        spec_column(
            spec_columns(canvas, textures, grid, player, rays, (n - 1) as nat),
            textures,
            grid,
            player,
            rays[n - 1],
            n - 1,
        )
    }
}

/// The surface with sky on the rows above the middle and floor on all rows
/// from the middle row down.
pub open spec fn spec_backdrop(canvas: Canvas) -> Canvas {
    canvas.with_current(SKY_COLOR).fill_rect(
        0,
        0,
        canvas.width as int,
        canvas.height as int / 2,
    ).with_current(FLOOR_COLOR).fill_rect(
        0,
        canvas.height as int / 2,
        canvas.width as int,
        canvas.height as int - canvas.height as int / 2,
    )
}

/// The composed frame: backdrop, one slab per column, then the minimap.
pub open spec fn spec_render3d(
    canvas: Canvas,
    textures: WallTextures,
    grid: Seq<Seq<char>>,
    player: Player,
    rays: Seq<Direction>,
) -> Canvas {
    spec_render_minimap(
        spec_columns(spec_backdrop(canvas), textures, grid, player, rays, canvas.width),
        player,
        grid,
    )
}

/// The colour of a wall with symbol `cell` at texture coordinate `(tx, ty)`.
pub fn cell_to_texture_color(textures: &WallTextures, cell: char, tx: u32, ty: u32) -> (color: u32)
    ensures
        color == spec_cell_color(*textures, cell, tx as int, ty as int),
{
    if cell == '+' {
        textures.wall4.get_pixel_color(tx, ty)
    } else if cell == '-' {
        textures.wall1.get_pixel_color(tx, ty)
    } else if cell == '|' {
        textures.wall2.get_pixel_color(tx, ty)
    } else if cell == 'g' {
        textures.wall5.get_pixel_color(tx, ty)
    } else {
        DEFAULT_WALL_COLOR
    }
}

/// The distance of a hit from the plane of view: the fish-eye correction of
/// the distance along the ray. It is never below the smallest positive
/// distance, also where the hit lies at the viewer, beside it or behind it.
pub fn corrected_distance(distance: u32, ray: Direction, heading: Direction) -> (c: u64)
    ensures
        c == spec_corrected_distance(distance as int, ray, heading),
        c >= 1,
{
    let rc = ray.cos() as i64;
    let rs = ray.sin() as i64;
    let hc = heading.cos() as i64;
    let hs = heading.sin() as i64;
    assert(-0x1_0000_0000 <= rc * hc <= 0x1_0000_0000 && -0x1_0000_0000 <= rs * hs
        <= 0x1_0000_0000) by (nonlinear_arith)
        requires
            -65536 <= rc <= 65536,
            -65536 <= rs <= 65536,
            -65536 <= hc <= 65536,
            -65536 <= hs <= 65536,
    ;
    let dot: i64 = rc * hc + rs * hs;
    if dot <= 0 {
        assert(distance * 0 == 0);
        return 1;
    }
    let fisheye: u64 = (dot / (ONE as i64)) as u64;
    assert(0 <= distance * fisheye <= 0xFFFF_FFFF * 0x2_0000) by (nonlinear_arith)
        requires
            0 <= distance <= 0xFFFF_FFFF,
            0 <= fisheye <= 0x2_0000,
    ;
    let along: u64 = (distance as u64) * fisheye;
    if along < 1 {
        1
    } else {
        along
    }
}

/// A slab: the first row of a wall's strip on the screen and the row after
/// its last.
#[derive(Clone, Copy, Debug)]
pub struct Slab {
    pub top: usize,
    pub bottom: usize,
}

/// The slab of a wall at the given corrected distance on a surface `height`
/// rows high. A distance of zero counts as the smallest positive distance, so
/// the slab is finite for every input.
pub fn project_slab(height: usize, corrected: u64) -> (slab: Slab)
    ensures
        slab.top == spec_slab_top(height as int, corrected as int),
        slab.bottom == spec_slab_bottom(height as int, corrected as int),
        slab.top <= height / 2 <= slab.bottom,
{
    let h: u128 = height as u128;
    let c: u128 = if corrected < 1 {
        1
    } else {
        corrected as u128
    };
    // The slab reaches `size / (2 * c)` rows above and below the middle of
    // the surface, which lies at `h / 2`. Both are split into their whole
    // part and a remainder over `2 * c`, so that no product of `h` and `c`
    // is ever formed.
    assert(PROJECTION_SCALE * ONE == 4587520);
    let scale: u128 = (PROJECTION_SCALE as u128) * (ONE as u128);
    let size: u128 = scale * h;
    let two_c: u128 = 2 * c;
    let q: u128 = size / two_c;
    let rem: u128 = size % two_c;
    let half: u128 = h / 2;
    let odd: u128 = if h % 2 == 1 {
        c
    } else {
        0
    };
    let up: u128 = if odd + rem >= two_c {
        1
    } else {
        0
    };
    let down: u128 = if rem > odd {
        1
    } else {
        0
    };
    proof {
        let hc = (h as int) * (c as int);
        assert(hc == 2 * (half as int) * (c as int) + (odd as int)) by (nonlinear_arith)
            requires
                hc == (h as int) * (c as int),
                h == 2 * half + (h % 2),
                odd == if h % 2 == 1 {
                    c
                } else {
                    0
                },
                h % 2 == 0 || h % 2 == 1,
        ;
        assert(size == (q as int) * (two_c as int) + (rem as int)) by {
            vstd::arithmetic::div_mod::lemma_fundamental_div_mod(size as int, two_c as int);
            assert((two_c as int) * (q as int) == (q as int) * (two_c as int))
                by (nonlinear_arith);
        }
        let n = hc - size;
        let m = hc + size;
        let lower = half - q - down;
        let upper = half + q + up;
        let r_low = if rem > odd {
            odd - rem + two_c
        } else {
            odd - rem
        };
        let r_up = if odd + rem >= two_c {
            odd + rem - two_c
        } else {
            odd + rem
        };
        assert(n == lower * (two_c as int) + r_low && m == upper * (two_c as int) + r_up)
            by (nonlinear_arith)
            requires
                n == hc - size,
                m == hc + size,
                hc == 2 * (half as int) * (c as int) + (odd as int),
                size == (q as int) * (two_c as int) + (rem as int),
                two_c == 2 * c,
                lower == half - q - down,
                upper == half + q + up,
                r_low == odd - rem + down * two_c,
                r_up == odd + rem - up * two_c,
        ;
        lemma_fundamental_div_mod_converse(n, two_c as int, lower, r_low);
        lemma_fundamental_div_mod_converse(m, two_c as int, upper, r_up);
        assert(n <= 0 ==> lower <= 0) by (nonlinear_arith)
            requires
                n == lower * (two_c as int) + r_low,
                r_low >= 0,
                two_c > 0,
        ;
        assert(n > 0 ==> lower >= 0) by (nonlinear_arith)
            requires
                n == lower * (two_c as int) + r_low,
                r_low < two_c,
                two_c > 0,
        ;
    }
    let top: usize = if half >= q + down {
        (half - q - down) as usize
    } else {
        0
    };
    let bottom_wide: u128 = half + q + up;
    let bottom: usize = if bottom_wide > usize::MAX as u128 {
        usize::MAX
    } else {
        bottom_wide as usize
    };
    Slab { top, bottom }
}

/// The vertical texture coordinate of row `y` of the slab from `top` to
/// `bottom`.
pub fn texture_v(y: usize, top: usize, bottom: usize) -> (v: u32)
    requires
        top <= y < bottom,
    ensures
        v == spec_texture_v(y as int, top as int, bottom as int),
        v <= 128,
{
    let span: u128 = (bottom - top) as u128;
    let offset: u128 = (y - top) as u128;
    let v: u128 = (offset * 256 + span) / (2 * span);
    assert(v <= 128) by (nonlinear_arith)
        requires
            v == (offset * 256 + span) / (2 * span),
            0 <= offset < span,
    ;
    v as u32
}

/// Draws the slab of one column: each of its rows on the surface takes the
/// colour that the wall's texture has there.
pub fn draw_stake(
    framebuffer: &mut Framebuffer,
    textures: &WallTextures,
    column: usize,
    slab: &Slab,
    impact: char,
    tx: u32,
)
    ensures
        final(framebuffer)@ == spec_draw_stake(
            old(framebuffer)@,
            *textures,
            column as int,
            slab.top as int,
            slab.bottom as int,
            impact,
            tx as int,
        ),
{
    let top = slab.top;
    let bottom = slab.bottom;
    if top >= bottom {
        return ;
    }
    let surface_width = framebuffer.width();
    let surface_height = framebuffer.height();
    let end = if bottom < surface_height {
        bottom
    } else {
        surface_height
    };
    let ghost base = framebuffer@;
    if column < surface_width && top < end {
        let mut y = top;
        while y < end
            invariant
                top <= y <= end <= surface_height,
                end <= bottom,
                end == bottom || end == surface_height,
                column < surface_width,
                surface_width == base.width,
                surface_height == base.height,
                base.wf(),
                framebuffer@.wf(),
                base.same_frame(framebuffer@.with_current(base.current)),
                forall|qx: int, qy: int|
                    base.contains(qx, qy) ==> #[trigger] framebuffer@.pixel(qx, qy) == if in_stake(
                        column as int,
                        top as int,
                        bottom as int,
                        qx,
                        qy,
                    ) && qy < y {
                        spec_cell_color(
                            *textures,
                            impact,
                            tx as int,
                            spec_texture_v(qy, top as int, bottom as int),
                        )
                    } else {
                        base.pixel(qx, qy)
                    },
            decreases end - y,
        {
            let ty = texture_v(y, top, bottom);
            let color = cell_to_texture_color(textures, impact, tx, ty);
            proof {
                lemma_with_current_pixels(framebuffer@, color);
            }
            framebuffer.set_current_color(color);
            proof {
                lemma_plot_pixels(framebuffer@, column as int, y as int);
            }
            framebuffer.point(column, y);
            y += 1;
        }
    }
    let last_v = texture_v(bottom - 1, top, bottom);
    let last = cell_to_texture_color(textures, impact, tx, last_v);
    proof {
        lemma_with_current_pixels(framebuffer@, base.current);
        lemma_paint_pointwise(
            base,
            framebuffer@.with_current(base.current),
            |px: int, py: int| in_stake(column as int, top as int, bottom as int, px, py),
            |px: int, py: int|
                spec_cell_color(
                    *textures,
                    impact,
                    tx as int,
                    spec_texture_v(py, top as int, bottom as int),
                ),
        );
    }
    framebuffer.set_current_color(last);
}

/// Composes one frame: sky and floor, then for each column of the surface
/// the slab of the wall that the column's ray meets, then the minimap.
/// `rays` holds the direction of each column's ray; `z_buffer` receives the
/// corrected distance of each column, which is positive.
pub fn render3d(
    framebuffer: &mut Framebuffer,
    player: &Player,
    rays: &Vec<Direction>,
    z_buffer: &mut Vec<u64>,
    scene: &Scene,
    textures: &WallTextures,
)
    requires
        rays.len() >= old(framebuffer)@.width,
        old(z_buffer).len() >= old(framebuffer)@.width,
        scene.maze_data.len() > 0,
        scene.maze_data[0].len() > 0,
        MINIMAP_X + scene.maze_data[0].len() * MINIMAP_SCALE <= usize::MAX,
        MINIMAP_Y + scene.maze_data.len() * MINIMAP_SCALE <= usize::MAX,
    ensures
        final(framebuffer)@ == spec_render3d(
            old(framebuffer)@,
            *textures,
            grid_view(scene.maze_data@),
            *player,
            rays@,
        ),
        final(z_buffer).len() == old(z_buffer).len(),
        forall|i: int|
            0 <= i < old(framebuffer)@.width ==> #[trigger] final(z_buffer)[i] == spec_column_depth(
                grid_view(scene.maze_data@),
                *player,
                rays[i],
            ),
        forall|i: int| 0 <= i < old(framebuffer)@.width ==> #[trigger] final(z_buffer)[i] >= 1,
        forall|i: int|
            old(framebuffer)@.width <= i < old(z_buffer).len() ==> #[trigger] final(z_buffer)[i]
                == old(z_buffer)[i],
{
    let maze = &scene.maze_data;
    let surface_width = framebuffer.width();
    let surface_height = framebuffer.height();
    let ghost grid = grid_view(maze@);
    draw_rect(framebuffer, 0, 0, surface_width, surface_height / 2, SKY_COLOR);
    draw_rect(
        framebuffer,
        0,
        surface_height / 2,
        surface_width,
        surface_height - surface_height / 2,
        FLOOR_COLOR,
    );
    let ghost backdrop = framebuffer@;
    let mut i: usize = 0;
    while i < surface_width
        invariant
            i <= surface_width,
            surface_width <= rays.len(),
            surface_width <= z_buffer.len(),
            z_buffer.len() == old(z_buffer).len(),
            surface_width == old(framebuffer)@.width,
            framebuffer@.height == surface_height,
            grid == grid_view(scene.maze_data@),
            maze == &scene.maze_data,
            framebuffer@ == spec_columns(backdrop, *textures, grid, *player, rays@, i as nat),
            forall|k: int|
                0 <= k < i ==> #[trigger] z_buffer[k] == spec_column_depth(grid, *player, rays[k]),
            forall|k: int|
                surface_width <= k < z_buffer.len() ==> #[trigger] z_buffer[k] == old(z_buffer)[k],
        decreases surface_width - i,
    {
        let dir = rays[i];
        let hit = cast_ray(framebuffer, maze, player, dir, BLOCK_SIZE, false);
        let depth = corrected_distance(hit.distance, dir, player.heading);
        let slab = project_slab(surface_height, depth);
        z_buffer.set(i, depth);
        draw_stake(framebuffer, textures, i, &slab, hit.impact, hit.tx as u32);
        i += 1;
    }
    render_minimap(framebuffer, player, maze);
}

/// Draws the splash screen: the surface is cleared and the image is copied
/// to its top left corner.
pub fn render_splash_screen(framebuffer: &mut Framebuffer, splash_texture: &Texture)
    ensures
        final(framebuffer)@ == spec_draw_texture(old(framebuffer)@.cleared(), 0, 0, *splash_texture),
        final(framebuffer)@.wf(),
{
    framebuffer.clear();
    framebuffer.draw_texture(0, 0, splash_texture);
}

/// Fills the rectangle with corner `(x, y)` and the given size with `color`,
/// which becomes the current colour. Pixels off the surface are skipped.
pub fn draw_rect(
    framebuffer: &mut Framebuffer,
    x: usize,
    y: usize,
    width: usize,
    height: usize,
    color: u32,
)
    ensures
        final(framebuffer)@ == old(framebuffer)@.with_current(color).fill_rect(
            x as int,
            y as int,
            width as int,
            height as int,
        ),
        final(framebuffer)@.wf(),
{
    framebuffer.set_current_color(color);
    let surface_width = framebuffer.width();
    let surface_height = framebuffer.height();
    let x0 = if x < surface_width {
        x
    } else {
        surface_width
    };
    let x1 = if width >= surface_width - x0 {
        surface_width
    } else {
        x0 + width
    };
    let y0 = if y < surface_height {
        y
    } else {
        surface_height
    };
    let y1 = if height >= surface_height - y0 {
        surface_height
    } else {
        y0 + height
    };
    let ghost base = framebuffer@;
    let mut py = y0;
    while py < y1
        invariant
            y0 <= py <= y1 <= surface_height,
            x0 <= x1 <= surface_width,
            surface_width == base.width,
            surface_height == base.height,
            base.wf(),
            base.current == color,
            framebuffer@.wf(),
            base.same_frame(framebuffer@),
            x >= surface_width ==> x0 == x1,
            x < surface_width ==> x0 == x && (x1 == x + width || (x1 == surface_width && x + width
                >= surface_width)),
            y >= surface_height ==> y0 == y1,
            y < surface_height ==> y0 == y && (y1 == y + height || (y1 == surface_height && y
                + height >= surface_height)),
            forall|qx: int, qy: int|
                base.contains(qx, qy) ==> #[trigger] framebuffer@.pixel(qx, qy) == if in_rect(
                    x as int,
                    y as int,
                    width as int,
                    height as int,
                    qx,
                    qy,
                ) && qy < py {
                    color
                } else {
                    base.pixel(qx, qy)
                },
        decreases y1 - py,
    {
        let mut px = x0;
        while px < x1
            invariant
                y0 <= py < y1 <= surface_height,
                x0 <= px <= x1 <= surface_width,
                surface_width == base.width,
                surface_height == base.height,
                base.wf(),
                base.current == color,
                framebuffer@.wf(),
                base.same_frame(framebuffer@),
                x >= surface_width ==> x0 == x1,
                x < surface_width ==> x0 == x && (x1 == x + width || (x1 == surface_width && x + width
                    >= surface_width)),
                y >= surface_height ==> y0 == y1,
                y < surface_height ==> y0 == y && (y1 == y + height || (y1 == surface_height && y
                    + height >= surface_height)),
                forall|qx: int, qy: int|
                    base.contains(qx, qy) ==> #[trigger] framebuffer@.pixel(qx, qy) == if in_rect(
                        x as int,
                        y as int,
                        width as int,
                        height as int,
                        qx,
                        qy,
                    ) && (qy < py || (qy == py && qx < px)) {
                        color
                    } else {
                        base.pixel(qx, qy)
                    },
            decreases x1 - px,
        {
            proof {
                lemma_plot_pixels(framebuffer@, px as int, py as int);
            }
            framebuffer.point(px, py);
            px += 1;
        }
        py += 1;
    }
    proof {
        lemma_paint_pointwise(
            base,
            framebuffer@,
            |px: int, py: int| in_rect(x as int, y as int, width as int, height as int, px, py),
            |px: int, py: int| color,
        );
    }
}

} // verus!
