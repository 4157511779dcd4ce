//! The pixel surface: a buffer of packed RGB values with a current and a
//! background colour, and the drawing primitives on it.

use vstd::prelude::*;
use crate::canvas::{
    in_circle,
    in_rect,
    lemma_circle_box,
    lemma_index_bound,
    lemma_paint_pointwise,
    lemma_plot_pixels,
    lemma_with_current_pixels,
    Canvas,
};
use crate::texture::Texture;

verus! {

/// A `width` by `height` surface of `0x00RRGGBB` pixels in row-major order.
pub struct Framebuffer {
    width: usize,
    height: usize,
    buffer: Vec<u32>,
    background_color: u32,
    current_color: u32,
}

impl View for Framebuffer {
    type V = Canvas;

    closed spec fn view(&self) -> Canvas {
        Canvas {
            width: self.width as nat,
            height: self.height as nat,
            pixels: self.buffer@,
            background: self.background_color,
            current: self.current_color,
        }
    }
}

/// The surface after `texture` was copied onto it with its top left corner
/// at `(x, y)`: each pixel under the texture takes the colour of its texel,
/// and the current colour becomes that of the last texel that fell on the
/// surface. Nothing changes when no texel falls on it.
pub open spec fn spec_draw_texture(canvas: Canvas, x: int, y: int, texture: Texture) -> Canvas {
    let x1 = if x + texture.spec_width() < canvas.width {
        x + texture.spec_width()
    } else {
        canvas.width as int
    };
    let y1 = if y + texture.spec_height() < canvas.height {
        y + texture.spec_height()
    } else {
        canvas.height as int
    };
    if x < x1 && y < y1 {
        canvas.paint(
            |px: int, py: int|
                in_rect(x, y, texture.spec_width() as int, texture.spec_height() as int, px, py),
            |px: int, py: int| texture.color_at(px - x, py - y),
        ).with_current(texture.color_at(x1 - 1 - x, y1 - 1 - y))
    } else {
        canvas
    }
}

impl Framebuffer {
    #[verifier::type_invariant]
    spec fn inv(self) -> bool {
        self.buffer@.len() == self.width * self.height
    }

    /// A surface of the given size, all pixels zero, drawing in white on a
    /// black background.
    pub fn new(width: usize, height: usize) -> (fb: Self)
        requires
            width * height <= usize::MAX,
        ensures
            fb@ == Canvas::blank(width as nat, height as nat),
            fb@.wf(),
    {
        let fb = Framebuffer {
            width,
            height,
            buffer: vec![0u32; width * height],
            background_color: 0x000000,
            current_color: 0xFFFFFF,
        };
        assert(fb.buffer@ =~= Canvas::blank(width as nat, height as nat).pixels);
        fb
    }

    /// The number of columns.
    pub fn width(&self) -> (w: usize)
        ensures
            w == self@.width,
            self@.wf(),
    {
        proof {
            use_type_invariant(self);
        }
        self.width
    }

    /// The number of rows.
    pub fn height(&self) -> (h: usize)
        ensures
            h == self@.height,
            self@.wf(),
    {
        proof {
            use_type_invariant(self);
        }
        self.height
    }

    /// The pixels, row after row.
    pub fn buffer(&self) -> (pixels: &Vec<u32>)
        ensures
            pixels@ == self@.pixels,
            self@.wf(),
    {
        proof {
            use_type_invariant(self);
        }
        &self.buffer
    }

    /// Fills every pixel with the background colour.
    pub fn clear(&mut self)
        ensures
            final(self)@ == old(self)@.cleared(),
            final(self)@.wf(),
    {
        proof {
            use_type_invariant(&*self);
        }
        let n = self.buffer.len();
        let c = self.background_color;
        let mut i: usize = 0;
        while i < n
            invariant
                i <= n,
                n == self.buffer@.len(),
                n == old(self).buffer@.len(),
                self.width == old(self).width,
                self.height == old(self).height,
                self.background_color == c,
                c == old(self).background_color,
                self.current_color == old(self).current_color,
                self.buffer@.len() == self.width * self.height,
                forall|k: int| 0 <= k < i ==> self.buffer@[k] == c,
            decreases n - i,
        {
            self.buffer[i] = c;
            i += 1;
        }
        assert(self.buffer@ =~= old(self)@.cleared().pixels);
    }

    /// Writes the current colour at `(x, y)`; a coordinate off the surface is
    /// ignored.
    pub fn point(&mut self, x: usize, y: usize)
        ensures
            final(self)@ == old(self)@.plot(x as int, y as int),
            final(self)@.wf(),
    {
        proof {
            use_type_invariant(&*self);
        }
        if x < self.width && y < self.height {
            proof {
                lemma_index_bound(self.width as int, self.height as int, x as int, y as int);
                assert(0 <= (y as int) * (self.width as int)) by (nonlinear_arith);
                assert(self.buffer.len() == self.buffer@.len());
            }
            let c = self.current_color;
            let idx = y * self.width + x;
            self.buffer[idx] = c;
        }
    }

    /// Fills the disc of the given radius around `(x, y)` with the current
    /// colour. Pixels off the surface are skipped.
    pub fn draw_circle(&mut self, x: usize, y: usize, radius: usize)
        ensures
            final(self)@ == old(self)@.fill_circle(x as int, y as int, radius as int),
            final(self)@.wf(),
    {
        let surface_width = self.width();
        let surface_height = self.height();
        let color = self.current_color;
        let x0 = if x < radius {
            0
        } else if x - radius < surface_width {
            x - radius
        } else {
            surface_width
        };
        let x1 = if x >= surface_width || radius >= surface_width - 1 - x {
            surface_width
        } else {
            x + radius + 1
        };
        let y0 = if y < radius {
            0
        } else if y - radius < surface_height {
            y - radius
        } else {
            surface_height
        };
        let y1 = if y >= surface_height || radius >= surface_height - 1 - y {
            surface_height
        } else {
            y + radius + 1
        };
        let reach: u128 = radius as u128;
        assert(reach * reach <= 0xFFFF_FFFF_FFFF_FFFF * 0xFFFF_FFFF_FFFF_FFFF) by (nonlinear_arith)
            requires
                0 <= reach <= 0xFFFF_FFFF_FFFF_FFFF,
        ;
        let reach_sq: u128 = reach * reach;
        let ghost base = self@;
        proof {
            assert forall|qx: int, qy: int| #[trigger]
                in_circle(x as int, y as int, radius as int, qx, qy) implies x - radius <= qx <= x
                + radius && y - radius <= qy <= y + radius by {
                lemma_circle_box(x as int, y as int, radius as int, qx, qy);
            }
        }
        let mut py = y0;
        while py < y1
            invariant
                y0 <= py <= y1 <= surface_height,
                x0 <= x1,
                surface_width == base.width,
                surface_height == base.height,
                x1 <= surface_width,
                base.wf(),
                base.current == color,
                self@.wf(),
                base.same_frame(self@),
                reach == radius,
                reach_sq == reach * reach,
                x0 as int == x - radius || (x0 == 0 && x < radius) || (x0 == surface_width && x
                    - radius >= surface_width),
                y0 as int == y - radius || (y0 == 0 && y < radius) || (y0 == surface_height && y
                    - radius >= surface_height),
                x1 == surface_width || x1 == x + radius + 1,
                y1 == surface_height || y1 == y + radius + 1,
                x1 <= x + radius + 1,
                y1 <= y + radius + 1,
                forall|qx: int, qy: int| #[trigger]
                    in_circle(x as int, y as int, radius as int, qx, qy) ==> x - radius <= qx <= x
                        + radius && y - radius <= qy <= y + radius,
                forall|qx: int, qy: int|
                    base.contains(qx, qy) ==> #[trigger] self@.pixel(qx, qy) == if in_circle(
                        x as int,
                        y as int,
                        radius as int,
                        qx,
                        qy,
                    ) && qy < py {
                        color
                    } else {
                        base.pixel(qx, qy)
                    },
            decreases y1 - py,
        {
            let dy: u128 = if py < y {
                (y - py) as u128
            } else {
                (py - y) as u128
            };
            let mut px = x0;
            while px < x1
                invariant
                    y0 <= py < y1 <= surface_height,
                    x0 <= px <= x1 <= surface_width,
                    surface_width == base.width,
                    surface_height == base.height,
                    base.wf(),
                    base.current == color,
                    self@.wf(),
                    base.same_frame(self@),
                    reach == radius,
                    reach_sq == reach * reach,
                    dy == if py < y {
                        y - py
                    } else {
                        py - y
                    },
                    x0 as int == x - radius || (x0 == 0 && x < radius) || (x0 == surface_width
                        && x - radius >= surface_width),
                    y0 as int == y - radius || (y0 == 0 && y < radius) || (y0 == surface_height
                        && y - radius >= surface_height),
                    x1 == surface_width || x1 == x + radius + 1,
                    y1 == surface_height || y1 == y + radius + 1,
                    x1 <= x + radius + 1,
                    y1 <= y + radius + 1,
                    forall|qx: int, qy: int| #[trigger]
                        in_circle(x as int, y as int, radius as int, qx, qy) ==> x - radius <= qx
                            <= x + radius && y - radius <= qy <= y + radius,
                    forall|qx: int, qy: int|
                        base.contains(qx, qy) ==> #[trigger] self@.pixel(qx, qy) == if in_circle(
                            x as int,
                            y as int,
                            radius as int,
                            qx,
                            qy,
                        ) && (qy < py || (qy == py && qx < px)) {
                            color
                        } else {
                            base.pixel(qx, qy)
                        },
                decreases x1 - px,
            {
                let dx: u128 = if px < x {
                    (x - px) as u128
                } else {
                    (px - x) as u128
                };
                assert(dx <= reach && dy <= reach);
                assert(dx * dx <= reach * reach && dy * dy <= reach * reach) by (nonlinear_arith)
                    requires
                        0 <= dx <= reach,
                        0 <= dy <= reach,
                ;
                assert(dx * dx == (px - x) * (px - x) && dy * dy == (py - y) * (py - y))
                    by (nonlinear_arith)
                    requires
                        dx == px - x || dx == x - px,
                        dy == py - y || dy == y - py,
                ;
                let inside = dy * dy <= reach_sq - dx * dx;
                assert(inside == in_circle(
                    x as int,
                    y as int,
                    radius as int,
                    px as int,
                    py as int,
                ));
                if inside {
                    proof {
                        lemma_plot_pixels(self@, px as int, py as int);
                    }
                    self.point(px, py);
                }
                px += 1;
            }
            py += 1;
        }
        proof {
            lemma_paint_pointwise(
                base,
                self@,
                |px: int, py: int| in_circle(x as int, y as int, radius as int, px, py),
                |px: int, py: int| color,
            );
        }
    }

    /// Copies every texel of `texture` onto the surface, the texture's top
    /// left corner at `(x, y)`. Texels that fall off the surface are skipped.
    pub fn draw_texture(&mut self, x: u32, y: u32, texture: &Texture)
        ensures
            final(self)@ == spec_draw_texture(old(self)@, x as int, y as int, *texture),
            final(self)@.wf(),
    {
        let surface_width = self.width();
        let surface_height = self.height();
        let tex_width = texture.width();
        let tex_height = texture.height();
        let x0: usize = if (x as u64) < surface_width as u64 {
            x as usize
        } else {
            surface_width
        };
        let x1: usize = if x as u64 + (tex_width as u64) < surface_width as u64 {
            (x as u64 + tex_width as u64) as usize
        } else {
            surface_width
        };
        let y0: usize = if (y as u64) < surface_height as u64 {
            y as usize
        } else {
            surface_height
        };
        let y1: usize = if y as u64 + (tex_height as u64) < surface_height as u64 {
            (y as u64 + tex_height as u64) as usize
        } else {
            surface_height
        };
        let ghost base = self@;
        if !(x0 < x1 && y0 < y1) {
            return ;
        }
        let mut py = y0;
        while py < y1
            invariant
                y0 <= py <= y1 <= surface_height,
                x0 < x1 <= surface_width,
                x0 == x,
                y0 == y,
                x1 == x + tex_width || (x1 == surface_width && x + tex_width >= surface_width),
                y1 == y + tex_height || (y1 == surface_height && y + tex_height >= surface_height),
                tex_width == texture.spec_width(),
                tex_height == texture.spec_height(),
                surface_width == base.width,
                surface_height == base.height,
                base.wf(),
                self@.wf(),
                base.same_frame(self@.with_current(base.current)),
                py > y0 ==> self@.current == texture.color_at(x1 - 1 - x, py - 1 - y),
                py == y0 ==> self@.current == base.current,
                forall|qx: int, qy: int|
                    base.contains(qx, qy) ==> #[trigger] self@.pixel(qx, qy) == if in_rect(
                        x as int,
                        y as int,
                        tex_width as int,
                        tex_height as int,
                        qx,
                        qy,
                    ) && qy < py {
                        texture.color_at(qx - x, qy - y)
                    } else {
                        base.pixel(qx, qy)
                    },
            decreases y1 - py,
        {
            let texel_y: u32 = (py - y0) as u32;
            let mut px = x0;
            while px < x1
                invariant
                    y0 <= py < y1 <= surface_height,
                    x0 <= px <= x1 <= surface_width,
                    x0 < x1,
                    x0 == x,
                    y0 == y,
                    texel_y == py - y,
                    x1 == x + tex_width || (x1 == surface_width && x + tex_width >= surface_width),
                    y1 == y + tex_height || (y1 == surface_height && y + tex_height
                        >= surface_height),
                    tex_width == texture.spec_width(),
                    tex_height == texture.spec_height(),
                    surface_width == base.width,
                    surface_height == base.height,
                    base.wf(),
                    self@.wf(),
                    base.same_frame(self@.with_current(base.current)),
                    px > x0 ==> self@.current == texture.color_at(px - 1 - x, py - y),
                    forall|qx: int, qy: int|
                        base.contains(qx, qy) ==> #[trigger] self@.pixel(qx, qy) == if in_rect(
                            x as int,
                            y as int,
                            tex_width as int,
                            tex_height as int,
                            qx,
                            qy,
                        ) && (qy < py || (qy == py && qx < px)) {
                            texture.color_at(qx - x, qy - y)
                        } else {
                            base.pixel(qx, qy)
                        },
                decreases x1 - px,
            {
                let texel_x: u32 = (px - x0) as u32;
                let color = texture.get_pixel_color(texel_x, texel_y);
                proof {
                    lemma_with_current_pixels(self@, color);
                }
                self.set_current_color(color);
                proof {
                    lemma_plot_pixels(self@, px as int, py as int);
                }
                self.point(px, py);
                px += 1;
            }
            py += 1;
        }
        proof {
            let last = texture.color_at(x1 - 1 - x, y1 - 1 - y);
            lemma_with_current_pixels(self@, base.current);
            lemma_paint_pointwise(
                base,
                self@.with_current(base.current),
                |px: int, py: int|
                    in_rect(x as int, y as int, tex_width as int, tex_height as int, px, py),
                |px: int, py: int| texture.color_at(px - x, py - y),
            );
            assert(self@ == self@.with_current(base.current).with_current(last));
        }
    }

    /// Sets the colour that `clear` fills with.
    pub fn set_background_color(&mut self, color: u32)
        ensures
            final(self)@ == old(self)@.with_background(color),
            final(self)@.wf(),
    {
        proof {
            use_type_invariant(&*self);
        }
        self.background_color = color;
    }

    /// Sets the colour that the drawing primitives write.
    pub fn set_current_color(&mut self, color: u32)
        ensures
            final(self)@ == old(self)@.with_current(color),
            final(self)@.wf(),
    {
        proof {
            use_type_invariant(&*self);
        }
        self.current_color = color;
    }
}

} // verus!
