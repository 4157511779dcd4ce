//! The mathematical model of a pixel surface.

use vstd::prelude::*;
use vstd::arithmetic::div_mod::{lemma_fundamental_div_mod, lemma_fundamental_div_mod_converse};

verus! {

/// A pixel surface as a value: its size, its pixels in row-major order and
/// its two colour registers.
pub struct Canvas {
    pub width: nat,
    pub height: nat,
    pub pixels: Seq<u32>,
    pub background: u32,
    pub current: u32,
}

/// Whether `(px, py)` lies in the rectangle with corner `(x, y)`, `w` wide
/// and `h` high.
pub open spec fn in_rect(x: int, y: int, w: int, h: int, px: int, py: int) -> bool {
    x <= px < x + w && y <= py < y + h
}

/// Whether `(px, py)` lies within Euclidean distance `r` of `(cx, cy)`.
pub open spec fn in_circle(cx: int, cy: int, r: int, px: int, py: int) -> bool {
    (px - cx) * (px - cx) + (py - cy) * (py - cy) <= r * r
}

impl Canvas {
    /// There is exactly one pixel per coordinate.
    pub open spec fn wf(self) -> bool {
        self.pixels.len() == self.width * self.height
    }

    /// Whether `(x, y)` lies on the surface.
    pub open spec fn contains(self, x: int, y: int) -> bool {
        0 <= x < self.width && 0 <= y < self.height
    }

    /// The colour at `(x, y)`.
    pub open spec fn pixel(self, x: int, y: int) -> u32 {
        self.pixels[y * self.width + x]
    }

    /// A surface of the given size with every pixel zero, a black background
    /// and a white current colour.
    pub open spec fn blank(width: nat, height: nat) -> Canvas {
        Canvas {
            width,
            height,
            pixels: Seq::new(width * height, |k: int| 0u32),
            background: 0x000000,
            current: 0xFFFFFF,
        }
    }

    /// The surface with another current colour.
    pub open spec fn with_current(self, color: u32) -> Canvas {
        Canvas { current: color, ..self }
    }

    /// The surface with another background colour.
    pub open spec fn with_background(self, color: u32) -> Canvas {
        Canvas { background: color, ..self }
    }

    /// Every pixel set to the background colour.
    pub open spec fn cleared(self) -> Canvas {
        Canvas { pixels: Seq::new(self.pixels.len(), |k: int| self.background), ..self }
    }

    /// The pixels selected by `region` take the colour that `color` gives
    /// them; all others, and the registers, stay.
    pub open spec fn paint(
        self,
        region: spec_fn(int, int) -> bool,
        color: spec_fn(int, int) -> u32,
    ) -> Canvas {
        Canvas {
            pixels: Seq::new(
                self.pixels.len(),
                |k: int|
                    if region(k % (self.width as int), k / (self.width as int)) {
                        color(k % (self.width as int), k / (self.width as int))
                    } else {
                        self.pixels[k]
                    },
            ),
            ..self
        }
    }

    /// The pixel at `(x, y)` set to the current colour; nothing changes when
    /// the coordinate is off the surface.
    pub open spec fn plot(self, x: int, y: int) -> Canvas {
        if self.contains(x, y) {
            Canvas { pixels: self.pixels.update(y * self.width + x, self.current), ..self }
        } else {
            self
        }
    }

    /// The pixels of the rectangle with corner `(x, y)` and the given size set
    /// to the current colour.
    pub open spec fn fill_rect(self, x: int, y: int, w: int, h: int) -> Canvas {
        self.paint(|px: int, py: int| in_rect(x, y, w, h, px, py), |px: int, py: int| self.current)
    }

    /// The pixels within Euclidean distance `r` of `(cx, cy)` set to the
    /// current colour.
    pub open spec fn fill_circle(self, cx: int, cy: int, r: int) -> Canvas {
        self.paint(|px: int, py: int| in_circle(cx, cy, r, px, py), |px: int, py: int| self.current)
    }

    /// Same size and registers, whatever the pixels.
    pub open spec fn same_frame(self, other: Canvas) -> bool {
        &&& self.width == other.width
        &&& self.height == other.height
        &&& self.background == other.background
        &&& self.current == other.current
        &&& self.pixels.len() == other.pixels.len()
    }
}

/// A coordinate on the surface has an index inside the pixel sequence.
pub proof fn lemma_index_bound(width: int, height: int, x: int, y: int)
    requires
        0 <= x < width,
        0 <= y < height,
    ensures
        0 <= y * width + x < width * height,
{
    assert(y * width + x < width * height) by (nonlinear_arith)
        requires
            0 <= x < width,
            0 <= y < height,
    {
        assert((y + 1) * width <= height * width);
    }
    assert(0 <= y * width) by (nonlinear_arith)
        requires
            0 <= y,
            0 < width,
    ;
}

/// The index of a coordinate splits back into the coordinate.
pub proof fn lemma_index_split(width: int, x: int, y: int)
    requires
        0 <= x < width,
        0 <= y,
    ensures
        (y * width + x) % width == x,
        (y * width + x) / width == y,
{
    lemma_fundamental_div_mod_converse(y * width + x, width, y, x);
}

/// An index inside the pixel sequence names a coordinate on the surface.
pub proof fn lemma_index_coords(width: int, height: int, k: int)
    requires
        0 <= k < width * height,
        0 <= width,
        0 <= height,
    ensures
        0 <= k % width < width,
        0 <= k / width < height,
        (k / width) * width + k % width == k,
{
    assert(width > 0) by (nonlinear_arith)
        requires
            0 <= k < width * height,
            0 <= width,
            0 <= height,
    ;
    lemma_fundamental_div_mod(k, width);
    let q = k / width;
    assert(0 <= q < height) by (nonlinear_arith)
        requires
            0 <= k < width * height,
            width > 0,
            k == width * q + k % width,
            0 <= k % width < width,
    ;
    assert(q * width == width * q) by (nonlinear_arith);
}

/// A surface is the painting of another as soon as every pixel on it has the
/// painted colour.
pub proof fn lemma_paint_pointwise(
    a: Canvas,
    b: Canvas,
    region: spec_fn(int, int) -> bool,
    color: spec_fn(int, int) -> u32,
)
    requires
        a.wf(),
        a.same_frame(b),
        forall|x: int, y: int|
            a.contains(x, y) ==> #[trigger] b.pixel(x, y) == if region(x, y) {
                color(x, y)
            } else {
                a.pixel(x, y)
            },
    ensures
        b == a.paint(region, color),
{
    let p = a.paint(region, color);
    assert forall|k: int| 0 <= k < b.pixels.len() implies b.pixels[k] == p.pixels[k] by {
        let w = a.width as int;
        lemma_index_coords(w, a.height as int, k);
        assert(b.pixel(k % w, k / w) == b.pixels[k]);
        assert(a.pixel(k % w, k / w) == a.pixels[k]);
    }
    assert(b.pixels =~= p.pixels);
}

/// What each pixel of a surface holds after one plot.
pub proof fn lemma_plot_pixel(a: Canvas, x: int, y: int, px: int, py: int)
    requires
        a.wf(),
        a.contains(px, py),
    ensures
        a.plot(x, y).pixel(px, py) == if px == x && py == y {
            a.current
        } else {
            a.pixel(px, py)
        },
{
    let w = a.width as int;
    lemma_index_bound(w, a.height as int, px, py);
    if a.contains(x, y) {
        lemma_index_bound(w, a.height as int, x, y);
        lemma_index_split(w, x, y);
        lemma_index_split(w, px, py);
    }
}

/// Another current colour leaves every pixel as it was.
pub proof fn lemma_with_current_pixels(a: Canvas, color: u32)
    ensures
        forall|px: int, py: int| #[trigger]
            a.with_current(color).pixel(px, py) == a.pixel(px, py),
{
}

/// A point of a disc lies in the square around it.
pub proof fn lemma_circle_box(cx: int, cy: int, r: int, px: int, py: int)
    requires
        r >= 0,
        in_circle(cx, cy, r, px, py),
    ensures
        cx - r <= px <= cx + r,
        cy - r <= py <= cy + r,
{
    let dx = px - cx;
    let dy = py - cy;
    assert(-r <= dx <= r && -r <= dy <= r) by (nonlinear_arith)
        requires
            r >= 0,
            dx * dx + dy * dy <= r * r,
    ;
}

/// What every pixel of a surface holds after one plot, and that a plot keeps
/// the size and the registers.
pub proof fn lemma_plot_pixels(a: Canvas, x: int, y: int)
    requires
        a.wf(),
    ensures
        a.same_frame(a.plot(x, y)),
        a.plot(x, y).wf(),
        forall|px: int, py: int|
            a.contains(px, py) ==> #[trigger] a.plot(x, y).pixel(px, py) == if px == x && py
                == y {
                a.current
            } else {
                a.pixel(px, py)
            },
{
    if a.contains(x, y) {
        lemma_index_bound(a.width as int, a.height as int, x, y);
    }
    assert forall|px: int, py: int| a.contains(px, py) implies #[trigger] a.plot(x, y).pixel(
        px,
        py,
    ) == if px == x && py == y {
        a.current
    } else {
        a.pixel(px, py)
    } by {
        lemma_plot_pixel(a, x, y, px, py);
    }
}

} // verus!
