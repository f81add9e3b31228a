use vstd::prelude::*;

verus! {

/// Canvas width in pixels: sixteen column groups of nine pixels.
pub const WIDTH: usize = 144;

/// Canvas height in pixels: sixty-three encoded rows of two pixels.
pub const HEIGHT: usize = 126;

/// Number of pixels on the canvas.
pub const PIXELS: usize = WIDTH * HEIGHT;

/// Whether pixel `(x, y)` lies strictly inside the circle of radius `d`
/// centred on `(cx, cy)`.
pub open spec fn inside(x: int, y: int, cx: int, cy: int, d: int) -> bool {
    (x - cx) * (x - cx) + (y - cy) * (y - cy) < d * d
}

/// Whether `(x, y)` is a coordinate of the canvas.
pub open spec fn on_grid(x: int, y: int) -> bool {
    0 <= x < WIDTH && 0 <= y < HEIGHT
}

/// The pixel at `(x, y)` of a row-major pixel sequence.
pub open spec fn pixel_of(v: Seq<bool>, x: int, y: int) -> bool {
    v[y * WIDTH + x]
}

/// `after` is `before` with the circle `(cx, cy, d)` drawn over it: every pixel
/// inside the circle is set, every other pixel keeps its value.
pub open spec fn circle_drawn(before: Seq<bool>, after: Seq<bool>, cx: int, cy: int, d: int) -> bool {
    &&& after.len() == before.len()
    &&& forall|x: int, y: int|
        #![trigger pixel_of(after, x, y)]
        on_grid(x, y) ==> pixel_of(after, x, y) == (pixel_of(before, x, y) || inside(x, y, cx, cy, d))
}

/// A fixed-size monochrome bitmap, row-major, origin top-left.
pub struct Image {
    pixels: Vec<bool>,
}

impl View for Image {
    type V = Seq<bool>;

    closed spec fn view(&self) -> Seq<bool> {
        self.pixels@
    }
}

impl Image {
    /// The canvas always holds exactly `WIDTH * HEIGHT` pixels.
    pub open spec fn wf(&self) -> bool {
        self@.len() == PIXELS
    }

    /// The pixel at `(x, y)`.
    pub open spec fn pixel_spec(&self, x: int, y: int) -> bool {
        pixel_of(self@, x, y)
    }

    /// A blank canvas: every pixel is off.
    pub fn new() -> (r: Image)
        ensures
            r.wf(),
            forall|x: int, y: int| #![trigger r.pixel_spec(x, y)] on_grid(x, y) ==> !r.pixel_spec(x, y),
    {
        let mut pixels: Vec<bool> = Vec::new();
        let mut k: usize = 0;
        while k < PIXELS
            invariant
                k <= PIXELS,
                pixels@.len() == k,
                forall|i: int| 0 <= i < k ==> !pixels@[i],
            decreases PIXELS - k,
        {
            pixels.push(false);
            k = k + 1;
        }
        let r = Image { pixels };
        assert forall|x: int, y: int| #![trigger r.pixel_spec(x, y)] on_grid(x, y) implies !r.pixel_spec(x, y) by {
            lemma_index_in_range(x, y);
        }
        r
    }

    /// The pixel at `(x, y)`.
    pub fn pixel(&self, x: usize, y: usize) -> (r: bool)
        requires
            self.wf(),
            on_grid(x as int, y as int),
        ensures
            r == self.pixel_spec(x as int, y as int),
    {
        proof {
            lemma_index_in_range(x as int, y as int);
        }
        self.pixels[y * WIDTH + x]
    }

    /// Turns the pixel at `(x, y)` on or off; every other pixel keeps its value.
    pub fn set_pixel(&mut self, x: usize, y: usize, on: bool)
        requires
            old(self).wf(),
            on_grid(x as int, y as int),
        ensures
            final(self).wf(),
            final(self).pixel_spec(x as int, y as int) == on,
            forall|px: int, py: int|
                #![trigger final(self).pixel_spec(px, py)]
                on_grid(px, py) && (px != x || py != y) ==> final(self).pixel_spec(px, py) == old(
                    self,
                ).pixel_spec(px, py),
    {
        proof {
            lemma_index_in_range(x as int, y as int);
        }
        let ghost before = self@;
        self.pixels.set(y * WIDTH + x, on);
        assert forall|px: int, py: int|
            #![trigger pixel_of(self@, px, py)]
            on_grid(px, py) && (px != x || py != y) implies pixel_of(self@, px, py) == pixel_of(before, px, py) by {
            lemma_index_injective(px, py, x as int, y as int);
        }
    }

    /// Sets every pixel strictly inside the circle of radius `d` centred on
    /// `(cx, cy)`; pixels outside it keep their value.
    pub fn draw_circle(&mut self, cx: i32, cy: i32, d: i32)
        requires
            old(self).wf(),
        ensures
            final(self).wf(),
            circle_drawn(old(self)@, final(self)@, cx as int, cy as int, d as int),
    {
        let ghost before = self@;
        let wd: i128 = d as i128;
        assert(wd * wd <= 0x1_0000_0000_0000_0000_0000) by (nonlinear_arith)
            requires -0x1_0000_0000 <= wd <= 0x1_0000_0000;
        assert(0 <= wd * wd) by (nonlinear_arith);
        let dd: i128 = wd * wd;
        let mut y: usize = 0;
        while y < HEIGHT
            invariant
                y <= HEIGHT,
                self.wf(),
                dd == d * d,
                forall|px: int, py: int|
                    #![trigger pixel_of(self@, px, py)]
                    on_grid(px, py) ==> pixel_of(self@, px, py) == (pixel_of(before, px, py) || (py < y
                        && inside(px, py, cx as int, cy as int, d as int))),
            decreases HEIGHT - y,
        {
            let mut x: usize = 0;
            while x < WIDTH
                invariant
                    x <= WIDTH,
                    y < HEIGHT,
                    self.wf(),
                    dd == d * d,
                    forall|px: int, py: int|
                        #![trigger pixel_of(self@, px, py)]
                        on_grid(px, py) ==> pixel_of(self@, px, py) == (pixel_of(before, px, py) || ((py
                            < y || (py == y && px < x)) && inside(px, py, cx as int, cy as int, d as int))),
                decreases WIDTH - x,
            {
                let ex: i128 = x as i128 - cx as i128;
                let ey: i128 = y as i128 - cy as i128;
                assert(ex * ex <= 0x1_0000_0000_0000_0000_0000) by (nonlinear_arith)
                    requires -0x1_0000_0000 <= ex <= 0x1_0000_0000;
                assert(ey * ey <= 0x1_0000_0000_0000_0000_0000) by (nonlinear_arith)
                    requires -0x1_0000_0000 <= ey <= 0x1_0000_0000;
                assert(0 <= ex * ex && 0 <= ey * ey) by (nonlinear_arith);
                if ex * ex + ey * ey < dd {
                    proof {
                        lemma_index_in_range(x as int, y as int);
                    }
                    let k: usize = y * WIDTH + x;
                    let ghost mid = self@;
                    self.pixels.set(k, true);
                    assert forall|px: int, py: int|
                        #![trigger pixel_of(self@, px, py)]
                        on_grid(px, py) && (px != x || py != y) implies pixel_of(self@, px, py) == pixel_of(
                        mid,
                        px,
                        py,
                    ) by {
                        lemma_index_injective(px, py, x as int, y as int);
                    }
                }
                x = x + 1;
            }
            y = y + 1;
        }
    }
}

/// A grid coordinate's row-major index lies inside the pixel sequence.
pub(crate) proof fn lemma_index_in_range(x: int, y: int)
    requires
        on_grid(x, y),
    ensures
        0 <= y * WIDTH + x < PIXELS,
{
    assert(y * WIDTH <= (HEIGHT - 1) * WIDTH) by (nonlinear_arith)
        requires 0 <= y < HEIGHT;
}

/// Drawing is idempotent: drawing the same circle a second time changes no
/// pixel.
pub proof fn lemma_draw_circle_idempotent(a: Seq<bool>, b: Seq<bool>, c: Seq<bool>, cx: int, cy: int, d: int)
    requires
        a.len() == PIXELS,
        circle_drawn(a, b, cx, cy, d),
        circle_drawn(b, c, cx, cy, d),
    ensures
        c == b,
{
    assert forall|k: int| 0 <= k < PIXELS implies #[trigger] c[k] == b[k] by {
        let x: int = k % WIDTH as int;
        let y: int = k / WIDTH as int;
        vstd::arithmetic::div_mod::lemma_fundamental_div_mod(k, WIDTH as int);
        assert(k == y * WIDTH + x);
        assert(on_grid(x, y));
        assert(pixel_of(c, x, y) == (pixel_of(b, x, y) || inside(x, y, cx, cy, d)));
        assert(pixel_of(b, x, y) == (pixel_of(a, x, y) || inside(x, y, cx, cy, d)));
    }
    assert(c =~= b);
}

/// Distinct grid coordinates have distinct row-major indices.
proof fn lemma_index_injective(x1: int, y1: int, x2: int, y2: int)
    requires
        on_grid(x1, y1),
        on_grid(x2, y2),
        x1 != x2 || y1 != y2,
    ensures
        y1 * WIDTH + x1 != y2 * WIDTH + x2,
{
    lemma_index_in_range(x1, y1);
    lemma_index_in_range(x2, y2);
    if y1 == y2 {
    } else if y1 < y2 {
        assert(y1 * WIDTH + WIDTH <= y2 * WIDTH) by (nonlinear_arith)
            requires y1 < y2;
    } else {
        assert(y2 * WIDTH + WIDTH <= y1 * WIDTH) by (nonlinear_arith)
            requires y2 < y1;
    }
}

} // verus!
