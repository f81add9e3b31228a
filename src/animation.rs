use vstd::prelude::*;
use crate::canvas::{inside, on_grid, pixel_of, Image, HEIGHT, WIDTH};

verus! {

/// Radius of the bouncing circle: a tenth of the canvas height.
pub const RADIUS: i32 = 12;

/// One axis of a well-formed state: the centre keeps `RADIUS` away from both
/// edges of `0 .. hi`, moves one pixel a tick, and points inwards when it sits
/// on a boundary.
pub open spec fn axis_wf(pos: int, vel: int, hi: int) -> bool {
    &&& RADIUS <= pos <= hi - RADIUS
    &&& vel == 1 || vel == -1
    &&& pos == hi - RADIUS ==> vel == -1
    &&& pos == RADIUS ==> vel == 1
}

/// One tick on one axis: move by the velocity, then turn back when the new
/// position is at or past a boundary.
pub open spec fn axis_next(pos: int, vel: int, hi: int) -> (int, int) {
    let p: int = pos + vel;
    (p, if p >= hi - RADIUS {
        -1
    } else if p <= RADIUS {
        1
    } else {
        vel
    })
}

/// `n` ticks on one axis.
pub open spec fn axis_iter(pos: int, vel: int, hi: int, n: nat) -> (int, int)
    decreases n,
{
    if n == 0 {
        (pos, vel)
    } else {
        let (p, v) = axis_next(pos, vel, hi);
        axis_iter(p, v, hi, (n - 1) as nat)
    }
}

/// Ticks between two visits of the same state on an axis of extent `hi`.
pub open spec fn axis_period(hi: int) -> int {
    2 * (hi - 2 * RADIUS)
}

/// Where a well-formed axis state lies on its cycle, counted in ticks from
/// the lower boundary heading up.
pub open spec fn axis_phase(pos: int, vel: int, hi: int) -> int {
    if vel == 1 {
        pos - RADIUS
    } else {
        axis_period(hi) - (pos - RADIUS)
    }
}

/// The bouncing-circle animation: centre and per-axis velocity.
pub struct Animation {
    cx: i32,
    cy: i32,
    dx: i32,
    dy: i32,
}

impl Animation {
    /// Horizontal position of the centre.
    pub closed spec fn cx_spec(&self) -> int {
        self.cx as int
    }

    /// Vertical position of the centre.
    pub closed spec fn cy_spec(&self) -> int {
        self.cy as int
    }

    /// Horizontal velocity.
    pub closed spec fn dx_spec(&self) -> int {
        self.dx as int
    }

    /// Vertical velocity.
    pub closed spec fn dy_spec(&self) -> int {
        self.dy as int
    }

    /// Both axes are well formed.
    pub open spec fn wf(&self) -> bool {
        &&& axis_wf(self.cx_spec(), self.dx_spec(), WIDTH as int)
        &&& axis_wf(self.cy_spec(), self.dy_spec(), HEIGHT as int)
    }

    /// The first state: centre of the canvas, moving right and down.
    pub fn new() -> (r: Animation)
        ensures
            r.wf(),
            r.cx_spec() == WIDTH / 2,
            r.cy_spec() == HEIGHT / 2,
            r.dx_spec() == 1,
            r.dy_spec() == 1,
    {
        Animation { cx: (WIDTH / 2) as i32, cy: (HEIGHT / 2) as i32, dx: 1, dy: 1 }
    }

    /// Horizontal position of the centre.
    pub fn cx(&self) -> (r: i32)
        ensures
            r == self.cx_spec(),
    {
        self.cx
    }

    /// Vertical position of the centre.
    pub fn cy(&self) -> (r: i32)
        ensures
            r == self.cy_spec(),
    {
        self.cy
    }

    /// Horizontal velocity.
    pub fn dx(&self) -> (r: i32)
        ensures
            r == self.dx_spec(),
    {
        self.dx
    }

    /// Vertical velocity.
    pub fn dy(&self) -> (r: i32)
        ensures
            r == self.dy_spec(),
    {
        self.dy
    }

    /// The picture of this tick: a blank canvas with the circle drawn at the
    /// current centre.
    pub fn canvas(&self) -> (r: Image)
        ensures
            r.wf(),
            forall|x: int, y: int|
                #![trigger r.pixel_spec(x, y)]
                on_grid(x, y) ==> r.pixel_spec(x, y) == inside(
                    x,
                    y,
                    self.cx_spec(),
                    self.cy_spec(),
                    RADIUS as int,
                ),
    {
        let mut img = Image::new();
        let ghost blank = img;
        img.draw_circle(self.cx, self.cy, RADIUS);
        assert forall|x: int, y: int| #![trigger img.pixel_spec(x, y)] on_grid(x, y) implies img.pixel_spec(x, y)
            == inside(x, y, self.cx_spec(), self.cy_spec(), RADIUS as int) by {
            assert(!blank.pixel_spec(x, y));
            assert(pixel_of(img@, x, y) == (pixel_of(blank@, x, y) || inside(x, y, self.cx as int, self.cy as int, RADIUS as int)));
        }
        img
    }

    /// Moves the centre one tick, turning each axis back at its boundary.
    pub fn advance(&mut self)
        requires
            old(self).wf(),
        ensures
            final(self).wf(),
            (final(self).cx_spec(), final(self).dx_spec()) == axis_next(
                old(self).cx_spec(),
                old(self).dx_spec(),
                WIDTH as int,
            ),
            (final(self).cy_spec(), final(self).dy_spec()) == axis_next(
                old(self).cy_spec(),
                old(self).dy_spec(),
                HEIGHT as int,
            ),
    {
        proof {
            lemma_axis_step(self.cx as int, self.dx as int, WIDTH as int);
            lemma_axis_step(self.cy as int, self.dy as int, HEIGHT as int);
        }
        self.cx = self.cx + self.dx;
        self.cy = self.cy + self.dy;
        if self.cx >= WIDTH as i32 - RADIUS {
            self.dx = -1;
        } else if self.cx <= RADIUS {
            self.dx = 1;
        }
        if self.cy >= HEIGHT as i32 - RADIUS {
            self.dy = -1;
        } else if self.cy <= RADIUS {
            self.dy = 1;
        }
    }
}

/// A tick keeps an axis well formed and moves it one place on its cycle.
proof fn lemma_axis_step(pos: int, vel: int, hi: int)
    requires
        axis_wf(pos, vel, hi),
        hi > 2 * RADIUS,
    ensures
        axis_wf(axis_next(pos, vel, hi).0, axis_next(pos, vel, hi).1, hi),
        axis_phase(axis_next(pos, vel, hi).0, axis_next(pos, vel, hi).1, hi) == (axis_phase(
            pos,
            vel,
            hi,
        ) + 1) % axis_period(hi),
{
    let n: int = axis_phase(pos, vel, hi);
    assert(0 <= n < axis_period(hi));
    if n + 1 == axis_period(hi) {
        assert((n + 1) % axis_period(hi) == 0);
    } else {
        vstd::arithmetic::div_mod::lemma_small_mod((n + 1) as nat, axis_period(hi) as nat);
    }
}

/// The phase of a well-formed axis state determines it.
proof fn lemma_axis_phase_unique(p1: int, v1: int, p2: int, v2: int, hi: int)
    requires
        axis_wf(p1, v1, hi),
        axis_wf(p2, v2, hi),
        hi > 2 * RADIUS,
        axis_phase(p1, v1, hi) == axis_phase(p2, v2, hi),
    ensures
        p1 == p2 && v1 == v2,
{
}

/// After `n` ticks an axis is still well formed and `n` places further on its
/// cycle.
proof fn lemma_axis_iter(pos: int, vel: int, hi: int, n: nat)
    requires
        axis_wf(pos, vel, hi),
        hi > 2 * RADIUS,
    ensures
        axis_wf(axis_iter(pos, vel, hi, n).0, axis_iter(pos, vel, hi, n).1, hi),
        axis_phase(axis_iter(pos, vel, hi, n).0, axis_iter(pos, vel, hi, n).1, hi) == (axis_phase(
            pos,
            vel,
            hi,
        ) + n) % axis_period(hi),
    decreases n,
{
    let m: int = axis_period(hi);
    let ph: int = axis_phase(pos, vel, hi);
    if n == 0 {
        assert(ph % m == ph) by {
            vstd::arithmetic::div_mod::lemma_small_mod(ph as nat, m as nat);
        }
    } else {
        let (p, v) = axis_next(pos, vel, hi);
        lemma_axis_step(pos, vel, hi);
        lemma_axis_iter(p, v, hi, (n - 1) as nat);
        vstd::arithmetic::div_mod::lemma_add_mod_noop(ph + 1, n - 1, m);
        vstd::arithmetic::div_mod::lemma_small_mod((n - 1) as nat % m as nat, m as nat);
        vstd::arithmetic::div_mod::lemma_mod_twice(ph + n, m);
    }
}

/// The bouncing motion on each axis is periodic: a well-formed axis state,
/// after `2 * (hi - 2 * RADIUS)` ticks, is back where it started, heading the
/// same way, having stayed within `RADIUS .. hi - RADIUS` throughout.
pub proof fn lemma_bounce_periodic(pos: int, vel: int, hi: int)
    requires
        axis_wf(pos, vel, hi),
        hi > 2 * RADIUS,
    ensures
        axis_iter(pos, vel, hi, axis_period(hi) as nat) == (pos, vel),
        forall|n: nat| #[trigger] axis_iter(pos, vel, hi, n).0 >= RADIUS && axis_iter(pos, vel, hi, n).0 <= hi
            - RADIUS,
{
    let m: int = axis_period(hi);
    lemma_axis_iter(pos, vel, hi, m as nat);
    let (p, v) = axis_iter(pos, vel, hi, m as nat);
    let ph: int = axis_phase(pos, vel, hi);
    vstd::arithmetic::div_mod::lemma_mod_add_multiples_vanish(ph, m);
    vstd::arithmetic::div_mod::lemma_small_mod(ph as nat, m as nat);
    lemma_axis_phase_unique(p, v, pos, vel, hi);
    assert forall|n: nat| #[trigger] axis_iter(pos, vel, hi, n).0 >= RADIUS && axis_iter(pos, vel, hi, n).0 <= hi
        - RADIUS by {
        lemma_axis_iter(pos, vel, hi, n);
    }
}

} // verus!
