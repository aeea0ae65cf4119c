//! The pixel side of the camera: the screen, and the way between a pixel and
//! its whole-numbered place around the centre of the screen.
//!
//! The plane side of the camera scales such a place by the size of the viewport
//! and rounds a point of the plane back to one. That is floating-point work and
//! is done by the caller; everything that is decided on whole numbers is here.

use vstd::prelude::*;

verus! {

/// A screen of `screen_size.0` by `screen_size.1` pixels, x to the right, y
/// downward.
#[derive(Clone, Copy, Debug)]
pub struct Camera {
    screen_size: (u32, u32),
}

/// The pixel at which a point lands whose rounded place around the centre of
/// a `width` by `height` screen is `(cx, cy)`, with y pointing up; `None` when
/// it lands off the screen.
///
/// The place is moved by half the screen, and the y axis is turned over. Before
/// the turn, x is kept when it lies in `[0, width)` and y when it lies in
/// `(0, height]`: the bounds on y are those of `height - y` for a pixel row `y`,
/// so that the turn gives a row in `[0, height)`.
pub open spec fn land(width: nat, height: nat, cx: int, cy: int) -> Option<(u32, u32)> {
    let x = cx + width / 2;
    let y = cy + height / 2;
    if x < 0 || x >= width || y <= 0 || y > height {
        None
    } else {
        Some((x as u32, (height - y) as u32))
    }
}

impl Camera {
    /// The width of the screen in pixels.
    pub closed spec fn screen_width(&self) -> nat {
        self.screen_size.0 as nat
    }

    /// The height of the screen in pixels.
    pub closed spec fn screen_height(&self) -> nat {
        self.screen_size.1 as nat
    }

    /// The screen has at least one pixel, and an image of its size can be
    /// allocated.
    pub open spec fn wf(&self) -> bool {
        &&& 0 < self.screen_width()
        &&& 0 < self.screen_height()
        &&& self.screen_width() * self.screen_height() * 3 <= u32::MAX
    }

    /// Whether `sp` is a pixel of the screen.
    pub open spec fn on_screen(&self, sp: (u32, u32)) -> bool {
        sp.0 < self.screen_width() && sp.1 < self.screen_height()
    }

    /// A camera for a screen of the given size, unless the screen is empty or
    /// too large for an image of it to be allocated.
    pub fn new(screen_size: (u32, u32)) -> (res: Option<Camera>)
        ensures
            res is Some <==> 0 < screen_size.0 && 0 < screen_size.1 && screen_size.0
                * screen_size.1 * 3 <= u32::MAX,
            res is Some ==> res->0.wf() && res->0.screen_width() == screen_size.0
                && res->0.screen_height() == screen_size.1,
    {
        let (width, height) = screen_size;
        if width == 0 || height == 0 {
            return None;
        }
        assert(0 <= width * height <= u32::MAX * u32::MAX) by (nonlinear_arith)
            requires
                width <= u32::MAX,
                height <= u32::MAX,
        ;
        if (width as u64) * (height as u64) > (u32::MAX / 3) as u64 {
            None
        } else {
            Some(Camera { screen_size })
        }
    }

    /// The width and the height of the screen in pixels.
    pub fn screen_size(&self) -> (res: (u32, u32))
        ensures
            res.0 == self.screen_width(),
            res.1 == self.screen_height(),
    {
        self.screen_size
    }

    /// The number of pixels of the screen.
    pub fn number_of_pixels(&self) -> (n: u32)
        requires
            self.wf(),
        ensures
            n == self.screen_width() * self.screen_height(),
    {
        assert(self.screen_size.0 * self.screen_size.1 <= self.screen_size.0 * self.screen_size.1
            * 3) by (nonlinear_arith);
        self.screen_size.0 * self.screen_size.1
    }

    /// Twice the offset of pixel `sp` from the centre of the screen, with y
    /// pointing up: the row is turned over to `height - y` first. Doubled, the
    /// offset is whole on a screen of odd size too.
    pub fn doubled_offset(&self, sp: (u32, u32)) -> (res: (i64, i64))
        ensures
            res.0 == 2 * sp.0 - self.screen_width(),
            res.1 == self.screen_height() - 2 * sp.1,
            self.on_screen(sp) ==> -self.screen_width() <= res.0 < self.screen_width()
                && -self.screen_height() < res.1 <= self.screen_height(),
    {
        let x = 2 * (sp.0 as i64) - self.screen_size.0 as i64;
        let y = self.screen_size.1 as i64 - 2 * (sp.1 as i64);
        (x, y)
    }

    /// The pixel at which a point lands whose rounded place around the centre
    /// of the screen is `rp`, or `None` when it lands off the screen.
    pub fn to_screen(&self, rp: (i32, i32)) -> (res: Option<(u32, u32)>)
        ensures
            res == land(self.screen_width(), self.screen_height(), rp.0 as int, rp.1 as int),
            res is Some ==> self.on_screen(res->0),
    {
        let x = rp.0 as i64 + (self.screen_size.0 / 2) as i64;
        let y = rp.1 as i64 + (self.screen_size.1 / 2) as i64;

        if x < 0 || x >= self.screen_size.0 as i64 || y <= 0 || y > self.screen_size.1 as i64 {
            None
        } else {
            Some((x as u32, self.screen_size.1 - y as u32))
        }
    }
}

/// A place that lands on the screen lands on a pixel of the screen.
pub proof fn lemma_land_on_screen(width: nat, height: nat, cx: int, cy: int)
    ensures
        land(width, height, cx, cy) matches Some(p) ==> p.0 < width && p.1 < height,
{
}

/// A place further from the centre than half the screen lands off the screen.
/// Upward the bound is one half-step wider: on a screen of odd height the place
/// half a pixel above the top edge is rounded onto the top row.
pub proof fn lemma_outside_lands_nowhere(width: nat, height: nat, cx: int, cy: int)
    requires
        2 * cx < -width || 2 * cx > width || 2 * cy < -height || 2 * cy > height + 1,
    ensures
        land(width, height, cx, cy) is None,
{
}

/// On a screen of even width and height the offset of a pixel from the centre
/// is whole, and lands on that pixel again.
pub proof fn lemma_round_trip(width: nat, height: nat, x: int, y: int)
    requires
        width % 2 == 0,
        height % 2 == 0,
        0 <= x < width,
        0 <= y < height,
        width <= u32::MAX,
        height <= u32::MAX,
    ensures
        land(width, height, (2 * x - width) / 2, (height - 2 * y) / 2) == Some(
            (x as u32, y as u32),
        ),
{
}

/// Half of a doubled offset, rounded to the nearest whole number, halves away
/// from zero.
pub open spec fn round_half(d: int) -> int {
    if d >= 0 {
        (d + 1) / 2
    } else {
        -((1 - d) / 2)
    }
}

/// On any screen the rounded offset of a pixel lands within one pixel of it,
/// if it lands at all: on the pixel itself, or one to the left, one below, or
/// both.
pub proof fn lemma_round_trip_near(width: nat, height: nat, x: int, y: int)
    requires
        0 <= x < width,
        0 <= y < height,
        width <= u32::MAX,
        height <= u32::MAX,
    ensures
        land(width, height, round_half(2 * x - width), round_half(height - 2 * y)) matches Some(p)
            ==> x - 1 <= p.0 <= x && y <= p.1 <= y + 1,
{
}

} // verus!
