//! The pixel buffer every rasterization operation writes into.

use vstd::prelude::*;
use vstd::pervasive::VecAdditionalExecFns;
use crate::pixel::Pixel;
use crate::DISPLAY_WIDTH;
use crate::DISPLAY_HEIGHT;

verus! {

/// The pixel a display buffer holds at column `x`, row `y`.
pub open spec fn pix(d: Seq<Pixel>, x: int, y: int) -> Pixel {
    d[y * (DISPLAY_WIDTH as int) + x]
}

/// Whether column `x`, row `y` lies inside the display.
pub open spec fn on_screen(x: int, y: int) -> bool {
    0 <= x < DISPLAY_WIDTH && 0 <= y < DISPLAY_HEIGHT
}

/// Whether (`dx`, `dy`) lies inside the axis-aligned rectangle of width `w`
/// and height `h` whose top-left corner is (`x0`, `y0`).
pub open spec fn rect_covers(x0: int, y0: int, w: int, h: int, dx: int, dy: int) -> bool {
    x0 <= dx < x0 + w && y0 <= dy < y0 + h
}

/// The fixed-size pixel buffer the host blits to the screen once per frame.
pub struct Display {
    pub pixels: Vec<Pixel>,
}

impl Display {
    /// The buffer holds exactly one pixel per display cell.
    pub open spec fn wf(&self) -> bool {
        self.pixels@.len() == DISPLAY_WIDTH * DISPLAY_HEIGHT
    }

    /// A display with every pixel cleared to zero.
    pub fn new() -> (d: Display)
        ensures
            d.wf(),
            forall|x: int, y: int|
                on_screen(x, y) ==> #[trigger] pix(d.pixels@, x, y) == Pixel(0u32),
    {
        let total = DISPLAY_WIDTH * DISPLAY_HEIGHT;
        let mut pixels: Vec<Pixel> = Vec::new();
        let mut i: usize = 0;
        while i < total
            invariant
                i <= total,
                total == DISPLAY_WIDTH * DISPLAY_HEIGHT,
                pixels@.len() == i,
                forall|j: int| 0 <= j < i ==> pixels@[j] == Pixel(0u32),
            decreases total - i,
        {
            pixels.push(Pixel(0));
            i = i + 1;
        }
        Display { pixels }
    }

    /// Overwrites every pixel of the buffer.
    pub fn fill(&mut self, pixel: Pixel)
        requires
            old(self).wf(),
        ensures
            final(self).wf(),
            forall|x: int, y: int|
                on_screen(x, y) ==> #[trigger] pix(final(self).pixels@, x, y) == pixel,
    {
        let total = DISPLAY_WIDTH * DISPLAY_HEIGHT;
        let mut i: usize = 0;
        while i < total
            invariant
                i <= total,
                total == DISPLAY_WIDTH * DISPLAY_HEIGHT,
                self.pixels@.len() == total,
                forall|j: int| 0 <= j < i ==> self.pixels@[j] == pixel,
            decreases total - i,
        {
            self.pixels.set(i, pixel);
            i = i + 1;
        }
    }

    /// Writes one pixel, dropping the write silently when the coordinates
    /// fall outside the buffer.
    pub fn put(&mut self, x: i32, y: i32, pixel: Pixel)
        requires
            old(self).wf(),
        ensures
            final(self).wf(),
            forall|dx: int, dy: int|
                on_screen(dx, dy) ==> #[trigger] pix(final(self).pixels@, dx, dy) == (if dx
                    == x as int && dy == y as int {
                    pixel
                } else {
                    pix(old(self).pixels@, dx, dy)
                }),
    {
        if 0 <= x && x < DISPLAY_WIDTH as i32 && 0 <= y && y < DISPLAY_HEIGHT as i32 {
            let index = y as usize * DISPLAY_WIDTH + x as usize;
            self.pixels.set(index, pixel);
        }
    }

    /// Fills a rectangle given with wide coordinates, clipping every write
    /// to the buffer bounds.  Pixels of the rectangle that fall outside the
    /// buffer are silently dropped.
    pub(crate) fn fill_rect_wide(&mut self, x0: i64, y0: i64, w: i64, h: i64, pixel: Pixel)
        requires
            old(self).wf(),
            -0x10_0000_0000_0000 <= x0 <= 0x10_0000_0000_0000,
            -0x10_0000_0000_0000 <= y0 <= 0x10_0000_0000_0000,
            -0x10_0000_0000_0000 <= w <= 0x10_0000_0000_0000,
            -0x10_0000_0000_0000 <= h <= 0x10_0000_0000_0000,
        ensures
            final(self).wf(),
            forall|x: int, y: int|
                on_screen(x, y) ==> #[trigger] pix(final(self).pixels@, x, y) == (if rect_covers(
                    x0 as int,
                    y0 as int,
                    w as int,
                    h as int,
                    x,
                    y,
                ) {
                    pixel
                } else {
                    pix(old(self).pixels@, x, y)
                }),
    {
        let mut x_lo: i64 = x0;
        if x_lo < 0 {
            x_lo = 0;
        }
        let mut x_hi: i64 = x0 + w;
        if x_hi > DISPLAY_WIDTH as i64 {
            x_hi = DISPLAY_WIDTH as i64;
        }
        let mut y_lo: i64 = y0;
        if y_lo < 0 {
            y_lo = 0;
        }
        let mut y_hi: i64 = y0 + h;
        if y_hi > DISPLAY_HEIGHT as i64 {
            y_hi = DISPLAY_HEIGHT as i64;
        }
        if x_lo >= x_hi || y_lo >= y_hi {
            return ;
        }
        let xs = x_lo as usize;
        let xe = x_hi as usize;
        let ys = y_lo as usize;
        let ye = y_hi as usize;
        let mut yy = ys;
        while yy < ye
            invariant
                old(self).wf(),
                self.pixels@.len() == old(self).pixels@.len(),
                xs == x_lo as int,
                xe == x_hi as int,
                ys == y_lo as int,
                ye == y_hi as int,
                0 <= xs < xe <= DISPLAY_WIDTH,
                0 <= ys <= yy <= ye <= DISPLAY_HEIGHT,
                x_lo as int == if x0 < 0 {
                    0
                } else {
                    x0 as int
                },
                x_hi as int == if x0 + w > DISPLAY_WIDTH {
                    DISPLAY_WIDTH as int
                } else {
                    x0 + w
                },
                y_lo as int == if y0 < 0 {
                    0
                } else {
                    y0 as int
                },
                y_hi as int == if y0 + h > DISPLAY_HEIGHT {
                    DISPLAY_HEIGHT as int
                } else {
                    y0 + h
                },
                forall|x: int, y: int|
                    on_screen(x, y) ==> #[trigger] pix(self.pixels@, x, y) == (if xs <= x < xe
                        && ys <= y < yy {
                        pixel
                    } else {
                        pix(old(self).pixels@, x, y)
                    }),
            decreases ye - yy,
        {
            let mut xx = xs;
            while xx < xe
                invariant
                    old(self).wf(),
                    self.pixels@.len() == old(self).pixels@.len(),
                    0 <= xs <= xx <= xe <= DISPLAY_WIDTH,
                    0 <= ys <= yy < ye <= DISPLAY_HEIGHT,
                    forall|x: int, y: int|
                        on_screen(x, y) ==> #[trigger] pix(self.pixels@, x, y) == (if xs <= x < xe
                            && (ys <= y < yy || (y == yy as int && xs <= x < xx)) {
                            pixel
                        } else {
                            pix(old(self).pixels@, x, y)
                        }),
                decreases xe - xx,
            {
                let ghost before = self.pixels@;
                self.pixels.set(yy * DISPLAY_WIDTH + xx, pixel);
                proof {
                    assert forall|x: int, y: int| on_screen(x, y) implies #[trigger] pix(
                        self.pixels@,
                        x,
                        y,
                    ) == (if x == xx as int && y == yy as int {
                        pixel
                    } else {
                        pix(before, x, y)
                    }) by {
                        if !(x == xx as int && y == yy as int) {
                            assert(y * (DISPLAY_WIDTH as int) + x != (yy as int) * (
                            DISPLAY_WIDTH as int) + (xx as int));
                        }
                    }
                }
                xx = xx + 1;
            }
            yy = yy + 1;
        }
    }

    /// Fills a rectangle, clipping every write to the buffer bounds.
    pub fn fill_rect(&mut self, x0: i32, y0: i32, w: i32, h: i32, pixel: Pixel)
        requires
            old(self).wf(),
        ensures
            final(self).wf(),
            forall|x: int, y: int|
                on_screen(x, y) ==> #[trigger] pix(final(self).pixels@, x, y) == (if rect_covers(
                    x0 as int,
                    y0 as int,
                    w as int,
                    h as int,
                    x,
                    y,
                ) {
                    pixel
                } else {
                    pix(old(self).pixels@, x, y)
                }),
    {
        self.fill_rect_wide(x0 as i64, y0 as i64, w as i64, h as i64, pixel);
    }
}

} // verus!
