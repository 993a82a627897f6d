//! Square game objects: the player, bullets and enemies.

use vstd::prelude::*;
use crate::display::Display;
use crate::display::pix;
use crate::display::on_screen;
use crate::display::rect_covers;
use crate::pixel::Pixel;
use crate::SHADOW_OFFSET;
use crate::SHADOW_COLOR_WORD;

verus! {

/// One square game object: the position of its center and a liveness flag.
#[derive(Clone, Copy, PartialEq, Eq, Structural, Debug)]
pub struct Entity {
    pub x: i32,
    pub y: i32,
    pub alive: bool,
}

/// Whether the square of side `a_size` centered on `a` touches the square of
/// side `b_size` centered on `b`.
pub open spec fn spec_overlaps(a: Entity, a_size: int, b: Entity, b_size: int) -> bool {
    &&& a.x + a_size / 2 >= b.x - b_size / 2
    &&& b.x + b_size / 2 >= a.x - a_size / 2
    &&& b.y + b_size / 2 >= a.y - a_size / 2
    &&& a.y + a_size / 2 >= b.y - b_size / 2
}

/// The pixel left at (`x`, `y`) after stamping `e` over a background pixel
/// `below`: the entity's square wins, then its drop shadow, then the
/// background.  A dead entity leaves the background untouched.
pub open spec fn entity_pixel(
    e: Entity,
    size: int,
    color: Pixel,
    below: Pixel,
    x: int,
    y: int,
) -> Pixel {
    let cx = e.x - size / 2;
    let cy = e.y - size / 2;
    if e.alive && rect_covers(cx, cy, size, size, x, y) {
        color
    } else if e.alive && rect_covers(
        cx - SHADOW_OFFSET as int,
        cy - SHADOW_OFFSET as int,
        size,
        size,
        x,
        y,
    ) {
        Pixel(SHADOW_COLOR_WORD)
    } else {
        below
    }
}

impl Entity {
    /// The value a dead entity holds.
    pub open spec fn spec_dead() -> Entity {
        Entity { x: 0, y: 0, alive: false }
    }

    /// A live entity at the given position.
    pub fn new(x: i32, y: i32) -> (e: Entity)
        ensures
            e == (Entity { x, y, alive: true }),
    {
        Entity { x, y, alive: true }
    }

    /// A dead entity, parked at the origin until revived.
    pub fn dead() -> (e: Entity)
        ensures
            e == (Entity { x: 0, y: 0, alive: false }),
    {
        Entity { x: 0, y: 0, alive: false }
    }

    /// Brings the entity back to life at the given position.
    pub fn revive(&mut self, x: i32, y: i32)
        ensures
            *final(self) == (Entity { x, y, alive: true }),
    {
        self.alive = true;
        self.x = x;
        self.y = y;
    }

    /// Whether this entity's square touches that entity's square.
    pub fn overlaps(&self, self_size: i32, that: &Entity, that_size: i32) -> (r: bool)
        requires
            self_size >= 0,
            that_size >= 0,
        ensures
            r == spec_overlaps(*self, self_size as int, *that, that_size as int),
    {
        let ha = ((self_size as u32) / 2) as i64;
        let hb = ((that_size as u32) / 2) as i64;

        let left1 = self.x as i64 - ha;
        let right1 = self.x as i64 + ha;
        let top1 = self.y as i64 - ha;
        let bottom1 = self.y as i64 + ha;

        let left2 = that.x as i64 - hb;
        let right2 = that.x as i64 + hb;
        let top2 = that.y as i64 - hb;
        let bottom2 = that.y as i64 + hb;

        right1 >= left2 && right2 >= left1 && bottom2 >= top1 && bottom1 >= top2
    }

    /// Stamps the entity's square and its drop shadow into the display,
    /// clipped to the buffer bounds.  A dead entity draws nothing.
    pub fn render(&self, display: &mut Display, size: i32, color: Pixel)
        requires
            old(display).wf(),
            size >= 0,
        ensures
            final(display).wf(),
            forall|x: int, y: int|
                on_screen(x, y) ==> #[trigger] pix(final(display).pixels@, x, y) == entity_pixel(
                    *self,
                    size as int,
                    color,
                    pix(old(display).pixels@, x, y),
                    x,
                    y,
                ),
    {
        if self.alive {
            let ha = ((size as u32) / 2) as i64;
            let cx = self.x as i64 - ha;
            let cy = self.y as i64 - ha;
            display.fill_rect_wide(
                cx - SHADOW_OFFSET as i64,
                cy - SHADOW_OFFSET as i64,
                size as i64,
                size as i64,
                Pixel(SHADOW_COLOR_WORD),
            );
            display.fill_rect_wide(cx, cy, size as i64, size as i64, color);
        }
    }
}

} // verus!
