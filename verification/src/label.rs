//! A bounded append-only text buffer for transient on-screen strings.

use vstd::prelude::*;
use vstd::pervasive::VecAdditionalExecFns;
use crate::display::Display;
use crate::display::pix;
use crate::display::on_screen;
use crate::font::Font;
use crate::font::text_covers;
use crate::pixel::Pixel;
use crate::LABEL_CAPACITY;
use crate::SHADOW_OFFSET;
use crate::SHADOW_COLOR_WORD;

verus! {

/// The decimal digit characters of `x`, most significant first.
pub open spec fn digits(x: nat) -> Seq<u8>
    decreases x,
{
    if x < 10 {
        seq![(48 + x) as u8]
    } else {
        digits(x / 10) + seq![(48 + x % 10) as u8]
    }
}

/// A fixed-capacity buffer of glyph codes with a current length.  Appends
/// past the capacity are dropped; a decimal append either fits whole or
/// leaves the label as it was.
pub struct Label {
    pub chars: Vec<u8>,
    pub count: usize,
}

impl Label {
    /// The backing store always holds exactly the capacity; the length
    /// never passes it.
    pub open spec fn wf(&self) -> bool {
        self.chars@.len() == LABEL_CAPACITY && self.count <= LABEL_CAPACITY
    }

    /// The glyph codes the label currently holds.
    pub open spec fn content(&self) -> Seq<u8> {
        self.chars@.take(self.count as int)
    }

    /// An empty label.
    pub fn empty() -> (l: Label)
        ensures
            l.wf(),
            l.content() == Seq::<u8>::empty(),
    {
        let mut chars: Vec<u8> = Vec::new();
        let mut i: usize = 0;
        while i < LABEL_CAPACITY
            invariant
                i <= LABEL_CAPACITY,
                chars@.len() == i,
            decreases LABEL_CAPACITY - i,
        {
            chars.push(0);
            i = i + 1;
        }
        let l = Label { chars, count: 0 };
        proof {
            assert(l.content() =~= Seq::<u8>::empty());
        }
        l
    }

    /// Resets the label to empty.
    pub fn clear(&mut self)
        requires
            old(self).wf(),
        ensures
            final(self).wf(),
            final(self).content() == Seq::<u8>::empty(),
            final(self).chars == old(self).chars,
    {
        self.count = 0;
        proof {
            assert(self.content() =~= Seq::<u8>::empty());
        }
    }

    /// Appends one glyph code; a full label drops it.
    pub fn push_byte(&mut self, b: u8)
        requires
            old(self).wf(),
        ensures
            final(self).wf(),
            old(self).count < LABEL_CAPACITY ==> final(self).content() == old(self).content()
                + seq![b] && final(self).count == old(self).count + 1 && final(self).chars@ == old(
                self,
            ).chars@.update(old(self).count as int, b),
            old(self).count >= LABEL_CAPACITY ==> *final(self) == *old(self),
    {
        if self.count < LABEL_CAPACITY {
            self.chars.set(self.count, b);
            self.count = self.count + 1;
            proof {
                assert(self.content() =~= old(self).content() + seq![b]);
            }
        }
    }

    /// Appends glyph codes until the label is full; the rest are dropped.
    pub fn push_bytes(&mut self, bs: &[u8])
        requires
            old(self).wf(),
        ensures
            final(self).wf(),
            final(self).count == (if old(self).count + bs@.len() <= LABEL_CAPACITY {
                old(self).count + bs@.len()
            } else {
                LABEL_CAPACITY as int
            }),
            final(self).content() == old(self).content() + bs@.take(
                if bs@.len() <= LABEL_CAPACITY - old(self).count {
                    bs@.len() as int
                } else {
                    LABEL_CAPACITY - old(self).count
                },
            ),
    {
        let n = bs.len();
        let mut j: usize = 0;
        proof {
            assert(self.content() =~= old(self).content() + bs@.take(0));
        }
        while j < n
            invariant
                j <= n,
                n == bs@.len(),
                self.wf(),
                self.count as int == (if old(self).count + j <= LABEL_CAPACITY {
                    old(self).count + j
                } else {
                    LABEL_CAPACITY as int
                }),
                self.content() == old(self).content() + bs@.take(
                    if j <= LABEL_CAPACITY - old(self).count {
                        j as int
                    } else {
                        LABEL_CAPACITY - old(self).count
                    },
                ),
            decreases n - j,
        {
            let ghost prev = *self;
            self.push_byte(bs[j]);
            proof {
                if prev.count < LABEL_CAPACITY {
                    assert(bs@.take(j + 1) =~= bs@.take(j as int) + seq![bs@[j as int]]);
                    assert(self.content() =~= old(self).content() + bs@.take(j + 1));
                }
            }
            j = j + 1;
        }
    }

    /// Appends the decimal digits of `x`, most significant first.  When the
    /// whole number does not fit in the remaining capacity the label is
    /// left exactly as it was: the append is atomic.
    pub fn push_usize(&mut self, x: usize)
        requires
            old(self).wf(),
        ensures
            final(self).wf(),
            old(self).count + digits(x as nat).len() <= LABEL_CAPACITY ==> final(self).content()
                == old(self).content() + digits(x as nat) && final(self).count == old(self).count
                + digits(x as nat).len(),
            old(self).count + digits(x as nat).len() > LABEL_CAPACITY ==> final(self).content()
                == old(self).content() && final(self).count == old(self).count,
    {
        let saved = self.count;
        if x == 0 {
            self.push_byte(48);
            proof {
                assert(digits(0) =~= seq![48u8]);
            }
            return ;
        }
        let mut cur = x;
        while cur > 0 && self.count < LABEL_CAPACITY
            invariant
                x > 0,
                self.wf(),
                saved == old(self).count,
                saved <= self.count <= LABEL_CAPACITY,
                self.chars@.take(saved as int) == old(self).content(),
                cur > 0 ==> digits(x as nat) == digits(cur as nat) + self.chars@.subrange(
                    saved as int,
                    self.count as int,
                ).reverse(),
                cur == 0 ==> digits(x as nat) == self.chars@.subrange(
                    saved as int,
                    self.count as int,
                ).reverse(),
                cur == 0 ==> self.count > saved,
            decreases cur,
        {
            let ghost prev = *self;
            let ghost cur0 = cur as nat;
            let d = (cur % 10) as u8 + 48;
            self.push_byte(d);
            cur = cur / 10;
            proof {
                assert(self.chars@.take(saved as int) =~= prev.chars@.take(saved as int));
                let w_prev = prev.chars@.subrange(saved as int, prev.count as int);
                let w_new = self.chars@.subrange(saved as int, self.count as int);
                assert(w_new =~= w_prev + seq![d]);
                assert(w_new.reverse() =~= seq![d] + w_prev.reverse());
                if cur0 >= 10 {
                    assert(digits(cur0) == digits(cur0 / 10) + seq![(48 + cur0 % 10) as u8]);
                    assert(digits(x as nat) =~= digits(cur as nat) + w_new.reverse());
                } else {
                    assert(digits(cur0) == seq![(48 + cur0) as u8]);
                    assert(digits(x as nat) =~= w_new.reverse());
                }
            }
        }
        if cur > 0 {
            proof {
                assert(self.count == LABEL_CAPACITY);
                assert(digits(cur as nat).len() >= 1);
                assert(digits(x as nat).len() >= 1 + (LABEL_CAPACITY - saved));
            }
            self.count = saved;
            proof {
                assert(self.content() =~= old(self).content());
            }
            return ;
        }
        let ghost target = digits(x as nat);
        let ghost orig_slice = self.chars@.subrange(saved as int, self.count as int);
        let ghost snap = self.chars@;
        let ghost count0 = self.count;
        proof {
            assert(target == orig_slice.reverse());
            assert(target.len() == count0 - saved);
        }
        let mut lo = saved;
        let mut hi = self.count;
        while lo + 1 < hi
            invariant
                self.wf(),
                self.count == count0,
                saved <= lo <= hi <= count0,
                lo - saved == count0 - hi,
                target.len() == count0 - saved,
                target == orig_slice.reverse(),
                orig_slice.len() == count0 - saved,
                forall|k: int|
                    0 <= k < LABEL_CAPACITY && !(saved <= k < count0) ==> self.chars@[k] == snap[k],
                forall|k: int| saved <= k < lo ==> self.chars@[k] == target[k - saved],
                forall|k: int| hi <= k < count0 ==> self.chars@[k] == target[k - saved],
                forall|k: int| lo <= k < hi ==> self.chars@[k] == orig_slice[k - saved],
            decreases hi - lo,
        {
            hi = hi - 1;
            let a = self.chars[lo];
            let b = self.chars[hi];
            self.chars.set(lo, b);
            self.chars.set(hi, a);
            lo = lo + 1;
        }
        proof {
            assert forall|k: int| saved <= k < count0 implies self.chars@[k] == target[k - saved]
            by {
                if lo <= k < hi {
                    assert(self.chars@[k] == orig_slice[k - saved]);
                    assert(k - saved == count0 - saved - 1 - (k - saved));
                }
            }
            assert(self.content() =~= old(self).content() + target);
        }
    }

    /// Draws the label's glyphs left to right at the given position, the
    /// drop shadow first and the text color on top.
    pub fn render(&self, display: &mut Display, font: &Font, x: i32, y: i32, scale: i32, color: Pixel)
        requires
            self.wf(),
            font.wf(),
            old(display).wf(),
            scale >= 1,
        ensures
            final(display).wf(),
            forall|dx: int, dy: int|
                on_screen(dx, dy) ==> #[trigger] pix(final(display).pixels@, dx, dy) == (if text_covers(
                    font.pixels@,
                    self.content(),
                    x as int,
                    y as int,
                    scale as int,
                    dx,
                    dy,
                ) {
                    color
                } else if text_covers(
                    font.pixels@,
                    self.content(),
                    x - SHADOW_OFFSET,
                    y - SHADOW_OFFSET,
                    scale as int,
                    dx,
                    dy,
                ) {
                    Pixel(SHADOW_COLOR_WORD)
                } else {
                    pix(old(display).pixels@, dx, dy)
                }),
    {
        let bytes: &[u8] = &self.chars[0..self.count];
        proof {
            assert(bytes@ == self.content());
        }
        font.render_bytes_wide(
            display,
            bytes,
            x as i64 - SHADOW_OFFSET as i64,
            y as i64 - SHADOW_OFFSET as i64,
            scale,
            Pixel(SHADOW_COLOR_WORD),
        );
        font.render_bytes_wide(display, bytes, x as i64, y as i64, scale, color);
    }
}

} // verus!
