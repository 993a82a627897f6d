//! The decompressed glyph atlas and the glyph rasterizer.

use vstd::prelude::*;
use vstd::pervasive::VecAdditionalExecFns;
use crate::codec::decoded;
use crate::codec::unpack_byte;
use crate::display::Display;
use crate::display::pix;
use crate::display::on_screen;
use crate::display::rect_covers;
use crate::pixel::Pixel;
use crate::FONT_IMAGE_WIDTH;
use crate::FONT_IMAGE_HEIGHT;
use crate::FONT_IMAGE_COLS;
use crate::FONT_CHAR_WIDTH;
use crate::FONT_CHAR_HEIGHT;
use crate::DISPLAY_WIDTH;

verus! {

/// The glyph actually drawn for a code: codes outside the printable range
/// fall back to the question mark.
pub open spec fn glyph_source(code: u8) -> u8 {
    if 32 <= code <= 126 {
        code
    } else {
        63
    }
}

/// Whether the glyph for `code`, drawn with its top-left corner at
/// (`sx`, `sy`) and magnified by `scale`, covers the display point
/// (`x`, `y`) with an opaque atlas sample.
pub open spec fn glyph_covers(
    atlas: Seq<u8>,
    code: u8,
    sx: int,
    sy: int,
    scale: int,
    x: int,
    y: int,
) -> bool {
    let g = glyph_source(code) as int - 32;
    let col = g % (FONT_IMAGE_COLS as int);
    let row = g / (FONT_IMAGE_COLS as int);
    let cw = FONT_CHAR_WIDTH as int;
    let ch = FONT_CHAR_HEIGHT as int;
    &&& sx <= x < sx + cw * scale
    &&& sy <= y < sy + ch * scale
    &&& atlas[(row * ch + (y - sy) / scale) * (FONT_IMAGE_WIDTH as int) + col * cw + (x - sx)
        / scale] == 0xFFu8
}

/// Like `glyph_covers`, restricted to the cell pixels the rasterizer has
/// already visited: full cell rows above `cy`, and cells left of `cx` in
/// row `cy`.
spec fn glyph_covers_before(
    atlas: Seq<u8>,
    code: u8,
    sx: int,
    sy: int,
    scale: int,
    cy: int,
    cx: int,
    x: int,
    y: int,
) -> bool {
    &&& glyph_covers(atlas, code, sx, sy, scale, x, y)
    &&& ((y - sy) / scale < cy || ((y - sy) / scale == cy && (x - sx) / scale < cx))
}

/// For a positive block size `b`, `a / b == q` says exactly that `a` lies
/// in the `q`-th block.
proof fn lemma_div_block(a: int, b: int, q: int)
    requires
        b >= 1,
    ensures
        (a / b == q) <==> (q * b <= a < q * b + b),
{
    if q * b <= a < q * b + b {
        vstd::arithmetic::div_mod::lemma_fundamental_div_mod_converse(a, b, q, a - q * b);
        assert(a / b == q);
    }
    if a / b == q {
        vstd::arithmetic::div_mod::lemma_fundamental_div_mod(a, b);
        vstd::arithmetic::div_mod::lemma_mod_bound(a, b);
        assert(a == b * (a / b) + (a % b));
        assert(b * q == q * b) by (nonlinear_arith);
        assert(q * b <= a < q * b + b);
    }
}

/// Multiplying both sides of `a <= c` by a nonnegative factor keeps the
/// order.
proof fn lemma_mul_mono_left(a: int, c: int, b: int)
    by (nonlinear_arith)
    requires
        a <= c,
        b >= 0,
    ensures
        a * b <= c * b,
{
}

/// A nonnegative value below `n` blocks of size `b` has a block index
/// below `n`.
proof fn lemma_div_range(a: int, b: int, n: int)
    requires
        b >= 1,
        0 <= a,
        a < n * b,
    ensures
        0 <= a / b < n,
{
    vstd::arithmetic::div_mod::lemma_fundamental_div_mod(a, b);
    vstd::arithmetic::div_mod::lemma_mod_bound(a, b);
    let q = a / b;
    let r = a % b;
    assert(a == b * q + r);
    assert(b * q == q * b) by (nonlinear_arith);
    if q < 0 {
        lemma_mul_mono_left(q, -1, b);
        assert(q * b <= -1 * b);
        assert(false);
    }
    if q >= n {
        lemma_mul_mono_left(n, q, b);
        assert(n * b <= q * b);
        assert(false);
    }
}

/// Glyph fallback: a code outside the printable range covers exactly the
/// display points the question-mark glyph covers, so it renders
/// identically to the question mark.
pub proof fn lemma_glyph_fallback(
    atlas: Seq<u8>,
    code: u8,
    sx: int,
    sy: int,
    scale: int,
    x: int,
    y: int,
)
    requires
        !(32 <= code <= 126),
    ensures
        glyph_covers(atlas, code, sx, sy, scale, x, y) == glyph_covers(
            atlas,
            63,
            sx,
            sy,
            scale,
            x,
            y,
        ),
{
}

/// Whether glyph number `i` of a text, drawn left to right from
/// (`tx`, `ty`) at the fixed per-glyph advance, covers the display point
/// (`x`, `y`).
pub open spec fn glyph_at(
    atlas: Seq<u8>,
    bytes: Seq<u8>,
    tx: int,
    ty: int,
    scale: int,
    i: int,
    x: int,
    y: int,
) -> bool {
    glyph_covers(atlas, bytes[i], tx + i * (FONT_CHAR_WIDTH as int) * scale, ty, scale, x, y)
}

/// Whether one of the first `n` glyphs of the text covers (`x`, `y`).
pub open spec fn text_covers_upto(
    atlas: Seq<u8>,
    bytes: Seq<u8>,
    tx: int,
    ty: int,
    scale: int,
    n: int,
    x: int,
    y: int,
) -> bool {
    exists|i: int| 0 <= i < n && #[trigger] glyph_at(atlas, bytes, tx, ty, scale, i, x, y)
}

/// Whether any glyph of the text covers (`x`, `y`).
pub open spec fn text_covers(
    atlas: Seq<u8>,
    bytes: Seq<u8>,
    tx: int,
    ty: int,
    scale: int,
    x: int,
    y: int,
) -> bool {
    text_covers_upto(atlas, bytes, tx, ty, scale, bytes.len() as int, x, y)
}

/// The glyph atlas: one alpha sample per pixel, `0xFF` where a glyph is
/// opaque and `0x00` where the background shows through.
pub struct Font {
    pub pixels: Vec<u8>,
}

impl Font {
    /// The atlas holds exactly one sample per atlas cell.
    pub open spec fn wf(&self) -> bool {
        self.pixels@.len() == FONT_IMAGE_WIDTH * FONT_IMAGE_HEIGHT
    }

    /// An atlas with every sample fully transparent.
    pub fn new() -> (f: Font)
        ensures
            f.wf(),
            forall|j: int| 0 <= j < FONT_IMAGE_WIDTH * FONT_IMAGE_HEIGHT ==> f.pixels@[j] == 0x00u8,
    {
        let total = FONT_IMAGE_WIDTH * FONT_IMAGE_HEIGHT;
        let mut pixels: Vec<u8> = Vec::new();
        let mut i: usize = 0;
        while i < total
            invariant
                i <= total,
                pixels@.len() == i,
                forall|j: int| 0 <= j < i ==> pixels@[j] == 0x00u8,
            decreases total - i,
        {
            pixels.push(0x00);
            i = i + 1;
        }
        Font { pixels }
    }

    /// Expands a compressed byte stream into the atlas.  The decoded samples
    /// overwrite the atlas from the start; samples past the atlas capacity
    /// are silently dropped, and samples the stream does not reach keep
    /// their previous value.
    pub fn decompress_from_bytes(&mut self, bytes: &[u8])
        requires
            old(self).wf(),
        ensures
            final(self).wf(),
            forall|j: int|
                0 <= j < FONT_IMAGE_WIDTH * FONT_IMAGE_HEIGHT ==> final(self).pixels@[j] == (if j
                    < decoded(bytes@).len() {
                    decoded(bytes@)[j]
                } else {
                    old(self).pixels@[j]
                }),
    {
        let n = bytes.len();
        let total = FONT_IMAGE_WIDTH * FONT_IMAGE_HEIGHT;
        let mut i: usize = 0;
        let mut cursor: usize = 0;
        let ghost orig = self.pixels@;
        let ghost mut done: Seq<u8> = Seq::empty();
        proof {
            assert(bytes@.skip(0) =~= bytes@);
            assert(done + decoded(bytes@) =~= decoded(bytes@));
        }
        while i < n
            invariant
                i <= n,
                n == bytes@.len(),
                cursor <= total,
                total == FONT_IMAGE_WIDTH * FONT_IMAGE_HEIGHT,
                self.pixels@.len() == total,
                decoded(bytes@) == done + decoded(bytes@.skip(i as int)),
                cursor as int == (if done.len() < total {
                    done.len() as int
                } else {
                    total as int
                }),
                forall|j: int|
                    0 <= j < total ==> self.pixels@[j] == (if j < done.len() {
                        done[j]
                    } else {
                        orig[j]
                    }),
            decreases n - i,
        {
            let ghost i0 = i as int;
            let ghost done0 = done;
            let byte = bytes[i];
            if byte == 0x00 {
                if i + 1 < n {
                    let count = bytes[i + 1];
                    let run_len = count as usize * 8;
                    let mut t: usize = 0;
                    while t < run_len && cursor < total
                        invariant
                            t <= run_len,
                            cursor <= total,
                            total == FONT_IMAGE_WIDTH * FONT_IMAGE_HEIGHT,
                            self.pixels@.len() == total,
                            cursor as int == (if done0.len() + t < total {
                                done0.len() + t
                            } else {
                                total as int
                            }),
                            forall|j: int|
                                0 <= j < total ==> self.pixels@[j] == (if j < done0.len() {
                                    done0[j]
                                } else if j < done0.len() + t {
                                    0x00u8
                                } else {
                                    orig[j]
                                }),
                            forall|j: int|
                                0 <= j < done0.len() && j < total ==> self.pixels@[j] == done0[j],
                        decreases run_len - t,
                    {
                        self.pixels.set(cursor, 0x00);
                        t = t + 1;
                        cursor = cursor + 1;
                    }
                    proof {
                        done = done0 + crate::codec::zero_samples((count as nat) * 8);
                        let tail = bytes@.skip(i0);
                        assert(tail[0] == 0x00u8);
                        assert(tail.len() >= 2);
                        assert(tail[1] == count);
                        assert(tail.skip(2) =~= bytes@.skip(i0 + 2));
                        assert(decoded(tail) == crate::codec::zero_samples((count as nat) * 8)
                            + decoded(bytes@.skip(i0 + 2)));
                        assert(decoded(bytes@) == done + decoded(bytes@.skip(i0 + 2)));
                        assert(done.len() == done0.len() + run_len);
                        assert forall|j: int| 0 <= j < total implies self.pixels@[j] == (if j
                            < done.len() {
                            done[j]
                        } else {
                            orig[j]
                        }) by {
                            if j < done.len() {
                                if j < done0.len() {
                                    assert(done[j] == done0[j]);
                                } else {
                                    assert(done[j] == 0x00u8);
                                }
                            }
                        }
                    }
                    i = i + 2;
                } else {
                    proof {
                        let tail = bytes@.skip(i0);
                        assert(tail =~= seq![0x00u8]);
                        assert(decoded(tail) =~= Seq::<u8>::empty());
                        assert(done + decoded(tail) =~= done);
                        assert(bytes@.skip(n as int) =~= Seq::<u8>::empty());
                        assert(decoded(bytes@.skip(n as int)) =~= Seq::<u8>::empty());
                        assert(done + decoded(bytes@.skip(n as int)) =~= done);
                    }
                    i = n;
                }
            } else {
                let mut k: usize = 0;
                while k < 8
                    invariant
                        k <= 8,
                        cursor <= total,
                        total == FONT_IMAGE_WIDTH * FONT_IMAGE_HEIGHT,
                        self.pixels@.len() == total,
                        cursor as int == (if done0.len() + k < total {
                            done0.len() + k
                        } else {
                            total as int
                        }),
                        forall|j: int|
                            0 <= j < total ==> self.pixels@[j] == (if j < done0.len() {
                                done0[j]
                            } else if j < done0.len() + k {
                                unpack_byte(byte)[j - done0.len()]
                            } else {
                                orig[j]
                            }),
                    decreases 8 - k,
                {
                    let sh: u32 = (7 - k) as u32;
                    let bit = (byte >> sh) & 1;
                    proof {
                        assert((byte >> sh) & 1u8 <= 1) by (bit_vector);
                        assert(unpack_byte(byte)[k as int] == (if (byte >> ((7 - k as int) as u8))
                            & 1u8 == 1u8 {
                            0xFFu8
                        } else {
                            0x00u8
                        }));
                        assert((byte >> ((7 - k as int) as u8)) == (byte >> sh)) by (bit_vector)
                            requires
                                sh == (7 - k as int) as u8 as u32,
                                sh <= 7,
                        ;
                    }
                    let value = bit * 0xFF;
                    if cursor < total {
                        self.pixels.set(cursor, value);
                        cursor = cursor + 1;
                    }
                    k = k + 1;
                }
                proof {
                    done = done0 + unpack_byte(byte);
                    let tail = bytes@.skip(i0);
                    assert(tail[0] == byte);
                    assert(tail.skip(1) =~= bytes@.skip(i0 + 1));
                    assert(decoded(tail) == unpack_byte(byte) + decoded(bytes@.skip(i0 + 1)));
                    assert(decoded(bytes@) == done + decoded(bytes@.skip(i0 + 1)));
                    assert(done.len() == done0.len() + 8);
                    assert forall|j: int| 0 <= j < total implies self.pixels@[j] == (if j
                        < done.len() {
                        done[j]
                    } else {
                        orig[j]
                    }) by {
                        if j < done.len() {
                            if j < done0.len() {
                                assert(done[j] == done0[j]);
                            } else {
                                assert(done[j] == unpack_byte(byte)[j - done0.len()]);
                            }
                        }
                    }
                }
                i = i + 1;
            }
        }
        proof {
            assert(bytes@.skip(n as int) =~= Seq::<u8>::empty());
            assert(decoded(bytes@.skip(n as int)) =~= Seq::<u8>::empty());
            assert(decoded(bytes@) =~= done);
        }
    }

    /// The atlas sample at column `x`, row `y`, or `None` when the
    /// coordinates fall outside the atlas.
    pub fn get(&self, x: i32, y: i32) -> (r: Option<&u8>)
        requires
            self.wf(),
        ensures
            r is Some <==> (0 <= x < FONT_IMAGE_WIDTH && 0 <= y < FONT_IMAGE_HEIGHT),
            r matches Some(s) ==> *s == self.pixels@[y as int * FONT_IMAGE_WIDTH as int + x as int],
    {
        if 0 <= x && x < FONT_IMAGE_WIDTH as i32 && 0 <= y && y < FONT_IMAGE_HEIGHT as i32 {
            Some(&self.pixels[y as usize * FONT_IMAGE_WIDTH + x as usize])
        } else {
            None
        }
    }

    /// Stamps one glyph with wide coordinates, clipping every pixel write
    /// to the display bounds.  A code outside the printable range falls
    /// back to the question-mark glyph, recursing exactly once.
    pub(crate) fn render_ascii_wide(
        &self,
        display: &mut Display,
        code: u8,
        start_x: i64,
        start_y: i64,
        scale: i32,
        color: Pixel,
    )
        requires
            self.wf(),
            old(display).wf(),
            scale >= 1,
            -0x1_0000_0000_0000 <= start_x <= 0x1_0000_0000_0000,
            -0x1_0000_0000_0000 <= start_y <= 0x1_0000_0000_0000,
        ensures
            final(display).wf(),
            forall|x: int, y: int|
                on_screen(x, y) ==> #[trigger] pix(final(display).pixels@, x, y) == (if glyph_covers(
                    self.pixels@,
                    code,
                    start_x as int,
                    start_y as int,
                    scale as int,
                    x,
                    y,
                ) {
                    color
                } else {
                    pix(old(display).pixels@, x, y)
                }),
        decreases (if 32 <= code && code <= 126 {
            0int
        } else {
            1int
        }),
    {
        if !(32 <= code && code <= 126) {
            self.render_ascii_wide(display, 63, start_x, start_y, scale, color);
            return ;
        }
        let c = (code - 32) as usize;
        let col = c % FONT_IMAGE_COLS;
        let row = c / FONT_IMAGE_COLS;
        let ghost atlas = self.pixels@;
        let ghost sxi = start_x as int;
        let ghost syi = start_y as int;
        let ghost sc = scale as int;
        let mut yy: usize = 0;
        while yy < FONT_CHAR_HEIGHT
            invariant
                self.wf(),
                self.pixels@ == atlas,
                old(display).wf(),
                display.pixels@.len() == old(display).pixels@.len(),
                yy <= FONT_CHAR_HEIGHT,
                32 <= code <= 126,
                c == code - 32,
                col == c % FONT_IMAGE_COLS,
                row == c / FONT_IMAGE_COLS,
                scale >= 1,
                sc == scale as int,
                sxi == start_x as int,
                syi == start_y as int,
                -0x1_0000_0000_0000 <= start_x <= 0x1_0000_0000_0000,
                -0x1_0000_0000_0000 <= start_y <= 0x1_0000_0000_0000,
                forall|x: int, y: int|
                    on_screen(x, y) ==> #[trigger] pix(display.pixels@, x, y) == (if glyph_covers_before(
                        atlas,
                        code,
                        sxi,
                        syi,
                        sc,
                        yy as int,
                        0,
                        x,
                        y,
                    ) {
                        color
                    } else {
                        pix(old(display).pixels@, x, y)
                    }),
            decreases FONT_CHAR_HEIGHT - yy,
        {
            let mut xx: usize = 0;
            while xx < FONT_CHAR_WIDTH
                invariant
                    self.wf(),
                    self.pixels@ == atlas,
                    old(display).wf(),
                    display.pixels@.len() == old(display).pixels@.len(),
                    yy < FONT_CHAR_HEIGHT,
                    xx <= FONT_CHAR_WIDTH,
                    32 <= code <= 126,
                    c == code - 32,
                    col == c % FONT_IMAGE_COLS,
                    row == c / FONT_IMAGE_COLS,
                    scale >= 1,
                    sc == scale as int,
                    sxi == start_x as int,
                    syi == start_y as int,
                    -0x1_0000_0000_0000 <= start_x <= 0x1_0000_0000_0000,
                    -0x1_0000_0000_0000 <= start_y <= 0x1_0000_0000_0000,
                    forall|x: int, y: int|
                        on_screen(x, y) ==> #[trigger] pix(display.pixels@, x, y) == (if glyph_covers_before(
                            atlas,
                            code,
                            sxi,
                            syi,
                            sc,
                            yy as int,
                            xx as int,
                            x,
                            y,
                        ) {
                            color
                        } else {
                            pix(old(display).pixels@, x, y)
                        }),
                decreases FONT_CHAR_WIDTH - xx,
            {
                let idx = (row * FONT_CHAR_HEIGHT + yy) * FONT_IMAGE_WIDTH + col * FONT_CHAR_WIDTH
                    + xx;
                let sample = self.pixels[idx];
                let ghost prevd = display.pixels@;
                if sample == 0xFF {
                    proof {
                        lemma_mul_mono_left(0, xx as int, scale as int);
                        lemma_mul_mono_left(xx as int, FONT_CHAR_WIDTH as int, scale as int);
                        lemma_mul_mono_left(0, yy as int, scale as int);
                        lemma_mul_mono_left(yy as int, FONT_CHAR_HEIGHT as int, scale as int);
                    }
                    let bx = start_x + (xx as i64) * (scale as i64);
                    let by = start_y + (yy as i64) * (scale as i64);
                    display.fill_rect_wide(bx, by, scale as i64, scale as i64, color);
                }
                proof {
                    let cxi = xx as int;
                    let cyi = yy as int;
                    let bxi = sxi + cxi * sc;
                    let byi = syi + cyi * sc;
                    let spec_idx = ((code as int - 32) / (FONT_IMAGE_COLS as int) * (
                    FONT_CHAR_HEIGHT as int) + cyi) * (FONT_IMAGE_WIDTH as int) + (code as int
                        - 32) % (FONT_IMAGE_COLS as int) * (FONT_CHAR_WIDTH as int) + cxi;
                    assert(glyph_source(code) == code);
                    assert(idx as int == spec_idx);
                    assert forall|x: int, y: int| on_screen(x, y) implies #[trigger] pix(
                        display.pixels@,
                        x,
                        y,
                    ) == (if glyph_covers_before(atlas, code, sxi, syi, sc, cyi, cxi + 1, x, y) {
                        color
                    } else {
                        pix(old(display).pixels@, x, y)
                    }) by {
                        let rx = x - sxi;
                        let ry = y - syi;
                        lemma_div_block(rx, sc, cxi);
                        lemma_div_block(ry, sc, cyi);
                        lemma_mul_mono_left(0, cxi, sc);
                        lemma_mul_mono_left(cxi + 1, FONT_CHAR_WIDTH as int, sc);
                        lemma_mul_mono_left(0, cyi, sc);
                        lemma_mul_mono_left(cyi + 1, FONT_CHAR_HEIGHT as int, sc);
                        assert((cxi + 1) * sc == cxi * sc + sc) by (nonlinear_arith);
                        assert((cyi + 1) * sc == cyi * sc + sc) by (nonlinear_arith);
                        assert(pix(prevd, x, y) == (if glyph_covers_before(
                            atlas,
                            code,
                            sxi,
                            syi,
                            sc,
                            cyi,
                            cxi,
                            x,
                            y,
                        ) {
                            color
                        } else {
                            pix(old(display).pixels@, x, y)
                        }));
                        if sample == 0xFF {
                            assert(pix(display.pixels@, x, y) == (if rect_covers(
                                bxi,
                                byi,
                                sc,
                                sc,
                                x,
                                y,
                            ) {
                                color
                            } else {
                                pix(prevd, x, y)
                            }));
                            if rect_covers(bxi, byi, sc, sc, x, y) {
                                assert(cxi * sc <= rx < cxi * sc + sc);
                                assert(rx / sc == cxi);
                                assert(ry / sc == cyi);
                                assert(atlas[spec_idx] == 0xFFu8);
                                assert(glyph_covers(atlas, code, sxi, syi, sc, x, y));
                            } else {
                                if glyph_covers(atlas, code, sxi, syi, sc, x, y) && rx / sc == cxi
                                    && ry / sc == cyi {
                                    assert(rect_covers(bxi, byi, sc, sc, x, y));
                                }
                            }
                        } else {
                            assert(display.pixels@ == prevd);
                            if glyph_covers(atlas, code, sxi, syi, sc, x, y) && rx / sc == cxi && ry
                                / sc == cyi {
                                assert(atlas[spec_idx] == 0xFFu8);
                                assert(false);
                            }
                        }
                    }
                }
                xx = xx + 1;
            }
            proof {
                let cyi = yy as int;
                assert forall|x: int, y: int| on_screen(x, y) implies (glyph_covers_before(
                    atlas,
                    code,
                    sxi,
                    syi,
                    sc,
                    cyi,
                    FONT_CHAR_WIDTH as int,
                    x,
                    y,
                ) == glyph_covers_before(atlas, code, sxi, syi, sc, cyi + 1, 0, x, y)) by {
                    if glyph_covers(atlas, code, sxi, syi, sc, x, y) {
                        lemma_div_range(x - sxi, sc, FONT_CHAR_WIDTH as int);
                        lemma_div_range(y - syi, sc, FONT_CHAR_HEIGHT as int);
                    }
                }
            }
            yy = yy + 1;
        }
        proof {
            assert forall|x: int, y: int| on_screen(x, y) implies (glyph_covers_before(
                atlas,
                code,
                sxi,
                syi,
                sc,
                FONT_CHAR_HEIGHT as int,
                0,
                x,
                y,
            ) == glyph_covers(atlas, code, sxi, syi, sc, x, y)) by {
                if glyph_covers(atlas, code, sxi, syi, sc, x, y) {
                    lemma_div_range(x - sxi, sc, FONT_CHAR_WIDTH as int);
                    lemma_div_range(y - syi, sc, FONT_CHAR_HEIGHT as int);
                }
            }
        }
    }

    /// Stamps one glyph into the display at the given position, pixel
    /// scale and color.  A code outside the printable range renders as the
    /// question-mark glyph.
    pub fn render_ascii(
        &self,
        display: &mut Display,
        code: u8,
        start_x: i32,
        start_y: i32,
        scale: i32,
        color: Pixel,
    )
        requires
            self.wf(),
            old(display).wf(),
            scale >= 1,
        ensures
            final(display).wf(),
            forall|x: int, y: int|
                on_screen(x, y) ==> #[trigger] pix(final(display).pixels@, x, y) == (if glyph_covers(
                    self.pixels@,
                    code,
                    start_x as int,
                    start_y as int,
                    scale as int,
                    x,
                    y,
                ) {
                    color
                } else {
                    pix(old(display).pixels@, x, y)
                }),
    {
        self.render_ascii_wide(display, code, start_x as i64, start_y as i64, scale, color);
    }

    /// Draws a run of glyphs left to right from a wide position, one fixed
    /// advance of glyph-cell width times scale per glyph.
    pub(crate) fn render_bytes_wide(
        &self,
        display: &mut Display,
        bytes: &[u8],
        tx: i64,
        ty: i64,
        scale: i32,
        color: Pixel,
    )
        requires
            self.wf(),
            old(display).wf(),
            scale >= 1,
            -0x1_0000_0000 <= tx <= 0x1_0000_0000,
            -0x1_0000_0000 <= ty <= 0x1_0000_0000,
        ensures
            final(display).wf(),
            forall|x: int, y: int|
                on_screen(x, y) ==> #[trigger] pix(final(display).pixels@, x, y) == (if text_covers(
                    self.pixels@,
                    bytes@,
                    tx as int,
                    ty as int,
                    scale as int,
                    x,
                    y,
                ) {
                    color
                } else {
                    pix(old(display).pixels@, x, y)
                }),
    {
        let n = bytes.len();
        let ghost atlas = self.pixels@;
        let ghost txi = tx as int;
        let ghost tyi = ty as int;
        let ghost sc = scale as int;
        let step: i64 = (FONT_CHAR_WIDTH as i64) * (scale as i64);
        let mut gx: i64 = tx;
        let mut i: usize = 0;
        // Once the pen has passed the right display edge every further
        // glyph lies fully off screen, so the loop can stop there.
        while i < n && gx <= DISPLAY_WIDTH as i64
            invariant
                i <= n,
                n == bytes@.len(),
                self.wf(),
                self.pixels@ == atlas,
                old(display).wf(),
                display.pixels@.len() == old(display).pixels@.len(),
                scale >= 1,
                sc == scale as int,
                txi == tx as int,
                tyi == ty as int,
                7 <= step <= 0x4_0000_0000,
                step as int == (FONT_CHAR_WIDTH as int) * sc,
                gx as int == txi + (i as int) * (step as int),
                -0x1_0000_0000 <= tx <= 0x1_0000_0000,
                -0x1_0000_0000 <= ty <= 0x1_0000_0000,
                -0x1_0000_0000 <= gx <= 0x5_0000_0000,
                forall|x: int, y: int|
                    on_screen(x, y) ==> #[trigger] pix(display.pixels@, x, y) == (if text_covers_upto(
                        atlas,
                        bytes@,
                        txi,
                        tyi,
                        sc,
                        i as int,
                        x,
                        y,
                    ) {
                        color
                    } else {
                        pix(old(display).pixels@, x, y)
                    }),
            decreases n - i,
        {
            let code = bytes[i];
            self.render_ascii_wide(display, code, gx, ty, scale, color);
            proof {
                let ii = i as int;
                assert(ii * (FONT_CHAR_WIDTH as int) * sc == ii * ((FONT_CHAR_WIDTH as int) * sc))
                    by (nonlinear_arith);
                assert(gx as int == txi + ii * (FONT_CHAR_WIDTH as int) * sc);
                assert forall|x: int, y: int| on_screen(x, y) implies #[trigger] pix(
                    display.pixels@,
                    x,
                    y,
                ) == (if text_covers_upto(atlas, bytes@, txi, tyi, sc, ii + 1, x, y) {
                    color
                } else {
                    pix(old(display).pixels@, x, y)
                }) by {
                    if glyph_covers(atlas, code, gx as int, tyi, sc, x, y) {
                        assert(glyph_at(atlas, bytes@, txi, tyi, sc, ii, x, y));
                        assert(text_covers_upto(atlas, bytes@, txi, tyi, sc, ii + 1, x, y));
                    } else {
                        assert(!glyph_at(atlas, bytes@, txi, tyi, sc, ii, x, y));
                        if text_covers_upto(atlas, bytes@, txi, tyi, sc, ii + 1, x, y) {
                            let w = choose|j: int|
                                0 <= j < ii + 1 && #[trigger] glyph_at(
                                    atlas,
                                    bytes@,
                                    txi,
                                    tyi,
                                    sc,
                                    j,
                                    x,
                                    y,
                                );
                            assert(w < ii + 1 && w != ii ==> w < ii);
                            assert(text_covers_upto(atlas, bytes@, txi, tyi, sc, ii, x, y));
                        }
                    }
                }
                assert((ii + 1) * (step as int) == ii * (step as int) + step as int)
                    by (nonlinear_arith);
            }
            i = i + 1;
            gx = gx + step;
        }
        proof {
            assert forall|x: int, y: int| on_screen(x, y) implies #[trigger] pix(
                display.pixels@,
                x,
                y,
            ) == (if text_covers(atlas, bytes@, txi, tyi, sc, x, y) {
                color
            } else {
                pix(old(display).pixels@, x, y)
            }) by {
                if text_covers(atlas, bytes@, txi, tyi, sc, x, y) {
                    let j = choose|j: int|
                        0 <= j < bytes@.len() && #[trigger] glyph_at(
                            atlas,
                            bytes@,
                            txi,
                            tyi,
                            sc,
                            j,
                            x,
                            y,
                        );
                    if j >= i as int {
                        assert(j * (FONT_CHAR_WIDTH as int) * sc == j * (step as int))
                            by (nonlinear_arith)
                            requires
                                step as int == (FONT_CHAR_WIDTH as int) * sc,
                        ;
                        lemma_mul_mono_left(i as int, j, step as int);
                        assert(txi + j * (step as int) >= gx as int);
                        assert(false);
                    }
                    assert(text_covers_upto(atlas, bytes@, txi, tyi, sc, i as int, x, y));
                } else {
                    if text_covers_upto(atlas, bytes@, txi, tyi, sc, i as int, x, y) {
                        let j = choose|j: int|
                            0 <= j < i as int && #[trigger] glyph_at(
                                atlas,
                                bytes@,
                                txi,
                                tyi,
                                sc,
                                j,
                                x,
                                y,
                            );
                        assert(text_covers(atlas, bytes@, txi, tyi, sc, x, y));
                    }
                }
            }
        }
    }

    /// Draws a run of glyphs left to right, one fixed advance of glyph-cell
    /// width times scale per glyph.  Codes outside the printable range
    /// render as the question-mark glyph.
    pub fn render_bytes(
        &self,
        display: &mut Display,
        bytes: &[u8],
        x: i32,
        y: i32,
        scale: i32,
        color: Pixel,
    )
        requires
            self.wf(),
            old(display).wf(),
            scale >= 1,
        ensures
            final(display).wf(),
            forall|dx: int, dy: int|
                on_screen(dx, dy) ==> #[trigger] pix(final(display).pixels@, dx, dy) == (if text_covers(
                    self.pixels@,
                    bytes@,
                    x as int,
                    y as int,
                    scale as int,
                    dx,
                    dy,
                ) {
                    color
                } else {
                    pix(old(display).pixels@, dx, dy)
                }),
    {
        self.render_bytes_wide(display, bytes, x as i64, y as i64, scale, color);
    }
}

} // verus!
