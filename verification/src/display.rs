//! The kernel's display: drawing happens in a back buffer that is then
//! copied to the frame buffer; a terminal prints text on it with a bitmap
//! font.
//!
//! The state the drawing changes is the frame buffer's pixels, the back
//! buffer's pixels and the number of debug dots drawn so far. The spec
//! functions below give that state after each drawing operation; the
//! executable functions are proved to compute exactly it.

use vstd::prelude::*;
use crate::boot_info::{Color, FrameBuffer, PixelFormat, RGBColor};
use crate::font::{can_look_up, find_glyph, get_char, get_font_bounds, lookup_ok, Font};

verus! {

/// The side of a debug dot, in pixels.
pub const DEBUG_DOT_SIZE: usize = 4;

/// The display: the frame buffer, the back buffer that drawing happens in,
/// the number of debug dots drawn, and the font text is drawn with.
pub struct Display {
    pub framebuffer: FrameBuffer,
    pub backbuffer: Vec<[u8; 4]>,
    pub count: usize,
    pub font: Font,
}

/// The drawing state: frame buffer pixels, back buffer pixels, debug dots
/// drawn.
pub type Screen = (Seq<[u8; 4]>, Seq<[u8; 4]>, int);

/// The position of pixel `(x, y)` in a buffer with `stride` pixels per row.
pub open spec fn pixel_index(x: int, y: int, stride: int) -> int {
    y * stride + x
}

/// Whether position `k` is a pixel of the rectangle with corner `(x, y)`,
/// `w` pixels wide and `h` pixels high.
pub open spec fn in_rect(k: int, x: int, y: int, w: int, h: int, stride: int) -> bool {
    exists|yy: int, xx: int|
        y <= yy < y + h && x <= xx < x + w && k == #[trigger] pixel_index(xx, yy, stride)
}

/// `bb` with the rectangle filled with `color`.
pub open spec fn spec_rect(
    bb: Seq<[u8; 4]>,
    color: [u8; 4],
    x: int,
    y: int,
    w: int,
    h: int,
    stride: int,
) -> Seq<[u8; 4]> {
    Seq::new(bb.len(), |k: int| if in_rect(k, x, y, w, h, stride) { color } else { bb[k] })
}

/// Whether bit `p` of a bitmap row, counted from bit 7 down, is set.
pub open spec fn row_bit(line: u32, p: int) -> bool {
    (line >> ((7 - p) as u32)) & 1u32 > 0
}

/// Whether position `k` is a set pixel of a glyph drawn with its top left
/// corner at `(xo, yo)`.
pub open spec fn glyph_at(k: int, bitmap: Seq<u32>, cw: int, xo: int, yo: int, stride: int) -> bool {
    exists|l: int, p: int|
        0 <= l < bitmap.len() && 0 <= p < cw && row_bit(bitmap[l], p) && k == #[trigger] pixel_index(
            xo + p,
            yo + l,
            stride,
        )
}

/// `bb` with the set pixels of a glyph drawn in `color`.
pub open spec fn spec_glyph(
    bb: Seq<[u8; 4]>,
    color: [u8; 4],
    bitmap: Seq<u32>,
    cw: int,
    xo: int,
    yo: int,
    stride: int,
) -> Seq<[u8; 4]> {
    Seq::new(bb.len(), |k: int| if glyph_at(k, bitmap, cw, xo, yo, stride) { color } else { bb[k] })
}

/// `fb` with its first `n` pixels copied from `bb`.
pub open spec fn spec_flush(fb: Seq<[u8; 4]>, bb: Seq<[u8; 4]>, n: int) -> Seq<[u8; 4]> {
    Seq::new(fb.len(), |i: int| if i < n { bb[i] } else { fb[i] })
}

/// Pixel `f` with the bytes whose position `base + c` lies in `[lo, hi)`
/// taken from pixel `b`.
pub open spec fn mix_pixel(f: [u8; 4], b: [u8; 4], base: int, lo: int, hi: int) -> [u8; 4] {
    [
        if lo <= base < hi { b[0] } else { f[0] },
        if lo <= base + 1 < hi { b[1] } else { f[1] },
        if lo <= base + 2 < hi { b[2] } else { f[2] },
        if lo <= base + 3 < hi { b[3] } else { f[3] },
    ]
}

/// `fb` with the bytes at byte positions `[lo, hi)` copied from `bb`.
pub open spec fn spec_copy_bytes(fb: Seq<[u8; 4]>, bb: Seq<[u8; 4]>, lo: int, hi: int) -> Seq<[u8; 4]> {
    Seq::new(fb.len(), |i: int| mix_pixel(fb[i], bb[i], 4 * i, lo, hi))
}

/// The pixel bytes of `color` in the display's pixel format: blue first for
/// BGR, red first otherwise.
pub open spec fn format_color(format: PixelFormat, color: RGBColor) -> [u8; 4] {
    if format == PixelFormat::BGR {
        [color.blue, color.green, color.red, 0]
    } else {
        [color.red, color.green, color.blue, 0]
    }
}

/// White, the colour of text.
pub open spec fn white() -> RGBColor {
    RGBColor { red: 255, green: 255, blue: 255 }
}

/// Black, the colour behind text.
pub open spec fn black() -> RGBColor {
    RGBColor { red: 0, green: 0, blue: 0 }
}

/// Red, the colour of debug dots for characters missing from the font.
pub open spec fn red() -> RGBColor {
    RGBColor { red: 255, green: 0, blue: 0 }
}

impl Display {
    /// The current drawing state.
    pub open spec fn screen(&self) -> Screen {
        (self.framebuffer.buffer@, self.backbuffer@, self.count as int)
    }

    /// Whether `other` has the same frame buffer geometry and font.
    pub open spec fn same_setup(&self, other: &Display) -> bool {
        &&& self.framebuffer.stride == other.framebuffer.stride
        &&& self.framebuffer.width == other.framebuffer.width
        &&& self.framebuffer.height == other.framebuffer.height
        &&& self.framebuffer.pixel_format == other.framebuffer.pixel_format
        &&& self.font.0 == other.font.0
        &&& self.font.1@ == other.font.1@
    }

    /// The display's invariant: the back buffer holds `stride` times
    /// `height` pixels, the frame buffer at least as many, and the visible
    /// width fits in a row.
    pub open spec fn wf(&self) -> bool {
        &&& self.backbuffer@.len() == self.framebuffer.stride * self.framebuffer.height
        &&& self.framebuffer.buffer@.len() >= self.framebuffer.stride * self.framebuffer.height
        &&& self.framebuffer.width <= self.framebuffer.stride
    }

    /// The number of pixels a slice of the back buffer covers: the visible
    /// width times the height.
    pub open spec fn visible_len(&self) -> int {
        self.framebuffer.width * self.framebuffer.height
    }

    /// Whether a rectangle can be filled: its coordinates do not overflow and
    /// its last pixel lies within the visible width times the height.
    pub open spec fn rect_ok(&self, x: int, y: int, w: int, h: int) -> bool {
        &&& x + w <= usize::MAX
        &&& y + h <= usize::MAX
        &&& (w > 0 && h > 0 ==> pixel_index(x + w - 1, y + h - 1, self.framebuffer.stride as int)
            < self.visible_len())
    }

    /// Creates the display for a frame buffer; the back buffer starts black.
    pub fn init(framebuffer: FrameBuffer, font: Font) -> (r: Display)
        requires
            framebuffer.buffer@.len() >= framebuffer.stride * framebuffer.height,
            framebuffer.stride * framebuffer.height <= usize::MAX,
            framebuffer.width <= framebuffer.stride,
        ensures
            r.wf(),
            r.count == 0,
            r.framebuffer == framebuffer,
            r.font == font,
            r.backbuffer@ == Seq::new((framebuffer.stride * framebuffer.height) as nat, |i: int| [0u8, 0u8, 0u8, 0u8]),
    {
        let n = framebuffer.stride * framebuffer.height;
        let mut backbuffer: Vec<[u8; 4]> = Vec::new();
        let mut i: usize = 0;
        while i < n
            invariant
                i <= n,
                backbuffer@.len() == i,
                forall|j: int| 0 <= j < i ==> #[trigger] backbuffer@[j] == [0u8, 0u8, 0u8, 0u8],
            decreases n - i,
        {
            backbuffer.push([0, 0, 0, 0]);
            i = i + 1;
        }
        let r = Display { framebuffer, backbuffer, count: 0, font };
        assert(r.backbuffer@ =~= Seq::new(n as nat, |i: int| [0u8, 0u8, 0u8, 0u8]));
        r
    }

    /// The pixel bytes of `color` in the frame buffer's format.
    pub fn format_color(&self, color: RGBColor) -> (r: [u8; 4])
        ensures
            r == format_color(self.framebuffer.pixel_format, color),
    {
        match self.framebuffer.pixel_format {
            PixelFormat::BGR => color.get_bgra(),
            _ => color.get_rgba(),
        }
    }

    /// Fills a rectangle of the back buffer with `color`.
    pub fn rect(&mut self, color: [u8; 4], x: usize, y: usize, width: usize, height: usize)
        requires
            old(self).wf(),
            old(self).rect_ok(x as int, y as int, width as int, height as int),
        ensures
            final(self).wf(),
            final(self).same_setup(old(self)),
            final(self).framebuffer.buffer@ == old(self).framebuffer.buffer@,
            final(self).count == old(self).count,
            final(self).backbuffer@ == spec_rect(
                old(self).backbuffer@,
                color,
                x as int,
                y as int,
                width as int,
                height as int,
                old(self).framebuffer.stride as int,
            ),
    {
        let stride = self.framebuffer.stride;
        let ghost old_bb = self.backbuffer@;
        let ghost old_self = *self;
        let _len = self.backbuffer.len();
        proof {
            lemma_visible_within(self.framebuffer.width as int, self.framebuffer.height as int, stride as int);
        }
        let mut cy = y;
        while cy < y + height
            invariant
                old_self.wf(),
                self.wf(),
                self.same_setup(&old_self),
                old_self == *old(self),
                self.framebuffer.buffer@ == old_self.framebuffer.buffer@,
                self.count == old_self.count,
                stride == self.framebuffer.stride,
                old_self.rect_ok(x as int, y as int, width as int, height as int),
                old_bb == old_self.backbuffer@,
                old_bb.len() <= usize::MAX,
                self.backbuffer@.len() == old_bb.len(),
                self.visible_len() <= old_bb.len(),
                y <= cy <= y + height,
                forall|k: int|
                    0 <= k < old_bb.len() ==> #[trigger] self.backbuffer@[k] == if in_rect(
                        k,
                        x as int,
                        y as int,
                        width as int,
                        cy - y,
                        stride as int,
                    ) {
                        color
                    } else {
                        old_bb[k]
                    },
            decreases y + height - cy,
        {
            let mut cx = x;
            while cx < x + width
                invariant
                    old_self.wf(),
                    self.wf(),
                    self.same_setup(&old_self),
                    old_self == *old(self),
                    self.framebuffer.buffer@ == old_self.framebuffer.buffer@,
                    self.count == old_self.count,
                    stride == self.framebuffer.stride,
                    old_self.rect_ok(x as int, y as int, width as int, height as int),
                    old_bb == old_self.backbuffer@,
                    old_bb.len() <= usize::MAX,
                    self.backbuffer@.len() == old_bb.len(),
                    self.visible_len() <= old_bb.len(),
                    y <= cy < y + height,
                    x <= cx <= x + width,
                    forall|k: int|
                        0 <= k < old_bb.len() ==> #[trigger] self.backbuffer@[k] == if in_rect(
                            k,
                            x as int,
                            y as int,
                            width as int,
                            cy - y,
                            stride as int,
                        ) || in_rect(k, x as int, cy as int, cx - x, 1, stride as int) {
                            color
                        } else {
                            old_bb[k]
                        },
                decreases x + width - cx,
            {
                proof {
                    lemma_rect_bound(x as int, y as int, width as int, height as int, cx as int, cy as int, stride as int);
                }
                let idx = cy * stride + cx;
                self.backbuffer.set(idx, color);
                proof {
                    lemma_extend_col(x as int, y as int, width as int, cy as int, cx as int, stride as int);
                }
                cx = cx + 1;
            }
            proof {
                lemma_extend_row(x as int, y as int, width as int, cy as int, stride as int);
            }
            cy = cy + 1;
        }
        proof {
            assert(self.backbuffer@ =~= spec_rect(old_bb, color, x as int, y as int, width as int, height as int, stride as int));
        }
    }
}

impl Display {
    /// Copies the back buffer to the frame buffer: `stride` times `height`
    /// pixels.
    pub fn flush(&mut self)
        requires
            old(self).wf(),
        ensures
            final(self).wf(),
            final(self).same_setup(old(self)),
            final(self).backbuffer@ == old(self).backbuffer@,
            final(self).count == old(self).count,
            final(self).framebuffer.buffer@ == spec_flush(
                old(self).framebuffer.buffer@,
                old(self).backbuffer@,
                old(self).framebuffer.stride * old(self).framebuffer.height,
            ),
    {
        let n = self.backbuffer.len();
        let ghost old_fb = self.framebuffer.buffer@;
        let ghost old_self = *self;
        let mut i: usize = 0;
        while i < n
            invariant
                old_self == *old(self),
                old_self.wf(),
                self.wf(),
                self.same_setup(&old_self),
                self.backbuffer@ == old_self.backbuffer@,
                self.count == old_self.count,
                n == self.backbuffer@.len(),
                i <= n,
                self.framebuffer.buffer@.len() == old_fb.len(),
                old_fb == old_self.framebuffer.buffer@,
                forall|j: int|
                    0 <= j < old_fb.len() ==> #[trigger] self.framebuffer.buffer@[j] == if j < i {
                        self.backbuffer@[j]
                    } else {
                        old_fb[j]
                    },
            decreases n - i,
        {
            let p = self.backbuffer[i];
            self.framebuffer.buffer.set(i, p);
            i = i + 1;
        }
        proof {
            assert(self.framebuffer.buffer@ =~= spec_flush(old_fb, old_self.backbuffer@, n as int));
        }
    }

    /// Copies the bytes at byte offsets `[start * stride, start * stride +
    /// 4 * stride * count)` of the back buffer to the frame buffer. (The
    /// offset counts bytes, not pixels, so the bytes copied are not the rows
    /// `start` to `start + count` unless `start` is 0.)
    pub fn flush_rows(&mut self, start: usize, count: usize)
        requires
            old(self).wf(),
            start * old(self).framebuffer.stride + 4 * old(self).framebuffer.stride * count <= 4
                * old(self).backbuffer@.len(),
            start * old(self).framebuffer.stride + 4 * old(self).framebuffer.stride * count
                <= usize::MAX,
        ensures
            final(self).wf(),
            final(self).same_setup(old(self)),
            final(self).backbuffer@ == old(self).backbuffer@,
            final(self).count == old(self).count,
            final(self).framebuffer.buffer@ == spec_copy_bytes(
                old(self).framebuffer.buffer@,
                old(self).backbuffer@,
                start * old(self).framebuffer.stride,
                start * old(self).framebuffer.stride + 4 * old(self).framebuffer.stride * count,
            ),
    {
        let stride = self.framebuffer.stride;
        let _n = self.backbuffer.len();
        let ghost old_fb = self.framebuffer.buffer@;
        let ghost old_self = *self;
        proof {
            vstd::arithmetic::mul::lemma_mul_nonnegative(stride as int, count as int);
            vstd::arithmetic::mul::lemma_mul_nonnegative(start as int, stride as int);
            assert(4 * (stride * count) == 4 * stride * count) by (nonlinear_arith);
        }
        let lo = start * stride;
        let hi = lo + 4 * (stride * count);
        let mut b: usize = lo;
        while b < hi
            invariant
                old_self == *old(self),
                old_self.wf(),
                self.wf(),
                self.same_setup(&old_self),
                self.backbuffer@ == old_self.backbuffer@,
                self.count == old_self.count,
                self.framebuffer.buffer@.len() == old_fb.len(),
                old_fb == old_self.framebuffer.buffer@,
                old_fb.len() >= self.backbuffer@.len(),
                hi <= 4 * self.backbuffer@.len(),
                lo <= b <= hi,
                forall|j: int|
                    0 <= j < old_fb.len() ==> #[trigger] self.framebuffer.buffer@[j] == mix_pixel(
                        old_fb[j],
                        self.backbuffer@[j],
                        4 * j,
                        lo as int,
                        b as int,
                    ),
            decreases hi - b,
        {
            let i = b / 4;
            let c = b % 4;
            let src = self.backbuffer[i];
            let mut px = self.framebuffer.buffer[i];
            px[c] = src[c];
            self.framebuffer.buffer.set(i, px);
            proof {
                assert forall|j: int| 0 <= j < old_fb.len() implies #[trigger] self.framebuffer.buffer@[j]
                    == mix_pixel(old_fb[j], self.backbuffer@[j], 4 * j, lo as int, b + 1) by {
                    if j != i {
                        assert(!(4 * j <= b < 4 * j + 4));
                    }
                }
            }
            b = b + 1;
        }
        proof {
            assert(self.framebuffer.buffer@ =~= spec_copy_bytes(old_fb, old_self.backbuffer@, lo as int, hi as int));
        }
    }
}

/// The position of the next debug dot: dots are laid out left to right,
/// `DEBUG_DOT_SIZE` pixels apart, in rows of `DEBUG_DOT_SIZE` pixels.
pub open spec fn debug_dot_x(count: int, width: int) -> int {
    (count * 4) % width
}

/// The row of the next debug dot.
pub open spec fn debug_dot_y(count: int, width: int) -> int {
    (count * 4) / width * 4
}

/// The state after drawing a debug dot of `color` in state `s`: a 4 by 4
/// square at the next dot position, then the bytes from `y * stride` for
/// 16 rows' worth of pixels copied to the frame buffer.
pub open spec fn spec_debug_dot(d: &Display, s: Screen, color: RGBColor) -> Screen {
    let stride = d.framebuffer.stride as int;
    let w = d.framebuffer.width as int;
    let x = debug_dot_x(s.2, w);
    let y = debug_dot_y(s.2, w);
    let bb = spec_rect(s.1, format_color(d.framebuffer.pixel_format, color), x, y, 4, 4, stride);
    (spec_copy_bytes(s.0, bb, y * stride, y * stride + 4 * stride * 4), bb, s.2 + 1)
}

/// Whether a debug dot can be drawn in state `s`.
pub open spec fn debug_dot_ok(d: &Display, s: Screen) -> bool {
    let stride = d.framebuffer.stride as int;
    let w = d.framebuffer.width as int;
    let x = debug_dot_x(s.2, w);
    let y = debug_dot_y(s.2, w);
    &&& w > 0
    &&& s.2 * 4 <= usize::MAX
    &&& s.2 + 1 <= usize::MAX
    &&& d.rect_ok(x, y, 4, 4)
    &&& y * stride + 4 * stride * 4 <= 4 * (stride * d.framebuffer.height)
    &&& y * stride + 4 * stride * 4 <= usize::MAX
}

impl Display {
    /// Draws a small square of `color` at the next debug position and shows
    /// it.
    pub fn debug_dot(&mut self, color: RGBColor)
        requires
            old(self).wf(),
            debug_dot_ok(old(self), old(self).screen()),
        ensures
            final(self).wf(),
            final(self).same_setup(old(self)),
            final(self).screen() == spec_debug_dot(old(self), old(self).screen(), color),
    {
        let width = self.framebuffer.width;
        let y = self.count * DEBUG_DOT_SIZE / width * DEBUG_DOT_SIZE;
        let x = self.count * DEBUG_DOT_SIZE % width;
        let c = self.format_color(color);
        self.rect(c, x, y, DEBUG_DOT_SIZE, DEBUG_DOT_SIZE);
        self.flush_rows(y, DEBUG_DOT_SIZE);
        self.count = self.count + 1;
    }

    /// Fills the visible pixels of the back buffer (the first width times
    /// height of them) with `color` and shows the back buffer.
    pub fn clear(&mut self, color: RGBColor)
        requires
            old(self).wf(),
        ensures
            final(self).wf(),
            final(self).same_setup(old(self)),
            final(self).count == old(self).count,
            final(self).backbuffer@ == Seq::new(
                old(self).backbuffer@.len(),
                |i: int|
                    if i < old(self).visible_len() {
                        format_color(old(self).framebuffer.pixel_format, color)
                    } else {
                        old(self).backbuffer@[i]
                    },
            ),
            final(self).framebuffer.buffer@ == spec_flush(
                old(self).framebuffer.buffer@,
                final(self).backbuffer@,
                old(self).framebuffer.stride * old(self).framebuffer.height,
            ),
    {
        let c = self.format_color(color);
        let ghost old_self = *self;
        let ghost old_bb = self.backbuffer@;
        proof {
            lemma_visible_within(
                self.framebuffer.width as int,
                self.framebuffer.height as int,
                self.framebuffer.stride as int,
            );
        }
        let _len = self.backbuffer.len();
        let n = self.framebuffer.width * self.framebuffer.height;
        let mut i: usize = 0;
        while i < n
            invariant
                old_self == *old(self),
                old_self.wf(),
                self.wf(),
                self.same_setup(&old_self),
                self.framebuffer.buffer@ == old_self.framebuffer.buffer@,
                self.count == old_self.count,
                old_bb == old_self.backbuffer@,
                self.backbuffer@.len() == old_bb.len(),
                n == old_self.visible_len(),
                n <= old_bb.len(),
                c == format_color(old_self.framebuffer.pixel_format, color),
                i <= n,
                forall|j: int|
                    0 <= j < old_bb.len() ==> #[trigger] self.backbuffer@[j] == if j < i {
                        c
                    } else {
                        old_bb[j]
                    },
            decreases n - i,
        {
            self.backbuffer.set(i, c);
            i = i + 1;
        }
        assert(self.backbuffer@ =~= Seq::new(
            old_bb.len(),
            |j: int| if j < old_self.visible_len() { c } else { old_bb[j] },
        ));
        self.flush();
    }
}

/// Whether position `k` is a set pixel of a glyph drawn with its top left
/// corner at `(xo, yo)`, among the rows before `row` and the first `col`
/// pixels of row `row`.
pub open spec fn glyph_part(
    k: int,
    bitmap: Seq<u32>,
    cw: int,
    xo: int,
    yo: int,
    stride: int,
    row: int,
    col: int,
) -> bool {
    exists|l: int, p: int|
        0 <= l < bitmap.len() && 0 <= p < cw && (l < row || (l == row && p < col)) && row_bit(
            bitmap[l],
            p,
        ) && k == #[trigger] pixel_index(xo + p, yo + l, stride)
}

/// Whether a glyph can be drawn at `(xo, yo)`: it is at most 8 pixels
/// wide, its corner is not left of or above the screen, and each of its set
/// pixels can be filled.
pub open spec fn glyph_ok(d: &Display, bitmap: Seq<u32>, cw: int, xo: int, yo: int) -> bool {
    &&& cw <= 8
    &&& xo >= 0
    &&& yo >= 0
    &&& forall|l: int, p: int|
        0 <= l < bitmap.len() && 0 <= p < cw && #[trigger] row_bit(bitmap[l], p) ==> d.rect_ok(
            xo + p,
            yo + l,
            1,
            1,
        )
}

/// The state after drawing character `ch` in the text cell `(x, y)` with
/// foreground `fg` and background `bg`: the cell is filled with the
/// background, then the set pixels of the character's glyph are drawn in the
/// foreground; a character the font lacks gives a red debug dot instead.
pub open spec fn spec_draw_char(
    d: &Display,
    s: Screen,
    ch: char,
    x: int,
    y: int,
    fg: RGBColor,
    bg: RGBColor,
) -> Screen {
    let b = d.font.0;
    let stride = d.framebuffer.stride as int;
    let px = x * b.0;
    let py = y * b.1;
    let s1: Screen = (
        s.0,
        spec_rect(s.1, format_color(d.framebuffer.pixel_format, bg), px, py, b.0 as int, b.1 as int, stride),
        s.2,
    );
    match find_glyph(d.font.1@, ch as u32) {
        Some(c) => (
            s1.0,
            spec_glyph(
                s1.1,
                format_color(d.framebuffer.pixel_format, fg),
                c.2@,
                c.1.0 as int,
                px + c.1.2 - b.2,
                py + c.1.3 - b.3,
                stride,
            ),
            s1.2,
        ),
        None => spec_debug_dot(d, s1, red()),
    }
}

/// Whether character `ch` can be drawn in the text cell `(x, y)` in state
/// `s` without overflow, drawing out of bounds, or meeting a glyph without a
/// character code while looking `ch` up.
pub open spec fn draw_char_ok(d: &Display, s: Screen, ch: char, x: int, y: int) -> bool {
    let b = d.font.0;
    let stride = d.framebuffer.stride as int;
    let px = x * b.0;
    let py = y * b.1;
    &&& b.0 >= 0
    &&& b.1 >= 0
    &&& x <= i64::MAX
    &&& y <= i64::MAX
    &&& px <= i64::MAX
    &&& py <= i64::MAX
    &&& d.rect_ok(px, py, b.0 as int, b.1 as int)
    &&& lookup_ok(d.font.1@, ch as u32)
    &&& match find_glyph(d.font.1@, ch as u32) {
        Some(c) => {
            &&& i64::MIN <= px + c.1.2 <= i64::MAX
            &&& i64::MIN <= py + c.1.3 <= i64::MAX
            &&& i64::MIN <= px + c.1.2 - b.2 <= i64::MAX
            &&& i64::MIN <= py + c.1.3 - b.3 <= i64::MAX
            &&& glyph_ok(d, c.2@, c.1.0 as int, px + c.1.2 - b.2, py + c.1.3 - b.3)
        },
        None => debug_dot_ok(d, s),
    }
}

/// A one-pixel rectangle is exactly its pixel.
proof fn lemma_unit_rect(x: int, y: int, stride: int)
    ensures
        forall|k: int| #[trigger] in_rect(k, x, y, 1, 1, stride) <==> k == pixel_index(x, y, stride),
{
    assert forall|k: int| #[trigger] in_rect(k, x, y, 1, 1, stride) <==> k == pixel_index(x, y, stride) by {
        if k == pixel_index(x, y, stride) {
            assert(in_rect(k, x, y, 1, 1, stride));
        }
    }
}

/// Taking one more pixel of the current row adds that pixel if it is set.
proof fn lemma_glyph_col(bitmap: Seq<u32>, cw: int, xo: int, yo: int, stride: int, row: int, col: int)
    requires
        0 <= row < bitmap.len(),
        0 <= col < cw,
    ensures
        forall|k: int|
            #[trigger] glyph_part(k, bitmap, cw, xo, yo, stride, row, col + 1) <==> (glyph_part(
                k,
                bitmap,
                cw,
                xo,
                yo,
                stride,
                row,
                col,
            ) || (row_bit(bitmap[row], col) && k == pixel_index(xo + col, yo + row, stride))),
{
    assert forall|k: int|
        #[trigger] glyph_part(k, bitmap, cw, xo, yo, stride, row, col + 1) <==> (glyph_part(
            k,
            bitmap,
            cw,
            xo,
            yo,
            stride,
            row,
            col,
        ) || (row_bit(bitmap[row], col) && k == pixel_index(xo + col, yo + row, stride))) by {
        if glyph_part(k, bitmap, cw, xo, yo, stride, row, col + 1) {
            let (l, p) = choose|l: int, p: int|
                0 <= l < bitmap.len() && 0 <= p < cw && (l < row || (l == row && p < col + 1))
                    && row_bit(bitmap[l], p) && k == #[trigger] pixel_index(xo + p, yo + l, stride);
            if l < row || p < col {
                assert(glyph_part(k, bitmap, cw, xo, yo, stride, row, col));
            }
        }
        if glyph_part(k, bitmap, cw, xo, yo, stride, row, col) {
            let (l, p) = choose|l: int, p: int|
                0 <= l < bitmap.len() && 0 <= p < cw && (l < row || (l == row && p < col))
                    && row_bit(bitmap[l], p) && k == #[trigger] pixel_index(xo + p, yo + l, stride);
            assert(glyph_part(k, bitmap, cw, xo, yo, stride, row, col + 1));
        }
        if row_bit(bitmap[row], col) && k == pixel_index(xo + col, yo + row, stride) {
            assert(glyph_part(k, bitmap, cw, xo, yo, stride, row, col + 1));
        }
    }
}

/// A finished row is the start of the next one.
proof fn lemma_glyph_row(bitmap: Seq<u32>, cw: int, xo: int, yo: int, stride: int, row: int)
    requires
        cw >= 0,
    ensures
        forall|k: int|
            #[trigger] glyph_part(k, bitmap, cw, xo, yo, stride, row + 1, 0) <==> glyph_part(
                k,
                bitmap,
                cw,
                xo,
                yo,
                stride,
                row,
                cw,
            ),
{
    assert forall|k: int|
        #[trigger] glyph_part(k, bitmap, cw, xo, yo, stride, row + 1, 0) <==> glyph_part(
            k,
            bitmap,
            cw,
            xo,
            yo,
            stride,
            row,
            cw,
        ) by {
        if glyph_part(k, bitmap, cw, xo, yo, stride, row + 1, 0) {
            let (l, p) = choose|l: int, p: int|
                0 <= l < bitmap.len() && 0 <= p < cw && (l < row + 1 || (l == row + 1 && p < 0))
                    && row_bit(bitmap[l], p) && k == #[trigger] pixel_index(xo + p, yo + l, stride);
            assert(glyph_part(k, bitmap, cw, xo, yo, stride, row, cw));
        }
        if glyph_part(k, bitmap, cw, xo, yo, stride, row, cw) {
            let (l, p) = choose|l: int, p: int|
                0 <= l < bitmap.len() && 0 <= p < cw && (l < row || (l == row && p < cw))
                    && row_bit(bitmap[l], p) && k == #[trigger] pixel_index(xo + p, yo + l, stride);
            assert(glyph_part(k, bitmap, cw, xo, yo, stride, row + 1, 0));
        }
    }
}

impl Display {
    /// Draws the set pixels of a glyph in `color`, with its top left corner at
    /// `(xo, yo)`.
    fn draw_glyph(&mut self, color: [u8; 4], bitmap: &Vec<u32>, cw: i64, xo: usize, yo: usize)
        requires
            old(self).wf(),
            glyph_ok(old(self), bitmap@, cw as int, xo as int, yo as int),
        ensures
            final(self).wf(),
            final(self).same_setup(old(self)),
            final(self).framebuffer.buffer@ == old(self).framebuffer.buffer@,
            final(self).count == old(self).count,
            final(self).backbuffer@ == spec_glyph(
                old(self).backbuffer@,
                color,
                bitmap@,
                cw as int,
                xo as int,
                yo as int,
                old(self).framebuffer.stride as int,
            ),
    {
        let ghost old_self = *self;
        let ghost bb0 = self.backbuffer@;
        let ghost stride = self.framebuffer.stride as int;
        let mut l: usize = 0;
        while l < bitmap.len()
            invariant
                old_self == *old(self),
                old_self.wf(),
                self.wf(),
                self.same_setup(&old_self),
                self.framebuffer.buffer@ == old_self.framebuffer.buffer@,
                self.count == old_self.count,
                stride == self.framebuffer.stride,
                glyph_ok(&old_self, bitmap@, cw as int, xo as int, yo as int),
                bb0 == old_self.backbuffer@,
                l <= bitmap@.len(),
                self.backbuffer@ == Seq::new(
                    bb0.len(),
                    |k: int|
                        if glyph_part(k, bitmap@, cw as int, xo as int, yo as int, stride, l as int, 0) {
                            color
                        } else {
                            bb0[k]
                        },
                ),
            decreases bitmap@.len() - l,
        {
            let line = bitmap[l];
            let mut p: i64 = 0;
            while p < cw
                invariant
                    old_self == *old(self),
                    old_self.wf(),
                    self.wf(),
                    self.same_setup(&old_self),
                    self.framebuffer.buffer@ == old_self.framebuffer.buffer@,
                    self.count == old_self.count,
                    stride == self.framebuffer.stride,
                    glyph_ok(&old_self, bitmap@, cw as int, xo as int, yo as int),
                    bb0 == old_self.backbuffer@,
                    l < bitmap@.len(),
                    line == bitmap@[l as int],
                    0 <= p,
                    p <= cw || cw < 0,
                    self.backbuffer@ == Seq::new(
                        bb0.len(),
                        |k: int|
                            if glyph_part(k, bitmap@, cw as int, xo as int, yo as int, stride, l as int, p as int) {
                                color
                            } else {
                                bb0[k]
                            },
                    ),
                decreases cw - p,
            {
                let shift = (7 - p) as u32;
                let v = (line >> shift) & 1 > 0;
                proof {
                    lemma_glyph_col(bitmap@, cw as int, xo as int, yo as int, stride, l as int, p as int);
                }
                if v {
                    proof {
                        assert(row_bit(bitmap@[l as int], p as int));
                        assert(old_self.rect_ok(xo + p, yo + l, 1, 1));
                        lemma_unit_rect(xo + p, yo + l, stride);
                    }
                    let ghost before = self.backbuffer@;
                    self.rect(color, xo + p as usize, yo + l, 1, 1);
                    proof {
                        assert(self.backbuffer@ =~= Seq::new(
                            bb0.len(),
                            |k: int|
                                if glyph_part(k, bitmap@, cw as int, xo as int, yo as int, stride, l as int, p + 1) {
                                    color
                                } else {
                                    bb0[k]
                                },
                        ));
                    }
                } else {
                    proof {
                        assert(!row_bit(bitmap@[l as int], p as int));
                        assert(self.backbuffer@ =~= Seq::new(
                            bb0.len(),
                            |k: int|
                                if glyph_part(k, bitmap@, cw as int, xo as int, yo as int, stride, l as int, p + 1) {
                                    color
                                } else {
                                    bb0[k]
                                },
                        ));
                    }
                }
                p = p + 1;
            }
            proof {
                let pp = if cw < 0 { 0int } else { cw as int };
                if cw >= 0 {
                    lemma_glyph_row(bitmap@, cw as int, xo as int, yo as int, stride, l as int);
                } else {
                    lemma_glyph_row(bitmap@, 0, xo as int, yo as int, stride, l as int);
                }
                assert(self.backbuffer@ =~= Seq::new(
                    bb0.len(),
                    |k: int|
                        if glyph_part(k, bitmap@, cw as int, xo as int, yo as int, stride, l + 1, 0) {
                            color
                        } else {
                            bb0[k]
                        },
                ));
            }
            l = l + 1;
        }
        proof {
            assert forall|k: int| #[trigger] glyph_part(k, bitmap@, cw as int, xo as int, yo as int, stride, bitmap@.len() as int, 0)
                <==> glyph_at(k, bitmap@, cw as int, xo as int, yo as int, stride) by {
                if glyph_at(k, bitmap@, cw as int, xo as int, yo as int, stride) {
                    let (ll, pp) = choose|ll: int, pp: int|
                        0 <= ll < bitmap@.len() && 0 <= pp < cw && row_bit(bitmap@[ll], pp) && k
                            == #[trigger] pixel_index(xo + pp, yo + ll, stride);
                    assert(glyph_part(k, bitmap@, cw as int, xo as int, yo as int, stride, bitmap@.len() as int, 0));
                }
                if glyph_part(k, bitmap@, cw as int, xo as int, yo as int, stride, bitmap@.len() as int, 0) {
                    let (ll, pp) = choose|ll: int, pp: int|
                        0 <= ll < bitmap@.len() && 0 <= pp < cw && (ll < bitmap@.len() || (ll == bitmap@.len() && pp < 0))
                            && row_bit(bitmap@[ll], pp) && k == #[trigger] pixel_index(xo + pp, yo + ll, stride);
                    assert(glyph_at(k, bitmap@, cw as int, xo as int, yo as int, stride));
                }
            }
            assert(self.backbuffer@ =~= spec_glyph(bb0, color, bitmap@, cw as int, xo as int, yo as int, stride));
        }
    }
}

impl Display {
    /// Draws character `ch` in the text cell `(x, y)` with foreground `fg`
    /// and background `bg`. A character the font lacks is reported by a red
    /// debug dot.
    pub fn draw_char(&mut self, ch: char, x: usize, y: usize, foreground_color: RGBColor, background_color: RGBColor)
        requires
            old(self).wf(),
            draw_char_ok(old(self), old(self).screen(), ch, x as int, y as int),
        ensures
            final(self).wf(),
            final(self).same_setup(old(self)),
            final(self).screen() == spec_draw_char(
                old(self),
                old(self).screen(),
                ch,
                x as int,
                y as int,
                foreground_color,
                background_color,
            ),
    {
        let ghost old_self = *self;
        let fg = self.format_color(foreground_color);
        let bg = self.format_color(background_color);
        let bounds = get_font_bounds(&self.font);
        let px = (x as i64) * bounds.width();
        let py = (y as i64) * bounds.height();
        self.rect(bg, px as usize, py as usize, bounds.width() as usize, bounds.height() as usize);
        let found = get_char(&self.font, ch);
        match found {
            Some(c) => {
                let cb = c.bounds();
                let bitmap = c.bitmap().clone();
                assert(bitmap@ =~= c.2@);
                let x_offset = (px + cb.x() - bounds.x()) as usize;
                let y_offset = (py + cb.y() - bounds.y()) as usize;
                self.draw_glyph(fg, &bitmap, cb.width(), x_offset, y_offset);
            },
            None => {
                self.debug_dot(RGBColor::new(255, 0, 0));
            },
        }
    }
}

/// The number of text cells in a row.
pub open spec fn spec_max_cursor_x(d: &Display) -> int {
    d.framebuffer.width as int / d.font.0.0 as int
}

/// The state and cursor after the terminal prints `ch` with its cursor at
/// `cur`: backspace erases the cell before the cursor (drawing the null
/// character) and moves back; tab moves to the next multiple of 3, or to the
/// next line if that is past the row's end; line feed moves to the start of
/// the next line; form feed moves to the first line; carriage return moves
/// to the start of the line; any other character is drawn in white on black
/// and the cursor advances, wrapping at the end of the row.
pub open spec fn spec_print_char(d: &Display, s: Screen, cur: (int, int), ch: char) -> (Screen, (int, int)) {
    let m = spec_max_cursor_x(d);
    if ch == '\x08' {
        if cur.0 > 0 {
            (spec_draw_char(d, s, '\0', cur.0 - 1, cur.1, white(), black()), (cur.0 - 1, cur.1))
        } else {
            (s, cur)
        }
    } else if ch == '\t' {
        let nx = (cur.0 + 3) / 3 * 3;
        if nx >= m {
            (s, (0, cur.1 + 1))
        } else {
            (s, (nx, cur.1))
        }
    } else if ch == '\n' {
        (s, (0, cur.1 + 1))
    } else if ch == '\x0C' {
        (s, (cur.0, 0))
    } else if ch == '\r' {
        (s, (0, cur.1))
    } else {
        let s1 = spec_draw_char(d, s, ch, cur.0, cur.1, white(), black());
        if cur.0 + 1 >= m {
            (s1, (0, cur.1 + 1))
        } else {
            (s1, (cur.0 + 1, cur.1))
        }
    }
}

/// Whether the terminal can print `ch` with its cursor at `cur` in state `s`.
pub open spec fn print_char_ok(d: &Display, s: Screen, cur: (int, int), ch: char) -> bool {
    let m = spec_max_cursor_x(d);
    &&& 0 < d.font.0.0 <= usize::MAX
    &&& 0 <= cur.0 <= usize::MAX
    &&& 0 <= cur.1 <= usize::MAX
    &&& (ch == '\x08' ==> (cur.0 > 0 ==> draw_char_ok(d, s, '\0', cur.0 - 1, cur.1)))
    &&& (ch == '\t' ==> cur.0 + 3 <= usize::MAX && ((cur.0 + 3) / 3 * 3 >= m ==> cur.1 + 1 <= usize::MAX))
    &&& (ch == '\n' ==> cur.1 + 1 <= usize::MAX)
    &&& ((ch != '\x08' && ch != '\t' && ch != '\n' && ch != '\x0C' && ch != '\r') ==> {
        &&& draw_char_ok(d, s, ch, cur.0, cur.1)
        &&& cur.0 + 1 <= usize::MAX
        &&& (cur.0 + 1 >= m ==> cur.1 + 1 <= usize::MAX)
    })
}

/// The state and cursor after printing the characters `cs` in order.
pub open spec fn spec_print_chars(d: &Display, s: Screen, cur: (int, int), cs: Seq<char>) -> (Screen, (int, int))
    decreases cs.len(),
{
    if cs.len() == 0 {
        (s, cur)
    } else {
        let r = spec_print_chars(d, s, cur, cs.drop_last());
        spec_print_char(d, r.0, r.1, cs.last())
    }
}

/// Whether the characters `cs` can be printed in order.
pub open spec fn print_chars_ok(d: &Display, s: Screen, cur: (int, int), cs: Seq<char>) -> bool
    decreases cs.len(),
{
    if cs.len() == 0 {
        true
    } else {
        let r = spec_print_chars(d, s, cur, cs.drop_last());
        print_chars_ok(d, s, cur, cs.drop_last()) && print_char_ok(d, r.0, r.1, cs.last())
    }
}

/// Printing a sequence is possible only if printing each of its prefixes is.
proof fn lemma_print_ok_prefix(d: &Display, s: Screen, cur: (int, int), cs: Seq<char>, i: int)
    requires
        print_chars_ok(d, s, cur, cs),
        0 <= i <= cs.len(),
    ensures
        print_chars_ok(d, s, cur, cs.take(i)),
    decreases cs.len(),
{
    if i == cs.len() {
        assert(cs.take(i) =~= cs);
    } else {
        lemma_print_ok_prefix(d, s, cur, cs.drop_last(), i);
        assert(cs.drop_last().take(i) =~= cs.take(i));
    }
}

impl Display {
    /// The number of text cells in a row.
    pub fn max_cursor_x(&self) -> (r: usize)
        requires
            0 < self.font.0.0 <= usize::MAX,
        ensures
            r == spec_max_cursor_x(self),
    {
        self.framebuffer.width / (get_font_bounds(&self.font).width() as usize)
    }
}

/// A text terminal: a cursor, in text cells.
pub struct Terminal {
    pub cursor: (usize, usize),
}

impl Terminal {
    /// A terminal with its cursor at the top left.
    pub fn new() -> (r: Terminal)
        ensures
            r.cursor == (0usize, 0usize),
    {
        Terminal { cursor: (0, 0) }
    }

    /// Prints one character on the display.
    pub fn print_char(&mut self, display: &mut Display, ch: char)
        requires
            old(display).wf(),
            print_char_ok(old(display), old(display).screen(), (old(self).cursor.0 as int, old(self).cursor.1 as int), ch),
        ensures
            final(display).wf(),
            final(display).same_setup(old(display)),
            ({
                let r = spec_print_char(old(display), old(display).screen(), (old(self).cursor.0 as int, old(self).cursor.1 as int), ch);
                final(display).screen() == r.0 && final(self).cursor.0 == r.1.0 && final(self).cursor.1 == r.1.1
            }),
    {
        match ch {
            '\x08' => {
                if self.cursor.0 > 0 {
                    self.cursor.0 = self.cursor.0 - 1;
                    display.draw_char(
                        '\0',
                        self.cursor.0,
                        self.cursor.1,
                        RGBColor::new(255, 255, 255),
                        RGBColor::new(0, 0, 0),
                    );
                }
            },
            '\t' => {
                self.cursor.0 = (self.cursor.0 + 3) / 3 * 3;
                if self.cursor.0 >= display.max_cursor_x() {
                    self.cursor.1 = self.cursor.1 + 1;
                    self.cursor.0 = 0;
                }
            },
            '\n' => {
                self.cursor.1 = self.cursor.1 + 1;
                self.cursor.0 = 0;
            },
            '\x0C' => self.cursor.1 = 0,
            '\r' => self.cursor.0 = 0,
            ch => {
                display.draw_char(
                    ch,
                    self.cursor.0,
                    self.cursor.1,
                    RGBColor::new(255, 255, 255),
                    RGBColor::new(0, 0, 0),
                );
                self.cursor.0 = self.cursor.0 + 1;
                if self.cursor.0 >= display.max_cursor_x() {
                    self.cursor.0 = 0;
                    self.cursor.1 = self.cursor.1 + 1;
                }
            },
        }
    }

    /// Prints a string on the display, then shows the back buffer.
    pub fn print_str(&mut self, display: &mut Display, string: &str)
        requires
            old(display).wf(),
            print_chars_ok(old(display), old(display).screen(), (old(self).cursor.0 as int, old(self).cursor.1 as int), string@),
        ensures
            final(display).wf(),
            final(display).same_setup(old(display)),
            ({
                let r = spec_print_chars(old(display), old(display).screen(), (old(self).cursor.0 as int, old(self).cursor.1 as int), string@);
                &&& final(self).cursor.0 == r.1.0
                &&& final(self).cursor.1 == r.1.1
                &&& final(display).backbuffer@ == r.0.1
                &&& final(display).count == r.0.2
                &&& final(display).framebuffer.buffer@ == spec_flush(
                    r.0.0,
                    r.0.1,
                    old(display).framebuffer.stride * old(display).framebuffer.height,
                )
            }),
    {
        let ghost d0 = *display;
        let ghost s0 = display.screen();
        let ghost c0 = (self.cursor.0 as int, self.cursor.1 as int);
        for c in it: string.chars()
            invariant
                d0 == *old(display),
                c0 == (old(self).cursor.0 as int, old(self).cursor.1 as int),
                s0 == d0.screen(),
                d0.wf(),
                display.wf(),
                display.same_setup(&d0),
                it.seq() == string@,
                print_chars_ok(&d0, s0, c0, string@),
                ({
                    let r = spec_print_chars(&d0, s0, c0, string@.take(it.index() as int));
                    display.screen() == r.0 && self.cursor.0 == r.1.0 && self.cursor.1 == r.1.1
                }),
        {
            proof {
                let i = it.index() as int;
                lemma_print_ok_prefix(&d0, s0, c0, string@, i + 1);
                let t = string@.take(i + 1);
                assert(t.drop_last() =~= string@.take(i));
                assert(t.last() == c);
            }
            self.print_char(display, c);
        }
        proof {
            assert(string@.take(string@.len() as int) =~= string@);
        }
        display.flush();
    }
}

impl Display {
    /// Whether the rectangle with corner `(x, y)`, `w` by `h` pixels, can be
    /// filled.
    fn rect_fits(&self, x: u128, y: u128, w: u128, h: u128) -> (r: bool)
        requires
            x <= u64::MAX,
            y <= u64::MAX,
            w <= u64::MAX,
            h <= u64::MAX,
        ensures
            r == self.rect_ok(x as int, y as int, w as int, h as int),
    {
        let max = usize::MAX as u128;
        if x + w > max || y + h > max {
            return false;
        }
        if w == 0 || h == 0 {
            return true;
        }
        let stride = self.framebuffer.stride as u128;
        let width = self.framebuffer.width as u128;
        let height = self.framebuffer.height as u128;
        let row = y + h - 1;
        proof {
            assert(row * stride <= 0xffff_ffff_ffff_ffff * 0xffff_ffff_ffff_ffff) by (nonlinear_arith)
                requires
                    row <= 0xffff_ffff_ffff_ffff,
                    stride <= 0xffff_ffff_ffff_ffff,
            ;
            assert(width * height <= 0xffff_ffff_ffff_ffff * 0xffff_ffff_ffff_ffff) by (nonlinear_arith)
                requires
                    width <= 0xffff_ffff_ffff_ffff,
                    height <= 0xffff_ffff_ffff_ffff,
            ;
        }
        let last = row * stride + (x + w - 1);
        last < width * height
    }

    /// Whether a debug dot can be drawn now.
    pub fn can_debug_dot(&self) -> (r: bool)
        ensures
            r == debug_dot_ok(self, self.screen()),
    {
        let w = self.framebuffer.width;
        if w == 0 {
            return false;
        }
        let count = self.count;
        if count > usize::MAX / 4 || count == usize::MAX {
            return false;
        }
        let dots = count * 4;
        let x = dots % w;
        let y = (dots as u128) / (w as u128) * 4;
        if y + 4 > usize::MAX as u128 {
            return false;
        }
        if !self.rect_fits(x as u128, y, 4, 4) {
            return false;
        }
        let stride = self.framebuffer.stride as u128;
        let height = self.framebuffer.height as u128;
        proof {
            assert(y * stride <= 0xffff_ffff_ffff_ffff * 0xffff_ffff_ffff_ffff) by (nonlinear_arith)
                requires
                    y <= 0xffff_ffff_ffff_ffff,
                    stride <= 0xffff_ffff_ffff_ffff,
            ;
            assert(stride * height <= 0xffff_ffff_ffff_ffff * 0xffff_ffff_ffff_ffff) by (nonlinear_arith)
                requires
                    height <= 0xffff_ffff_ffff_ffff,
                    stride <= 0xffff_ffff_ffff_ffff,
            ;
        }
        let start = y * stride;
        if start > usize::MAX as u128 {
            return false;
        }
        let end = start + 16 * stride;
        let total = stride * height;
        if total > u128::MAX / 4 {
            return end <= usize::MAX as u128;
        }
        end <= 4 * total && end <= usize::MAX as u128
    }

    /// Whether the glyph rows `bitmap`, `cw` pixels wide, can be drawn with
    /// their corner at `(xo, yo)`.
    fn glyph_fits(&self, bitmap: &Vec<u32>, cw: i64, xo: i64, yo: i64) -> (r: bool)
        ensures
            r == glyph_ok(self, bitmap@, cw as int, xo as int, yo as int),
    {
        if cw > 8 || xo < 0 || yo < 0 {
            return false;
        }
        let mut l: usize = 0;
        while l < bitmap.len()
            invariant
                cw <= 8,
                xo >= 0,
                yo >= 0,
                l <= bitmap@.len(),
                forall|ll: int, p: int|
                    0 <= ll < l && 0 <= p < cw && #[trigger] row_bit(bitmap@[ll], p) ==> self.rect_ok(
                        xo + p,
                        yo + ll,
                        1,
                        1,
                    ),
            decreases bitmap@.len() - l,
        {
            let line = bitmap[l];
            let mut p: i64 = 0;
            while p < cw
                invariant
                    cw <= 8,
                    xo >= 0,
                    yo >= 0,
                    l < bitmap@.len(),
                    line == bitmap@[l as int],
                    0 <= p,
                    p <= cw || cw < 0,
                    forall|ll: int, q: int|
                        0 <= ll < l && 0 <= q < cw && #[trigger] row_bit(bitmap@[ll], q) ==> self.rect_ok(
                            xo + q,
                            yo + ll,
                            1,
                            1,
                        ),
                    forall|q: int|
                        0 <= q < p && #[trigger] row_bit(line, q) ==> self.rect_ok(xo + q, yo + l, 1, 1),
                decreases cw - p,
            {
                let shift = (7 - p) as u32;
                if (line >> shift) & 1 > 0 {
                    assert(row_bit(line, p as int));
                    let yy = (yo as u128) + (l as u128);
                    if yy > u64::MAX as u128 || !self.rect_fits((xo as u128) + (p as u128), yy, 1, 1) {
                        return false;
                    }
                } else {
                    assert(!row_bit(line, p as int));
                }
                p = p + 1;
            }
            proof {
                assert forall|ll: int, q: int|
                    0 <= ll < l + 1 && 0 <= q < cw && #[trigger] row_bit(bitmap@[ll], q) implies self.rect_ok(
                        xo + q,
                        yo + ll,
                        1,
                        1,
                    ) by {
                    if ll == l {
                        assert(row_bit(line, q));
                    }
                }
            }
            l = l + 1;
        }
        true
    }

    /// Whether character `ch` can be drawn in the text cell `(x, y)` now.
    pub fn can_draw_char(&self, ch: char, x: usize, y: usize) -> (r: bool)
        requires
            self.wf(),
        ensures
            r == draw_char_ok(self, self.screen(), ch, x as int, y as int),
    {
        let b = get_font_bounds(&self.font);
        let bw = b.width();
        let bh = b.height();
        if bw < 0 || bh < 0 {
            return false;
        }
        if x as u128 > i64::MAX as u128 || y as u128 > i64::MAX as u128 {
            return false;
        }
        let xi = x as i128;
        let yi = y as i128;
        proof {
            assert(xi * (bw as i128) <= 0x7fff_ffff_ffff_ffff * 0x7fff_ffff_ffff_ffff) by (nonlinear_arith)
                requires
                    0 <= xi <= 0x7fff_ffff_ffff_ffff,
                    0 <= bw <= 0x7fff_ffff_ffff_ffff,
            ;
            assert(yi * (bh as i128) <= 0x7fff_ffff_ffff_ffff * 0x7fff_ffff_ffff_ffff) by (nonlinear_arith)
                requires
                    0 <= yi <= 0x7fff_ffff_ffff_ffff,
                    0 <= bh <= 0x7fff_ffff_ffff_ffff,
            ;
            assert(xi * (bw as i128) >= 0) by (nonlinear_arith)
                requires
                    0 <= xi,
                    0 <= bw,
            ;
            assert(yi * (bh as i128) >= 0) by (nonlinear_arith)
                requires
                    0 <= yi,
                    0 <= bh,
            ;
        }
        let px = xi * (bw as i128);
        let py = yi * (bh as i128);
        if px > i64::MAX as i128 || py > i64::MAX as i128 {
            return false;
        }
        if !self.rect_fits(px as u128, py as u128, bw as u128, bh as u128) {
            return false;
        }
        if !can_look_up(&self.font, ch) {
            return false;
        }
        match get_char(&self.font, ch) {
            Some(c) => {
                let cb = c.bounds();
                let ax = px + cb.x() as i128;
                let ay = py + cb.y() as i128;
                if ax < i64::MIN as i128 || ax > i64::MAX as i128 || ay < i64::MIN as i128 || ay
                    > i64::MAX as i128 {
                    return false;
                }
                let xo = ax - b.x() as i128;
                let yo = ay - b.y() as i128;
                if xo < i64::MIN as i128 || xo > i64::MAX as i128 || yo < i64::MIN as i128 || yo
                    > i64::MAX as i128 {
                    return false;
                }
                self.glyph_fits(c.bitmap(), cb.width(), xo as i64, yo as i64)
            },
            None => self.can_debug_dot(),
        }
    }
}

impl Terminal {
    /// Whether the terminal can print `ch` on the display now.
    pub fn can_print_char(&self, display: &Display, ch: char) -> (r: bool)
        requires
            display.wf(),
        ensures
            r == print_char_ok(display, display.screen(), (self.cursor.0 as int, self.cursor.1 as int), ch),
    {
        let fw = get_font_bounds(&display.font).width();
        if fw <= 0 || fw as u128 > usize::MAX as u128 {
            return false;
        }
        let m = display.max_cursor_x();
        let (cx, cy) = self.cursor;
        match ch {
            '\x08' => {
                if cx > 0 {
                    display.can_draw_char('\0', cx - 1, cy)
                } else {
                    true
                }
            },
            '\t' => {
                if cx > usize::MAX - 3 {
                    return false;
                }
                if (cx + 3) / 3 * 3 >= m {
                    cy < usize::MAX
                } else {
                    true
                }
            },
            '\n' => cy < usize::MAX,
            '\x0C' => true,
            '\r' => true,
            _ => {
                if !display.can_draw_char(ch, cx, cy) || cx == usize::MAX {
                    return false;
                }
                if cx + 1 >= m {
                    cy < usize::MAX
                } else {
                    true
                }
            },
        }
    }
}

/// The terminal's cursor stays within a row: printing any character from a
/// column inside the row leaves the cursor in a column inside the row.
pub proof fn lemma_cursor_stays_in_row(d: &Display, s: Screen, cur: (int, int), ch: char)
    requires
        spec_max_cursor_x(d) > 0,
        0 <= cur.0 < spec_max_cursor_x(d),
        0 <= cur.1,
    ensures
        0 <= spec_print_char(d, s, cur, ch).1.0 < spec_max_cursor_x(d),
        spec_print_char(d, s, cur, ch).1.1 >= 0,
{
}

/// Whether two drawing states differ at most in the frame buffer pixels
/// before `n`.
pub open spec fn screens_agree_from(n: int, s1: Screen, s2: Screen) -> bool {
    &&& s1.1 == s2.1
    &&& s1.2 == s2.2
    &&& s1.0.len() == s2.0.len()
    &&& forall|k: int| n <= k < s1.0.len() ==> s1.0[k] == s2.0[k]
}

/// Printing one character from two states that differ only in frame buffer
/// pixels before `stride` times `height` gives states that differ only
/// there, and the same cursor: printing writes no frame buffer pixel from
/// there on, and its effect on the back buffer and the dot count does not
/// depend on the frame buffer.
proof fn lemma_print_char_frame(d: &Display, s1: Screen, s2: Screen, cur: (int, int), ch: char)
    requires
        screens_agree_from(d.framebuffer.stride * d.framebuffer.height, s1, s2),
        print_char_ok(d, s1, cur, ch),
    ensures
        print_char_ok(d, s2, cur, ch),
        screens_agree_from(
            d.framebuffer.stride * d.framebuffer.height,
            spec_print_char(d, s1, cur, ch).0,
            spec_print_char(d, s2, cur, ch).0,
        ),
        spec_print_char(d, s1, cur, ch).1 == spec_print_char(d, s2, cur, ch).1,
{
    let n = d.framebuffer.stride * d.framebuffer.height;
    let r1 = spec_print_char(d, s1, cur, ch);
    let r2 = spec_print_char(d, s2, cur, ch);
    assert(r1.0.0.len() == s1.0.len());
    assert(r2.0.0.len() == s2.0.len());
    assert forall|k: int| n <= k < s1.0.len() implies r1.0.0[k] == s1.0[k] && r2.0.0[k] == s2.0[k] by {
        assert(4 * k >= 4 * n);
    }
}

/// Printing characters from two states that differ only in frame buffer
/// pixels before `stride` times `height` gives states that differ only
/// there, and the same cursor.
proof fn lemma_print_chars_frame(d: &Display, s1: Screen, s2: Screen, cur: (int, int), cs: Seq<char>)
    requires
        screens_agree_from(d.framebuffer.stride * d.framebuffer.height, s1, s2),
        print_chars_ok(d, s1, cur, cs),
    ensures
        print_chars_ok(d, s2, cur, cs),
        screens_agree_from(
            d.framebuffer.stride * d.framebuffer.height,
            spec_print_chars(d, s1, cur, cs).0,
            spec_print_chars(d, s2, cur, cs).0,
        ),
        spec_print_chars(d, s1, cur, cs).1 == spec_print_chars(d, s2, cur, cs).1,
    decreases cs.len(),
{
    if cs.len() > 0 {
        lemma_print_chars_frame(d, s1, s2, cur, cs.drop_last());
        let p1 = spec_print_chars(d, s1, cur, cs.drop_last());
        let p2 = spec_print_chars(d, s2, cur, cs.drop_last());
        lemma_print_char_frame(d, p1.0, p2.0, p1.1, cs.last());
    }
}

/// Printing `a` followed by `b` is printing `a`, then `b` from where `a`
/// left off.
proof fn lemma_print_chars_concat(d: &Display, s: Screen, cur: (int, int), a: Seq<char>, b: Seq<char>)
    ensures
        spec_print_chars(d, s, cur, a + b) == ({
            let ra = spec_print_chars(d, s, cur, a);
            spec_print_chars(d, ra.0, ra.1, b)
        }),
        print_chars_ok(d, s, cur, a + b) == (print_chars_ok(d, s, cur, a) && ({
            let ra = spec_print_chars(d, s, cur, a);
            print_chars_ok(d, ra.0, ra.1, b)
        })),
    decreases b.len(),
{
    if b.len() == 0 {
        assert(a + b =~= a);
    } else {
        lemma_print_chars_concat(d, s, cur, a, b.drop_last());
        assert((a + b).drop_last() =~= a + b.drop_last());
        assert((a + b).last() == b.last());
    }
}

/// What printing does depends on the display only through its setup: the
/// frame buffer's geometry and pixel format, and the font.
proof fn lemma_print_chars_setup(d1: &Display, d2: &Display, s: Screen, cur: (int, int), cs: Seq<char>)
    requires
        d1.same_setup(d2),
    ensures
        spec_print_chars(d1, s, cur, cs) == spec_print_chars(d2, s, cur, cs),
        print_chars_ok(d1, s, cur, cs) == print_chars_ok(d2, s, cur, cs),
    decreases cs.len(),
{
    if cs.len() > 0 {
        lemma_print_chars_setup(d1, d2, s, cur, cs.drop_last());
        let r = spec_print_chars(d1, s, cur, cs.drop_last());
        assert(spec_print_char(d1, r.0, r.1, cs.last()) == spec_print_char(d2, r.0, r.1, cs.last()));
        assert(print_char_ok(d1, r.0, r.1, cs.last()) == print_char_ok(d2, r.0, r.1, cs.last()));
    }
}

/// Printing the string `a` on the display `d1` and then the string `b` on
/// the display `d2` that the first print left (same setup, as `print_str`
/// keeps it) leaves the display as printing `a` followed by `b` in one
/// string does: the same cursor, back buffer, dot count and shown frame
/// buffer; and the two strings can be printed one after the other exactly
/// when their concatenation can be printed.
pub proof fn lemma_print_str_concat(
    d1: &Display,
    d2: &Display,
    s: Screen,
    cur: (int, int),
    a: Seq<char>,
    b: Seq<char>,
)
    requires
        d2.same_setup(d1),
    ensures
        ({
            let n = d1.framebuffer.stride * d1.framebuffer.height;
            let ra = spec_print_chars(d1, s, cur, a);
            let s1: Screen = (spec_flush(ra.0.0, ra.0.1, n), ra.0.1, ra.0.2);
            let rb = spec_print_chars(d2, s1, ra.1, b);
            let rab = spec_print_chars(d1, s, cur, a + b);
            &&& print_chars_ok(d1, s, cur, a + b) <==> (print_chars_ok(d1, s, cur, a) && print_chars_ok(
                d2,
                s1,
                ra.1,
                b,
            ))
            &&& print_chars_ok(d1, s, cur, a + b) ==> {
                &&& rb.1 == rab.1
                &&& rb.0.1 == rab.0.1
                &&& rb.0.2 == rab.0.2
                &&& spec_flush(rb.0.0, rb.0.1, n) == spec_flush(rab.0.0, rab.0.1, n)
            }
        }),
{
    let d = d1;
    let n = d.framebuffer.stride * d.framebuffer.height;
    let ra = spec_print_chars(d, s, cur, a);
    let s1: Screen = (spec_flush(ra.0.0, ra.0.1, n), ra.0.1, ra.0.2);
    lemma_print_chars_setup(d2, d1, s1, ra.1, b);
    lemma_print_chars_concat(d, s, cur, a, b);
    assert(screens_agree_from(n, ra.0, s1));
    assert(screens_agree_from(n, s1, ra.0));
    if print_chars_ok(d, s, cur, a) && print_chars_ok(d, ra.0, ra.1, b) {
        lemma_print_chars_frame(d, ra.0, s1, ra.1, b);
        let rb = spec_print_chars(d, s1, ra.1, b);
        let rab = spec_print_chars(d, ra.0, ra.1, b);
        assert(spec_flush(rb.0.0, rb.0.1, n) =~= spec_flush(rab.0.0, rab.0.1, n));
    }
    if print_chars_ok(d, s, cur, a) && print_chars_ok(d, s1, ra.1, b) {
        lemma_print_chars_frame(d, s1, ra.0, ra.1, b);
    }
}

/// The visible pixels lie in the back buffer.
proof fn lemma_visible_within(width: int, height: int, stride: int)
    requires
        0 <= width <= stride,
        0 <= height,
    ensures
        width * height <= stride * height,
{
    vstd::arithmetic::mul::lemma_mul_inequality(width, stride, height);
}

/// Every pixel of a rectangle lies before its last pixel.
proof fn lemma_rect_bound(x: int, y: int, w: int, h: int, cx: int, cy: int, stride: int)
    requires
        0 <= x <= cx < x + w,
        0 <= y <= cy < y + h,
        0 <= stride,
    ensures
        0 <= pixel_index(cx, cy, stride) <= pixel_index(x + w - 1, y + h - 1, stride),
{
    vstd::arithmetic::mul::lemma_mul_inequality(cy, y + h - 1, stride);
    vstd::arithmetic::mul::lemma_mul_nonnegative(cy, stride);
}

/// The pixels of a row filled up to `cx + 1` are those filled up to `cx`
/// and pixel `(cx, cy)`.
proof fn lemma_extend_col(x: int, y: int, w: int, cy: int, cx: int, stride: int)
    requires
        x <= cx,
    ensures
        forall|k: int|
            #[trigger] in_rect(k, x, cy, cx + 1 - x, 1, stride) <==> (in_rect(k, x, cy, cx - x, 1, stride)
                || k == pixel_index(cx, cy, stride)),
{
    assert forall|k: int| #[trigger] in_rect(k, x, cy, cx + 1 - x, 1, stride) <==> (in_rect(k, x, cy, cx - x, 1, stride)
                || k == pixel_index(cx, cy, stride)) by {
        if in_rect(k, x, cy, cx + 1 - x, 1, stride) {
            let (yy, xx) = choose|yy: int, xx: int|
                cy <= yy < cy + 1 && x <= xx < x + (cx + 1 - x) && k == #[trigger] pixel_index(xx, yy, stride);
            if xx < cx {
                assert(in_rect(k, x, cy, cx - x, 1, stride));
            }
        }
        if k == pixel_index(cx, cy, stride) {
            assert(in_rect(k, x, cy, cx + 1 - x, 1, stride));
        }
        if in_rect(k, x, cy, cx - x, 1, stride) {
            let (yy, xx) = choose|yy: int, xx: int|
                cy <= yy < cy + 1 && x <= xx < x + (cx - x) && k == #[trigger] pixel_index(xx, yy, stride);
            assert(in_rect(k, x, cy, cx + 1 - x, 1, stride));
        }
    }
}

/// The rows filled up to `cy + 1` are those filled up to `cy` and row `cy`.
proof fn lemma_extend_row(x: int, y: int, w: int, cy: int, stride: int)
    requires
        y <= cy,
    ensures
        forall|k: int|
            #[trigger] in_rect(k, x, y, w, cy + 1 - y, stride) <==> (in_rect(k, x, y, w, cy - y, stride)
                || in_rect(k, x, cy, w, 1, stride)),
{
    assert forall|k: int| #[trigger] in_rect(k, x, y, w, cy + 1 - y, stride) <==> (in_rect(k, x, y, w, cy - y, stride)
                || in_rect(k, x, cy, w, 1, stride)) by {
        if in_rect(k, x, y, w, cy + 1 - y, stride) {
            let (yy, xx) = choose|yy: int, xx: int|
                y <= yy < y + (cy + 1 - y) && x <= xx < x + w && k == #[trigger] pixel_index(xx, yy, stride);
            if yy < cy {
                assert(in_rect(k, x, y, w, cy - y, stride));
            } else {
                assert(in_rect(k, x, cy, w, 1, stride));
            }
        }
        if in_rect(k, x, y, w, cy - y, stride) {
            let (yy, xx) = choose|yy: int, xx: int|
                y <= yy < y + (cy - y) && x <= xx < x + w && k == #[trigger] pixel_index(xx, yy, stride);
            assert(in_rect(k, x, y, w, cy + 1 - y, stride));
        }
        if in_rect(k, x, cy, w, 1, stride) {
            let (yy, xx) = choose|yy: int, xx: int|
                cy <= yy < cy + 1 && x <= xx < x + w && k == #[trigger] pixel_index(xx, yy, stride);
            assert(in_rect(k, x, y, w, cy + 1 - y, stride));
        }
    }
}

/// The bit of weight `0x80 >> q` of a row is the one that `row_bit` reads
/// for column `q`.
proof fn lemma_row_mask(line: u32, q: u32)
    by (bit_vector)
    requires
        q < 8,
    ensures
        ((line >> ((7u32 - q) as u32)) & 1u32 > 0) == (line & (0x80u32 >> q) != 0),
{
}

/// Two pixels of one glyph, whose columns differ by less than the stride,
/// lie at the same position only if they are the same pixel.
proof fn lemma_glyph_pixel_distinct(xo: int, yo: int, stride: int, l: int, p: int, l2: int, p2: int)
    requires
        0 <= p < stride,
        0 <= p2 < stride,
        pixel_index(xo + p, yo + l, stride) == pixel_index(xo + p2, yo + l2, stride),
    ensures
        l == l2,
        p == p2,
{
    assert((l - l2) * stride == p2 - p) by (nonlinear_arith)
        requires
            (yo + l) * stride + xo + p == (yo + l2) * stride + xo + p2,
    ;
    if l > l2 {
        assert((l - l2) * stride >= stride) by (nonlinear_arith)
            requires
                l - l2 >= 1,
                stride > 0,
        ;
    } else if l < l2 {
        assert((l2 - l) * stride >= stride) by (nonlinear_arith)
            requires
                l2 - l >= 1,
                stride > 0,
        ;
        assert((l2 - l) * stride == p - p2) by (nonlinear_arith)
            requires
                (l - l2) * stride == p2 - p,
        ;
    }
}

/// Glyph rows are read from the left: drawing a glyph gives the pixel in
/// column `p` of row `l` the colour exactly when the row has the bit of
/// weight `0x80 >> p` set (the highest of its low eight bits is the
/// leftmost pixel, so a row `0x80` colours only the cell's first column),
/// and leaves that pixel as it was otherwise.
pub proof fn lemma_glyph_pixel(
    bb: Seq<[u8; 4]>,
    color: [u8; 4],
    bitmap: Seq<u32>,
    cw: int,
    xo: int,
    yo: int,
    stride: int,
    l: int,
    p: int,
)
    requires
        0 <= l < bitmap.len(),
        0 <= p < cw <= 8,
        cw <= stride,
        0 <= pixel_index(xo + p, yo + l, stride) < bb.len(),
    ensures
        spec_glyph(bb, color, bitmap, cw, xo, yo, stride)[pixel_index(xo + p, yo + l, stride)] == if bitmap[l]
            & (0x80u32 >> (p as u32)) != 0 {
            color
        } else {
            bb[pixel_index(xo + p, yo + l, stride)]
        },
{
    let k = pixel_index(xo + p, yo + l, stride);
    lemma_row_mask(bitmap[l], p as u32);
    assert((7 - p) as u32 == (7u32 - (p as u32)) as u32);
    if bitmap[l] & (0x80u32 >> (p as u32)) != 0 {
        assert(row_bit(bitmap[l], p));
        assert(glyph_at(k, bitmap, cw, xo, yo, stride));
    } else {
        assert(!row_bit(bitmap[l], p));
        if glyph_at(k, bitmap, cw, xo, yo, stride) {
            let (l2, p2) = choose|l2: int, p2: int|
                0 <= l2 < bitmap.len() && 0 <= p2 < cw && row_bit(bitmap[l2], p2) && k
                    == #[trigger] pixel_index(xo + p2, yo + l2, stride);
            lemma_glyph_pixel_distinct(xo, yo, stride, l, p, l2, p2);
        }
    }
}

/// Where printing a character leaves the terminal's cursor, with `m` cells
/// per row: a printable character advances one cell, or starts the next row
/// after the row's last cell; tab advances to the next column that is a
/// multiple of 3, or starts the next row when there is no such column in the
/// row; line feed starts the next row; carriage return goes back to the
/// row's start; form feed goes up to the first row in the same column; and
/// backspace steps one cell back, except at the start of a row.
pub proof fn lemma_print_char_cursor(d: &Display, s: Screen, cur: (int, int), ch: char)
    requires
        spec_max_cursor_x(d) > 0,
        0 <= cur.0 < spec_max_cursor_x(d),
        0 <= cur.1,
    ensures
        ({
            let m = spec_max_cursor_x(d);
            let next = spec_print_char(d, s, cur, ch).1;
            &&& ch == '\n' ==> next == (0int, cur.1 + 1)
            &&& ch == '\r' ==> next == (0int, cur.1)
            &&& ch == '\x0C' ==> next == (cur.0, 0int)
            &&& ch == '\x08' ==> (cur.0 > 0 ==> next == (cur.0 - 1, cur.1)) && (cur.0 == 0 ==> next == cur)
            &&& ch == '\t' ==> next.0 % 3 == 0 && (if cur.0 + 3 - cur.0 % 3 < m {
                next.1 == cur.1 && cur.0 < next.0 <= cur.0 + 3
            } else {
                next == (0int, cur.1 + 1)
            })
            &&& (ch != '\x08' && ch != '\t' && ch != '\n' && ch != '\x0C' && ch != '\r') ==> next == if cur.0
                + 1 < m {
                (cur.0 + 1, cur.1)
            } else {
                (0int, cur.1 + 1)
            }
        }),
{
    let nx = (cur.0 + 3) / 3 * 3;
    assert(nx == cur.0 + 3 - cur.0 % 3 && nx % 3 == 0);
}

/// Drawing a character fills its whole text cell: the cell `(x, y)` is the
/// rectangle of font-box size whose corner is `(x, y)` times the box's width
/// and height, and after drawing a character the font has, each pixel of
/// that cell is the foreground where the glyph sets it and the background
/// everywhere else.
pub proof fn lemma_draw_char_cell(
    d: &Display,
    s: Screen,
    ch: char,
    x: int,
    y: int,
    fg: RGBColor,
    bg: RGBColor,
    i: int,
    j: int,
)
    requires
        find_glyph(d.font.1@, ch as u32) is Some,
        0 <= i < d.font.0.0,
        0 <= j < d.font.0.1,
        0 <= pixel_index(x * d.font.0.0 + i, y * d.font.0.1 + j, d.framebuffer.stride as int) < s.1.len(),
    ensures
        ({
            let b = d.font.0;
            let c = find_glyph(d.font.1@, ch as u32).unwrap();
            let stride = d.framebuffer.stride as int;
            let k = pixel_index(x * b.0 + i, y * b.1 + j, stride);
            spec_draw_char(d, s, ch, x, y, fg, bg).1[k] == if glyph_at(
                k,
                c.2@,
                c.1.0 as int,
                x * b.0 + c.1.2 - b.2,
                y * b.1 + c.1.3 - b.3,
                stride,
            ) {
                format_color(d.framebuffer.pixel_format, fg)
            } else {
                format_color(d.framebuffer.pixel_format, bg)
            }
        }),
{
    let b = d.font.0;
    let stride = d.framebuffer.stride as int;
    let px = x * b.0;
    let py = y * b.1;
    let k = pixel_index(px + i, py + j, stride);
    assert(in_rect(k, px, py, b.0 as int, b.1 as int, stride));
}

} // verus!
