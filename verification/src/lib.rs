//! Driver and software renderer for a monochrome e-paper panel.
//!
//! The crate renders a tree of UI elements into 1-bit-per-pixel scanlines
//! and feeds them to a non-blocking panel protocol driver. Row buffers pack
//! 8 pixel columns per byte, bit 0 of byte 0 being the leftmost pixel and a
//! set bit meaning white (see `bits`).

use vstd::prelude::*;

pub mod bits;
pub mod gdew042z15;
pub mod gui;
pub mod hal;

use crate::bits::{bit_get, fill_byte, fill_view, lemma_fill_view_empty, lemma_fill_view_merge,
    lemma_pixels_update, pixels};

verus! {

/// Largest width or height, in pixels, that the renderer and the element
/// tree accept. Keeps every coordinate computation far away from `i32`
/// overflow.
pub const MAX_DIM: u32 = 1048576;

/// True iff the column or row coordinate `v` leaves room for `levels + 1`
/// more translations of at most `MAX_DIM` columns each before `i32`
/// arithmetic could overflow. Each nesting level of the element tree
/// shifts coordinates by at most `MAX_DIM`.
pub open spec fn coord_ok(v: int, levels: int) -> bool {
    -0x7fff_ffff + (levels + 1) * (MAX_DIM as int) <= v <= 0x7fff_ffff - (levels + 1) * (
    MAX_DIM as int)
}

/// A fatal fault of the panel link. The driver currently swallows bus
/// errors rather than surfacing them, so no function of this crate returns
/// the variant yet; the type keeps the fault channel in the non-blocking
/// signatures.
#[derive(Clone, Copy, PartialEq, Eq, Debug)]
pub enum Error {
    CommunicationFault,
}

/// A would-block signal: the operation made no progress and must be polled
/// again later. Distinct from a failure.
#[derive(Clone, Copy, PartialEq, Eq, Debug)]
pub struct NotReady;

/// Custom time type. A countdown timer started with `Hertz(n)` is supposed
/// to expire after `1/n` seconds.
#[derive(Clone, Copy)]
pub struct Hertz(pub u32);

/// A two-valued pixel. Transparent overlays are modeled as the absence of
/// a fill, never as a third color.
#[derive(Copy, Clone)]
pub enum Color {
    White,
    Black,
}

/// A frame sink: receives one full frame of 1-bit pixels in raster order,
/// as packed bytes or whole packed rows.
pub trait Display {
    /// The packed pixel bytes received so far.
    spec fn frame(&self) -> Seq<u8>;

    /// The panel's fixed pixel width.
    spec fn spec_width(&self) -> u32;

    /// The panel's fixed pixel height.
    spec fn spec_height(&self) -> u32;

    /// True when the sink may finish the frame; finishing too early is a
    /// caller bug that must fail loudly rather than truncate a frame.
    spec fn end_frame_ready(&self) -> bool;

    fn width(&self) -> (r: u32)
        ensures
            r == self.spec_width(),
    ;

    fn height(&self) -> (r: u32)
        ensures
            r == self.spec_height(),
    ;

    /// Begins a frame, or signals that the panel is not ready yet and
    /// must be polled again.
    fn start_frame(&mut self) -> (r: Result<(), NotReady>)
        ensures
            final(self).spec_width() == old(self).spec_width(),
            final(self).spec_height() == old(self).spec_height(),
    ;

    /// Finishes the frame after the caller supplied all its bytes.
    fn end_frame(&mut self)
        requires
            old(self).end_frame_ready(),
        ensures
            final(self).spec_width() == old(self).spec_width(),
            final(self).spec_height() == old(self).spec_height(),
    ;

    /// Appends one packed byte (8 pixels) to the frame.
    fn put_byte(&mut self, byte: u8)
        ensures
            final(self).spec_width() == old(self).spec_width(),
            final(self).spec_height() == old(self).spec_height(),
            final(self).frame() == old(self).frame().push(byte),
    ;

    /// Appends one packed row: the first `width / 8` bytes of `row`.
    fn draw_row(&mut self, row: &[u8])
        requires
            row@.len() >= old(self).spec_width() / 8,
        ensures
            final(self).spec_width() == old(self).spec_width(),
            final(self).spec_height() == old(self).spec_height(),
            final(self).frame() == old(self).frame() + row@.take(
                (old(self).spec_width() / 8) as int,
            ),
    ;
}

/// The optional partial-refresh extension of a frame sink.
pub trait PartialRefresh {
    /// The packed bytes received for the current partial window.
    spec fn partial_frame(&self) -> Seq<u8>;

    /// Begins a partial refresh of the given window, or signals that the
    /// panel is not ready yet.
    fn start_partial(&mut self, left: u32, top: u32, right: u32, bottom: u32) -> (r: Result<
        (),
        NotReady,
    >);

    /// Finishes the partial refresh.
    fn end_partial(&mut self);

    /// Appends one packed row of the partial window.
    fn draw_partial_row(&mut self, row: &[u8])
        ensures
            final(self).partial_frame() == old(self).partial_frame() + row@,
    ;
}

/// A half-open interval `[left, right)` of pixel columns limiting where a
/// draw operation may take effect. `left >= right` is a valid "nothing to
/// draw" interval.
pub struct ClipRow {
    left: i32,
    right: i32,
}

impl ClipRow {
    /// The lower bound of the interval.
    pub closed spec fn spec_left(&self) -> int {
        self.left as int
    }

    /// The upper (excluded) bound of the interval.
    pub closed spec fn spec_right(&self) -> int {
        self.right as int
    }

    /// True iff the interval holds no column.
    pub open spec fn spec_is_empty(&self) -> bool {
        self.spec_left() >= self.spec_right()
    }

    /// True iff column `c` lies inside the interval.
    pub open spec fn contains(&self, c: int) -> bool {
        self.spec_left() <= c < self.spec_right()
    }

    /// True iff the interval stays inside a row of `width` columns.
    pub open spec fn bounded(&self, width: int) -> bool {
        self.spec_is_empty() || (0 <= self.spec_left() && self.spec_right() <= width)
    }

    /// The intersection with `[left, right)`, as `clip` computes it.
    pub closed spec fn spec_clip(&self, left: i32, right: i32) -> ClipRow {
        ClipRow {
            left: if self.left >= left {
                self.left
            } else {
                left
            },
            right: if self.right <= right {
                self.right
            } else {
                right
            },
        }
    }

    /// Returns the interval bounds.
    pub fn get(&self) -> (r: (i32, i32))
        ensures
            r.0 as int == self.spec_left(),
            r.1 as int == self.spec_right(),
    {
        (self.left, self.right)
    }

    /// Intersects this clip with the span `[left, right)`.
    pub fn clip(&self, left: i32, right: i32) -> (r: ClipRow)
        ensures
            r == self.spec_clip(left, right),
            r.spec_left() == vstd::math::max(self.spec_left(), left as int),
            r.spec_right() == vstd::math::min(self.spec_right(), right as int),
    {
        ClipRow {
            left: if self.left >= left {
                self.left
            } else {
                left
            },
            right: if self.right <= right {
                self.right
            } else {
                right
            },
        }
    }

    /// True iff no column survives the clipping done so far.
    pub fn is_empty(&self) -> (r: bool)
        ensures
            r == self.spec_is_empty(),
    {
        self.left >= self.right
    }
}

/// Clipping twice leaves an empty interval exactly when the two requested
/// spans do not overlap inside this clip's own bounds.
pub proof fn lemma_double_clip_empty(cl: ClipRow, a: i32, b: i32, c: i32, d: i32)
    ensures
        cl.spec_clip(a, b).spec_clip(c, d).spec_is_empty() <==> !(exists|x: int|
            cl.contains(x) && a <= x < b && c <= x < d),
{
    let r = cl.spec_clip(a, b).spec_clip(c, d);
    if !r.spec_is_empty() {
        assert(cl.contains(r.spec_left()) && a <= r.spec_left() < b && c <= r.spec_left() < d);
    }
}

/// Owns one scanline's byte buffer for the duration of a render pass and
/// exposes masked fill operations on it.
pub struct RowRenderer {
    buffer: Vec<u8>,
    width: u32,
}

impl View for RowRenderer {
    type V = Seq<u8>;

    closed spec fn view(&self) -> Seq<u8> {
        self.buffer@
    }
}

impl RowRenderer {
    /// The row width in pixel columns.
    pub closed spec fn spec_width(&self) -> u32 {
        self.width
    }

    /// The buffer holds at least one bit per column and the width is small
    /// enough for `i32` column arithmetic.
    pub open spec fn wf(&self) -> bool {
        self@.len() * 8 >= self.spec_width() && self.spec_width() <= MAX_DIM
    }

    /// Takes ownership of `buffer` for one scanline of `width` columns.
    pub fn new(buffer: Vec<u8>, width: u32) -> (r: RowRenderer)
        requires
            buffer@.len() * 8 >= width,
            width <= MAX_DIM,
        ensures
            r@ == buffer@,
            r.spec_width() == width,
            r.wf(),
    {
        RowRenderer { buffer, width }
    }

    /// Destroys the renderer and releases the buffer.
    pub fn finish(self) -> (r: Vec<u8>)
        ensures
            r@ == self@,
    {
        self.buffer
    }

    /// Fills the columns of `clip ∩ [left, right)` with `color` and leaves
    /// every other bit of the buffer unchanged.
    pub fn fill(&mut self, clip: &ClipRow, left: i32, right: i32, color: Color)
        requires
            old(self).wf(),
            clip.bounded(old(self).spec_width() as int),
        ensures
            final(self).wf(),
            final(self).spec_width() == old(self).spec_width(),
            final(self)@.len() == old(self)@.len(),
            pixels(final(self)@) == fill_view(
                pixels(old(self)@),
                vstd::math::max(clip.spec_left(), left as int),
                vstd::math::min(clip.spec_right(), right as int),
                color is White,
            ),
    {
        let ghost orig = self.buffer@;
        let ghost glo = vstd::math::max(clip.spec_left(), left as int);
        let ghost ghi = vstd::math::min(clip.spec_right(), right as int);
        let white = match color {
            Color::White => true,
            Color::Black => false,
        };
        let line_clip = clip.clip(left, right);
        if line_clip.is_empty() {
            proof {
                lemma_fill_view_empty(pixels(orig), glo, ghi, white);
            }
            return ;
        }
        let (lo, hi) = line_clip.get();
        let lo_u = lo as usize;
        let hi_u = hi as usize;
        let left_index = lo_u / 8;
        let right_index = (hi_u - 1) / 8;
        let lo_off = (lo_u % 8) as u8;
        proof {
            assert(8 * left_index + lo_off == lo_u && 8 * right_index <= hi_u - 1 < 8
                * right_index + 8) by (nonlinear_arith)
                requires
                    left_index == lo_u / 8,
                    right_index == (hi_u - 1) / 8,
                    lo_off == lo_u % 8,
                    1 <= hi_u,
            ;
            assert(right_index < orig.len()) by (nonlinear_arith)
                requires
                    8 * right_index <= hi_u - 1,
                    hi_u <= orig.len() * 8,
                    1 <= hi_u,
            ;
            assert(left_index <= right_index) by (nonlinear_arith)
                requires
                    left_index == lo_u / 8,
                    right_index == (hi_u - 1) / 8,
                    lo_u <= hi_u - 1,
            ;
        }
        if left_index == right_index {
            let mhi = (hi_u - 8 * right_index) as u8;
            let b = self.buffer[left_index];
            self.buffer[left_index] = fill_byte(b, lo_off, mhi, white);
            proof {
                lemma_pixels_update(orig, left_index as int, lo_off, mhi, white);
            }
        } else {
            // Left partial byte.
            let b = self.buffer[left_index];
            self.buffer[left_index] = fill_byte(b, lo_off, 8, white);
            proof {
                lemma_pixels_update(orig, left_index as int, lo_off, 8, white);
            }
            // Fully covered interior bytes, each set in one write.
            let mut j = left_index + 1;
            while j < right_index
                invariant
                    left_index + 1 <= j <= right_index,
                    right_index < self.buffer@.len(),
                    self.buffer@.len() == orig.len(),
                    self.width == old(self).spec_width(),
                    lo_u as int <= 8 * j,
                    pixels(self.buffer@) == fill_view(pixels(orig), lo_u as int, 8 * j, white),
                decreases right_index - j,
            {
                let ghost pre = self.buffer@;
                let b = self.buffer[j];
                self.buffer[j] = fill_byte(b, 0, 8, white);
                proof {
                    lemma_pixels_update(pre, j as int, 0, 8, white);
                    lemma_fill_view_merge(pixels(orig), lo_u as int, 8 * j, 8 * j + 8, white);
                }
                j = j + 1;
            }
            // Right byte, partial unless the span ends on a byte boundary.
            let mhi = (hi_u - 8 * right_index) as u8;
            let ghost pre = self.buffer@;
            let b = self.buffer[right_index];
            self.buffer[right_index] = fill_byte(b, 0, mhi, white);
            proof {
                lemma_pixels_update(pre, right_index as int, 0, mhi, white);
                lemma_fill_view_merge(
                    pixels(orig),
                    lo_u as int,
                    8 * right_index,
                    8 * right_index + mhi,
                    white,
                );
            }
        }
    }

    /// Placeholder capability for verbatim bitmap blits; draws nothing.
    /// Only the signature is part of the renderer's contract so far.
    pub fn render_bitmap(&mut self, _clip: &ClipRow, _left: i32, _right: i32, _bits: &[u8])
        ensures
            *final(self) == *old(self),
    {
    }

    /// The clip covering the whole row.
    pub fn full_row(&self) -> (r: ClipRow)
        requires
            self.wf(),
        ensures
            r.spec_left() == 0,
            r.spec_right() == self.spec_width() as int,
    {
        ClipRow { left: 0, right: self.width as i32 }
    }
}

/// The bit a color packs in the pixel stream: white is 1 and black is 0,
/// the same convention the row compositor uses.
pub open spec fn color_bit(c: Color) -> bool {
    c is White
}

/// The value of a bit string read most significant bit first.
pub open spec fn pack_msb(bits: Seq<bool>) -> int
    decreases bits.len(),
{
    if bits.len() == 0 {
        0
    } else {
        2 * pack_msb(bits.drop_last()) + if bits.last() {
            1int
        } else {
            0int
        }
    }
}

/// The bytes a pixel-stream fill emits: one byte per 8 pixels of the
/// combined stream (the pending pixels followed by `width` pixels of one
/// color), the first completing the pending pixels, the rest solid.
pub open spec fn spec_fill_emitted(pending: Seq<bool>, width: int, white: bool) -> Seq<u8> {
    Seq::new(
        ((pending.len() + width) / 8) as nat,
        |i: int|
            if i == 0 {
                pack_msb(pending + Seq::new((8 - pending.len()) as nat, |j: int| white)) as u8
            } else if white {
                0xffu8
            } else {
                0u8
            },
    )
}

/// The pixels a fill leaves pending: the incomplete tail of the combined
/// stream, all of the fill's color unless no byte was completed.
pub open spec fn spec_fill_leftover(pending: Seq<bool>, width: int, white: bool) -> Seq<bool> {
    if pending.len() + width < 8 {
        pending + Seq::new(width as nat, |j: int| white)
    } else {
        Seq::new(((pending.len() + width) % 8) as nat, |j: int| white)
    }
}

proof fn lemma_shift_append_bits(oldpx: u8, newpx: u8, count: u8, w: u8, white: bool)
    by (bit_vector)
    requires
        count < 8,
        0 < w,
        w < 8,
        count + w <= 8,
        oldpx >> count == 0,
        newpx == if white {
            (oldpx << w) | (0xffu8 >> ((8 - w) as u8))
        } else {
            oldpx << w
        },
    ensures
        count + w < 8 ==> newpx >> ((count + w) as u8) == 0,
        forall|k: u8| k < w ==> bit_get(newpx, k) == white,
        forall|k: u8| w <= k && k < count + w ==> bit_get(newpx, k) == bit_get(oldpx, (k - w) as u8),
{
}

proof fn lemma_bit_shift1(px: u8)
    by (bit_vector)
    ensures
        forall|k: u8| k < 7 ==> bit_get(px >> 1u8, k) == bit_get(px, (k + 1) as u8),
        px == 2 * (px >> 1u8) + (if bit_get(px, 0) {
            1int
        } else {
            0int
        }),
{
}

proof fn lemma_px_zero(px: u8)
    by (bit_vector)
    requires
        px >> 0u8 == 0,
    ensures
        px == 0,
{
}

proof fn lemma_shift_high_zero(px: u8, n: u8)
    by (bit_vector)
    requires
        0 < n <= 8,
        n < 8 ==> px >> n == 0,
    ensures
        (px >> 1u8) >> ((n - 1) as u8) == 0,
{
}

/// The pending pixels of a packer byte pack back to the byte itself.
proof fn lemma_pack_pending(px: u8, n: u8)
    requires
        n <= 8,
        n < 8 ==> px >> n == 0,
    ensures
        pack_msb(Seq::new(n as nat, |i: int| bit_get(px, (n - 1 - i) as u8))) == px,
    decreases n,
{
    let s = Seq::new(n as nat, |i: int| bit_get(px, (n - 1 - i) as u8));
    if n == 0 {
        lemma_px_zero(px);
    } else {
        let px1 = px >> 1u8;
        lemma_shift_high_zero(px, n);
        lemma_pack_pending(px1, (n - 1) as u8);
        lemma_bit_shift1(px);
        assert(s.drop_last() =~= Seq::new(
            (n - 1) as nat,
            |i: int| bit_get(px1, (n - 2 - i) as u8),
        ));
        assert(s.last() == bit_get(px, 0));
    }
}

proof fn lemma_const_bits()
    by (bit_vector)
    ensures
        forall|k: u8| k < 8 ==> bit_get(0xffu8, k),
        forall|k: u8| k < 8 ==> !bit_get(0u8, k),
{
}

/// A solid byte is the packing of eight pixels of one color.
proof fn lemma_pack_repeat(white: bool)
    ensures
        pack_msb(Seq::new(8, |j: int| white)) == if white {
            255int
        } else {
            0int
        },
{
    let px: u8 = if white {
        0xff
    } else {
        0
    };
    lemma_pack_pending(px, 8);
    lemma_const_bits();
    assert(Seq::new(8, |j: int| white) =~= Seq::new(8nat, |i: int| bit_get(px, (8 - 1 - i) as u8)));
}

proof fn lemma_tail_bits(w: u8)
    by (bit_vector)
    requires
        0 < w,
        w < 8,
    ensures
        (0xffu8 >> ((8 - w) as u8)) >> w == 0,
        forall|k: u8| k < w ==> #[trigger] bit_get(0xffu8 >> ((8 - w) as u8), k),
{
}

/// Packs a stream of pixels into bytes for a frame sink, most
/// significant bit first: the earliest pixel of a byte lands in its
/// highest bit.
#[derive(Clone, Copy)]
pub struct BytePacking {
    current_pixels: u8,
    current_pixel_count: u8,
}

impl BytePacking {
    /// The pixels accepted but not yet emitted, earliest first.
    pub closed spec fn pending(&self) -> Seq<bool> {
        Seq::new(
            self.current_pixel_count as nat,
            |i: int| bit_get(self.current_pixels, (self.current_pixel_count - 1 - i) as u8),
        )
    }

    /// Fewer than 8 pixels are pending and the bits above them are clear.
    pub closed spec fn inv(&self) -> bool {
        self.current_pixel_count < 8 && (self.current_pixels >> self.current_pixel_count) == 0
    }

    fn new() -> (r: BytePacking)
        ensures
            r.inv(),
            r.pending() == Seq::<bool>::empty(),
    {
        let r = BytePacking { current_pixels: 0, current_pixel_count: 0 };
        proof {
            assert(0u8 >> 0u8 == 0) by (bit_vector);
            assert(r.pending() =~= Seq::<bool>::empty());
        }
        r
    }

    /// Streams `width` pixels of `color` into the packer, emitting every
    /// byte completed on the way to the display.
    fn fill<DisplayType>(&mut self, display: &mut DisplayType, width: u32, color: Color) where
        DisplayType: Display,

        requires
            old(self).inv(),
        ensures
            final(self).inv(),
            final(display).spec_width() == old(display).spec_width(),
            final(display).spec_height() == old(display).spec_height(),
            final(self).pending() == spec_fill_leftover(
                old(self).pending(),
                width as int,
                color is White,
            ),
            final(display).frame() == old(display).frame() + spec_fill_emitted(
                old(self).pending(),
                width as int,
                color is White,
            ),
    {
        let ghost pend0 = self.pending();
        let ghost white_g = color is White;
        let ghost frame0 = display.frame();
        let white = match color {
            Color::White => true,
            Color::Black => false,
        };
        if width == 0 {
            proof {
                assert(spec_fill_emitted(pend0, 0, white_g).len() == 0);
                assert(frame0 + spec_fill_emitted(pend0, 0, white_g) =~= frame0);
                assert(pend0 + Seq::new(0nat, |j: int| white_g) =~= pend0);
            }
            return ;
        }
        let ghost cnt0: u8 = self.current_pixel_count;
        let ghost oldpx: u8 = self.current_pixels;
        if width < 8 - (self.current_pixel_count as u32) {
            let w8 = width as u8;
            self.current_pixels = self.current_pixels << w8;
            if white {
                self.current_pixels = self.current_pixels | (0xffu8 >> (8 - w8));
            }
            self.current_pixel_count = self.current_pixel_count + w8;
            proof {
                assert(self.current_pixels == if white_g {
                    (oldpx << w8) | (0xffu8 >> ((8 - w8) as u8))
                } else {
                    oldpx << w8
                });
                lemma_shift_append_bits(oldpx, self.current_pixels, cnt0, w8, white_g);
                let pend1 = self.pending();
                let target = pend0 + Seq::new(width as nat, |j: int| white_g);
                assert forall|i: int| 0 <= i < pend1.len() implies pend1[i] == target[i] by {
                    if i < cnt0 {
                        assert(bit_get(self.current_pixels, (cnt0 + w8 - 1 - i) as u8) == bit_get(
                            oldpx,
                            ((cnt0 + w8 - 1 - i) - w8) as u8,
                        ));
                    } else {
                        assert(bit_get(self.current_pixels, (cnt0 + w8 - 1 - i) as u8) == white_g);
                    }
                }
                assert(pend1 =~= target);
                assert(spec_fill_emitted(pend0, width as int, white_g).len() == 0);
                assert(frame0 + spec_fill_emitted(pend0, width as int, white_g) =~= frame0);
            }
        } else {
            let ghost width0 = width as int;
            let ghost embytes = spec_fill_emitted(pend0, width0, white_g);
            let cbyte: u8 = if white {
                0xff
            } else {
                0u8
            };
            let mut width = width;
            let ghost k: int = 0;
            // Complete the first byte.
            if self.current_pixel_count != 0 {
                let remainder = 8 - self.current_pixel_count;
                self.current_pixels = self.current_pixels << remainder;
                if white {
                    self.current_pixels = self.current_pixels | (0xffu8 >> self.current_pixel_count);
                }
                proof {
                    assert(0xffu8 >> cnt0 == 0xffu8 >> ((8 - remainder) as u8));
                    lemma_shift_append_bits(oldpx, self.current_pixels, cnt0, remainder, white_g);
                    lemma_pack_pending(self.current_pixels, 8);
                    let stream8 = pend0 + Seq::new((8 - cnt0) as nat, |j: int| white_g);
                    assert forall|i: int| 0 <= i < 8 implies stream8[i] == Seq::new(
                        8nat,
                        |i2: int| bit_get(self.current_pixels, (8 - 1 - i2) as u8),
                    )[i] by {
                        if i < cnt0 {
                            assert(bit_get(self.current_pixels, (8 - 1 - i) as u8) == bit_get(
                                oldpx,
                                ((8 - 1 - i) - remainder) as u8,
                            ));
                        } else {
                            assert(bit_get(self.current_pixels, (8 - 1 - i) as u8) == white_g);
                        }
                    }
                    assert(stream8 =~= Seq::new(
                        8nat,
                        |i2: int| bit_get(self.current_pixels, (8 - 1 - i2) as u8),
                    ));
                    assert(embytes[0] == self.current_pixels);
                }
                display.put_byte(self.current_pixels);
                width = width - remainder as u32;
                proof {
                    k = 1;
                    assert(frame0.push(embytes[0]) =~= frame0 + embytes.take(1));
                }
            } else {
                proof {
                    lemma_pack_repeat(white_g);
                    assert(pend0 =~= Seq::<bool>::empty());
                    assert(pend0 + Seq::new(8nat, |j: int| white_g) =~= Seq::new(
                        8nat,
                        |j: int| white_g,
                    ));
                    assert(embytes.len() > 0 && embytes[0] == cbyte);
                    assert(frame0 + embytes.take(0) =~= frame0);
                }
            }
            // Send as many solid full bytes as possible.
            while width >= 8
                invariant
                    old(self).inv(),
                    pend0 == old(self).pending(),
                    0 <= k,
                    8 * k + width == pend0.len() + width0,
                    embytes == spec_fill_emitted(pend0, width0, white_g),
                    cbyte == if white_g {
                        0xffu8
                    } else {
                        0u8
                    },
                    white == white_g,
                    forall|i: int| 1 <= i < embytes.len() ==> embytes[i] == cbyte,
                    pend0.len() == 0 && embytes.len() > 0 ==> embytes[0] == cbyte,
                    k == 0 ==> pend0.len() == 0,
                    display.frame() == frame0 + embytes.take(k),
                    display.spec_width() == old(display).spec_width(),
                    display.spec_height() == old(display).spec_height(),
                    frame0 == old(display).frame(),
                decreases width,
            {
                proof {
                    assert(k < embytes.len());
                    assert(embytes[k] == cbyte);
                }
                display.put_byte(cbyte);
                proof {
                    assert((frame0 + embytes.take(k)).push(embytes[k]) =~= frame0 + embytes.take(
                        k + 1,
                    ));
                    k = k + 1;
                }
                width = width - 8;
            }
            // Keep the last partial byte pending.
            if white {
                if width == 0 {
                    self.current_pixels = 0;
                } else {
                    self.current_pixels = 0xff >> (8 - width as u8);
                }
            } else {
                self.current_pixels = 0;
            }
            self.current_pixel_count = width as u8;
            proof {
                assert(k == embytes.len());
                assert(embytes.take(k) =~= embytes);
                let pend1 = self.pending();
                let target = Seq::new(((pend0.len() + width0) % 8) as nat, |j: int| white_g);
                if white_g && width > 0 {
                    lemma_tail_bits(width as u8);
                } else {
                    assert(0u8 >> (width as u8) == 0) by (bit_vector)
                        requires
                            width < 8,
                    ;
                    lemma_const_bits();
                }
                assert forall|i: int| 0 <= i < pend1.len() implies pend1[i] == white_g by {
                    assert(bit_get(
                        self.current_pixels,
                        (self.current_pixel_count - 1 - i) as u8,
                    ) == white_g);
                }
                assert(pend1 =~= target);
            }
        }
    }

    /// Appends one pixel; when it completes a byte, the byte goes out to
    /// the display at once. White packs as 1 and black as 0, matching
    /// the row compositor's convention.
    fn pixel<DisplayType>(&mut self, display: &mut DisplayType, color: Color) where
        DisplayType: Display,

        requires
            old(self).inv(),
        ensures
            final(self).inv(),
            final(display).spec_width() == old(display).spec_width(),
            final(display).spec_height() == old(display).spec_height(),
            ({
                let stream = old(self).pending().push(color_bit(color));
                if stream.len() == 8 {
                    final(self).pending() == Seq::<bool>::empty() && final(display).frame() == old(
                        display,
                    ).frame().push(pack_msb(stream) as u8)
                } else {
                    final(self).pending() == stream && final(display).frame() == old(
                        display,
                    ).frame()
                }
            }),
    {
        let ghost pend0 = self.pending();
        let ghost cnt0: u8 = self.current_pixel_count;
        let ghost oldpx: u8 = self.current_pixels;
        let ghost white_g = color is White;
        let bit: u8 = match color {
            Color::White => 1,
            Color::Black => 0,
        };
        self.current_pixels = (self.current_pixels << 1) | bit;
        self.current_pixel_count = self.current_pixel_count + 1;
        proof {
            assert((oldpx << 1u8) | 0u8 == oldpx << 1u8) by (bit_vector);
            assert(0xffu8 >> ((8 - 1) as u8) == 1u8) by (bit_vector);
            assert(self.current_pixels == if white_g {
                (oldpx << 1u8) | (0xffu8 >> ((8 - 1) as u8))
            } else {
                oldpx << 1u8
            });
            lemma_shift_append_bits(oldpx, self.current_pixels, cnt0, 1, white_g);
            let pend1 = self.pending();
            let target = pend0.push(white_g);
            assert forall|i: int| 0 <= i < pend1.len() implies pend1[i] == target[i] by {
                if i < cnt0 {
                    assert(bit_get(self.current_pixels, (cnt0 + 1 - 1 - i) as u8) == bit_get(
                        oldpx,
                        ((cnt0 + 1 - 1 - i) - 1) as u8,
                    ));
                } else {
                    assert(bit_get(self.current_pixels, (cnt0 + 1 - 1 - i) as u8) == white_g);
                }
            }
            assert(pend1 =~= target);
        }
        if self.current_pixel_count == 8 {
            proof {
                lemma_pack_pending(self.current_pixels, 8);
                assert(self.pending() =~= Seq::new(
                    8nat,
                    |i: int| bit_get(self.current_pixels, (8 - 1 - i) as u8),
                ));
            }
            display.put_byte(self.current_pixels);
            self.current_pixels = 0;
            self.current_pixel_count = 0;
            proof {
                assert(0u8 >> 0u8 == 0) by (bit_vector);
                assert(self.pending() =~= Seq::<bool>::empty());
            }
        }
    }
}

/// An in-memory frame sink for tests: a 320 by 240 panel that records
/// every byte it receives.
pub struct TestDisplay {
    pub frame: Vec<u8>,
    pub partial: Vec<u8>,
    pub byte_packing: BytePacking,
}

impl TestDisplay {
    /// The state of the per-pixel byte packer.
    pub closed spec fn packing(&self) -> BytePacking {
        self.byte_packing
    }

    pub fn new() -> (r: TestDisplay)
        ensures
            r.frame@ == Seq::<u8>::empty(),
            r.partial@ == Seq::<u8>::empty(),
            r.packing().inv(),
            r.packing().pending() == Seq::<bool>::empty(),
    {
        TestDisplay { frame: Vec::new(), partial: Vec::new(), byte_packing: BytePacking::new() }
    }

    /// Streams `width` pixels of one color through the byte packer into
    /// the recorded frame.
    pub fn fill(&mut self, width: u32, color: Color)
        requires
            old(self).packing().inv(),
        ensures
            final(self).packing().inv(),
            final(self).packing().pending() == spec_fill_leftover(
                old(self).packing().pending(),
                width as int,
                color is White,
            ),
            final(self).frame@ == old(self).frame@ + spec_fill_emitted(
                old(self).packing().pending(),
                width as int,
                color is White,
            ),
    {
        let mut bp = self.byte_packing;
        bp.fill(self, width, color);
        self.byte_packing = bp;
    }

    /// Streams one pixel through the byte packer into the recorded
    /// frame.
    pub fn pixel(&mut self, color: Color)
        requires
            old(self).packing().inv(),
        ensures
            final(self).packing().inv(),
            ({
                let stream = old(self).packing().pending().push(color_bit(color));
                if stream.len() == 8 {
                    final(self).packing().pending() == Seq::<bool>::empty() && final(self).frame@
                        == old(self).frame@.push(pack_msb(stream) as u8)
                } else {
                    final(self).packing().pending() == stream && final(self).frame@ == old(
                        self,
                    ).frame@
                }
            }),
    {
        let mut bp = self.byte_packing;
        bp.pixel(self, color);
        self.byte_packing = bp;
    }
}

impl Display for TestDisplay {
    open spec fn frame(&self) -> Seq<u8> {
        self.frame@
    }

    open spec fn spec_width(&self) -> u32 {
        320
    }

    open spec fn spec_height(&self) -> u32 {
        240
    }

    open spec fn end_frame_ready(&self) -> bool {
        self.frame@.len() == 320 * 240 / 8
    }

    fn width(&self) -> u32 {
        320
    }

    fn height(&self) -> u32 {
        240
    }

    fn start_frame(&mut self) -> Result<(), NotReady> {
        self.frame = Vec::new();
        Ok(())
    }

    fn end_frame(&mut self) {
        // The recorded frame is complete; nothing to transmit.
    }

    fn put_byte(&mut self, byte: u8) {
        self.frame.push(byte);
    }

    fn draw_row(&mut self, row: &[u8]) {
        let ghost pre = self.frame@;
        let mut i: usize = 0;
        proof {
            assert(pre + row@.take(0) =~= pre);
        }
        while i < 40
            invariant
                i <= 40,
                row@.len() >= 40,
                self.byte_packing == old(self).byte_packing,
                self.frame@ == pre + row@.take(i as int),
                pre == old(self).frame@,
            decreases 40 - i,
        {
            self.frame.push(row[i]);
            proof {
                assert(pre + row@.take(i + 1) =~= (pre + row@.take(i as int)).push(
                    row@[i as int],
                ));
            }
            i = i + 1;
        }
    }
}

impl PartialRefresh for TestDisplay {
    open spec fn partial_frame(&self) -> Seq<u8> {
        self.partial@
    }

    fn start_partial(&mut self, left: u32, top: u32, right: u32, bottom: u32) -> Result<
        (),
        NotReady,
    > {
        self.partial = Vec::new();
        Ok(())
    }

    fn end_partial(&mut self) {
    }

    fn draw_partial_row(&mut self, row: &[u8]) {
        let ghost pre = self.partial@;
        let mut i: usize = 0;
        proof {
            assert(pre + row@.take(0) =~= pre);
        }
        while i < row.len()
            invariant
                i <= row@.len(),
                self.partial@ == pre + row@.take(i as int),
                pre == old(self).partial@,
            decreases row@.len() - i,
        {
            self.partial.push(row[i]);
            proof {
                assert(pre + row@.take(i + 1) =~= (pre + row@.take(i as int)).push(
                    row@[i as int],
                ));
            }
            i = i + 1;
        }
        proof {
            assert(row@.take(row@.len() as int) =~= row@);
        }
    }
}

} // verus!
