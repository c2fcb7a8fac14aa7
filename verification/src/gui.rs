//! Declarative GUI element tree rendered row by row into the compositor.
//!
//! Composite nodes own their children by value; the tree is resized once
//! against the panel dimensions and then rendered one scanline at a time.

use vstd::prelude::*;

pub mod font;
pub mod image;
pub mod rle;

use crate::bits::{fill_view, lemma_pixels_all_white, pixels};
use crate::{coord_ok, ClipRow, Color, Display, PartialRefresh, RowRenderer, MAX_DIM};

verus! {

/// Integer division by two that truncates toward zero, as the executable
/// `i32` division does.
pub open spec fn div2_trunc(a: int) -> int {
    if a >= 0 {
        a / 2
    } else {
        -((-a) / 2)
    }
}

/// The capability shared by every element of the tree: negotiate a size,
/// report the smallest usable size, and render one scanline into a clip
/// window.
pub trait GUIElement: Sized {
    /// Structural well-formedness: all sizes bounded by `MAX_DIM` and all
    /// children well-formed.
    spec fn wf(&self) -> bool;

    /// True once every internal split offset fits the negotiated size, so
    /// that rendering cannot underflow; established by `resize`.
    spec fn renderable(&self) -> bool;

    /// Nesting height of the subtree; bounds how far render coordinates
    /// are translated below this node.
    spec fn levels(&self) -> nat;

    /// The smallest `(width, height)` the node can render without
    /// semantic loss.
    spec fn min_size_spec(&self) -> (int, int);

    /// The last negotiated `(width, height)`.
    spec fn size_spec(&self) -> (int, int);

    /// How `resize(width, height)` relates the new state to the old one;
    /// each element kind defines its exact resizing behavior here.
    spec fn resized(&self, pre: Self, width: u32, height: u32) -> bool;

    /// How `render_row` relates the new pixel row to the old one; each
    /// element kind defines its exact drawing behavior here.
    spec fn row_rendered(
        &self,
        v0: Seq<bool>,
        v1: Seq<bool>,
        cl_lo: int,
        cl_hi: int,
        y: int,
        offset: int,
    ) -> bool;

    /// Well-formed elements have sizes within `[0, MAX_DIM]`.
    proof fn wf_bounds(&self)
        requires
            self.wf(),
        ensures
            0 <= self.min_size_spec().0 <= MAX_DIM,
            0 <= self.min_size_spec().1 <= MAX_DIM,
            0 <= self.size_spec().0 <= MAX_DIM,
            0 <= self.size_spec().1 <= MAX_DIM,
    ;

    /// Rendering a row never grows the row and alters only columns
    /// inside the clip window.
    proof fn row_confined(
        &self,
        v0: Seq<bool>,
        v1: Seq<bool>,
        cl_lo: int,
        cl_hi: int,
        y: int,
        offset: int,
    )
        requires
            self.row_rendered(v0, v1, cl_lo, cl_hi, y, offset),
        ensures
            v1.len() == v0.len(),
            forall|c: int| 0 <= c < v0.len() && !(cl_lo <= c < cl_hi) ==> v1[c] == v0[c],
    ;

    /// Propagates a size budget down the tree. The minimum size is fixed
    /// data and never changes; in particular, whenever the budget covers
    /// the minimum size, the minimum size after the call still fits the
    /// budget, and so does the negotiated size.
    fn resize(&mut self, width: u32, height: u32)
        requires
            old(self).wf(),
            width <= MAX_DIM,
            height <= MAX_DIM,
        ensures
            final(self).wf(),
            final(self).renderable(),
            final(self).levels() == old(self).levels(),
            final(self).min_size_spec() == old(self).min_size_spec(),
            final(self).resized(*old(self), width, height),
            old(self).min_size_spec().0 <= width && old(self).min_size_spec().1 <= height ==> {
                &&& final(self).min_size_spec().0 <= width
                &&& final(self).min_size_spec().1 <= height
                &&& final(self).min_size_spec().0 <= final(self).size_spec().0 <= width
                &&& final(self).min_size_spec().1 <= final(self).size_spec().1 <= height
            },
    ;

    /// Reports the smallest size the node can render.
    fn min_size(&self) -> (r: (u32, u32))
        requires
            self.wf(),
        ensures
            r.0 as int == self.min_size_spec().0,
            r.1 as int == self.min_size_spec().1,
    ;

    /// Reports the last negotiated size.
    fn size(&self) -> (r: (u32, u32))
        requires
            self.wf(),
        ensures
            r.0 as int == self.size_spec().0,
            r.1 as int == self.size_spec().1,
    ;

    /// Draws scanline `y` of the element into the clip window, shifted
    /// right by `offset` columns.
    fn render_row(&self, row: &mut RowRenderer, clip: &ClipRow, y: i32, offset: i32)
        requires
            self.wf(),
            self.renderable(),
            old(row).wf(),
            clip.bounded(old(row).spec_width() as int),
            coord_ok(y as int, self.levels() as int),
            coord_ok(offset as int, self.levels() as int),
        ensures
            final(row).wf(),
            final(row).spec_width() == old(row).spec_width(),
            final(row)@.len() == old(row)@.len(),
            self.row_rendered(
                pixels(old(row)@),
                pixels(final(row)@),
                clip.spec_left(),
                clip.spec_right(),
                y as int,
                offset as int,
            ),
    ;
}

/// Owns the element tree, resizes it once against the panel's pixel
/// dimensions, and drives full or partial render passes against a frame
/// sink, one scanline at a time.
pub struct Layout<Root> where Root: GUIElement {
    pub root: Root,
    pub width: u32,
    pub height: u32,
}

impl<Root> Layout<Root> where Root: GUIElement {
    pub open spec fn wf(&self) -> bool {
        &&& self.root.wf()
        &&& self.root.renderable()
        &&& self.width <= MAX_DIM
        &&& self.height <= MAX_DIM
    }

    /// Takes the tree and resizes it once against the given dimensions.
    pub fn new(width: u32, height: u32, root: Root) -> (r: Layout<Root>)
        requires
            root.wf(),
            width <= MAX_DIM,
            height <= MAX_DIM,
        ensures
            r.wf(),
            r.width == width,
            r.height == height,
            r.root.resized(root, width, height),
    {
        let mut root = root;
        root.resize(width, height);
        Layout { root, width, height }
    }

    /// One finished output row: the first `width / 8` bytes of a full
    /// scanline buffer of `buf_len` bytes that the tree rendered for
    /// scanline `k` on an all-white background, under the full-row clip.
    pub open spec fn spec_row_output(&self, out: Seq<u8>, buf_len: int, k: int) -> bool {
        exists|full: Seq<u8>|
            {
                &&& full.len() == buf_len
                &&& out == full.take((self.width / 8) as int)
                &&& self.root.row_rendered(
                    Seq::new((buf_len * 8) as nat, |c: int| true),
                    #[trigger] pixels(full),
                    0,
                    self.width as int,
                    k,
                    0,
                )
            }
    }

    /// Runs one full-frame render pass: every scanline top to bottom is
    /// drawn on a white background into the row buffer and fed to the
    /// frame sink, which receives exactly `height` rows of `width / 8`
    /// bytes each after whatever it already held, the row for scanline
    /// `k` being what the tree renders for `k`.
    pub fn render<DisplayType: Display>(&self, display: &mut DisplayType, row_buffer: Vec<u8>) -> (r:
        Vec<u8>)
        requires
            self.wf(),
            row_buffer@.len() * 8 >= self.width,
            old(display).spec_width() == self.width,
            coord_ok(MAX_DIM as int, self.root.levels() as int),
        ensures
            r@.len() == row_buffer@.len(),
            final(display).spec_width() == old(display).spec_width(),
            final(display).spec_height() == old(display).spec_height(),
            final(display).frame().len() == old(display).frame().len() + self.height * (
            self.width / 8),
            final(display).frame().take(old(display).frame().len() as int) == old(
                display,
            ).frame(),
            exists|rows: Seq<Seq<u8>>|
                {
                    &&& rows.len() == self.height
                    &&& final(display).frame() == old(display).frame() + #[trigger] rows.flatten()
                    &&& forall|k: int|
                        0 <= k < rows.len() ==> (#[trigger] rows[k]).len() == self.width / 8
                    &&& forall|k: int|
                        0 <= k < rows.len() ==> self.spec_row_output(
                            #[trigger] rows[k],
                            row_buffer@.len() as int,
                            k,
                        )
                },
    {
        let ghost frame0 = display.frame();
        let ghost mut rows: Seq<Seq<u8>> = Seq::empty();
        proof {
            assert(display.frame().take(frame0.len() as int) =~= frame0);
            assert(frame0 + rows.flatten() =~= frame0);
        }
        let mut buffer = row_buffer;
        let mut i: u32 = 0;
        while i < self.height
            invariant
                i <= self.height,
                self.wf(),
                buffer@.len() == row_buffer@.len(),
                buffer@.len() * 8 >= self.width,
                display.spec_width() == self.width,
                display.spec_height() == old(display).spec_height(),
                coord_ok(MAX_DIM as int, self.root.levels() as int),
                frame0 == old(display).frame(),
                rows.len() == i,
                display.frame() == frame0 + rows.flatten(),
                forall|k: int| 0 <= k < rows.len() ==> (#[trigger] rows[k]).len() == self.width / 8,
                forall|k: int|
                    0 <= k < rows.len() ==> self.spec_row_output(
                        #[trigger] rows[k],
                        row_buffer@.len() as int,
                        k,
                    ),
                display.frame().len() == frame0.len() + i * (self.width as int / 8),
                display.frame().take(frame0.len() as int) == frame0,
            decreases self.height - i,
        {
            // White background for the whole scanline.
            let mut j: usize = 0;
            while j < buffer.len()
                invariant
                    j <= buffer@.len(),
                    buffer@.len() == row_buffer@.len(),
                    forall|idx: int| 0 <= idx < j ==> buffer@[idx] == 0xff,
                decreases buffer@.len() - j,
            {
                buffer[j] = 0xff;
                j = j + 1;
            }
            proof {
                lemma_pixels_all_white(buffer@);
            }
            let mut renderer = RowRenderer::new(buffer, self.width);
            let clip = renderer.full_row();
            let ghost bg = pixels(renderer@);
            self.root.render_row(&mut renderer, &clip, i as i32, 0);
            buffer = renderer.finish();
            let ghost pre_frame = display.frame();
            display.draw_row(buffer.as_slice());
            proof {
                assert(self.width as int / 8 <= buffer@.len()) by (nonlinear_arith)
                    requires
                        buffer@.len() * 8 >= self.width as int,
                        0 <= self.width as int,
                ;
                assert((i + 1) * (self.width as int / 8) == i * (self.width as int / 8) + (
                self.width as int / 8)) by (nonlinear_arith);
                assert(display.frame().take(frame0.len() as int) =~= pre_frame.take(
                    frame0.len() as int,
                ));
                let out = buffer@.take((self.width / 8) as int);
                assert(self.root.row_rendered(
                    Seq::new((row_buffer@.len() * 8) as nat, |c: int| true),
                    pixels(buffer@),
                    0,
                    self.width as int,
                    i as int,
                    0,
                ));
                assert(self.spec_row_output(out, row_buffer@.len() as int, i as int));
                rows.lemma_flatten_push(out);
                rows = rows.push(out);
                assert(display.frame() =~= frame0 + rows.flatten());
            }
            i = i + 1;
        }
        buffer
    }

    /// One finished partial row: a full scanline buffer that the tree
    /// rendered for scanline `k` on an all-white background, under the
    /// full row clipped to the window `[left, right)`.
    pub open spec fn spec_partial_row_output(
        &self,
        out: Seq<u8>,
        width: int,
        left: int,
        right: int,
        k: int,
    ) -> bool {
        self.root.row_rendered(
            Seq::new((out.len() * 8) as nat, |c: int| true),
            pixels(out),
            vstd::math::max(0, left),
            vstd::math::min(width, right),
            k,
            0,
        )
    }

    /// Runs one partial render pass over the scanline range
    /// `[top, bottom)` and the column window `[left, right)`, feeding
    /// each finished row to the partial-refresh sink: one whole buffer
    /// row per scanline of the range, drawn only inside the window.
    pub fn render_partial<DisplayType: Display + PartialRefresh>(
        &self,
        display: &mut DisplayType,
        left: u32,
        top: u32,
        right: u32,
        bottom: u32,
        row_buffer: Vec<u8>,
    ) -> (r: Vec<u8>)
        requires
            self.wf(),
            row_buffer@.len() * 8 >= old(display).spec_width(),
            old(display).spec_width() <= MAX_DIM,
            top <= bottom <= MAX_DIM,
            left <= MAX_DIM,
            right <= MAX_DIM,
            coord_ok(MAX_DIM as int, self.root.levels() as int),
        ensures
            r@.len() == row_buffer@.len(),
            final(display).partial_frame().len() == old(display).partial_frame().len() + (
            bottom - top) * row_buffer@.len(),
            final(display).partial_frame().take(old(display).partial_frame().len() as int) == old(
                display,
            ).partial_frame(),
            exists|rows: Seq<Seq<u8>>|
                {
                    &&& rows.len() == bottom - top
                    &&& final(display).partial_frame() == old(display).partial_frame()
                        + #[trigger] rows.flatten()
                    &&& forall|k: int|
                        0 <= k < rows.len() ==> (#[trigger] rows[k]).len() == row_buffer@.len()
                    &&& forall|k: int|
                        0 <= k < rows.len() ==> self.spec_partial_row_output(
                            #[trigger] rows[k],
                            old(display).spec_width() as int,
                            left as int,
                            right as int,
                            top + k,
                        )
                },
    {
        let width = display.width();
        let ghost frame0 = display.partial_frame();
        let ghost mut rows: Seq<Seq<u8>> = Seq::empty();
        proof {
            assert(display.partial_frame().take(frame0.len() as int) =~= frame0);
            assert(frame0 + rows.flatten() =~= frame0);
        }
        let mut buffer = row_buffer;
        let mut i = top;
        while i < bottom
            invariant
                top <= i <= bottom,
                bottom <= MAX_DIM,
                left <= MAX_DIM,
                right <= MAX_DIM,
                self.wf(),
                buffer@.len() == row_buffer@.len(),
                buffer@.len() * 8 >= width,
                width <= MAX_DIM,
                width == old(display).spec_width(),
                coord_ok(MAX_DIM as int, self.root.levels() as int),
                frame0 == old(display).partial_frame(),
                rows.len() == i - top,
                display.partial_frame() == frame0 + rows.flatten(),
                forall|k: int|
                    0 <= k < rows.len() ==> (#[trigger] rows[k]).len() == row_buffer@.len(),
                forall|k: int|
                    0 <= k < rows.len() ==> self.spec_partial_row_output(
                        #[trigger] rows[k],
                        width as int,
                        left as int,
                        right as int,
                        top + k,
                    ),
                display.partial_frame().len() == frame0.len() + (i - top) * row_buffer@.len(),
                display.partial_frame().take(frame0.len() as int) == frame0,
            decreases bottom - i,
        {
            // White background for the whole scanline.
            let mut j: usize = 0;
            while j < buffer.len()
                invariant
                    j <= buffer@.len(),
                    buffer@.len() == row_buffer@.len(),
                    forall|idx: int| 0 <= idx < j ==> buffer@[idx] == 0xff,
                decreases buffer@.len() - j,
            {
                buffer[j] = 0xff;
                j = j + 1;
            }
            proof {
                lemma_pixels_all_white(buffer@);
            }
            let mut renderer = RowRenderer::new(buffer, width);
            let clip = renderer.full_row().clip(left as i32, right as i32);
            self.root.render_row(&mut renderer, &clip, i as i32, 0);
            buffer = renderer.finish();
            let ghost pre_frame = display.partial_frame();
            display.draw_partial_row(buffer.as_slice());
            proof {
                assert((i + 1 - top) * row_buffer@.len() == (i - top) * row_buffer@.len()
                    + row_buffer@.len()) by (nonlinear_arith);
                assert(display.partial_frame().take(frame0.len() as int) =~= pre_frame.take(
                    frame0.len() as int,
                ));
                assert(self.spec_partial_row_output(
                    buffer@,
                    width as int,
                    left as int,
                    right as int,
                    i as int,
                ));
                rows.lemma_flatten_push(buffer@);
                rows = rows.push(buffer@);
                assert(display.partial_frame() =~= frame0 + rows.flatten());
            }
            i = i + 1;
        }
        buffer
    }
}

/// Which side of a horizontal split absorbs extra width; the payload is
/// the fixed width of the anchored other side.
pub enum HorizontalSplitMode {
    ExpandLeft(u32),
    ExpandRight(u32),
}

/// Two children side by side: one anchored at a fixed width, the other
/// absorbing the remaining columns.
pub struct HorizontalSplit<Left, Right> where Left: GUIElement, Right: GUIElement {
    pub mode: HorizontalSplitMode,
    pub left: Left,
    pub right: Right,
    pub width: u32,
    pub height: u32,
}

impl<Left, Right> HorizontalSplit<Left, Right> where Left: GUIElement, Right: GUIElement {
    /// The column where the split line stands, from the left edge.
    pub open spec fn spec_split_at(&self) -> int {
        match self.mode {
            HorizontalSplitMode::ExpandLeft(s) => self.size_spec().0 - s,
            HorizontalSplitMode::ExpandRight(s) => s as int,
        }
    }

    /// The left child expands; the right child keeps `split_at` columns.
    pub fn expand_left(split_at: u32, left: Left, right: Right) -> (r: HorizontalSplit<
        Left,
        Right,
    >)
        requires
            left.wf(),
            right.wf(),
            left.min_size_spec().0 + split_at <= MAX_DIM,
            split_at <= MAX_DIM,
        ensures
            r.wf(),
            r.mode == HorizontalSplitMode::ExpandLeft(split_at),
            r.left == left,
            r.right == right,
            r.size_spec() == (0int, 0int),
    {
        HorizontalSplit {
            mode: HorizontalSplitMode::ExpandLeft(split_at),
            left,
            right,
            width: 0,
            height: 0,
        }
    }

    /// The right child expands; the left child keeps `split_at` columns.
    pub fn expand_right(split_at: u32, left: Left, right: Right) -> (r: HorizontalSplit<
        Left,
        Right,
    >)
        requires
            left.wf(),
            right.wf(),
            split_at + right.min_size_spec().0 <= MAX_DIM,
            split_at <= MAX_DIM,
        ensures
            r.wf(),
            r.mode == HorizontalSplitMode::ExpandRight(split_at),
            r.left == left,
            r.right == right,
            r.size_spec() == (0int, 0int),
    {
        HorizontalSplit {
            mode: HorizontalSplitMode::ExpandRight(split_at),
            left,
            right,
            width: 0,
            height: 0,
        }
    }
}

impl<Left, Right> GUIElement for HorizontalSplit<Left, Right> where
    Left: GUIElement,
    Right: GUIElement,
 {
    open spec fn wf(&self) -> bool {
        &&& self.left.wf()
        &&& self.right.wf()
        &&& self.min_size_spec().0 <= MAX_DIM
        &&& self.width <= MAX_DIM
        &&& self.height <= MAX_DIM
    }

    open spec fn renderable(&self) -> bool {
        &&& self.left.renderable()
        &&& self.right.renderable()
        &&& 0 <= self.spec_split_at() <= self.size_spec().0
    }

    open spec fn levels(&self) -> nat {
        1 + if self.left.levels() >= self.right.levels() {
            self.left.levels()
        } else {
            self.right.levels()
        }
    }

    open spec fn min_size_spec(&self) -> (int, int) {
        (
            match self.mode {
                HorizontalSplitMode::ExpandLeft(s) => self.left.min_size_spec().0 + s,
                HorizontalSplitMode::ExpandRight(s) => s + self.right.min_size_spec().0,
            },
            vstd::math::max(self.left.min_size_spec().1, self.right.min_size_spec().1),
        )
    }

    open spec fn size_spec(&self) -> (int, int) {
        (self.width as int, self.height as int)
    }

    open spec fn resized(&self, pre: Self, width: u32, height: u32) -> bool {
        let w = vstd::math::max(width as int, pre.min_size_spec().0);
        &&& self.mode == pre.mode
        &&& self.width == w
        &&& self.height == height
        &&& match self.mode {
            HorizontalSplitMode::ExpandLeft(s) => self.left.resized(
                pre.left,
                (w - s) as u32,
                height,
            ) && self.right.resized(pre.right, s, height),
            HorizontalSplitMode::ExpandRight(s) => self.left.resized(pre.left, s, height)
                && self.right.resized(pre.right, (w - s) as u32, height),
        }
    }

    open spec fn row_rendered(
        &self,
        v0: Seq<bool>,
        v1: Seq<bool>,
        cl_lo: int,
        cl_hi: int,
        y: int,
        offset: int,
    ) -> bool {
        let w = self.size_spec().0;
        let s = self.spec_split_at();
        let lo = vstd::math::max(cl_lo, offset);
        let hi = vstd::math::min(cl_hi, offset + w);
        let llo = vstd::math::max(lo, offset);
        let lhi = vstd::math::min(hi, offset + s);
        let rlo = vstd::math::max(lo, offset + s);
        let rhi = vstd::math::min(hi, offset + w);
        if llo < lhi && rlo < rhi {
            exists|mid: Seq<bool>|
                self.left.row_rendered(v0, mid, llo, lhi, y, offset) && self.right.row_rendered(
                    mid,
                    v1,
                    rlo,
                    rhi,
                    y,
                    offset + s,
                )
        } else if llo < lhi {
            self.left.row_rendered(v0, v1, llo, lhi, y, offset)
        } else if rlo < rhi {
            self.right.row_rendered(v0, v1, rlo, rhi, y, offset + s)
        } else {
            v1 == v0
        }
    }

    proof fn wf_bounds(&self) {
        self.left.wf_bounds();
        self.right.wf_bounds();
    }

    proof fn row_confined(
        &self,
        v0: Seq<bool>,
        v1: Seq<bool>,
        cl_lo: int,
        cl_hi: int,
        y: int,
        offset: int,
    ) {
        let w = self.size_spec().0;
        let s = self.spec_split_at();
        let lo = vstd::math::max(cl_lo, offset);
        let hi = vstd::math::min(cl_hi, offset + w);
        let llo = vstd::math::max(lo, offset);
        let lhi = vstd::math::min(hi, offset + s);
        let rlo = vstd::math::max(lo, offset + s);
        let rhi = vstd::math::min(hi, offset + w);
        if llo < lhi && rlo < rhi {
            let mid = choose|mid: Seq<bool>|
                self.left.row_rendered(v0, mid, llo, lhi, y, offset)
                    && self.right.row_rendered(mid, v1, rlo, rhi, y, offset + s);
            self.left.row_confined(v0, mid, llo, lhi, y, offset);
            self.right.row_confined(mid, v1, rlo, rhi, y, offset + s);
        } else if llo < lhi {
            self.left.row_confined(v0, v1, llo, lhi, y, offset);
        } else if rlo < rhi {
            self.right.row_confined(v0, v1, rlo, rhi, y, offset + s);
        }
    }

    fn resize(&mut self, width: u32, height: u32) {
        proof {
            self.left.wf_bounds();
            self.right.wf_bounds();
        }
        let min = self.min_size();
        self.width = if width > min.0 {
            width
        } else {
            min.0
        };
        self.height = height;
        let (left_width, right_width) = match self.mode {
            HorizontalSplitMode::ExpandLeft(split_at) => (self.width - split_at, split_at),
            HorizontalSplitMode::ExpandRight(split_at) => (split_at, self.width - split_at),
        };
        self.left.resize(left_width, height);
        self.right.resize(right_width, height);
        proof {
            self.left.wf_bounds();
            self.right.wf_bounds();
        }
    }

    fn min_size(&self) -> (r: (u32, u32)) {
        proof {
            self.left.wf_bounds();
            self.right.wf_bounds();
        }
        let lm = self.left.min_size();
        let rm = self.right.min_size();
        let w = match self.mode {
            HorizontalSplitMode::ExpandLeft(split_at) => lm.0 + split_at,
            HorizontalSplitMode::ExpandRight(split_at) => split_at + rm.0,
        };
        let h = if lm.1 > rm.1 {
            lm.1
        } else {
            rm.1
        };
        (w, h)
    }

    fn size(&self) -> (r: (u32, u32)) {
        (self.width, self.height)
    }

    fn render_row(&self, row: &mut RowRenderer, clip: &ClipRow, y: i32, offset: i32) {
        proof {
            self.left.wf_bounds();
            self.right.wf_bounds();
        }
        let ghost v0 = pixels(old(row)@);
        let ghost cl_lo = clip.spec_left();
        let ghost cl_hi = clip.spec_right();
        let window = clip.clip(offset, offset + self.width as i32);
        let split_at = match self.mode {
            HorizontalSplitMode::ExpandLeft(split_at) => self.width - split_at,
            HorizontalSplitMode::ExpandRight(split_at) => split_at,
        } as i32;
        let clip_left = window.clip(offset, offset + split_at);
        if !clip_left.is_empty() {
            self.left.render_row(row, &clip_left, y, offset);
        }
        let ghost mid = pixels(row@);
        let clip_right = window.clip(offset + split_at, offset + self.width as i32);
        if !clip_right.is_empty() {
            self.right.render_row(row, &clip_right, y, offset + split_at);
        }
        proof {
            let v1 = pixels(row@);
            let w = self.size_spec().0;
            let s = self.spec_split_at();
            let lo = vstd::math::max(cl_lo, offset as int);
            let hi = vstd::math::min(cl_hi, offset + w);
            let llo = vstd::math::max(lo, offset as int);
            let lhi = vstd::math::min(hi, offset + s);
            let rlo = vstd::math::max(lo, offset + s);
            let rhi = vstd::math::min(hi, offset + w);
            assert(clip_left.spec_left() == llo && clip_left.spec_right() == lhi);
            assert(clip_right.spec_left() == rlo && clip_right.spec_right() == rhi);
            if llo < lhi && rlo < rhi {
                assert(self.left.row_rendered(v0, mid, llo, lhi, y as int, offset as int)
                    && self.right.row_rendered(mid, v1, rlo, rhi, y as int, offset + s));
            } else if llo < lhi {
                assert(v1 == mid);
                assert(self.left.row_rendered(v0, v1, llo, lhi, y as int, offset as int));
            } else if rlo < rhi {
                assert(mid == v0);
                assert(self.right.row_rendered(v0, v1, rlo, rhi, y as int, offset + s));
            } else {
                assert(v1 == v0);
            }
            assert(self.row_rendered(v0, v1, cl_lo, cl_hi, y as int, offset as int));
        }
    }
}

/// Which side of a vertical split absorbs extra height; the payload is
/// the fixed height of the anchored other side.
pub enum VerticalSplitMode {
    ExpandTop(u32),
    ExpandBottom(u32),
}

/// Two children stacked: one anchored at a fixed height, the other
/// absorbing the remaining rows.
pub struct VerticalSplit<Top, Bottom> where Top: GUIElement, Bottom: GUIElement {
    pub mode: VerticalSplitMode,
    pub top: Top,
    pub bottom: Bottom,
    pub width: u32,
    pub height: u32,
}

impl<Top, Bottom> VerticalSplit<Top, Bottom> where Top: GUIElement, Bottom: GUIElement {
    /// The row where the split line stands, from the top edge.
    pub open spec fn spec_split_at(&self) -> int {
        match self.mode {
            VerticalSplitMode::ExpandTop(s) => self.size_spec().1 - s,
            VerticalSplitMode::ExpandBottom(s) => s as int,
        }
    }

    /// The top child expands; the bottom child keeps `split_at` rows.
    pub fn expand_top(split_at: u32, top: Top, bottom: Bottom) -> (r: VerticalSplit<Top, Bottom>)
        requires
            top.wf(),
            bottom.wf(),
            top.min_size_spec().1 + split_at <= MAX_DIM,
            split_at <= MAX_DIM,
        ensures
            r.wf(),
            r.mode == VerticalSplitMode::ExpandTop(split_at),
            r.top == top,
            r.bottom == bottom,
            r.size_spec() == (0int, 0int),
    {
        VerticalSplit { mode: VerticalSplitMode::ExpandTop(split_at), top, bottom, width: 0, height: 0 }
    }

    /// The bottom child expands; the top child keeps `split_at` rows.
    pub fn expand_bottom(split_at: u32, top: Top, bottom: Bottom) -> (r: VerticalSplit<
        Top,
        Bottom,
    >)
        requires
            top.wf(),
            bottom.wf(),
            split_at + bottom.min_size_spec().1 <= MAX_DIM,
            split_at <= MAX_DIM,
        ensures
            r.wf(),
            r.mode == VerticalSplitMode::ExpandBottom(split_at),
            r.top == top,
            r.bottom == bottom,
            r.size_spec() == (0int, 0int),
    {
        VerticalSplit {
            mode: VerticalSplitMode::ExpandBottom(split_at),
            top,
            bottom,
            width: 0,
            height: 0,
        }
    }
}

impl<Top, Bottom> GUIElement for VerticalSplit<Top, Bottom> where
    Top: GUIElement,
    Bottom: GUIElement,
 {
    open spec fn wf(&self) -> bool {
        &&& self.top.wf()
        &&& self.bottom.wf()
        &&& self.min_size_spec().1 <= MAX_DIM
        &&& self.width <= MAX_DIM
        &&& self.height <= MAX_DIM
    }

    open spec fn renderable(&self) -> bool {
        &&& self.top.renderable()
        &&& self.bottom.renderable()
        &&& 0 <= self.spec_split_at() <= self.size_spec().1
    }

    open spec fn levels(&self) -> nat {
        1 + if self.top.levels() >= self.bottom.levels() {
            self.top.levels()
        } else {
            self.bottom.levels()
        }
    }

    open spec fn min_size_spec(&self) -> (int, int) {
        (
            vstd::math::max(self.top.min_size_spec().0, self.bottom.min_size_spec().0),
            match self.mode {
                VerticalSplitMode::ExpandTop(s) => self.top.min_size_spec().1 + s,
                VerticalSplitMode::ExpandBottom(s) => s + self.bottom.min_size_spec().1,
            },
        )
    }

    open spec fn size_spec(&self) -> (int, int) {
        (self.width as int, self.height as int)
    }

    open spec fn resized(&self, pre: Self, width: u32, height: u32) -> bool {
        let h = vstd::math::max(height as int, pre.min_size_spec().1);
        &&& self.mode == pre.mode
        &&& self.width == width
        &&& self.height == h
        &&& match self.mode {
            VerticalSplitMode::ExpandTop(s) => self.top.resized(pre.top, width, (h - s) as u32)
                && self.bottom.resized(pre.bottom, width, s),
            VerticalSplitMode::ExpandBottom(s) => self.top.resized(pre.top, width, s)
                && self.bottom.resized(pre.bottom, width, (h - s) as u32),
        }
    }

    open spec fn row_rendered(
        &self,
        v0: Seq<bool>,
        v1: Seq<bool>,
        cl_lo: int,
        cl_hi: int,
        y: int,
        offset: int,
    ) -> bool {
        let s = self.spec_split_at();
        if y < s {
            self.top.row_rendered(v0, v1, cl_lo, cl_hi, y, offset)
        } else {
            self.bottom.row_rendered(v0, v1, cl_lo, cl_hi, y - s, offset)
        }
    }

    proof fn wf_bounds(&self) {
        self.top.wf_bounds();
        self.bottom.wf_bounds();
    }

    proof fn row_confined(
        &self,
        v0: Seq<bool>,
        v1: Seq<bool>,
        cl_lo: int,
        cl_hi: int,
        y: int,
        offset: int,
    ) {
        let s = self.spec_split_at();
        if y < s {
            self.top.row_confined(v0, v1, cl_lo, cl_hi, y, offset);
        } else {
            self.bottom.row_confined(v0, v1, cl_lo, cl_hi, y - s, offset);
        }
    }

    fn resize(&mut self, width: u32, height: u32) {
        proof {
            self.top.wf_bounds();
            self.bottom.wf_bounds();
        }
        let min = self.min_size();
        self.width = width;
        self.height = if height > min.1 {
            height
        } else {
            min.1
        };
        let (top_height, bottom_height) = match self.mode {
            VerticalSplitMode::ExpandTop(split_at) => (self.height - split_at, split_at),
            VerticalSplitMode::ExpandBottom(split_at) => (split_at, self.height - split_at),
        };
        self.top.resize(width, top_height);
        self.bottom.resize(width, bottom_height);
        proof {
            self.top.wf_bounds();
            self.bottom.wf_bounds();
        }
    }

    fn min_size(&self) -> (r: (u32, u32)) {
        proof {
            self.top.wf_bounds();
            self.bottom.wf_bounds();
        }
        let tm = self.top.min_size();
        let bm = self.bottom.min_size();
        let w = if tm.0 > bm.0 {
            tm.0
        } else {
            bm.0
        };
        let h = match self.mode {
            VerticalSplitMode::ExpandTop(split_at) => tm.1 + split_at,
            VerticalSplitMode::ExpandBottom(split_at) => split_at + bm.1,
        };
        (w, h)
    }

    fn size(&self) -> (r: (u32, u32)) {
        (self.width, self.height)
    }

    fn render_row(&self, row: &mut RowRenderer, clip: &ClipRow, y: i32, offset: i32) {
        proof {
            self.top.wf_bounds();
            self.bottom.wf_bounds();
        }
        let split_at = match self.mode {
            VerticalSplitMode::ExpandTop(split_at) => self.height - split_at,
            VerticalSplitMode::ExpandBottom(split_at) => split_at,
        } as i32;
        if y < split_at {
            self.top.render_row(row, clip, y, offset);
        } else {
            self.bottom.render_row(row, clip, y - split_at, offset);
        }
    }
}

/// Horizontal placement of a child inside a fixed box.
pub enum HorizontalAlign {
    Left,
    Center,
    Right,
}

/// Vertical placement of a child inside a fixed box.
pub enum VerticalAlign {
    Top,
    Center,
    Bottom,
}

/// Wraps one child, rendered at its own natural size, inside a fixed-size
/// box at the chosen placement: the child is translated down and right by
/// the computed offsets and clipped to the box.
pub struct Align<Element> where Element: GUIElement {
    pub horizontal: HorizontalAlign,
    pub vertical: VerticalAlign,
    pub element: Element,
    pub width: u32,
    pub height: u32,
}

impl<Element> Align<Element> where Element: GUIElement {
    /// How many columns the child is shifted right inside the box.
    pub open spec fn spec_x_shift(&self) -> int {
        match self.horizontal {
            HorizontalAlign::Left => 0,
            HorizontalAlign::Center => div2_trunc(self.size_spec().0 - self.element.size_spec().0),
            HorizontalAlign::Right => self.size_spec().0 - self.element.size_spec().0,
        }
    }

    /// How many rows the child is shifted down inside the box.
    pub open spec fn spec_y_shift(&self) -> int {
        match self.vertical {
            VerticalAlign::Top => 0,
            VerticalAlign::Center => div2_trunc(self.size_spec().1 - self.element.size_spec().1),
            VerticalAlign::Bottom => self.size_spec().1 - self.element.size_spec().1,
        }
    }

    /// Places `element` inside the box at the given alignments.
    pub fn new(horizontal: HorizontalAlign, vertical: VerticalAlign, element: Element) -> (r:
        Align<Element>)
        requires
            element.wf(),
        ensures
            r.wf(),
            r.horizontal == horizontal,
            r.vertical == vertical,
            r.element == element,
            r.size_spec() == (0int, 0int),
    {
        Align { horizontal, vertical, element, width: 0, height: 0 }
    }
}

impl<Element> GUIElement for Align<Element> where Element: GUIElement {
    open spec fn wf(&self) -> bool {
        &&& self.element.wf()
        &&& self.width <= MAX_DIM
        &&& self.height <= MAX_DIM
    }

    open spec fn renderable(&self) -> bool {
        self.element.renderable()
    }

    open spec fn levels(&self) -> nat {
        1 + self.element.levels()
    }

    open spec fn min_size_spec(&self) -> (int, int) {
        (0, 0)
    }

    open spec fn size_spec(&self) -> (int, int) {
        (self.width as int, self.height as int)
    }

    open spec fn resized(&self, pre: Self, width: u32, height: u32) -> bool {
        &&& self.horizontal == pre.horizontal
        &&& self.vertical == pre.vertical
        &&& self.width == width
        &&& self.height == height
        &&& self.element.resized(
            pre.element,
            pre.element.min_size_spec().0 as u32,
            pre.element.min_size_spec().1 as u32,
        )
    }

    open spec fn row_rendered(
        &self,
        v0: Seq<bool>,
        v1: Seq<bool>,
        cl_lo: int,
        cl_hi: int,
        y: int,
        offset: int,
    ) -> bool {
        let blo = vstd::math::max(cl_lo, offset);
        let bhi = vstd::math::min(cl_hi, offset + self.size_spec().0);
        if 0 <= y < self.size_spec().1 {
            self.element.row_rendered(
                v0,
                v1,
                blo,
                bhi,
                y - self.spec_y_shift(),
                offset + self.spec_x_shift(),
            )
        } else {
            v1 == v0
        }
    }

    proof fn wf_bounds(&self) {
        self.element.wf_bounds();
    }

    proof fn row_confined(
        &self,
        v0: Seq<bool>,
        v1: Seq<bool>,
        cl_lo: int,
        cl_hi: int,
        y: int,
        offset: int,
    ) {
        if 0 <= y < self.size_spec().1 {
            self.element.row_confined(
                v0,
                v1,
                vstd::math::max(cl_lo, offset),
                vstd::math::min(cl_hi, offset + self.size_spec().0),
                y - self.spec_y_shift(),
                offset + self.spec_x_shift(),
            );
        }
    }

    fn resize(&mut self, width: u32, height: u32) {
        proof {
            self.element.wf_bounds();
        }
        self.width = width;
        self.height = height;
        let min = self.element.min_size();
        self.element.resize(min.0, min.1);
    }

    fn min_size(&self) -> (r: (u32, u32)) {
        (0, 0)
    }

    fn size(&self) -> (r: (u32, u32)) {
        (self.width, self.height)
    }

    fn render_row(&self, row: &mut RowRenderer, clip: &ClipRow, y: i32, offset: i32) {
        proof {
            self.element.wf_bounds();
        }
        // Rows outside the box are left untouched.
        if y < 0 || y >= self.height as i32 {
            return ;
        }
        // The child is clipped to the box.
        let window = clip.clip(offset, offset + self.width as i32);
        let (element_width, element_height) = self.element.size();
        let dx = self.width as i32 - element_width as i32;
        let dy = self.height as i32 - element_height as i32;
        let x_offset = match self.horizontal {
            HorizontalAlign::Left => 0,
            HorizontalAlign::Center => if dx >= 0 {
                ((dx as u32) / 2) as i32
            } else {
                -((((-dx) as u32) / 2) as i32)
            },
            HorizontalAlign::Right => dx,
        };
        let y_offset = match self.vertical {
            VerticalAlign::Top => 0,
            VerticalAlign::Center => if dy >= 0 {
                ((dy as u32) / 2) as i32
            } else {
                -((((-dy) as u32) / 2) as i32)
            },
            VerticalAlign::Bottom => dy,
        };
        self.element.render_row(row, &window, y - y_offset, offset + x_offset);
    }
}

/// A solid-color leaf that fills its whole allotted width on every row.
pub struct Fill {
    pub color: Color,
    pub width: u32,
    pub height: u32,
}

impl Fill {
    /// A fill of the given color; its size is negotiated by `resize`.
    pub fn new(color: Color) -> (r: Fill)
        ensures
            r.wf(),
            r.renderable(),
            r.color == color,
            r.size_spec() == (0int, 0int),
    {
        Fill { color, width: 0, height: 0 }
    }
}

impl GUIElement for Fill {
    open spec fn wf(&self) -> bool {
        self.width <= MAX_DIM && self.height <= MAX_DIM
    }

    open spec fn renderable(&self) -> bool {
        true
    }

    open spec fn levels(&self) -> nat {
        0
    }

    open spec fn min_size_spec(&self) -> (int, int) {
        (1, 1)
    }

    open spec fn size_spec(&self) -> (int, int) {
        (self.width as int, self.height as int)
    }

    open spec fn resized(&self, pre: Self, width: u32, height: u32) -> bool {
        &&& self.color == pre.color
        &&& self.width == width
        &&& self.height == height
    }

    open spec fn row_rendered(
        &self,
        v0: Seq<bool>,
        v1: Seq<bool>,
        cl_lo: int,
        cl_hi: int,
        y: int,
        offset: int,
    ) -> bool {
        v1 == fill_view(
            v0,
            vstd::math::max(cl_lo, offset),
            vstd::math::min(cl_hi, offset + self.size_spec().0),
            self.color is White,
        )
    }

    proof fn wf_bounds(&self) {
    }

    proof fn row_confined(
        &self,
        v0: Seq<bool>,
        v1: Seq<bool>,
        cl_lo: int,
        cl_hi: int,
        y: int,
        offset: int,
    ) {
    }

    fn resize(&mut self, width: u32, height: u32) {
        self.width = width;
        self.height = height;
    }

    fn min_size(&self) -> (r: (u32, u32)) {
        (1, 1)
    }

    fn size(&self) -> (r: (u32, u32)) {
        (self.width, self.height)
    }

    fn render_row(&self, row: &mut RowRenderer, clip: &ClipRow, y: i32, offset: i32) {
        row.fill(clip, offset, offset + self.width as i32, self.color);
    }
}

/// A static string rendered with a static font; its size is exactly the
/// font's measured text extent and resizing is ignored.
pub struct Text {
    pub text: &'static str,
    pub font: &'static font::Font,
    pub width: u32,
    pub height: u32,
}

impl Text {
    /// Measures `text` with `font` and wraps both.
    pub fn new(text: &'static str, font: &'static font::Font) -> (r: Text)
        requires
            font.wf(),
            font::spec_text_width(*font, text@) <= MAX_DIM,
        ensures
            r.wf(),
            r.renderable(),
            r.text == text,
            r.font == font,
            r.size_spec().0 == font::spec_text_width(*font, text@),
            r.size_spec().1 == font.ascender + font.descender,
    {
        proof {
            font::lemma_text_width_nonneg(*font, text@);
        }
        let (width, height) = font.get_text_size(text);
        Text { text, font, width, height }
    }
}

impl GUIElement for Text {
    open spec fn wf(&self) -> bool {
        &&& self.font.wf()
        &&& self.width == font::spec_text_width(*self.font, self.text@)
        &&& self.height == self.font.ascender + self.font.descender
        &&& self.width <= MAX_DIM
        &&& self.height <= MAX_DIM
    }

    open spec fn renderable(&self) -> bool {
        true
    }

    open spec fn levels(&self) -> nat {
        3
    }

    open spec fn min_size_spec(&self) -> (int, int) {
        (self.width as int, self.height as int)
    }

    open spec fn size_spec(&self) -> (int, int) {
        (self.width as int, self.height as int)
    }

    open spec fn resized(&self, pre: Self, width: u32, height: u32) -> bool {
        *self == pre
    }

    open spec fn row_rendered(
        &self,
        v0: Seq<bool>,
        v1: Seq<bool>,
        cl_lo: int,
        cl_hi: int,
        y: int,
        offset: int,
    ) -> bool {
        let bg = fill_view(
            v0,
            vstd::math::max(cl_lo, 0),
            vstd::math::min(cl_hi, i32::MAX as int),
            true,
        );
        if 1 <= y <= self.font.ascender + self.font.descender {
            v1 == font::spec_text_row(*self.font, self.text@, bg, cl_lo, cl_hi, y, offset)
        } else {
            v1 == bg
        }
    }

    proof fn wf_bounds(&self) {
        font::lemma_text_width_nonneg(*self.font, self.text@);
    }

    proof fn row_confined(
        &self,
        v0: Seq<bool>,
        v1: Seq<bool>,
        cl_lo: int,
        cl_hi: int,
        y: int,
        offset: int,
    ) {
        let bg = fill_view(
            v0,
            vstd::math::max(cl_lo, 0),
            vstd::math::min(cl_hi, i32::MAX as int),
            true,
        );
        assert(bg.len() == v0.len());
        assert forall|c: int| 0 <= c < v0.len() && !(cl_lo <= c < cl_hi) implies bg[c] == v0[c] by {
            assert(!(vstd::math::max(cl_lo, 0) <= c < vstd::math::min(cl_hi, i32::MAX as int)));
        }
        if 1 <= y <= self.font.ascender + self.font.descender {
            font::lemma_text_row_confined(*self.font, self.text@, bg, cl_lo, cl_hi, y, offset);
        }
    }

    fn resize(&mut self, _width: u32, _height: u32) {
        // The font dictates the size of the text.
    }

    fn min_size(&self) -> (r: (u32, u32)) {
        (self.width, self.height)
    }

    fn size(&self) -> (r: (u32, u32)) {
        (self.width, self.height)
    }

    fn render_row(&self, row: &mut RowRenderer, clip: &ClipRow, y: i32, offset: i32) {
        self.font.render_row(row, clip, self.text, y, offset);
    }
}

/// A static bitmap leaf; its size equals the raster's declared
/// dimensions and resizing is ignored.
pub struct Image {
    pub image: &'static image::BitmapImage,
}

impl Image {
    /// Wraps a static raster.
    pub fn new(image: &'static image::BitmapImage) -> (r: Image)
        requires
            image.wf(),
        ensures
            r.wf(),
            r.renderable(),
            r.image == image,
    {
        Image { image }
    }
}

impl GUIElement for Image {
    open spec fn wf(&self) -> bool {
        self.image.wf()
    }

    open spec fn renderable(&self) -> bool {
        true
    }

    open spec fn levels(&self) -> nat {
        0
    }

    open spec fn min_size_spec(&self) -> (int, int) {
        (self.image.width as int, self.image.height as int)
    }

    open spec fn size_spec(&self) -> (int, int) {
        (self.image.width as int, self.image.height as int)
    }

    open spec fn resized(&self, pre: Self, width: u32, height: u32) -> bool {
        *self == pre
    }

    open spec fn row_rendered(
        &self,
        v0: Seq<bool>,
        v1: Seq<bool>,
        cl_lo: int,
        cl_hi: int,
        y: int,
        offset: int,
    ) -> bool {
        // The bitmap blit is a placeholder capability that draws nothing.
        v1 == v0
    }

    proof fn wf_bounds(&self) {
    }

    proof fn row_confined(
        &self,
        v0: Seq<bool>,
        v1: Seq<bool>,
        cl_lo: int,
        cl_hi: int,
        y: int,
        offset: int,
    ) {
    }

    fn resize(&mut self, _width: u32, _height: u32) {
        // The image dictates the size.
    }

    fn min_size(&self) -> (r: (u32, u32)) {
        (self.image.width as u32, self.image.height as u32)
    }

    fn size(&self) -> (r: (u32, u32)) {
        (self.image.width as u32, self.image.height as u32)
    }

    fn render_row(&self, row: &mut RowRenderer, clip: &ClipRow, y: i32, offset: i32) {
        self.image.render_row_transparent(row, clip, y, offset);
    }
}

/// After any resize of a split of two solid fills, the children's widths
/// partition the split's own width, whichever side expands.
pub proof fn lemma_hsplit_partition(
    pre: HorizontalSplit<Fill, Fill>,
    post: HorizontalSplit<Fill, Fill>,
    w: u32,
    h: u32,
)
    requires
        pre.wf(),
        post.resized(pre, w, h),
    ensures
        post.left.size_spec().0 + post.right.size_spec().0 == post.size_spec().0,
{
}

/// After any resize of a split of two solid fills, the children's heights
/// partition the split's own height, whichever side expands.
pub proof fn lemma_vsplit_partition(
    pre: VerticalSplit<Fill, Fill>,
    post: VerticalSplit<Fill, Fill>,
    w: u32,
    h: u32,
)
    requires
        pre.wf(),
        post.resized(pre, w, h),
    ensures
        post.top.size_spec().1 + post.bottom.size_spec().1 == post.size_spec().1,
{
}

} // verus!

