//! Font and glyph layout.
//!
//! A font maps characters to glyph metrics through a character table,
//! accumulates horizontal advance over a string, and renders glyphs as
//! transparent run-length overlays at a given scanline. Text backgrounds
//! are always opaque white.

use vstd::prelude::*;
use vstd::string::StrSliceExecFns;

use crate::bits::{fill_view, pixels};
use crate::gui::rle::{overlay_runs, RLEImage};
use crate::{coord_ok, ClipRow, Color, RowRenderer, MAX_DIM};

verus! {

/// Immutable glyph metrics plus the glyph's run-length image.
pub struct Glyph {
    pub image: RLEImage,
    pub image_left: i16,
    pub image_top: i16,
    pub advance: u32,
}

/// An ordered glyph table plus a parallel character table: `glyphs[i]`
/// renders the character `charmap[i]`.
pub struct Font {
    pub ascender: u16,
    pub descender: u16,
    pub glyphs: &'static [Glyph],
    pub charmap: &'static [char],
}

/// The first index at or after `i` where `cm` holds `c`.
pub open spec fn spec_glyph_index_from(cm: Seq<char>, c: char, i: int) -> Option<int>
    decreases cm.len() - i,
{
    if i < 0 || i >= cm.len() {
        None
    } else if cm[i] == c {
        Some(i)
    } else {
        spec_glyph_index_from(cm, c, i + 1)
    }
}

/// The glyph index of character `c`, if the font has one.
pub open spec fn spec_glyph_index(cm: Seq<char>, c: char) -> Option<int> {
    spec_glyph_index_from(cm, c, 0)
}

pub proof fn lemma_glyph_index_in_range(cm: Seq<char>, c: char, i: int)
    requires
        0 <= i,
        spec_glyph_index_from(cm, c, i) is Some,
    ensures
        i <= spec_glyph_index_from(cm, c, i)->0 < cm.len(),
    decreases cm.len() - i,
{
    if i < cm.len() && cm[i] != c {
        lemma_glyph_index_in_range(cm, c, i + 1);
    }
}

/// The horizontal advance `c` contributes: its glyph's advance, or zero
/// where the font has no glyph for it.
pub open spec fn spec_char_advance(f: Font, c: char) -> int {
    match spec_glyph_index(f.charmap@, c) {
        Some(i) => f.glyphs@[i].advance as int,
        None => 0,
    }
}

/// The width of a rendered string: the sum of its characters' advances.
pub open spec fn spec_text_width(f: Font, s: Seq<char>) -> int
    decreases s.len(),
{
    if s.len() == 0 {
        0
    } else {
        spec_text_width(f, s.drop_last()) + spec_char_advance(f, s.last())
    }
}

pub proof fn lemma_text_width_step(f: Font, s: Seq<char>, i: int)
    requires
        0 <= i < s.len(),
    ensures
        spec_text_width(f, s.take(i + 1)) == spec_text_width(f, s.take(i)) + spec_char_advance(
            f,
            s[i],
        ),
{
    assert(s.take(i + 1).drop_last() =~= s.take(i));
    assert(s.take(i + 1).last() == s[i]);
}

pub proof fn lemma_text_width_mono(f: Font, s: Seq<char>, i: int)
    requires
        0 <= i <= s.len(),
    ensures
        0 <= spec_text_width(f, s.take(i)) <= spec_text_width(f, s),
    decreases s.len() - i,
{
    if i == s.len() {
        assert(s.take(i) =~= s);
        lemma_text_width_nonneg(f, s);
    } else {
        lemma_text_width_step(f, s, i);
        lemma_text_width_mono(f, s, i + 1);
        lemma_text_width_nonneg(f, s.take(i));
    }
}

pub proof fn lemma_text_width_nonneg(f: Font, s: Seq<char>)
    ensures
        spec_text_width(f, s) >= 0,
    decreases s.len(),
{
    if s.len() > 0 {
        lemma_text_width_nonneg(f, s.drop_last());
    }
}

/// The pixel row after overlaying one glyph of `f` whose pen position is
/// `pos` while scanline `y` of the text box is drawn.
pub open spec fn spec_glyph_row(
    f: Font,
    g: Glyph,
    v: Seq<bool>,
    cl_lo: int,
    cl_hi: int,
    y: int,
    pos: int,
) -> Seq<bool> {
    let gy = y - f.ascender + g.image_top;
    let go = pos + g.image_left;
    if 0 <= gy < g.image.height {
        overlay_runs(v, g.image.spec_row_runs(gy), cl_lo, cl_hi, go)
    } else {
        v
    }
}

/// The pixel row after walking string `s` from pen position `pos`,
/// overlaying every glyph the font knows.
pub open spec fn spec_text_row(
    f: Font,
    s: Seq<char>,
    v: Seq<bool>,
    cl_lo: int,
    cl_hi: int,
    y: int,
    pos: int,
) -> Seq<bool>
    decreases s.len(),
{
    if s.len() == 0 {
        v
    } else {
        match spec_glyph_index(f.charmap@, s[0]) {
            None => spec_text_row(f, s.drop_first(), v, cl_lo, cl_hi, y, pos),
            Some(i) => spec_text_row(
                f,
                s.drop_first(),
                spec_glyph_row(f, f.glyphs@[i], v, cl_lo, cl_hi, y, pos),
                cl_lo,
                cl_hi,
                y,
                pos + f.glyphs@[i].advance,
            ),
        }
    }
}

/// Overlaying one glyph row never grows the row and never touches a
/// column outside the clip window.
pub proof fn lemma_glyph_row_confined(
    f: Font,
    g: Glyph,
    v: Seq<bool>,
    cl_lo: int,
    cl_hi: int,
    y: int,
    pos: int,
)
    ensures
        spec_glyph_row(f, g, v, cl_lo, cl_hi, y, pos).len() == v.len(),
        forall|c: int|
            0 <= c < v.len() && !(cl_lo <= c < cl_hi) ==> spec_glyph_row(
                f,
                g,
                v,
                cl_lo,
                cl_hi,
                y,
                pos,
            )[c] == v[c],
{
    let gy = y - f.ascender + g.image_top;
    if 0 <= gy < g.image.height {
        crate::gui::rle::lemma_overlay_runs_confined(
            v,
            g.image.spec_row_runs(gy),
            cl_lo,
            cl_hi,
            pos + g.image_left,
        );
    }
}

/// Rendering a text row never grows the row and never touches a column
/// outside the clip window.
pub proof fn lemma_text_row_confined(
    f: Font,
    s: Seq<char>,
    v: Seq<bool>,
    cl_lo: int,
    cl_hi: int,
    y: int,
    pos: int,
)
    ensures
        spec_text_row(f, s, v, cl_lo, cl_hi, y, pos).len() == v.len(),
        forall|c: int|
            0 <= c < v.len() && !(cl_lo <= c < cl_hi) ==> spec_text_row(
                f,
                s,
                v,
                cl_lo,
                cl_hi,
                y,
                pos,
            )[c] == v[c],
    decreases s.len(),
{
    if s.len() > 0 {
        match spec_glyph_index(f.charmap@, s[0]) {
            None => {
                lemma_text_row_confined(f, s.drop_first(), v, cl_lo, cl_hi, y, pos);
            },
            Some(i) => {
                let g = f.glyphs@[i];
                lemma_glyph_row_confined(f, g, v, cl_lo, cl_hi, y, pos);
                lemma_text_row_confined(
                    f,
                    s.drop_first(),
                    spec_glyph_row(f, g, v, cl_lo, cl_hi, y, pos),
                    cl_lo,
                    cl_hi,
                    y,
                    pos + g.advance,
                );
            },
        }
    }
}

impl Font {
    /// The character and glyph tables run in parallel, and every glyph has
    /// a bounded advance and a well-formed run-length image.
    pub open spec fn wf(&self) -> bool {
        &&& self.charmap@.len() == self.glyphs@.len()
        &&& forall|i: int|
            0 <= i < self.glyphs@.len() ==> (#[trigger] self.glyphs@[i].advance <= MAX_DIM
                && self.glyphs@[i].image.wf())
    }

    /// Looks up the glyph index of `c` in the character table.
    pub fn get_glyph_index(&self, c: char) -> (r: Option<usize>)
        requires
            self.wf(),
        ensures
            match r {
                Some(i) => spec_glyph_index(self.charmap@, c) == Some(i as int),
                None => spec_glyph_index(self.charmap@, c) is None,
            },
    {
        let n = self.charmap.len();
        let mut i: usize = 0;
        while i < n
            invariant
                i <= n,
                n == self.charmap@.len(),
                spec_glyph_index(self.charmap@, c) == spec_glyph_index_from(
                    self.charmap@,
                    c,
                    i as int,
                ),
            decreases n - i,
        {
            if self.charmap[i] == c {
                return Some(i);
            }
            i = i + 1;
        }
        None
    }

    /// The rendered extent of `text`: the sum of the glyph advances and
    /// the font's line height `ascender + descender`. Characters without
    /// a glyph contribute zero width.
    pub fn get_text_size(&self, text: &str) -> (r: (u32, u32))
        requires
            self.wf(),
            spec_text_width(*self, text@) <= u32::MAX,
        ensures
            r.0 as int == spec_text_width(*self, text@),
            r.1 as int == self.ascender + self.descender,
    {
        let mut width: u32 = 0;
        let n = text.unicode_len();
        let mut i: usize = 0;
        while i < n
            invariant
                i <= n,
                n == text@.len(),
                self.wf(),
                spec_text_width(*self, text@) <= u32::MAX,
                width == spec_text_width(*self, text@.take(i as int)),
            decreases n - i,
        {
            let c = text.get_char(i);
            proof {
                lemma_text_width_step(*self, text@, i as int);
                lemma_text_width_mono(*self, text@, i + 1);
            }
            let index = self.get_glyph_index(c);
            if let Some(idx) = index {
                proof {
                    lemma_glyph_index_in_range(self.charmap@, c, 0);
                }
                let glyph = &self.glyphs[idx];
                width = width + glyph.advance;
            }
            i = i + 1;
        }
        proof {
            assert(text@.take(n as int) =~= text@);
        }
        (width, self.ascender as u32 + self.descender as u32)
    }

    /// Renders scanline `y` of `text`: fills the whole clip with opaque
    /// white background, then, only where `y` falls within the line
    /// height, overlays every glyph at its accumulated pen position.
    pub fn render_row(&self, row: &mut RowRenderer, clip: &ClipRow, text: &str, y: i32, offset: i32)
        requires
            self.wf(),
            old(row).wf(),
            clip.bounded(old(row).spec_width() as int),
            spec_text_width(*self, text@) <= MAX_DIM,
            coord_ok(y as int, 1),
            coord_ok(offset as int, 2),
        ensures
            final(row).wf(),
            final(row).spec_width() == old(row).spec_width(),
            final(row)@.len() == old(row)@.len(),
            ({
                let bg = fill_view(
                    pixels(old(row)@),
                    vstd::math::max(clip.spec_left(), 0),
                    vstd::math::min(clip.spec_right(), i32::MAX as int),
                    true,
                );
                if 1 <= y <= self.ascender + self.descender {
                    pixels(final(row)@) == spec_text_row(
                        *self,
                        text@,
                        bg,
                        clip.spec_left(),
                        clip.spec_right(),
                        y as int,
                        offset as int,
                    )
                } else {
                    pixels(final(row)@) == bg
                }
            }),
    {
        let ghost cl_lo = clip.spec_left();
        let ghost cl_hi = clip.spec_right();
        // Text backgrounds are always opaque.
        row.fill(clip, 0, i32::MAX, Color::White);
        let ghost bg = pixels(row@);
        if y < 1 || y > self.ascender as i32 + self.descender as i32 {
            return ;
        }
        let n = text.unicode_len();
        let mut pos = offset;
        let mut i: usize = 0;
        proof {
            assert(text@.skip(0) =~= text@);
            assert(text@.take(0) =~= Seq::<char>::empty());
        }
        while i < n
            invariant
                i <= n,
                n == text@.len(),
                self.wf(),
                row.wf(),
                row.spec_width() == old(row).spec_width(),
                row@.len() == old(row)@.len(),
                clip.bounded(row.spec_width() as int),
                cl_lo == clip.spec_left(),
                cl_hi == clip.spec_right(),
                spec_text_width(*self, text@) <= MAX_DIM,
                coord_ok(offset as int, 2),
                coord_ok(y as int, 1),
                pos == offset + spec_text_width(*self, text@.take(i as int)),
                spec_text_row(*self, text@.skip(i as int), pixels(row@), cl_lo, cl_hi, y as int, pos as int)
                    == spec_text_row(*self, text@, bg, cl_lo, cl_hi, y as int, offset as int),
            decreases n - i,
        {
            let ghost rest = text@.skip(i as int);
            let c = text.get_char(i);
            proof {
                assert(rest[0] == text@[i as int]);
                assert(rest.drop_first() =~= text@.skip(i + 1));
                lemma_text_width_step(*self, text@, i as int);
                lemma_text_width_mono(*self, text@, i as int);
                lemma_text_width_mono(*self, text@, i + 1);
            }
            let index = self.get_glyph_index(c);
            if let Some(idx) = index {
                proof {
                    lemma_glyph_index_in_range(self.charmap@, c, 0);
                }
                let glyph = &self.glyphs[idx];
                self.render_glyph_row(row, clip, glyph, y, pos);
                pos = pos + glyph.advance as i32;
            }
            i = i + 1;
        }
        proof {
            assert(text@.skip(n as int) =~= Seq::<char>::empty());
            assert(text@.take(n as int) =~= text@);
        }
    }

    /// Overlays one glyph's run-length image for scanline `y` of the text
    /// box, at pen position `pos`.
    fn render_glyph_row(&self, row: &mut RowRenderer, clip: &ClipRow, glyph: &Glyph, y: i32, pos: i32)
        requires
            glyph.image.wf(),
            old(row).wf(),
            clip.bounded(old(row).spec_width() as int),
            coord_ok(y as int, 1),
            coord_ok(pos as int, 1),
        ensures
            final(row).wf(),
            final(row).spec_width() == old(row).spec_width(),
            final(row)@.len() == old(row)@.len(),
            pixels(final(row)@) == spec_glyph_row(
                *self,
                *glyph,
                pixels(old(row)@),
                clip.spec_left(),
                clip.spec_right(),
                y as int,
                pos as int,
            ),
    {
        let image_offset = pos + glyph.image_left as i32;
        let image_y = y - self.ascender as i32 + glyph.image_top as i32;
        glyph.image.render_row_transparent(row, clip, image_y, image_offset);
    }
}

} // verus!
