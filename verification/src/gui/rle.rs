//! Run-length image codec.
//!
//! An `RLEImage` stores, per row, an offset table into a flat run array;
//! each run word packs a 15-bit span length and a 1-bit color flag. Rows
//! are overlaid transparently: only runs whose flag is set are drawn, runs
//! with a clear flag merely advance the position, so background pixels are
//! left untouched.

use vstd::prelude::*;

use crate::bits::{fill_view, pixels};
use crate::{coord_ok, ClipRow, Color, RowRenderer};

verus! {

/// The span length packed into a run word.
pub open spec fn run_len(w: u16) -> int {
    (w & 0x7fff) as int
}

/// The color flag packed into a run word: set means the span is drawn
/// black, clear means the span is skipped.
pub open spec fn run_black(w: u16) -> bool {
    (w >> 15) != 0
}

/// The total number of columns covered by a run sequence.
pub open spec fn runs_sum(runs: Seq<u16>) -> int
    decreases runs.len(),
{
    if runs.len() == 0 {
        0
    } else {
        run_len(runs[0]) + runs_sum(runs.drop_first())
    }
}

pub proof fn lemma_runs_sum_nonneg(runs: Seq<u16>)
    ensures
        runs_sum(runs) >= 0,
    decreases runs.len(),
{
    if runs.len() > 0 {
        lemma_runs_sum_nonneg(runs.drop_first());
    }
}

/// The pixel view after overlaying a run sequence starting at column
/// `offset`, clipped to `[cl_lo, cl_hi)`.
pub open spec fn overlay_runs(
    v: Seq<bool>,
    runs: Seq<u16>,
    cl_lo: int,
    cl_hi: int,
    offset: int,
) -> Seq<bool>
    decreases runs.len(),
{
    if runs.len() == 0 {
        v
    } else {
        let len = run_len(runs[0]);
        let v1 = if run_black(runs[0]) {
            fill_view(v, vstd::math::max(cl_lo, offset), vstd::math::min(cl_hi, offset + len), false)
        } else {
            v
        };
        overlay_runs(v1, runs.drop_first(), cl_lo, cl_hi, offset + len)
    }
}

/// Overlaying runs never grows the row and never touches a column
/// outside the clip window.
pub proof fn lemma_overlay_runs_confined(
    v: Seq<bool>,
    runs: Seq<u16>,
    cl_lo: int,
    cl_hi: int,
    offset: int,
)
    ensures
        overlay_runs(v, runs, cl_lo, cl_hi, offset).len() == v.len(),
        forall|c: int|
            0 <= c < v.len() && !(cl_lo <= c < cl_hi) ==> overlay_runs(
                v,
                runs,
                cl_lo,
                cl_hi,
                offset,
            )[c] == v[c],
    decreases runs.len(),
{
    if runs.len() > 0 {
        let len = run_len(runs[0]);
        let v1 = if run_black(runs[0]) {
            fill_view(
                v,
                vstd::math::max(cl_lo, offset),
                vstd::math::min(cl_hi, offset + len),
                false,
            )
        } else {
            v
        };
        assert(v1.len() == v.len());
        assert forall|c: int| 0 <= c < v.len() && !(cl_lo <= c < cl_hi) implies v1[c] == v[c] by {
            assert(!(vstd::math::max(cl_lo, offset) <= c < vstd::math::min(cl_hi, offset + len)));
        }
        lemma_overlay_runs_confined(v1, runs.drop_first(), cl_lo, cl_hi, offset + len);
        assert(overlay_runs(v, runs, cl_lo, cl_hi, offset) == overlay_runs(
            v1,
            runs.drop_first(),
            cl_lo,
            cl_hi,
            offset + len,
        ));
    }
}

/// One decoded run: a span length and whether the span is drawn black.
#[derive(Clone, Copy, PartialEq, Eq, Debug)]
pub struct Run {
    pub length: u16,
    pub black: bool,
}

/// The run described by one packed word.
pub open spec fn spec_decode_run(w: u16) -> Run {
    Run { length: w & 0x7fff, black: (w >> 15) != 0 }
}

/// The packed word describing one run.
pub open spec fn spec_encode_run(r: Run) -> u16 {
    r.length | if r.black {
        0x8000u16
    } else {
        0u16
    }
}

/// Re-encoding a decoded run word reproduces it bit-for-bit.
pub proof fn lemma_run_round_trip(w: u16)
    ensures
        spec_encode_run(spec_decode_run(w)) == w,
{
    assert(((w & 0x7fff) | (if (w >> 15) != 0 {
        0x8000u16
    } else {
        0u16
    })) == w) by (bit_vector);
}

/// Immutable static raster data in the run-length format.
pub struct RLEImage {
    pub data: &'static [u16],
    pub width: u16,
    pub height: u16,
}

impl RLEImage {
    /// The run words of row `y`: the offset table entries `y` and `y + 1`
    /// delimit the row's slice of the flat run array.
    pub open spec fn spec_row_runs(&self, y: int) -> Seq<u16> {
        self.data@.subrange(self.data@[y] as int, self.data@[y + 1] as int)
    }

    /// The offset table is monotonically non-decreasing, starts past the
    /// table itself, ends exactly at the run array's end, and every row's
    /// runs sum exactly to the image width.
    pub open spec fn wf(&self) -> bool {
        &&& self.height as int + 1 <= self.data@.len()
        &&& forall|y: int|
            0 <= y <= self.height ==> self.height + 1 <= #[trigger] self.data@[y] as int
                <= self.data@.len()
        &&& forall|y: int|
            0 <= y < self.height ==> #[trigger] self.data@[y] as int <= self.data@[y + 1] as int
        &&& self.data@[self.height as int] as int == self.data@.len()
        &&& forall|y: int|
            0 <= y < self.height ==> runs_sum(#[trigger] self.spec_row_runs(y)) == self.width
    }

    /// Decodes the run table of row `y` into colored spans.
    pub fn decode_row(&self, y: usize) -> (r: Vec<Run>)
        requires
            self.wf(),
            y < self.height,
        ensures
            r@ == self.spec_row_runs(y as int).map_values(|w: u16| spec_decode_run(w)),
    {
        let line_start = self.data[y] as usize;
        let line_end = self.data[y + 1] as usize;
        let mut runs: Vec<Run> = Vec::new();
        let mut i = line_start;
        while i < line_end
            invariant
                line_start <= i <= line_end,
                line_end <= self.data@.len(),
                runs@ == self.data@.subrange(line_start as int, i as int).map_values(
                    |w: u16| spec_decode_run(w),
                ),
            decreases line_end - i,
        {
            let w = self.data[i];
            runs.push(Run { length: w & 0x7fff, black: (w >> 15) != 0 });
            proof {
                assert(self.data@.subrange(line_start as int, i + 1).map_values(
                    |w: u16| spec_decode_run(w),
                ) =~= self.data@.subrange(line_start as int, i as int).map_values(
                    |w: u16| spec_decode_run(w),
                ).push(spec_decode_run(self.data@[i as int])));
            }
            i = i + 1;
        }
        proof {
            assert(self.data@.subrange(line_start as int, line_end as int)
                == self.spec_row_runs(y as int));
        }
        runs
    }

    /// Packs colored spans back into run words.
    pub fn encode_runs(runs: &Vec<Run>) -> (r: Vec<u16>)
        requires
            forall|i: int| 0 <= i < runs@.len() ==> #[trigger] runs@[i].length < 0x8000,
        ensures
            r@ == runs@.map_values(|run: Run| spec_encode_run(run)),
    {
        let mut words: Vec<u16> = Vec::new();
        let mut i: usize = 0;
        while i < runs.len()
            invariant
                i <= runs@.len(),
                words@ == runs@.subrange(0, i as int).map_values(|run: Run| spec_encode_run(run)),
            decreases runs@.len() - i,
        {
            let run = runs[i];
            words.push(run.length | if run.black {
                0x8000u16
            } else {
                0u16
            });
            proof {
                assert(runs@.subrange(0, i + 1).map_values(|run: Run| spec_encode_run(run))
                    =~= runs@.subrange(0, i as int).map_values(
                    |run: Run| spec_encode_run(run),
                ).push(spec_encode_run(runs@[i as int])));
            }
            i = i + 1;
        }
        proof {
            assert(runs@.subrange(0, runs@.len() as int) =~= runs@);
        }
        words
    }

    /// Re-encoding the decoded runs of any row reproduces that row's slice
    /// of the run table bit-for-bit.
    pub proof fn lemma_decode_encode_row(&self, y: int)
        requires
            self.wf(),
            0 <= y < self.height,
        ensures
            self.spec_row_runs(y).map_values(|w: u16| spec_decode_run(w)).map_values(
                |run: Run| spec_encode_run(run),
            ) == self.spec_row_runs(y),
    {
        let runs = self.spec_row_runs(y);
        assert forall|i: int| 0 <= i < runs.len() implies runs.map_values(
            |w: u16| spec_decode_run(w),
        ).map_values(|run: Run| spec_encode_run(run))[i] == runs[i] by {
            lemma_run_round_trip(runs[i]);
        }
        assert(runs.map_values(|w: u16| spec_decode_run(w)).map_values(
            |run: Run| spec_encode_run(run),
        ) =~= runs);
    }

    /// Overlays row `y` of the image at column `offset` into the row
    /// buffer: every run with a set flag is filled black through the
    /// clipped compositor, every other run only advances the position. A
    /// row index outside the image is a no-op.
    pub fn render_row_transparent(&self, row: &mut RowRenderer, clip: &ClipRow, y: i32, offset: i32)
        requires
            self.wf(),
            old(row).wf(),
            clip.bounded(old(row).spec_width() as int),
            coord_ok(offset as int, 0),
        ensures
            final(row).wf(),
            final(row).spec_width() == old(row).spec_width(),
            final(row)@.len() == old(row)@.len(),
            0 <= y < self.height ==> pixels(final(row)@) == overlay_runs(
                pixels(old(row)@),
                self.spec_row_runs(y as int),
                clip.spec_left(),
                clip.spec_right(),
                offset as int,
            ),
            !(0 <= y < self.height) ==> final(row)@ == old(row)@,
    {
        if y < 0 {
            return ;
        }
        if y >= self.height as i32 {
            return ;
        }
        let ghost orig = row@;
        let ghost cl_lo = clip.spec_left();
        let ghost cl_hi = clip.spec_right();
        let yi = y as usize;
        let line_start = self.data[yi] as usize;
        let line_end = self.data[yi + 1] as usize;
        let ghost all = self.spec_row_runs(y as int);
        let mut pos: i32 = 0;
        let mut i = line_start;
        while i < line_end
            invariant
                line_start <= i <= line_end,
                line_end <= self.data@.len(),
                all == self.data@.subrange(line_start as int, line_end as int),
                0 <= pos,
                pos + runs_sum(self.data@.subrange(i as int, line_end as int)) == self.width,
                coord_ok(offset as int, 0),
                row.wf(),
                row.spec_width() == old(row).spec_width(),
                row@.len() == orig.len(),
                clip.bounded(row.spec_width() as int),
                cl_lo == clip.spec_left(),
                cl_hi == clip.spec_right(),
                overlay_runs(
                    pixels(row@),
                    self.data@.subrange(i as int, line_end as int),
                    cl_lo,
                    cl_hi,
                    offset + pos,
                ) == overlay_runs(pixels(orig), all, cl_lo, cl_hi, offset as int),
            decreases line_end - i,
        {
            let ghost rest = self.data@.subrange(i as int, line_end as int);
            proof {
                assert(rest[0] == self.data@[i as int]);
                assert(rest.drop_first() =~= self.data@.subrange(i + 1, line_end as int));
                lemma_runs_sum_nonneg(rest.drop_first());
            }
            let w = self.data[i];
            let length = (w & 0x7fff) as u32;
            proof {
                assert(length == run_len(w) && length < 0x8000) by (bit_vector)
                    requires
                        length == ((w & 0x7fff) as u32),
                ;
            }
            if (w >> 15) != 0u16 {
                row.fill(clip, offset + pos, offset + pos + length as i32, Color::Black);
            }
            pos = pos + length as i32;
            i = i + 1;
        }
        proof {
            assert(self.data@.subrange(line_end as int, line_end as int) =~= Seq::<u16>::empty());
        }
    }
}

} // verus!
