//! Static raster images.

use vstd::prelude::*;

pub use crate::gui::rle::RLEImage;

use crate::{coord_ok, ClipRow, RowRenderer};

verus! {

/// Immutable static 1-bit raster data, one row every `stride` bytes.
pub struct BitmapImage {
    pub data: &'static [u8],
    pub width: u16,
    pub height: u16,
    pub stride: u16,
}

impl BitmapImage {
    /// The raster holds `height` rows of `stride` bytes each.
    pub open spec fn wf(&self) -> bool {
        self.height * self.stride <= self.data@.len()
    }

    /// Hands row `y` of the raster to the compositor's bitmap blit. The
    /// blit itself is still a placeholder that draws nothing, so the row
    /// buffer is left unchanged; a row index outside the image is a no-op
    /// as well.
    pub fn render_row_transparent(&self, row: &mut RowRenderer, clip: &ClipRow, y: i32, offset: i32)
        requires
            self.wf(),
            old(row).wf(),
            clip.bounded(old(row).spec_width() as int),
            coord_ok(offset as int, 0),
        ensures
            *final(row) == *old(row),
    {
        if y < 0 || y >= self.height as i32 {
            return ;
        }
        proof {
            assert(0 <= (y as int) * (self.stride as int) && (y as int) * (self.stride as int)
                + self.stride <= (self.height as int) * (self.stride as int) && (self.height as int)
                * (self.stride as int) < 0x1_0000_0000) by (nonlinear_arith)
                requires
                    0 <= (y as int) < (self.height as int),
                    0 <= (self.stride as int),
                    (self.height as int) < 0x1_0000,
                    (self.stride as int) < 0x1_0000,
            ;
        }
        let row_index = (y as usize) * (self.stride as usize);
        row.render_bitmap(
            clip,
            offset,
            offset + self.width as i32,
            &self.data[row_index..row_index + self.stride as usize],
        );
    }
}

} // verus!
