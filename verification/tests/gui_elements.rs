use epaper::gui::font::{Font, Glyph};
use epaper::gui::image::BitmapImage;
use epaper::gui::rle::{RLEImage, Run};
use epaper::gui::{
    Align, Fill, GUIElement, HorizontalAlign, HorizontalSplit, Image, Layout, Text, VerticalAlign,
    VerticalSplit,
};
use epaper::{Color, RowRenderer, TestDisplay};

fn leak<T>(value: T) -> &'static T {
    Box::leak(Box::new(value))
}

fn leak_slice<T>(value: Vec<T>) -> &'static [T] {
    Box::leak(value.into_boxed_slice())
}

// Two rows of a 10-pixel-wide image: offsets 3..5 and 5..7 into the flat
// array, rows [black 4, skip 6] and [skip 3, black 7].
fn sample_rle() -> RLEImage {
    RLEImage {
        data: leak_slice(vec![3, 5, 7, 0x8004, 6, 3, 0x8007]),
        width: 10,
        height: 2,
    }
}

#[test]
fn test_rle_round_trip() {
    let image = sample_rle();
    for y in 0..2usize {
        let runs = image.decode_row(y);
        let words = RLEImage::encode_runs(&runs);
        let start = image.data[y] as usize;
        let end = image.data[y + 1] as usize;
        assert_eq!(words, image.data[start..end].to_vec());
    }
    let runs = image.decode_row(0);
    assert_eq!(runs, vec![Run { length: 4, black: true }, Run { length: 6, black: false }]);
}

#[test]
fn test_rle_render_transparent() {
    let image = sample_rle();
    // Row 0: black over [0, 4), the rest untouched.
    let mut renderer = RowRenderer::new(vec![0xff; 2], 16);
    let clip = renderer.full_row();
    image.render_row_transparent(&mut renderer, &clip, 0, 0);
    assert_eq!(renderer.finish(), vec![0xf0, 0xff]);
    // Row 1: the clear run skips 3 columns, then black over [3, 10).
    let mut renderer = RowRenderer::new(vec![0xff; 2], 16);
    let clip = renderer.full_row();
    image.render_row_transparent(&mut renderer, &clip, 1, 0);
    assert_eq!(renderer.finish(), vec![0x07, 0xfc]);
    // Out-of-range rows are a no-op.
    let mut renderer = RowRenderer::new(vec![0x55; 2], 16);
    let clip = renderer.full_row();
    image.render_row_transparent(&mut renderer, &clip, 2, 0);
    image.render_row_transparent(&mut renderer, &clip, -1, 0);
    assert_eq!(renderer.finish(), vec![0x55, 0x55]);
}

#[test]
fn test_fill_element() {
    let mut fill = Fill::new(Color::White);
    assert_eq!(fill.min_size(), (1, 1));
    fill.resize(12, 3);
    assert_eq!(fill.size(), (12, 3));
    let mut renderer = RowRenderer::new(vec![0x00; 2], 16);
    let clip = renderer.full_row();
    fill.render_row(&mut renderer, &clip, 0, 2);
    // Columns [2, 14) become white.
    assert_eq!(renderer.finish(), vec![0xfc, 0x3f]);
}

#[test]
fn test_horizontal_split_sizes() {
    let mut split = HorizontalSplit::expand_left(10, Fill::new(Color::White), Fill::new(
        Color::Black,
    ));
    assert_eq!(split.min_size(), (11, 1));
    split.resize(100, 50);
    // The minimum size is unchanged and within the budget.
    assert_eq!(split.min_size(), (11, 1));
    assert_eq!(split.size(), (100, 50));
    // The children partition the split's width, the right side anchored.
    assert_eq!(split.left.size(), (90, 50));
    assert_eq!(split.right.size(), (10, 50));

    let mut split = HorizontalSplit::expand_right(10, Fill::new(Color::White), Fill::new(
        Color::Black,
    ));
    split.resize(100, 50);
    assert_eq!(split.left.size(), (10, 50));
    assert_eq!(split.right.size(), (90, 50));
    assert_eq!(
        split.left.size().0 + split.right.size().0,
        split.size().0,
    );
}

#[test]
fn test_vertical_split_sizes() {
    let mut split = VerticalSplit::expand_top(7, Fill::new(Color::White), Fill::new(Color::Black));
    assert_eq!(split.min_size(), (1, 8));
    split.resize(40, 30);
    assert_eq!(split.size(), (40, 30));
    assert_eq!(split.top.size(), (40, 23));
    assert_eq!(split.bottom.size(), (40, 7));

    let mut split = VerticalSplit::expand_bottom(7, Fill::new(Color::White), Fill::new(
        Color::Black,
    ));
    split.resize(40, 30);
    assert_eq!(split.top.size(), (40, 7));
    assert_eq!(split.bottom.size(), (40, 23));
    assert_eq!(split.top.size().1 + split.bottom.size().1, split.size().1);
}

#[test]
fn test_horizontal_split_render() {
    let mut split = HorizontalSplit::expand_left(8, Fill::new(Color::White), Fill::new(
        Color::Black,
    ));
    split.resize(16, 1);
    let mut renderer = RowRenderer::new(vec![0x55; 2], 16);
    let clip = renderer.full_row();
    split.render_row(&mut renderer, &clip, 0, 0);
    assert_eq!(renderer.finish(), vec![0xff, 0x00]);
}

#[test]
fn test_vertical_split_render() {
    let mut split = VerticalSplit::expand_top(1, Fill::new(Color::White), Fill::new(Color::Black));
    split.resize(8, 4);
    // Rows 0..3 belong to the expanding top (white), row 3 to the bottom.
    for (y, expected) in [(0, 0xffu8), (2, 0xff), (3, 0x00)] {
        let mut renderer = RowRenderer::new(vec![0x55; 1], 8);
        let clip = renderer.full_row();
        split.render_row(&mut renderer, &clip, y, 0);
        assert_eq!(renderer.finish(), vec![expected]);
    }
}

#[test]
fn test_align_center_render() {
    let mut align = Align::new(HorizontalAlign::Center, VerticalAlign::Center, Fill::new(
        Color::White,
    ));
    align.resize(11, 9);
    assert_eq!(align.min_size(), (0, 0));
    assert_eq!(align.size(), (11, 9));
    // The child keeps its minimum size (1, 1), centered at column 5.
    let mut renderer = RowRenderer::new(vec![0x00; 2], 16);
    let clip = renderer.full_row();
    align.render_row(&mut renderer, &clip, 4, 0);
    assert_eq!(renderer.finish(), vec![0x20, 0x00]);
}

// A bottom-aligned child occupies the bottom rows of its box: the
// anchored bottom slice of the child shows at the box's bottom, and rows
// outside the box are left untouched.
#[test]
fn test_align_bottom_child_rows() {
    // The child is 1 by 3: one expanding white row on top of an anchored
    // two-row black slice.
    let child = VerticalSplit::expand_top(2, Fill::new(Color::White), Fill::new(Color::Black));
    let mut align = Align::new(HorizontalAlign::Left, VerticalAlign::Bottom, child);
    align.resize(8, 8);
    // The child sits at box rows 5..8; its black slice is rows 6 and 7.
    // Above the child its expanding top fill still paints (it ignores the
    // row index, as in a plain fill column).
    for y in 0..8 {
        let mut renderer = RowRenderer::new(vec![0x00; 1], 8);
        let clip = renderer.full_row();
        align.render_row(&mut renderer, &clip, y, 0);
        let expected: u8 = if y >= 6 {
            0x00
        } else {
            0x01
        };
        assert_eq!(renderer.finish(), vec![expected], "box row {}", y);
    }
    // Rows outside the box are untouched.
    for y in [-1, 8, 20] {
        let mut renderer = RowRenderer::new(vec![0x55; 1], 8);
        let clip = renderer.full_row();
        align.render_row(&mut renderer, &clip, y, 0);
        assert_eq!(renderer.finish(), vec![0x55]);
    }
}

// A child larger than its box is clipped to the box.
#[test]
fn test_align_clips_child_to_box() {
    // The child's minimum width is 4, the box only 2 columns wide.
    let child = HorizontalSplit::expand_left(3, Fill::new(Color::White), Fill::new(Color::White));
    let mut align = Align::new(HorizontalAlign::Left, VerticalAlign::Top, child);
    align.resize(2, 2);
    let mut renderer = RowRenderer::new(vec![0x00; 1], 8);
    let clip = renderer.full_row();
    align.render_row(&mut renderer, &clip, 0, 0);
    assert_eq!(renderer.finish(), vec![0x03]);
}

#[test]
fn test_align_right_bottom_render() {
    let mut align = Align::new(HorizontalAlign::Right, VerticalAlign::Bottom, Fill::new(
        Color::White,
    ));
    align.resize(8, 8);
    // The child keeps its minimum size (1, 1), pushed to column 7.
    let mut renderer = RowRenderer::new(vec![0x00; 1], 8);
    let clip = renderer.full_row();
    align.render_row(&mut renderer, &clip, 0, 0);
    assert_eq!(renderer.finish(), vec![0x80]);
}

fn sample_font() -> &'static Font {
    // One glyph, for 'a': a 10 by 2 image drawn at rows 1 and 2 of the
    // text box (image_top 9 against ascender 10).
    let glyph = Glyph { image: sample_rle(), image_left: 0, image_top: 9, advance: 12 };
    leak(Font {
        ascender: 10,
        descender: 4,
        glyphs: leak_slice(vec![glyph]),
        charmap: leak_slice(vec!['a']),
    })
}

#[test]
fn test_get_text_size() {
    let font = sample_font();
    assert_eq!(font.get_text_size(""), (0, 14));
    assert_eq!(font.get_text_size("a"), (12, 14));
    // Unknown characters contribute zero width and are skipped.
    assert_eq!(font.get_text_size("axa"), (24, 14));
}

// A font with ascender 10 and descender 4 renders pure background white
// for any row outside [1, 14] and never touches glyph pixels there.
#[test]
fn test_font_background_outside_line() {
    let font = sample_font();
    for y in [-3, 0, 15, 40] {
        let mut renderer = RowRenderer::new(vec![0x00; 2], 16);
        let clip = renderer.full_row().clip(0, 8);
        font.render_row(&mut renderer, &clip, "a", y, 0);
        // White background inside the clip, untouched bits outside it.
        assert_eq!(renderer.finish(), vec![0xff, 0x00]);
    }
}

#[test]
fn test_font_renders_glyph_rows() {
    let font = sample_font();
    // Row 1 of the text box is row 0 of the glyph image: black [0, 4).
    let mut renderer = RowRenderer::new(vec![0x00; 2], 16);
    let clip = renderer.full_row();
    font.render_row(&mut renderer, &clip, "a", 1, 0);
    assert_eq!(renderer.finish(), vec![0xf0, 0xff]);
    // Row 2 is glyph row 1: skip 3, black [3, 10).
    let mut renderer = RowRenderer::new(vec![0x00; 2], 16);
    let clip = renderer.full_row();
    font.render_row(&mut renderer, &clip, "a", 2, 0);
    assert_eq!(renderer.finish(), vec![0x07, 0xfc]);
    // Rows inside the line but outside the glyph are background only.
    let mut renderer = RowRenderer::new(vec![0x00; 2], 16);
    let clip = renderer.full_row();
    font.render_row(&mut renderer, &clip, "a", 7, 0);
    assert_eq!(renderer.finish(), vec![0xff, 0xff]);
}

#[test]
fn test_text_element() {
    let font = sample_font();
    let mut text = Text::new("aa", font);
    assert_eq!(text.size(), (24, 14));
    assert_eq!(text.min_size(), (24, 14));
    // Resizing is ignored: the font dictates the size.
    text.resize(100, 100);
    assert_eq!(text.size(), (24, 14));
    // The second glyph starts at the first one's advance.
    let mut renderer = RowRenderer::new(vec![0x00; 4], 32);
    let clip = renderer.full_row();
    text.render_row(&mut renderer, &clip, 1, 0);
    assert_eq!(renderer.finish(), vec![0xf0, 0x0f, 0xff, 0xff]);
}

#[test]
fn test_image_element() {
    let bitmap = leak(BitmapImage {
        data: leak_slice(vec![0xaa; 8]),
        width: 16,
        height: 4,
        stride: 2,
    });
    let mut image = Image::new(bitmap);
    assert_eq!(image.min_size(), (16, 4));
    image.resize(100, 100);
    assert_eq!(image.size(), (16, 4));
    // The bitmap blit is a placeholder: nothing is drawn.
    let mut renderer = RowRenderer::new(vec![0x12; 2], 16);
    let clip = renderer.full_row();
    image.render_row(&mut renderer, &clip, 0, 0);
    assert_eq!(renderer.finish(), vec![0x12, 0x12]);
}

#[test]
fn test_layout_render_full_frame() {
    let layout = Layout::new(320, 240, Fill::new(Color::Black));
    let mut display = TestDisplay::new();
    let buffer = layout.render(&mut display, vec![0u8; 40]);
    assert_eq!(buffer.len(), 40);
    assert_eq!(display.frame.len(), 240 * 40);
    assert!(display.frame.iter().all(|b| *b == 0x00));

    let layout = Layout::new(320, 240, Fill::new(Color::White));
    let mut display = TestDisplay::new();
    layout.render(&mut display, vec![0u8; 40]);
    assert!(display.frame.iter().all(|b| *b == 0xff));
}

#[test]
fn test_layout_render_split_tree() {
    let split = HorizontalSplit::expand_left(160, Fill::new(Color::White), Fill::new(Color::Black));
    let layout = Layout::new(320, 240, split);
    let mut display = TestDisplay::new();
    layout.render(&mut display, vec![0u8; 40]);
    assert_eq!(display.frame.len(), 240 * 40);
    for row in display.frame.chunks(40) {
        assert!(row[..20].iter().all(|b| *b == 0xff));
        assert!(row[20..].iter().all(|b| *b == 0x00));
    }
}

#[test]
fn test_layout_render_partial() {
    let layout = Layout::new(320, 240, Fill::new(Color::Black));
    let mut display = TestDisplay::new();
    layout.render_partial(&mut display, 8, 2, 16, 5, vec![0u8; 40]);
    // Three rows of forty bytes; black only inside columns [8, 16).
    assert_eq!(display.partial.len(), 120);
    for chunk in display.partial.chunks(40) {
        assert_eq!(chunk[0], 0xff);
        assert_eq!(chunk[1], 0x00);
        assert!(chunk[2..].iter().all(|b| *b == 0xff));
    }
}
