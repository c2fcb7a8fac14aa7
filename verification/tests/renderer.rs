use epaper::{Color, RowRenderer, TestDisplay};

struct FillTest {
    before: [u8; 4],
    clip: (i32, i32),
    fill: (i32, i32),
    color: Color,
    ok: [u8; 4],
}

#[test]
fn test_row_renderer_fill() {
    let tests = [
        FillTest {
            before: [0; 4],
            clip: (0, 32),
            fill: (4, 16),
            color: Color::White,
            ok: [0xf0, 0xff, 0x0, 0x0],
        },
        FillTest {
            before: [0; 4],
            clip: (0, 32),
            fill: (4, 20),
            color: Color::White,
            ok: [0xf0, 0xff, 0x0f, 0x0],
        },
        FillTest {
            before: [0; 4],
            clip: (0, 32),
            fill: (2, 6),
            color: Color::White,
            ok: [0x3c, 0x0, 0x0, 0x0],
        },
        FillTest {
            before: [0; 4],
            clip: (0, 32),
            fill: (2, 6),
            color: Color::Black,
            ok: [0x0, 0x0, 0x0, 0x0],
        },
        FillTest {
            before: [0xff; 4],
            clip: (0, 32),
            fill: (2, 6),
            color: Color::Black,
            ok: [0xc3, 0xff, 0xff, 0xff],
        },
        FillTest {
            before: [0; 4],
            clip: (0, 32),
            fill: (5, 5),
            color: Color::White,
            ok: [0; 4],
        },
        FillTest {
            before: [0; 4],
            clip: (0, 32),
            fill: (-5, -4),
            color: Color::White,
            ok: [0; 4],
        },
        FillTest {
            before: [0; 4],
            clip: (9, 32),
            fill: (4, 12),
            color: Color::White,
            ok: [0, 0xe, 0, 0],
        },
        FillTest {
            before: [0; 4],
            clip: (6, 5),
            fill: (4, 12),
            color: Color::White,
            ok: [0, 0, 0, 0],
        },
    ];
    for test in &tests {
        let buffer = test.before.to_vec();
        let mut renderer = RowRenderer::new(buffer, 32);
        let clip = renderer.full_row();
        let clip = clip.clip(test.clip.0, test.clip.1);
        renderer.fill(&clip, test.fill.0, test.fill.1, test.color);
        let buffer = renderer.finish();
        println!("{:?} == {:?}?", buffer, test.ok);
        assert!(buffer == test.ok.to_vec());
    }
}

// A fill that covers the whole row, ending exactly on a byte boundary.
#[test]
fn test_fill_full_row_aligned() {
    let mut renderer = RowRenderer::new(vec![0u8; 4], 32);
    let clip = renderer.full_row();
    renderer.fill(&clip, 0, 32, Color::White);
    assert_eq!(renderer.finish(), vec![0xff; 4]);
}

// Filling the same span twice leaves the buffer exactly as after one fill.
#[test]
fn test_fill_idempotent() {
    let mut renderer = RowRenderer::new(vec![0x5au8; 4], 32);
    let clip = renderer.full_row();
    let clip = clip.clip(3, 29);
    renderer.fill(&clip, 5, 21, Color::White);
    let once = renderer.finish();
    let mut renderer = RowRenderer::new(once.clone(), 32);
    let clip = renderer.full_row();
    let clip = clip.clip(3, 29);
    renderer.fill(&clip, 5, 21, Color::White);
    let twice = renderer.finish();
    assert_eq!(once, twice);
}

// Bits outside clip-intersect-span are untouched, byte for byte.
#[test]
fn test_fill_preserves_outside() {
    let before = vec![0x12u8, 0x34, 0x56, 0x78];
    let mut renderer = RowRenderer::new(before.clone(), 32);
    let clip = renderer.full_row();
    let clip = clip.clip(8, 16);
    renderer.fill(&clip, 0, 32, Color::White);
    let after = renderer.finish();
    assert_eq!(after, vec![0x12, 0xff, 0x56, 0x78]);
}

// Empty double clips exactly when the spans do not overlap.
#[test]
fn test_clip_intersection() {
    let renderer = RowRenderer::new(vec![0u8; 4], 32);
    let full = renderer.full_row();
    assert!(full.clip(0, 10).clip(10, 20).is_empty());
    assert!(!full.clip(0, 11).clip(10, 20).is_empty());
    assert!(full.clip(5, 5).clip(0, 32).is_empty());
    assert!(full.clip(-10, -5).clip(-20, 20).is_empty());
    let (l, r) = full.clip(-10, 40).get();
    assert_eq!((l, r), (0, 32));
    let (l, r) = full.clip(4, 12).clip(8, 40).get();
    assert_eq!((l, r), (8, 12));
}

// The per-pixel surface packs most significant bit first, white as 1.
#[test]
fn test_byte_packing_fill() {
    let mut display = TestDisplay::new();
    display.fill(4, Color::White);
    assert!(display.frame.is_empty());
    display.fill(8, Color::Black);
    assert_eq!(display.frame, vec![0xf0]);
    display.fill(4, Color::White);
    assert_eq!(display.frame, vec![0xf0, 0x0f]);
    display.fill(17, Color::White);
    assert_eq!(display.frame, vec![0xf0, 0x0f, 0xff, 0xff]);
    display.fill(7, Color::Black);
    assert_eq!(display.frame, vec![0xf0, 0x0f, 0xff, 0xff, 0x80]);
}

#[test]
fn test_byte_packing_pixel() {
    let mut display = TestDisplay::new();
    for _ in 0..7 {
        display.pixel(Color::White);
    }
    assert!(display.frame.is_empty());
    display.pixel(Color::Black);
    assert_eq!(display.frame, vec![0xfe]);
    for i in 0..8 {
        display.pixel(if i % 2 == 0 { Color::White } else { Color::Black });
    }
    assert_eq!(display.frame, vec![0xfe, 0xaa]);
}

#[test]
fn test_render_bitmap_draws_nothing() {
    let mut renderer = RowRenderer::new(vec![0x12u8, 0x34], 16);
    let clip = renderer.full_row();
    renderer.render_bitmap(&clip, 0, 8, &[0xffu8]);
    assert_eq!(renderer.finish(), vec![0x12, 0x34]);
}
