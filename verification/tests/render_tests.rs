use claude_image_proxy::font::{AtlasFont, Mark};
use claude_image_proxy::render::{is_render_ready, render_bytes, render_chunks, Png};

/// A small synthetic atlas: 5 x 9 cells, each printable glyph a vertical
/// stroke (ink 200) at a column that depends on the code point, plus one
/// full-ink dot; the space is blank.
fn test_font() -> AtlasFont {
    let mut marks: Vec<Vec<Mark>> = Vec::new();
    for code in 32u8..=126 {
        let mut m = Vec::new();
        if code != b' ' {
            let x = (code % 5) as i32;
            for y in 1..8 {
                m.push(Mark { x, y, ink: 200 });
            }
            m.push(Mark { x: 4, y: (code % 9) as i32, ink: 255 });
            // marks outside the cell are dropped
            m.push(Mark { x: -1, y: 0, ink: 255 });
            m.push(Mark { x: 0, y: 9, ink: 255 });
        }
        marks.push(m);
    }
    AtlasFont::from_marks(7, -2, 5, &marks)
}

fn decode(p: &Png) -> (u32, u32, Vec<u8>) {
    let decoder = png::Decoder::new(&p.bytes[..]);
    let mut reader = decoder.read_info().unwrap();
    let mut buf = vec![0u8; reader.output_buffer_size()];
    let info = reader.next_frame(&mut buf).unwrap();
    buf.truncate(info.buffer_size());
    (info.width, info.height, buf)
}

#[test]
fn renders_short_text() {
    let font = test_font();
    let pngs = render_chunks(&font, "hello world\nsecond line");
    assert!(!pngs.is_empty());
    assert!(pngs[0].bytes.len() > 0);
    assert!(pngs[0].bytes.starts_with(&[0x89, b'P', b'N', b'G']));
}

#[test]
fn renders_deterministically() {
    let font = test_font();
    let a = render_chunks(&font, "fibonacci(n-1) + fibonacci(n-2)");
    let b = render_chunks(&font, "fibonacci(n-1) + fibonacci(n-2)");
    assert_eq!(a.len(), b.len());
    for (a_png, b_png) in a.iter().zip(b.iter()) {
        assert_eq!(a_png.bytes, b_png.bytes, "PNG bytes must be deterministic for cache");
    }
}

#[test]
fn synthetic_font_is_usable() {
    let font = test_font();
    assert_eq!(font.cell_w, 5);
    assert_eq!(font.cell_h, 9);
    assert_eq!(font.glyphs.len(), 95);
    assert!(is_render_ready(&font));
}

#[test]
fn malformed_font_is_refused() {
    let mut font = test_font();
    font.glyphs[3].pop();
    assert!(!is_render_ready(&font));
    let mut font = test_font();
    font.glyphs.pop();
    assert!(!is_render_ready(&font));
}

#[test]
fn one_line_is_one_column_one_row() {
    let font = test_font();
    let pngs = render_chunks(&font, "hello");
    assert_eq!(pngs.len(), 1);
    // 80 cells of 5 px plus one
    assert_eq!((pngs[0].width, pngs[0].height), (401, 9));
}

#[test]
fn empty_text_gives_one_blank_line() {
    let font = test_font();
    let pngs = render_chunks(&font, "");
    assert_eq!(pngs.len(), 1);
    assert_eq!((pngs[0].width, pngs[0].height), (401, 9));
    let (_, _, pixels) = decode(&pngs[0]);
    assert!(pixels.iter().all(|&v| v == 255));
}

#[test]
fn blank_runs_collapse_and_trailing_space_goes() {
    let font = test_font();
    let pngs = render_chunks(&font, "a   \n\n\n\n  \nb\n");
    // "a", one blank line, "b"
    assert_eq!(pngs.len(), 1);
    assert_eq!(pngs[0].height, 27);
}

#[test]
fn long_lines_wrap_at_eighty() {
    let font = test_font();
    let line = "x".repeat(200);
    let pngs = render_chunks(&font, &line);
    assert_eq!(pngs.len(), 1);
    // 80 + 80 + 40
    assert_eq!(pngs[0].height, 27);
}

#[test]
fn pages_use_newspaper_columns() {
    let font = test_font();
    let text = vec!["line"; 600].join("\n");
    let pngs = render_chunks(&font, &text);
    // 1568 / 9 = 174 lines per column, 1568 / 405 = 3 columns per page
    assert_eq!(pngs.len(), 2);
    assert_eq!((pngs[0].width, pngs[0].height), (3 * 401 + 2 * 4, 174 * 9));
    assert_eq!((pngs[1].width, pngs[1].height), (401, 78 * 9));
    for p in &pngs {
        assert!(p.width <= 1568 && p.height <= 1568);
    }
}

#[test]
fn glyph_pixels_land_in_the_image() {
    let font = test_font();
    let pngs = render_chunks(&font, "!");
    let (w, h, pixels) = decode(&pngs[0]);
    assert_eq!((w, h), (401, 9));
    // '!' is 33: stroke at column 3 (ink 200), dot at (4, 6)
    assert_eq!(pixels[(1 * w + 3) as usize], 55);
    assert_eq!(pixels[(6 * w + 4) as usize], 0);
    assert_eq!(pixels[0], 255);
    assert_eq!(pixels[(1 * w + 8) as usize], 255);
}

#[test]
fn wrap_counts_characters_not_bytes() {
    let font = test_font();
    // 41 two-byte characters: one line
    let pngs = render_chunks(&font, &"\u{e9}".repeat(41));
    assert_eq!(pngs.len(), 1);
    assert_eq!((pngs[0].width, pngs[0].height), (401, 9));
    // 81 characters: two lines
    let pngs = render_chunks(&font, &"\u{e9}".repeat(81));
    assert_eq!(pngs[0].height, 18);
    // exactly 80 characters stay one line
    let pngs = render_chunks(&font, &"\u{20ac}".repeat(80));
    assert_eq!(pngs[0].height, 9);
}

#[test]
fn wrap_cuts_at_character_boundaries() {
    let font = test_font();
    let text = format!("{}{}\u{e9}{}", "a".repeat(40), "b".repeat(39), "c".repeat(10));
    let pngs = render_chunks(&font, &text);
    // 80 characters (81 bytes) on the first line, the ten 'c's on the second
    assert_eq!(pngs.len(), 1);
    assert_eq!(pngs[0].height, 18);
    let (w, _, pixels) = decode(&pngs[0]);
    // 'c' is 99: stroke at column 4; the first 'c' is in cell 0 of line 2
    assert_eq!(pixels[(10 * w + 4) as usize], 55);
    // 'b' is 98: stroke at column 3; the last 'b' is in cell 78 of line 1
    assert_eq!(pixels[(1 * w + 78 * 5 + 3) as usize], 55);
}

#[test]
fn invalid_bytes_in_wrapped_lines_are_replaced() {
    let font = test_font();
    let mut text = vec![b'a'; 40];
    text.push(0x80);
    text.extend_from_slice(&[b'b'; 50]);
    let pngs = render_bytes(&font, &text);
    // 90 characters (the stray continuation byte belongs to the last 'a'):
    // two lines. On the first, the stray byte becomes U+FFFD, a character
    // of its own that takes a blank cell, so the first 'b' is in cell 41.
    assert_eq!(pngs[0].height, 18);
    let (w, _, pixels) = decode(&pngs[0]);
    // 'b' is 98: stroke at column 3
    assert_eq!(pixels[(1 * w + 40 * 5 + 3) as usize], 255);
    assert_eq!(pixels[(1 * w + 41 * 5 + 3) as usize], 55);
}

#[test]
fn each_character_takes_one_cell() {
    let font = test_font();
    let text = format!("{}{}", "\u{e9}".repeat(40), "!".repeat(40));
    let pngs = render_chunks(&font, &text);
    assert_eq!(pngs[0].height, 9);
    let (w, _, pixels) = decode(&pngs[0]);
    // '!' (stroke at column 3) fills cells 40..79, inside the column
    assert_eq!(pixels[(1 * w + 40 * 5 + 3) as usize], 55);
    assert_eq!(pixels[(1 * w + 79 * 5 + 3) as usize], 55);
    assert_eq!(pixels[(1 * w + 39 * 5 + 3) as usize], 255);
}

#[test]
fn equal_minified_texts_render_alike() {
    let font = test_font();
    let same = |a: &str, b: &str| {
        let (x, y) = (render_chunks(&font, a), render_chunks(&font, b));
        assert_eq!(x.len(), y.len());
        for (p, q) in x.iter().zip(y.iter()) {
            assert_eq!(p.bytes, q.bytes);
            assert_eq!((p.width, p.height), (q.width, q.height));
        }
    };
    same("a\n\n\n\nb", "a\n\nb");
    same("a \t\nb", "a\nb");
    same("", " ");
}

#[test]
fn blit_keeps_the_darker_pixel() {
    let font = test_font();
    let mut dst = vec![255u8; 10 * 10];
    dst[1 * 10 + 3] = 10;
    font.blit(b'!', &mut dst, 10, 10, 0, 0);
    assert_eq!(dst[1 * 10 + 3], 10);
    assert_eq!(dst[2 * 10 + 3], 55);
    assert_eq!(dst[6 * 10 + 4], 0);
    let before = dst.clone();
    font.blit(b'!', &mut dst, 10, 10, 0, 0);
    assert_eq!(dst, before);
}

#[test]
fn blit_clips_and_ignores_unknown_bytes() {
    let font = test_font();
    let mut dst = vec![255u8; 4 * 4];
    font.blit(b'!', &mut dst, 4, 4, 2, 2);
    // column 3 of the glyph would be at x = 5: clipped
    assert!(dst.iter().all(|&v| v == 255));
    font.blit(b'!', &mut dst, 4, 4, 0, 0);
    assert_eq!(dst[1 * 4 + 3], 55);
    let before = dst.clone();
    font.blit(200, &mut dst, 4, 4, 0, 0);
    font.blit(b'\n', &mut dst, 4, 4, 0, 0);
    assert_eq!(dst, before);
}

#[test]
fn bytes_and_text_render_alike() {
    let font = test_font();
    let a = render_chunks(&font, "same text\nsecond");
    let b = render_bytes(&font, b"same text\nsecond");
    assert_eq!(a.len(), b.len());
    assert_eq!(a[0].bytes, b[0].bytes);
}

#[test]
fn blit_order_does_not_matter() {
    let font = test_font();
    let mut a = vec![255u8; 8 * 10];
    let mut b = a.clone();
    font.blit(b'!', &mut a, 8, 10, 0, 0);
    font.blit(b'#', &mut a, 8, 10, 2, 1);
    font.blit(b'#', &mut b, 8, 10, 2, 1);
    font.blit(b'!', &mut b, 8, 10, 0, 0);
    assert_eq!(a, b);
}
