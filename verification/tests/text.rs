use contribution_wallpaper::render::{draw_text_wrapped, text_can_draw};
use contribution_wallpaper::text::{is_whitespace, wrap_text};
use embedded_graphics::image::GetPixel;

#[test]
fn wrap_joins_words_that_fit() {
    assert_eq!(wrap_text("hello world foo", 11), vec!["hello world", "foo"]);
    assert_eq!(wrap_text("a\t b\n\nc", 10), vec!["a b c"]);
    assert_eq!(wrap_text("", 10), Vec::<String>::new());
    assert_eq!(wrap_text("   ", 10), Vec::<String>::new());
}

#[test]
fn wrap_cuts_long_word_at_line_start() {
    assert_eq!(wrap_text("abcdefgh", 3), vec!["abc", "def", "gh"]);
    assert_eq!(wrap_text("abcdef x", 3), vec!["abc", "def", "x"]);
}

#[test]
fn wrap_cuts_long_word_after_a_line() {
    assert_eq!(wrap_text("ab abcdefgh cd", 5), vec!["ab", "abcde", "fgh", "cd"]);
    assert_eq!(wrap_text("a bcdef", 3), vec!["a", "bcd", "ef"]);
    for line in wrap_text("x verylongword y zz", 4) {
        assert!(line.chars().count() <= 4);
    }
}

#[test]
fn wrap_lines_fit_example() {
    let lines = wrap_text("the quick brown fox jumps over the lazy dog", 9);
    for line in &lines {
        assert!(!line.is_empty());
        assert!(line.chars().count() <= 9);
    }
    assert_eq!(lines, vec!["the quick", "brown fox", "jumps", "over the", "lazy dog"]);
}

#[test]
fn wrap_keeps_words_example() {
    let text = "  ab abcdefgh\tcd  e\n fghij ";
    let lines = wrap_text(text, 4);
    let joined: String = lines.concat().chars().filter(|c| *c != ' ').collect();
    let words: String = text.split_whitespace().collect();
    assert_eq!(joined, words);
    assert_eq!(lines, vec!["ab", "abcd", "efgh", "cd e", "fghi", "j"]);
}

#[test]
fn whitespace_is_unicode_white_space() {
    for c in [' ', '\t', '\n', '\r', '\u{0b}', '\u{0c}', '\u{85}', '\u{a0}', '\u{2003}', '\u{3000}'] {
        assert!(is_whitespace(c));
        assert!(c.is_whitespace());
    }
    for c in ['a', '_', '\u{200b}', '0'] {
        assert!(!is_whitespace(c));
        assert!(!c.is_whitespace());
    }
}

#[test]
fn draw_text_paints_glyph_from_font() {
    let (width, height) = (20u32, 20u32);
    let len = (width * height) as usize;
    let mut buffer = vec![5u32; len];
    assert!(text_can_draw(len, width, height, "A", 1, 10));
    draw_text_wrapped(&mut buffer, width, height, "A", 1, 10);
    let font = &embedded_graphics::mono_font::ascii::FONT_7X13.image;
    let idx = ('A' as u32 - 32) as i32;
    let (ax, ay) = ((idx % 16) * 7, (idx / 16) * 13);
    let (left, top) = (6usize, 3usize);
    let mut set = 0;
    for y in 0..13 {
        for x in 0..7 {
            let on = font
                .pixel(embedded_graphics::geometry::Point::new(ax + x as i32, ay + y as i32))
                .unwrap()
                == embedded_graphics::pixelcolor::BinaryColor::On;
            let expected = if on { 0xffff_ffff } else { 0 };
            assert_eq!(buffer[(top + y) * 20 + left + x], expected);
            if on {
                set += 1;
            }
        }
    }
    assert!(set > 0);
    // Outside the glyph the buffer is untouched.
    assert_eq!(buffer[0], 5);
    assert_eq!(buffer[(top + 5) * 20 + left + 7], 5);
}

#[test]
fn draw_text_scales_and_skips_non_ascii() {
    let (width, height) = (40u32, 40u32);
    let len = (width * height) as usize;
    let mut buffer = vec![5u32; len];
    assert!(text_can_draw(len, width, height, "é", 2, 10));
    draw_text_wrapped(&mut buffer, width, height, "é", 2, 10);
    // 'é' is U+00E9: its low byte 0xe9 is not printable ASCII, so nothing is drawn.
    assert!(buffer.iter().all(|p| *p == 5));
}

#[test]
fn text_rejects_screens_that_are_too_small() {
    assert!(!text_can_draw(400, 20, 10, "A", 1, 10));
    assert!(!text_can_draw(400, 5, 20, "A", 1, 10));
    assert!(!text_can_draw(100, 20, 20, "A", 1, 10));
    assert!(text_can_draw(0, 0, 0, "A", 0, 10));
}
