//! Rendering wrapped text, centred, into an ARGB pixel buffer.
use vstd::prelude::*;
use crate::font::{
    ASCII_END, ASCII_START, FONT_CHAR_HEIGHT, FONT_CHAR_WIDTH, atlas_height, atlas_pixel, atlas_width,
    font_image_width, font_pixel,
};
use crate::text::{chars_of, lines_view, strings_view, wrap_text, wrapped};

verus! {

/// Colour of a set glyph pixel.
pub const TEXT_ON: u32 = 0xffff_ffff;

/// Colour of a clear glyph pixel.
pub const TEXT_OFF: u32 = 0x0000_0000;

/// The length of the longest line (0 without lines).
pub open spec fn max_line_len(lines: Seq<Seq<char>>) -> nat
    decreases lines.len(),
{
    if lines.len() == 0 {
        0
    } else {
        let rest = max_line_len(lines.drop_last());
        if lines.last().len() > rest {
            lines.last().len()
        } else {
            rest
        }
    }
}

/// Width of a glyph drawn at `scale`, in pixels.
pub open spec fn glyph_w(scale: int) -> int {
    FONT_CHAR_WIDTH * scale
}

/// Height of a glyph drawn at `scale`, in pixels.
pub open spec fn glyph_h(scale: int) -> int {
    FONT_CHAR_HEIGHT * scale
}

/// Width of the text block: the longest line, in pixels.
pub open spec fn text_width(lines: Seq<Seq<char>>, scale: int) -> int {
    max_line_len(lines) * glyph_w(scale)
}

/// Left edge of the text block, centred on a screen `width` pixels wide.
pub open spec fn text_left(lines: Seq<Seq<char>>, width: int, scale: int) -> int {
    (width - text_width(lines, scale)) / 2
}

/// Top edge of the text block: one line's height centred on the screen.
pub open spec fn text_top(height: int, scale: int) -> int {
    (height - glyph_h(scale)) / 2
}

/// Left edge of line `li`, centred within the text block.
pub open spec fn line_left(lines: Seq<Seq<char>>, width: int, scale: int, li: int) -> int {
    text_left(lines, width, scale) + (text_width(lines, scale) - lines[li].len() * glyph_w(scale)) / 2
}

/// The byte that a character is drawn as (its code point, truncated to 8 bits).
pub open spec fn glyph_code(c: char) -> int {
    (c as u32) as int % 256
}

/// Whether the character is drawn: its byte is printable ASCII.
pub open spec fn is_glyph(c: char) -> bool {
    ASCII_START <= glyph_code(c) <= ASCII_END
}

/// Colour of pixel (`x`, `y`) of the glyph of `c` drawn at `scale`, `None`
/// where nothing is drawn. Glyph `a` (from the space) sits in column `a % 16`
/// and row `a / 16` of the atlas, and each atlas pixel covers `scale` x
/// `scale` screen pixels.
pub open spec fn glyph_pixel(c: char, x: int, y: int, scale: int) -> Option<u32> {
    if !is_glyph(c) {
        None
    } else {
        let a = glyph_code(c) - ASCII_START;
        let ax = (a % 16) * FONT_CHAR_WIDTH + x / scale;
        let ay = (a / 16) * FONT_CHAR_HEIGHT + y / scale;
        match atlas_pixel(ax as i32, ay as i32) {
            Some(on) => Some(
                if on {
                    TEXT_ON
                } else {
                    TEXT_OFF
                },
            ),
            None => None,
        }
    }
}

/// The (line, character, row, column) of the glyph pixel that buffer index
/// `i` shows, `None` when it shows none.
pub open spec fn text_pos(lines: Seq<Seq<char>>, width: int, height: int, scale: int, i: int) -> Option<
    (int, int, int, int),
> {
    if width <= 0 || scale <= 0 {
        None
    } else {
        let py = i / width - text_top(height, scale);
        let li = py / glyph_h(scale);
        let y = py % glyph_h(scale);
        if py < 0 || li >= lines.len() {
            None
        } else {
            let px = i % width - line_left(lines, width, scale, li);
            let ci = px / glyph_w(scale);
            let x = px % glyph_w(scale);
            if px < 0 || ci >= lines[li].len() {
                None
            } else {
                Some((li, ci, y, x))
            }
        }
    }
}

/// Colour that the text gives buffer index `i`, `None` where it draws nothing.
pub open spec fn text_pixel_at(lines: Seq<Seq<char>>, width: int, height: int, scale: int, i: int) -> Option<u32> {
    match text_pos(lines, width, height, scale, i) {
        Some((li, ci, y, x)) => glyph_pixel(lines[li][ci], x, y, scale),
        None => None,
    }
}

/// Buffer index of pixel (`x`, `y`) of character `ci` of line `li`.
pub open spec fn text_index(lines: Seq<Seq<char>>, width: int, height: int, scale: int, li: int, ci: int, y: int, x: int) -> int {
    width * (text_top(height, scale) + glyph_h(scale) * li + y) + line_left(lines, width, scale, li) + glyph_w(scale) * ci
        + x
}

/// The buffer with the text painted over it.
pub open spec fn painted_text(old: Seq<u32>, lines: Seq<Seq<char>>, width: int, height: int, scale: int) -> Seq<u32> {
    Seq::new(
        old.len(),
        |i: int|
            match text_pixel_at(lines, width, height, scale, i) {
                Some(c) => c,
                None => old[i],
            },
    )
}

/// Whether the `lines` drawn at `scale` can be painted on a `width` x
/// `height` screen whose buffer holds `len` pixels: the block is no wider and
/// a line no higher than the screen, every line's top and every glyph pixel's
/// row fit in a `u32`, and every glyph pixel lands inside the buffer at an
/// index that fits in a `u32`.
pub open spec fn text_fits(lines: Seq<Seq<char>>, width: int, height: int, scale: int, len: int) -> bool {
    &&& text_width(lines, scale) <= width
    &&& glyph_h(scale) <= height
    &&& lines.len() <= u32::MAX + 1
    &&& forall|li: int| 0 <= li < lines.len() ==> #[trigger] (glyph_h(scale) * li) + text_top(height, scale) <= u32::MAX
    &&& forall|li: int, ci: int, y: int, x: int|
        #![trigger text_index(lines, width, height, scale, li, ci, y, x)]
        0 <= li < lines.len() && 0 <= ci < lines[li].len() && is_glyph(lines[li][ci]) && 0 <= y < glyph_h(scale)
            && 0 <= x < glyph_w(scale) ==> {
            &&& text_index(lines, width, height, scale, li, ci, y, x) < len
            &&& text_index(lines, width, height, scale, li, ci, y, x) <= u32::MAX
            &&& text_top(height, scale) + glyph_h(scale) * li + y <= u32::MAX
        }
}

/// The wrap width used for wrapping: at least one character.
pub open spec fn wrap_width_used(wrap_width: int) -> int {
    if wrap_width > 1 {
        wrap_width
    } else {
        1
    }
}

/// Lexicographic order of glyph pixel positions (line, character, row, column).
pub open spec fn pos_before(t: (int, int, int, int), li: int, ci: int, y: int, x: int) -> bool {
    let (tl, tc, ty, tx) = t;
    tl < li || (tl == li && (tc < ci || (tc == ci && (ty < y || (ty == y && tx < x)))))
}

/// The buffer after painting the glyph pixels before (`li`, `ci`, `y`, `x`).
pub open spec fn painted_text_upto(
    old: Seq<u32>,
    lines: Seq<Seq<char>>,
    width: int,
    height: int,
    scale: int,
    li: int,
    ci: int,
    y: int,
    x: int,
) -> Seq<u32> {
    Seq::new(
        old.len(),
        |i: int|
            match text_pos(lines, width, height, scale, i) {
                Some(t) => if pos_before(t, li, ci, y, x) && text_pixel_at(lines, width, height, scale, i) is Some {
                    text_pixel_at(lines, width, height, scale, i).unwrap()
                } else {
                    old[i]
                },
                None => old[i],
            },
    )
}

/// No line is longer than the longest line.
proof fn lemma_max_line_len_bound(lines: Seq<Seq<char>>, li: int)
    requires
        0 <= li < lines.len(),
    ensures
        lines[li].len() <= max_line_len(lines),
    decreases lines.len(),
{
    if li < lines.len() - 1 {
        lemma_max_line_len_bound(lines.drop_last(), li);
        assert(lines.drop_last()[li] == lines[li]);
    }
}

/// Line `li` lies within the text block, and the text block within the screen.
proof fn lemma_line_within(lines: Seq<Seq<char>>, width: int, scale: int, li: int)
    requires
        0 <= li < lines.len(),
        0 <= scale,
        text_width(lines, scale) <= width,
    ensures
        0 <= text_left(lines, width, scale),
        text_left(lines, width, scale) <= line_left(lines, width, scale, li),
        line_left(lines, width, scale, li) + lines[li].len() * glyph_w(scale) <= width,
        0 <= lines[li].len() * glyph_w(scale) <= text_width(lines, scale),
{
    lemma_max_line_len_bound(lines, li);
    vstd::arithmetic::mul::lemma_mul_inequality(lines[li].len() as int, max_line_len(lines) as int, glyph_w(scale));
    vstd::arithmetic::mul::lemma_mul_nonnegative(lines[li].len() as int, glyph_w(scale));
    vstd::arithmetic::mul::lemma_mul_nonnegative(max_line_len(lines) as int, glyph_w(scale));
}

/// The buffer index of a glyph pixel maps back to that pixel, and is the only one that does.
proof fn lemma_text_index_pos(
    lines: Seq<Seq<char>>,
    width: int,
    height: int,
    scale: int,
    li: int,
    ci: int,
    y: int,
    x: int,
    i: int,
)
    requires
        0 < width,
        0 < scale,
        text_width(lines, scale) <= width,
        glyph_h(scale) <= height,
        0 <= li < lines.len(),
        0 <= ci < lines[li].len(),
        0 <= y < glyph_h(scale),
        0 <= x < glyph_w(scale),
        0 <= i,
    ensures
        text_pos(lines, width, height, scale, text_index(lines, width, height, scale, li, ci, y, x)) == Some(
            (li, ci, y, x),
        ),
        text_pos(lines, width, height, scale, i) == Some((li, ci, y, x)) ==> i == text_index(
            lines,
            width,
            height,
            scale,
            li,
            ci,
            y,
            x,
        ),
{
    let top = text_top(height, scale);
    let h = glyph_h(scale);
    let w = glyph_w(scale);
    let ll = line_left(lines, width, scale, li);
    lemma_line_within(lines, width, scale, li);
    let row = top + h * li + y;
    let col = ll + w * ci + x;
    assert(w * ci + x < w * lines[li].len()) by {
        vstd::arithmetic::mul::lemma_mul_inequality(ci + 1, lines[li].len() as int, w);
        vstd::arithmetic::mul::lemma_mul_is_distributive_add(w, ci, 1);
        vstd::arithmetic::mul::lemma_mul_is_commutative(w, lines[li].len() as int);
        vstd::arithmetic::mul::lemma_mul_is_commutative(w, ci + 1);
    }
    assert(0 <= w * ci) by {
        vstd::arithmetic::mul::lemma_mul_nonnegative(w, ci);
    }
    assert(0 <= h * li) by {
        vstd::arithmetic::mul::lemma_mul_nonnegative(h, li);
    }
    assert(0 <= col < width) by {
        vstd::arithmetic::mul::lemma_mul_is_commutative(w, lines[li].len() as int);
    }
    let idx = text_index(lines, width, height, scale, li, ci, y, x);
    assert(idx == width * row + col);
    vstd::arithmetic::div_mod::lemma_fundamental_div_mod_converse(idx, width, row, col);
    vstd::arithmetic::div_mod::lemma_fundamental_div_mod_converse(h * li + y, h, li, y);
    vstd::arithmetic::div_mod::lemma_fundamental_div_mod_converse(w * ci + x, w, ci, x);
    vstd::arithmetic::mul::lemma_mul_is_commutative(h, li);
    vstd::arithmetic::mul::lemma_mul_is_commutative(w, ci);
    assert(text_pos(lines, width, height, scale, idx) == Some((li, ci, y, x)));
    if text_pos(lines, width, height, scale, i) == Some((li, ci, y, x)) {
        vstd::arithmetic::div_mod::lemma_fundamental_div_mod(i, width);
        let py = i / width - top;
        vstd::arithmetic::div_mod::lemma_fundamental_div_mod(py, h);
        let px = i % width - ll;
        vstd::arithmetic::div_mod::lemma_fundamental_div_mod(px, w);
    }
}

/// Paints the glyph pixels of character `ci` of line `li` (whose first glyph
/// pixel row on screen is `line_y` and first column `char_x`).
fn paint_glyph(
    buffer: &mut [u32],
    width: u32,
    height: u32,
    scale: u32,
    c: char,
    line_y: u32,
    char_x: u32,
    atlas_x: u32,
    atlas_y: u32,
    Ghost(lines): Ghost<Seq<Seq<char>>>,
    Ghost(old_buf): Ghost<Seq<u32>>,
    Ghost(li): Ghost<int>,
    Ghost(ci): Ghost<int>,
)
    requires
        0 < scale,
        0 < width,
        text_fits(lines, width as int, height as int, scale as int, old_buf.len() as int),
        0 <= li < lines.len(),
        0 <= ci < lines[li].len(),
        lines[li][ci] == c,
        is_glyph(c),
        line_y == text_top(height as int, scale as int) + glyph_h(scale as int) * li,
        char_x == line_left(lines, width as int, scale as int, li) + glyph_w(scale as int) * ci,
        atlas_x == ((glyph_code(c) - ASCII_START) % 16) * FONT_CHAR_WIDTH,
        atlas_y == ((glyph_code(c) - ASCII_START) / 16) * FONT_CHAR_HEIGHT,
        old(buffer)@ == painted_text_upto(old_buf, lines, width as int, height as int, scale as int, li, ci, 0, 0),
    ensures
        final(buffer)@ == painted_text_upto(old_buf, lines, width as int, height as int, scale as int, li, ci + 1, 0, 0),
{
    let ghost sw = width as int;
    let ghost sh = height as int;
    let ghost sc = scale as int;
    let scaled_char_width = FONT_CHAR_WIDTH * scale;
    let scaled_char_height = FONT_CHAR_HEIGHT * scale;
    let mut y: u32 = 0;
    while y < scaled_char_height
        invariant
            0 < scale,
            0 < width,
            sw == width as int,
            sh == height as int,
            sc == scale as int,
            scaled_char_width == glyph_w(sc),
            scaled_char_height == glyph_h(sc),
            text_fits(lines, sw, sh, sc, old_buf.len() as int),
            0 <= li < lines.len(),
            0 <= ci < lines[li].len(),
            lines[li][ci] == c,
            is_glyph(c),
            line_y == text_top(sh, sc) + glyph_h(sc) * li,
            char_x == line_left(lines, sw, sc, li) + glyph_w(sc) * ci,
            atlas_x == ((glyph_code(c) - ASCII_START) % 16) * FONT_CHAR_WIDTH,
            atlas_y == ((glyph_code(c) - ASCII_START) / 16) * FONT_CHAR_HEIGHT,
            y <= scaled_char_height,
            buffer@ == painted_text_upto(old_buf, lines, sw, sh, sc, li, ci, y as int, 0),
        decreases scaled_char_height - y,
    {
        assert(text_top(sh, sc) + glyph_h(sc) * li + y <= u32::MAX) by {
            assert(0 <= li < lines.len() && 0 <= ci < lines[li].len() && is_glyph(lines[li][ci]));
            let _ = text_index(lines, sw, sh, sc, li, ci, y as int, 0);
        }
        let dst_y = line_y + y;
        assert(y / scale < FONT_CHAR_HEIGHT) by (nonlinear_arith)
            requires
                y < FONT_CHAR_HEIGHT * scale,
                0 < scale,
        ;
        let src_y = atlas_y + y / scale;
        let mut x: u32 = 0;
        while x < scaled_char_width
            invariant
                0 < scale,
                0 < width,
                sw == width as int,
                sh == height as int,
                sc == scale as int,
                scaled_char_width == glyph_w(sc),
                scaled_char_height == glyph_h(sc),
                text_fits(lines, sw, sh, sc, old_buf.len() as int),
                0 <= li < lines.len(),
                0 <= ci < lines[li].len(),
                lines[li][ci] == c,
                is_glyph(c),
                line_y == text_top(sh, sc) + glyph_h(sc) * li,
                char_x == line_left(lines, sw, sc, li) + glyph_w(sc) * ci,
                atlas_x == ((glyph_code(c) - ASCII_START) % 16) * FONT_CHAR_WIDTH,
                atlas_y == ((glyph_code(c) - ASCII_START) / 16) * FONT_CHAR_HEIGHT,
                y < scaled_char_height,
                dst_y == line_y + y,
                src_y == atlas_y + y as int / sc,
                src_y < atlas_height(),
                x <= scaled_char_width,
                buffer@ == painted_text_upto(old_buf, lines, sw, sh, sc, li, ci, y as int, x as int),
            decreases scaled_char_width - x,
        {
            assert(x / scale < FONT_CHAR_WIDTH) by (nonlinear_arith)
                requires
                    x < FONT_CHAR_WIDTH * scale,
                    0 < scale,
            ;
            let src_x = atlas_x + x / scale;
            let ghost idx = text_index(lines, sw, sh, sc, li, ci, y as int, x as int);
            assert(idx < old_buf.len() && idx <= u32::MAX);
            proof {
                lemma_text_index_pos(lines, sw, sh, sc, li, ci, y as int, x as int, 0);
            }
            if let Some(on) = font_pixel(src_x as i32, src_y as i32) {
                let color = if on {
                    TEXT_ON
                } else {
                    TEXT_OFF
                };
                assert(glyph_pixel(c, x as int, y as int, sc) == Some(color));
                let dst_x = char_x + x;
                assert(dst_y as int * sw + dst_x == idx) by {
                    vstd::arithmetic::mul::lemma_mul_is_commutative(dst_y as int, sw);
                }
                let index = dst_y * width + dst_x;
                buffer[index as usize] = color;
                proof {
                    assert forall|i: int| 0 <= i < old_buf.len() implies #[trigger] buffer@[i]
                        == painted_text_upto(old_buf, lines, sw, sh, sc, li, ci, y as int, x + 1)[i] by {
                        lemma_text_index_pos(lines, sw, sh, sc, li, ci, y as int, x as int, i);
                    }
                    assert(buffer@ =~= painted_text_upto(old_buf, lines, sw, sh, sc, li, ci, y as int, x + 1));
                }
            } else {
                assert(glyph_pixel(c, x as int, y as int, sc) is None);
                proof {
                    assert forall|i: int| 0 <= i < old_buf.len() implies #[trigger] buffer@[i]
                        == painted_text_upto(old_buf, lines, sw, sh, sc, li, ci, y as int, x + 1)[i] by {
                        lemma_text_index_pos(lines, sw, sh, sc, li, ci, y as int, x as int, i);
                    }
                    assert(buffer@ =~= painted_text_upto(old_buf, lines, sw, sh, sc, li, ci, y as int, x + 1));
                }
            }
            x = x + 1;
        }
        assert(buffer@ =~= painted_text_upto(old_buf, lines, sw, sh, sc, li, ci, y + 1, 0));
        y = y + 1;
    }
    assert(buffer@ =~= painted_text_upto(old_buf, lines, sw, sh, sc, li, ci + 1, 0, 0));
}

/// The wrapped lines of `text`, as characters, and the length of the longest.
pub fn text_lines(text: &str, wrap_width: usize) -> (r: (Vec<Vec<char>>, usize))
    ensures
        lines_view(r.0@) == wrapped(text@, wrap_width_used(wrap_width as int)),
        r.1 == max_line_len(wrapped(text@, wrap_width_used(wrap_width as int))),
{
    let wrap = if wrap_width > 1 {
        wrap_width
    } else {
        1
    };
    let lines = wrap_text(text, wrap);
    let ghost ls = strings_view(lines@);
    let mut line_chars: Vec<Vec<char>> = Vec::new();
    let mut k: usize = 0;
    while k < lines.len()
        invariant
            k <= lines.len(),
            ls == strings_view(lines@),
            line_chars@.len() == k,
            forall|j: int| 0 <= j < k ==> #[trigger] line_chars@[j]@ == ls[j],
        decreases lines.len() - k,
    {
        line_chars.push(chars_of(lines[k].as_str()));
        k = k + 1;
    }
    let mut max_len: usize = 0;
    let mut k: usize = 0;
    while k < line_chars.len()
        invariant
            k <= line_chars.len(),
            line_chars@.len() == ls.len(),
            forall|j: int| 0 <= j < ls.len() ==> #[trigger] line_chars@[j]@ == ls[j],
            max_len == max_line_len(ls.take(k as int)),
        decreases line_chars.len() - k,
    {
        assert(ls.take(k + 1).drop_last() =~= ls.take(k as int));
        assert(ls.take(k + 1).last() == line_chars@[k as int]@);
        if line_chars[k].len() > max_len {
            max_len = line_chars[k].len();
        }
        k = k + 1;
    }
    assert(ls.take(k as int) =~= ls);
    assert(lines_view(line_chars@) =~= ls);
    (line_chars, max_len)
}

/// Whether every pixel of the glyph of character `ci` of line `li` lands
/// inside a buffer of `len` pixels at an index and on a row that fit in a `u32`.
pub open spec fn glyph_fits(lines: Seq<Seq<char>>, width: int, height: int, scale: int, len: int, li: int, ci: int) -> bool {
    forall|y: int, x: int|
        #![trigger text_index(lines, width, height, scale, li, ci, y, x)]
        0 <= y < glyph_h(scale) && 0 <= x < glyph_w(scale) ==> {
            &&& text_index(lines, width, height, scale, li, ci, y, x) < len
            &&& text_index(lines, width, height, scale, li, ci, y, x) <= u32::MAX
            &&& text_top(height, scale) + glyph_h(scale) * li + y <= u32::MAX
        }
}

/// The last pixel of a glyph has the largest index and the lowest row.
proof fn lemma_glyph_corner(lines: Seq<Seq<char>>, width: int, height: int, scale: int, len: int, li: int, ci: int)
    requires
        0 < scale,
        0 <= width,
        text_index(lines, width, height, scale, li, ci, glyph_h(scale) - 1, glyph_w(scale) - 1) < len,
        text_index(lines, width, height, scale, li, ci, glyph_h(scale) - 1, glyph_w(scale) - 1) <= u32::MAX,
        text_top(height, scale) + glyph_h(scale) * li + glyph_h(scale) - 1 <= u32::MAX,
    ensures
        glyph_fits(lines, width, height, scale, len, li, ci),
{
    let top = text_top(height, scale);
    let h = glyph_h(scale);
    assert forall|y: int, x: int| 0 <= y < glyph_h(scale) && 0 <= x < glyph_w(scale) implies {
        &&& #[trigger] text_index(lines, width, height, scale, li, ci, y, x) < len
        &&& text_index(lines, width, height, scale, li, ci, y, x) <= u32::MAX
        &&& text_top(height, scale) + glyph_h(scale) * li + y <= u32::MAX
    } by {
        vstd::arithmetic::mul::lemma_mul_inequality(top + h * li + y, top + h * li + h - 1, width);
        vstd::arithmetic::mul::lemma_mul_is_commutative(top + h * li + y, width);
        vstd::arithmetic::mul::lemma_mul_is_commutative(top + h * li + h - 1, width);
    }
}

/// Whether `text` can be drawn by [`draw_text_wrapped`] with these arguments
/// on a buffer of `buffer_len` pixels (see [`text_fits`]).
pub fn text_can_draw(buffer_len: usize, width: u32, height: u32, text: &str, scale: u8, wrap_width: usize) -> (ok: bool)
    ensures
        ok == text_fits(
            wrapped(text@, wrap_width_used(wrap_width as int)),
            width as int,
            height as int,
            scale as int,
            buffer_len as int,
        ),
{
    let (line_chars, max_len) = text_lines(text, wrap_width);
    let ghost ls = lines_view(line_chars@);
    let ghost sw = width as int;
    let ghost sh = height as int;
    let ghost sc = scale as int;
    let gw: u128 = 7 * (scale as u128);
    let gh: u128 = 13 * (scale as u128);
    assert((max_len as int) * (gw as int) <= u128::MAX) by (nonlinear_arith)
        requires
            max_len <= u64::MAX,
            gw <= 7 * 255,
    ;
    let tw: u128 = (max_len as u128) * gw;
    assert(tw == text_width(ls, sc));
    if tw > width as u128 || gh > height as u128 {
        return false;
    }
    let n = line_chars.len();
    if n as u128 > u32::MAX as u128 + 1 {
        return false;
    }
    let top: u128 = (height as u128 - gh) / 2;
    assert(top == text_top(sh, sc));
    if n > 0 {
        assert((gh as int) * ((n - 1) as int) + top <= u128::MAX) by (nonlinear_arith)
            requires
                gh <= 13 * 255,
                n - 1 <= u32::MAX,
                top <= u32::MAX,
        ;
        if gh * ((n - 1) as u128) + top > u32::MAX as u128 {
            assert(!text_fits(ls, sw, sh, sc, buffer_len as int)) by {
                assert(glyph_h(sc) * (n - 1) + text_top(sh, sc) > u32::MAX);
            }
            return false;
        }
        assert forall|li: int| 0 <= li < ls.len() implies #[trigger] (glyph_h(sc) * li) + text_top(sh, sc) <= u32::MAX by {
            vstd::arithmetic::mul::lemma_mul_inequality(li, n - 1, glyph_h(sc));
            vstd::arithmetic::mul::lemma_mul_is_commutative(li, glyph_h(sc));
            vstd::arithmetic::mul::lemma_mul_is_commutative(n - 1, glyph_h(sc));
        }
    }
    if scale == 0 {
        return true;
    }
    let left: u128 = (width as u128 - tw) / 2;
    assert(left == text_left(ls, sw, sc));
    let mut li: usize = 0;
    while li < n
        invariant
            sw == width as int,
            sh == height as int,
            sc == scale as int,
            0 < scale,
            gw == glyph_w(sc),
            gh == glyph_h(sc),
            tw == text_width(ls, sc),
            tw <= width,
            top == text_top(sh, sc),
            left == text_left(ls, sw, sc),
            n == ls.len(),
            n <= u32::MAX + 1,
            ls == lines_view(line_chars@),
            ls == wrapped(text@, wrap_width_used(wrap_width as int)),
            forall|l: int| 0 <= l < ls.len() ==> #[trigger] (glyph_h(sc) * l) + text_top(sh, sc) <= u32::MAX,
            li <= n,
            forall|l: int, c: int|
                #![trigger glyph_fits(ls, sw, sh, sc, buffer_len as int, l, c)]
                0 <= l < li && 0 <= c < ls[l].len() && is_glyph(ls[l][c]) ==> glyph_fits(ls, sw, sh, sc, buffer_len as int, l, c),
        decreases n - li,
    {
        let ghost gl = li as int;
        proof {
            lemma_line_within(ls, sw, sc, gl);
        }
        let len = line_chars[li].len();
        assert(len == ls[gl].len());
        assert((len as int) * (gw as int) <= tw) by {
            lemma_max_line_len_bound(ls, gl);
            vstd::arithmetic::mul::lemma_mul_inequality(len as int, max_line_len(ls) as int, gw as int);
        }
        let lw: u128 = (len as u128) * gw;
        let ll: u128 = left + (tw - lw) / 2;
        assert(ll == line_left(ls, sw, sc, gl));
        let mut ci: usize = 0;
        while ci < len
            invariant
                sw == width as int,
                sh == height as int,
                sc == scale as int,
                0 < scale,
                gw == glyph_w(sc),
                gh == glyph_h(sc),
                tw <= width,
                top == text_top(sh, sc),
                n == ls.len(),
                n <= u32::MAX + 1,
                ls == lines_view(line_chars@),
                ls == wrapped(text@, wrap_width_used(wrap_width as int)),
                forall|l: int| 0 <= l < ls.len() ==> #[trigger] (glyph_h(sc) * l) + text_top(sh, sc) <= u32::MAX,
                gl == li as int,
                li < n,
                len == ls[gl].len(),
                ll == line_left(ls, sw, sc, gl),
                ll + len * gw <= width,
                ci <= len,
                forall|l: int, c: int|
                    #![trigger glyph_fits(ls, sw, sh, sc, buffer_len as int, l, c)]
                    (0 <= l < li || (l == li && c < ci)) && 0 <= c < ls[l].len() && is_glyph(ls[l][c]) ==> glyph_fits(
                        ls,
                        sw,
                        sh,
                        sc,
                        buffer_len as int,
                        l,
                        c,
                    ),
            decreases len - ci,
        {
            let c = line_chars[li][ci];
            assert(c == ls[gl][ci as int]);
            let v = (c as u32) % 256;
            let code = v as u8;
            if code >= ASCII_START && code <= ASCII_END {
                assert(is_glyph(c));
                assert((glyph_h(sc) * gl) + text_top(sh, sc) <= u32::MAX);
                let row_max: u128 = top + gh * (li as u128) + gh - 1;
                assert((width as int) * (row_max as int) + ll + (gw as int) * (ci as int) + gw <= u128::MAX) by (nonlinear_arith)
                    requires
                        width <= u32::MAX,
                        row_max <= u32::MAX + 13 * 255,
                        ll <= width,
                        gw <= 7 * 255,
                        ci <= u64::MAX,
                ;
                let idx_max: u128 = (width as u128) * row_max + ll + gw * (ci as u128) + gw - 1;
                assert(idx_max == text_index(ls, sw, sh, sc, gl, ci as int, glyph_h(sc) - 1, glyph_w(sc) - 1));
                if idx_max >= buffer_len as u128 || idx_max > u32::MAX as u128 || row_max > u32::MAX as u128 {
                    assert(!text_fits(ls, sw, sh, sc, buffer_len as int)) by {
                        if text_fits(ls, sw, sh, sc, buffer_len as int) {
                            assert(0 <= gl < ls.len() && 0 <= ci < ls[gl].len() && is_glyph(ls[gl][ci as int]));
                            assert(0 <= glyph_h(sc) - 1 < glyph_h(sc) && 0 <= glyph_w(sc) - 1 < glyph_w(sc));
                            assert(text_index(ls, sw, sh, sc, gl, ci as int, glyph_h(sc) - 1, glyph_w(sc) - 1) < buffer_len);
                            assert(text_top(sh, sc) + glyph_h(sc) * gl + (glyph_h(sc) - 1) <= u32::MAX);
                        }
                    }
                    return false;
                }
                proof {
                    lemma_glyph_corner(ls, sw, sh, sc, buffer_len as int, gl, ci as int);
                }
            }
            ci = ci + 1;
        }
        li = li + 1;
    }
    assert forall|l: int, c: int, y: int, x: int|
        0 <= l < ls.len() && 0 <= c < ls[l].len() && is_glyph(ls[l][c]) && 0 <= y < glyph_h(sc) && 0 <= x < glyph_w(sc)
        implies {
        &&& #[trigger] text_index(ls, sw, sh, sc, l, c, y, x) < buffer_len
        &&& text_index(ls, sw, sh, sc, l, c, y, x) <= u32::MAX
        &&& text_top(sh, sc) + glyph_h(sc) * l + y <= u32::MAX
    } by {
        assert(glyph_fits(ls, sw, sh, sc, buffer_len as int, l, c));
    }
    true
}

/// Draws `text`, wrapped to lines of at most `wrap_width` characters (at
/// least one), centred on a `width` x `height` ARGB screen, with every font
/// pixel enlarged to `scale` x `scale` screen pixels. Set glyph pixels are
/// painted white and clear ones transparent black; characters outside
/// printable ASCII (by their code point's low byte) are skipped.
pub fn draw_text_wrapped(buffer: &mut [u32], width: u32, height: u32, text: &str, scale: u8, wrap_width: usize)
    requires
        text_fits(
            wrapped(text@, wrap_width_used(wrap_width as int)),
            width as int,
            height as int,
            scale as int,
            old(buffer)@.len() as int,
        ),
    ensures
        final(buffer)@ == painted_text(
            old(buffer)@,
            wrapped(text@, wrap_width_used(wrap_width as int)),
            width as int,
            height as int,
            scale as int,
        ),
{
    let ghost old_buf = buffer@;
    let ghost sw = width as int;
    let ghost sh = height as int;
    let ghost sc = scale as int;
    let chars_per_row = font_image_width() / FONT_CHAR_WIDTH;
    let scale = scale as u32;
    let scaled_char_width = FONT_CHAR_WIDTH * scale;
    let scaled_char_height = FONT_CHAR_HEIGHT * scale;
    let (line_chars, max_len) = text_lines(text, wrap_width);
    let ghost ls = lines_view(line_chars@);
    assert(scale > 0 ==> max_len <= u32::MAX) by (nonlinear_arith)
        requires
            max_len * (7 * scale) <= width,
            width <= u32::MAX,
    ;
    let total_width: u32 = if scale == 0 {
        0
    } else {
        (max_len as u32) * scaled_char_width
    };
    assert(total_width == text_width(ls, sc));
    let start_x = (width - total_width) / 2;
    let start_y = (height - scaled_char_height) / 2;
    assert(buffer@ =~= painted_text_upto(old_buf, ls, sw, sh, sc, 0, 0, 0, 0));
    let mut li: usize = 0;
    while li < line_chars.len()
        invariant
            sw == width as int,
            sh == height as int,
            sc == scale as int,
            scale <= 255,
            chars_per_row == 16,
            scaled_char_width == glyph_w(sc),
            scaled_char_height == glyph_h(sc),
            text_fits(ls, sw, sh, sc, old_buf.len() as int),
            line_chars@.len() == ls.len(),
            forall|j: int| 0 <= j < ls.len() ==> #[trigger] line_chars@[j]@ == ls[j],
            total_width == text_width(ls, sc),
            start_x == text_left(ls, sw, sc),
            start_y == text_top(sh, sc),
            li <= line_chars.len(),
            buffer@ == painted_text_upto(old_buf, ls, sw, sh, sc, li as int, 0, 0, 0),
        decreases line_chars.len() - li,
    {
        let ghost gl = li as int;
        assert(glyph_h(sc) * gl + text_top(sh, sc) <= u32::MAX);
        assert(li <= u32::MAX);
        assert((li as u32) * scaled_char_height == glyph_h(sc) * gl) by (nonlinear_arith)
            requires
                scaled_char_height == glyph_h(sc),
                gl == li,
                li <= u32::MAX,
        ;
        let line_start_y = start_y + (li as u32) * scaled_char_height;
        proof {
            lemma_line_within(ls, sw, sc, gl);
        }
        let line_len = line_chars[li].len();
        assert(line_len as int == ls[gl].len());
        assert(scale > 0 ==> line_len <= u32::MAX) by {
            if scale > 0 {
                lemma_max_line_len_bound(ls, gl);
                assert(line_len <= u32::MAX) by (nonlinear_arith)
                    requires
                        line_len * (7 * scale) <= width,
                        width <= u32::MAX,
                        scale > 0,
                ;
            }
        }
        let line_width: u32 = if scale == 0 {
            0
        } else {
            assert(line_len <= max_line_len(ls)) by {
                lemma_max_line_len_bound(ls, gl);
            }
            assert(line_len <= u32::MAX) by (nonlinear_arith)
                requires
                    line_len * (7 * scale) <= width,
                    width <= u32::MAX,
                    scale > 0,
            ;
            (line_len as u32) * scaled_char_width
        };
        assert(line_width == ls[gl].len() * glyph_w(sc)) by (nonlinear_arith)
            requires
                scale == 0 ==> line_width == 0,
                scale > 0 ==> line_width == line_len * scaled_char_width,
                scaled_char_width == glyph_w(sc),
                glyph_w(sc) == 7 * scale,
                line_len == ls[gl].len(),
        ;
        let line_start_x = start_x + (total_width - line_width) / 2;
        assert(line_start_x == line_left(ls, sw, sc, gl));
        let mut ci: usize = 0;
        while ci < line_len
            invariant
                sw == width as int,
                sh == height as int,
                sc == scale as int,
                scale <= 255,
                chars_per_row == 16,
                scaled_char_width == glyph_w(sc),
                scaled_char_height == glyph_h(sc),
                text_fits(ls, sw, sh, sc, old_buf.len() as int),
                line_chars@.len() == ls.len(),
                forall|j: int| 0 <= j < ls.len() ==> #[trigger] line_chars@[j]@ == ls[j],
                gl == li as int,
                li < line_chars.len(),
                line_len == ls[gl].len(),
                line_start_y == text_top(sh, sc) + glyph_h(sc) * gl,
                line_start_x == line_left(ls, sw, sc, gl),
                scale > 0 ==> line_len <= u32::MAX,
                line_left(ls, sw, sc, gl) + ls[gl].len() * glyph_w(sc) <= sw,
                0 <= line_left(ls, sw, sc, gl),
                ci <= line_len,
                buffer@ == painted_text_upto(old_buf, ls, sw, sh, sc, gl, ci as int, 0, 0),
            decreases line_len - ci,
        {
            let c = line_chars[li][ci];
            assert(c == ls[gl][ci as int]);
            let v = (c as u32) % 256;
            assert(v < 256);
            let code = v as u8;
            assert(code as int == glyph_code(c));
            if code < ASCII_START || code > ASCII_END || scale == 0 {
                assert forall|i: int| 0 <= i < old_buf.len() implies #[trigger] buffer@[i]
                    == painted_text_upto(old_buf, ls, sw, sh, sc, gl, ci + 1, 0, 0)[i] by {
                    match text_pos(ls, sw, sh, sc, i) {
                        Some(t) => {
                            if t.0 == gl && t.1 == ci {
                                assert(text_pixel_at(ls, sw, sh, sc, i) is None);
                            }
                        },
                        None => {},
                    }
                }
                assert(buffer@ =~= painted_text_upto(old_buf, ls, sw, sh, sc, gl, ci + 1, 0, 0));
            } else {
                assert(is_glyph(c));
                let atlas_idx = (code - ASCII_START) as u32;
                let atlas_col = atlas_idx % chars_per_row;
                let atlas_row = atlas_idx / chars_per_row;
                let atlas_char_x = atlas_col * FONT_CHAR_WIDTH;
                let atlas_char_y = atlas_row * FONT_CHAR_HEIGHT;
                assert(glyph_w(sc) * ci + glyph_w(sc) <= ls[gl].len() * glyph_w(sc)) by (nonlinear_arith)
                    requires
                        ci < ls[gl].len(),
                        glyph_w(sc) >= 0,
                ;
                assert(0 < width) by (nonlinear_arith)
                    requires
                        0 <= ci < ls[gl].len(),
                        glyph_w(sc) >= 7,
                        line_left(ls, sw, sc, gl) + ls[gl].len() * glyph_w(sc) <= sw,
                        0 <= line_left(ls, sw, sc, gl),
                        sw == width,
                ;
                assert(ci <= u32::MAX);
                assert((ci as u32) * scaled_char_width == glyph_w(sc) * ci) by (nonlinear_arith)
                    requires
                        scaled_char_width == glyph_w(sc),
                        ci <= u32::MAX,
                ;
                let dst_char_x = line_start_x + (ci as u32) * scaled_char_width;
                paint_glyph(
                    buffer,
                    width,
                    height,
                    scale,
                    c,
                    line_start_y,
                    dst_char_x,
                    atlas_char_x,
                    atlas_char_y,
                    Ghost(ls),
                    Ghost(old_buf),
                    Ghost(gl),
                    Ghost(ci as int),
                );
            }
            ci = ci + 1;
        }
        assert(buffer@ =~= painted_text_upto(old_buf, ls, sw, sh, sc, gl + 1, 0, 0, 0));
        li = li + 1;
    }
    assert(buffer@ =~= painted_text(old_buf, ls, sw, sh, sc));
}

} // verus!
