//! Drawing the contribution graph into an ARGB pixel buffer.
use vstd::prelude::*;
use crate::color::{apply_transparency, transparent};
use crate::grid::{Cells, ContributionGrid, cell, max_row_len};

verus! {

/// Rows of the graph: one per weekday.
pub const DAYS_IN_WEEK: u32 = 7;

/// Side of one day's square, gap included, in pixels.
pub const SQUARE_SIZE: u32 = 21;

/// Width of the frame drawn between squares, in pixels.
pub const GAP_SIZE: u32 = 6;

/// Half the width of the screen the graph is anchored to, in pixels.
pub const ROTATION_BASE: usize = 1720;

/// Pixels kept free to the right of the graph.
pub const RIGHT_PADDING: usize = 30;

/// The cell of weekday `row`, week `col`; `None` outside the seven weekdays
/// and outside the grid.
pub open spec fn graph_cell(g: Cells, row: int, col: int) -> Option<u8> {
    if 0 <= row < DAYS_IN_WEEK {
        cell(g, row, col)
    } else {
        None
    }
}

/// Whether weekday `row` of week `col` is a day of the grid.
pub open spec fn cell_exists_at(g: Cells, row: int, col: int) -> bool {
    graph_cell(g, row, col) is Some
}

/// Colour of the frame around days.
pub open spec fn frame_color() -> u32 {
    transparent(0, 0, 0)
}

/// Colour of a day's square for a contribution level; levels past 4 take the colour of 4.
pub open spec fn level_color(level: u8) -> u32 {
    if level == 0 {
        transparent(20, 20, 20)
    } else if level == 1 {
        transparent(10, 70, 25)
    } else if level == 2 {
        transparent(16, 112, 40)
    } else if level == 3 {
        transparent(20, 140, 50)
    } else {
        transparent(24, 168, 60)
    }
}

/// Width of the graph rectangle, in pixels.
pub open spec fn rect_width(g: Cells) -> int {
    max_row_len(g) * SQUARE_SIZE + GAP_SIZE
}

/// Height of the graph rectangle, in pixels.
pub open spec fn rect_height() -> int {
    DAYS_IN_WEEK * SQUARE_SIZE + GAP_SIZE
}

/// Left edge of the graph rectangle, centred on a screen `width` pixels wide.
pub open spec fn rect_left(g: Cells, width: int) -> int {
    (width - rect_width(g)) / 2
}

/// Top edge of the graph rectangle, centred on a screen `height` pixels high.
pub open spec fn rect_top(height: int) -> int {
    (height - rect_height()) / 2
}

/// Colour of pixel (`x`, `y`) of the graph rectangle, `None` where nothing is drawn.
///
/// Each day owns the square of `SQUARE_SIZE` pixels whose top and left
/// `GAP_SIZE` pixels form the frame. A frame pixel is drawn when a day that it
/// borders exists; a square's inside takes the colour of the day's level.
pub open spec fn graph_pixel(g: Cells, x: int, y: int) -> Option<u32> {
    let col = x / (SQUARE_SIZE as int);
    let row = y / (SQUARE_SIZE as int);
    let gap_x = (x % (SQUARE_SIZE as int)) < (GAP_SIZE as int);
    let gap_y = (y % (SQUARE_SIZE as int)) < (GAP_SIZE as int);
    if gap_x && gap_y {
        if cell_exists_at(g, row, col) || cell_exists_at(g, row - 1, col) || cell_exists_at(g, row, col - 1)
            || cell_exists_at(g, row - 1, col - 1) {
            Some(frame_color())
        } else {
            None
        }
    } else if gap_x {
        if cell_exists_at(g, row, col) || cell_exists_at(g, row, col - 1) {
            Some(frame_color())
        } else {
            None
        }
    } else if gap_y {
        if cell_exists_at(g, row, col) || cell_exists_at(g, row - 1, col) {
            Some(frame_color())
        } else {
            None
        }
    } else {
        match graph_cell(g, row, col) {
            Some(level) => Some(level_color(level)),
            None => None,
        }
    }
}

/// Position of buffer index `i` inside the graph rectangle, as (x, y).
pub open spec fn rect_pos(g: Cells, width: int, height: int, i: int) -> (int, int) {
    (i % width - rect_left(g, width), i / width - rect_top(height))
}

/// Whether (`x`, `y`) lies inside the graph rectangle.
pub open spec fn in_rect(g: Cells, x: int, y: int) -> bool {
    0 <= x < rect_width(g) && 0 <= y < rect_height()
}

/// Colour that the graph gives buffer index `i`, `None` where it draws nothing.
pub open spec fn pixel_at_index(g: Cells, width: int, height: int, i: int) -> Option<u32> {
    let (x, y) = rect_pos(g, width, height, i);
    if in_rect(g, x, y) {
        graph_pixel(g, x, y)
    } else {
        None
    }
}

/// Buffer index of pixel (`x`, `y`) of the graph rectangle.
pub open spec fn rect_index(g: Cells, width: int, height: int, x: int, y: int) -> int {
    (rect_top(height) + y) * width + rect_left(g, width) + x
}

/// The buffer with the graph painted over it.
pub open spec fn painted(old: Seq<u32>, g: Cells, width: int, height: int) -> Seq<u32> {
    Seq::new(
        old.len(),
        |i: int|
            match pixel_at_index(g, width, height, i) {
                Some(c) => c,
                None => old[i],
            },
    )
}

/// The number of places the buffer is rotated right after painting.
pub open spec fn rotation(g: Cells) -> int {
    ROTATION_BASE - max_row_len(g) * 10 - 7 - RIGHT_PADDING
}

/// `s` rotated right by `k` places: the last `k` elements move to the front.
pub open spec fn rotated_right<T>(s: Seq<T>, k: int) -> Seq<T> {
    Seq::new(s.len(), |i: int| if i >= k { s[i - k] } else { s[i + s.len() - k] })
}

/// Whether every pixel that the graph draws lands inside a buffer of `len`
/// pixels at an index that fits in a `u32`.
pub open spec fn graph_fits(g: Cells, width: int, height: int, len: int) -> bool {
    forall|x: int, y: int|
        #![trigger graph_pixel(g, x, y)]
        in_rect(g, x, y) && graph_pixel(g, x, y) is Some ==> rect_index(g, width, height, x, y) < len
            && rect_index(g, width, height, x, y) <= u32::MAX
}

/// Whether the graph of `g` can be drawn on a `width` x `height` screen whose
/// buffer holds `len` pixels.
pub open spec fn graph_drawable(g: Cells, width: int, height: int, len: int) -> bool {
    &&& g.len() >= DAYS_IN_WEEK
    &&& max_row_len(g) * 10 + 7 + RIGHT_PADDING <= ROTATION_BASE
    &&& rect_width(g) <= width
    &&& rect_height() <= height
    &&& rotation(g) <= len
    &&& graph_fits(g, width, height, len)
}

/// Whether weekday `row` of week `col` is a day of the grid.
pub fn cell_exists(grid: &ContributionGrid, row: u32, col: u32) -> (b: bool)
    requires
        row >= DAYS_IN_WEEK || row < grid.rows.len(),
    ensures
        b == cell_exists_at(grid@, row as int, col as int),
{
    if row >= DAYS_IN_WEEK {
        return false;
    }
    let row = row as usize;
    let col = col as usize;
    if col >= grid.rows[row].len() {
        return false;
    }
    grid.rows[row][col].is_some()
}

/// The level of weekday `row` of week `col`, `None` where there is no such day.
pub fn cell_value(grid: &ContributionGrid, row: u32, col: u32) -> (v: Option<u8>)
    requires
        row >= DAYS_IN_WEEK || row < grid.rows.len(),
    ensures
        v == graph_cell(grid@, row as int, col as int),
{
    if row >= DAYS_IN_WEEK {
        return None;
    }
    let row = row as usize;
    let col = col as usize;
    if col >= grid.rows[row].len() {
        return None;
    }
    grid.rows[row][col]
}

/// Colour of pixel (`x`, `y`) of the graph rectangle.
fn pixel_color(grid: &ContributionGrid, x: u32, y: u32, frame: u32, levels: &[u32; 5]) -> (c: Option<u32>)
    requires
        grid.rows.len() >= DAYS_IN_WEEK,
        frame == frame_color(),
        forall|l: u8| l < 5 ==> #[trigger] levels@[l as int] == level_color(l),
    ensures
        c == graph_pixel(grid@, x as int, y as int),
{
    let col = x / SQUARE_SIZE;
    let row = y / SQUARE_SIZE;
    let gap_x = x % SQUARE_SIZE < GAP_SIZE;
    let gap_y = y % SQUARE_SIZE < GAP_SIZE;
    if gap_x && gap_y {
        let draw = cell_exists(grid, row, col) || (row > 0 && cell_exists(grid, row - 1, col)) || (col > 0
            && cell_exists(grid, row, col - 1)) || (row > 0 && col > 0 && cell_exists(grid, row - 1, col - 1));
        if draw {
            Some(frame)
        } else {
            None
        }
    } else if gap_x {
        let draw = cell_exists(grid, row, col) || (col > 0 && cell_exists(grid, row, col - 1));
        if draw {
            Some(frame)
        } else {
            None
        }
    } else if gap_y {
        let draw = cell_exists(grid, row, col) || (row > 0 && cell_exists(grid, row - 1, col));
        if draw {
            Some(frame)
        } else {
            None
        }
    } else {
        match cell_value(grid, row, col) {
            Some(level) => {
                let i: usize = if level < 5 {
                    level as usize
                } else {
                    4
                };
                assert(levels@[i as int] == level_color(level)) by {
                    if level >= 5 {
                        assert(levels@[4] == level_color(4u8));
                    } else {
                        assert(levels@[level as int] == level_color(level));
                    }
                }
                Some(levels[i])
            },
            None => None,
        }
    }
}

/// Every day of the grid is drawn as a square of its level's colour, and a
/// missing day leaves the inside of its square undrawn.
pub proof fn lemma_day_square(g: Cells, row: int, col: int, dx: int, dy: int)
    requires
        0 <= row < DAYS_IN_WEEK,
        0 <= col,
        GAP_SIZE <= dx < SQUARE_SIZE,
        GAP_SIZE <= dy < SQUARE_SIZE,
    ensures
        graph_pixel(g, col * SQUARE_SIZE + dx, row * SQUARE_SIZE + dy) == match graph_cell(g, row, col) {
            Some(level) => Some(level_color(level)),
            None => None,
        },
{
    vstd::arithmetic::div_mod::lemma_fundamental_div_mod_converse(col * 21 + dx, 21, col, dx);
    vstd::arithmetic::div_mod::lemma_fundamental_div_mod_converse(row * 21 + dy, 21, row, dy);
}

/// The red byte of an ARGB pixel.
pub open spec fn red(p: u32) -> int {
    (p as int / 0x1_0000) % 0x100
}

/// The green byte of an ARGB pixel.
pub open spec fn green(p: u32) -> int {
    (p as int / 0x100) % 0x100
}

/// The blue byte of an ARGB pixel.
pub open spec fn blue(p: u32) -> int {
    p as int % 0x100
}

/// Whether an ARGB pixel is a shade of grey: its red, green and blue are equal.
pub open spec fn is_grey(p: u32) -> bool {
    red(p) == green(p) && green(p) == blue(p)
}

/// Whether green is the strongest channel of an ARGB pixel.
pub open spec fn is_green(p: u32) -> bool {
    green(p) > red(p) && green(p) > blue(p)
}

/// The colours of the levels: a day without contributions is grey, a day with
/// contributions is green, and greener the more contributions it has; levels
/// from 4 up look alike.
pub proof fn lemma_level_colors(a: u8, b: u8)
    ensures
        is_grey(level_color(0)),
        a > 0 ==> is_green(level_color(a)),
        0 < a < b <= 4 ==> green(level_color(a)) < green(level_color(b)),
        a >= 4 ==> level_color(a) == level_color(4),
{
    assert(level_color(0) == 0x800a_0a0a);
    assert(level_color(1) == 0x8005_230d);
    assert(level_color(2) == 0x8008_3814);
    assert(level_color(3) == 0x800a_4619);
    assert(level_color(4) == 0x800c_541e);
}

/// Inside a day's square, the pixel is grey exactly when the day has no
/// contributions, and green when it has some.
pub proof fn lemma_day_shade(g: Cells, row: int, col: int, dx: int, dy: int)
    requires
        0 <= row < DAYS_IN_WEEK,
        0 <= col,
        GAP_SIZE <= dx < SQUARE_SIZE,
        GAP_SIZE <= dy < SQUARE_SIZE,
    ensures
        graph_cell(g, row, col) matches Some(level) ==> {
            &&& graph_pixel(g, col * SQUARE_SIZE + dx, row * SQUARE_SIZE + dy) matches Some(p)
            &&& is_grey(p) <==> level == 0
            &&& is_green(p) <==> level > 0
        },
{
    lemma_day_square(g, row, col, dx, dy);
    if let Some(level) = graph_cell(g, row, col) {
        lemma_level_colors(level, level);
        lemma_level_colors(0, 0);
    }
}

/// Whether buffer index `i` holds a graph pixel painted before (`x`, `y`) in
/// row-major order.
pub open spec fn painted_before(g: Cells, width: int, height: int, i: int, x: int, y: int) -> bool {
    let (px, py) = rect_pos(g, width, height, i);
    in_rect(g, px, py) && (py < y || (py == y && px < x))
}

/// The buffer after painting the graph pixels before (`x`, `y`).
pub open spec fn painted_upto(old: Seq<u32>, g: Cells, width: int, height: int, x: int, y: int) -> Seq<u32> {
    Seq::new(
        old.len(),
        |i: int|
            if painted_before(g, width, height, i, x, y) && pixel_at_index(g, width, height, i) is Some {
                pixel_at_index(g, width, height, i).unwrap()
            } else {
                old[i]
            },
    )
}

/// Buffer index `i` is the index of the rectangle pixel that it maps to.
proof fn lemma_index_pos(g: Cells, width: int, height: int, i: int, x: int, y: int)
    requires
        0 < width,
        0 <= i,
        0 <= rect_left(g, width),
        rect_left(g, width) + rect_width(g) <= width,
        0 <= rect_top(height),
        0 <= x < rect_width(g),
        0 <= y,
    ensures
        rect_pos(g, width, height, rect_index(g, width, height, x, y)) == (x, y),
        rect_pos(g, width, height, i) == (x, y) ==> i == rect_index(g, width, height, x, y),
{
    let left = rect_left(g, width);
    let top = rect_top(height);
    let idx = rect_index(g, width, height, x, y);
    vstd::arithmetic::mul::lemma_mul_is_commutative(top + y, width);
    vstd::arithmetic::div_mod::lemma_fundamental_div_mod_converse(idx, width, top + y, left + x);
    vstd::arithmetic::div_mod::lemma_fundamental_div_mod(i, width);
}

/// Draws the contribution graph, centred, into `buffer` (a `width` x `height`
/// ARGB screen), then rotates the buffer right so the graph sits against the
/// right side of the screen.
pub fn draw_contribution_graph(buffer: &mut [u32], width: u32, height: u32, grid: &ContributionGrid)
    requires
        graph_drawable(grid@, width as int, height as int, old(buffer)@.len() as int),
    ensures
        final(buffer)@ == rotated_right(
            painted(old(buffer)@, grid@, width as int, height as int),
            rotation(grid@),
        ),
{
    let ghost g = grid@;
    let ghost old_buf = buffer@;
    let column_count = grid.column_count() as u32;
    let total_rect_width = column_count * SQUARE_SIZE + GAP_SIZE;
    let total_rect_height = DAYS_IN_WEEK * SQUARE_SIZE + GAP_SIZE;
    let start_x = (width - total_rect_width) / 2;
    let start_y = (height - total_rect_height) / 2;
    let surrounding_color = apply_transparency(0, 0, 0);
    let level_colors: [u32; 5] = [
        apply_transparency(20, 20, 20),
        apply_transparency(2 * 5, 14 * 5, 5 * 5),
        apply_transparency(2 * 8, 14 * 8, 5 * 8),
        apply_transparency(2 * 10, 14 * 10, 5 * 10),
        apply_transparency(2 * 12, 14 * 12, 5 * 12),
    ];
    assert forall|l: u8| l < 5 implies #[trigger] level_colors@[l as int] == level_color(l) by {}
    assert(start_x == rect_left(g, width as int));
    assert(start_y == rect_top(height as int));
    assert(buffer@ == painted_upto(old_buf, g, width as int, height as int, 0, 0));
    let mut y: u32 = 0;
    while y < total_rect_height
        invariant
            g == grid@,
            graph_drawable(g, width as int, height as int, old_buf.len() as int),
            total_rect_width == rect_width(g),
            total_rect_height == rect_height(),
            start_x == rect_left(g, width as int),
            start_y == rect_top(height as int),
            surrounding_color == frame_color(),
            forall|l: u8| l < 5 ==> #[trigger] level_colors@[l as int] == level_color(l),
            y <= total_rect_height,
            buffer@ == painted_upto(old_buf, g, width as int, height as int, 0, y as int),
        decreases total_rect_height - y,
    {
        let draw_y = start_y + y;
        let mut x: u32 = 0;
        while x < total_rect_width
            invariant
                g == grid@,
                graph_drawable(g, width as int, height as int, old_buf.len() as int),
                total_rect_width == rect_width(g),
                total_rect_height == rect_height(),
                start_x == rect_left(g, width as int),
                start_y == rect_top(height as int),
                surrounding_color == frame_color(),
                forall|l: u8| l < 5 ==> #[trigger] level_colors@[l as int] == level_color(l),
                y < total_rect_height,
                draw_y == start_y + y,
                x <= total_rect_width,
                buffer@ == painted_upto(old_buf, g, width as int, height as int, x as int, y as int),
            decreases total_rect_width - x,
        {
            let draw_x = start_x + x;
            let color = pixel_color(grid, x, y, surrounding_color, &level_colors);
            let ghost before = buffer@;
            if let Some(c) = color {
                assert(in_rect(g, x as int, y as int));
                let index = draw_y * width + draw_x;
                buffer[index as usize] = c;
                proof {
                    assert forall|i: int| 0 <= i < old_buf.len() implies #[trigger] buffer@[i]
                        == painted_upto(old_buf, g, width as int, height as int, x + 1, y as int)[i] by {
                        lemma_index_pos(g, width as int, height as int, i, x as int, y as int);
                    }
                    assert(buffer@ =~= painted_upto(old_buf, g, width as int, height as int, x + 1, y as int));
                }
            } else {
                proof {
                    assert forall|i: int| 0 <= i < old_buf.len() implies #[trigger] buffer@[i]
                        == painted_upto(old_buf, g, width as int, height as int, x + 1, y as int)[i] by {
                        lemma_index_pos(g, width as int, height as int, i, x as int, y as int);
                    }
                    assert(buffer@ =~= painted_upto(old_buf, g, width as int, height as int, x + 1, y as int));
                }
            }
            x = x + 1;
        }
        assert(buffer@ =~= painted_upto(old_buf, g, width as int, height as int, 0, y + 1));
        y = y + 1;
    }
    let ghost drawn = buffer@;
    assert(drawn =~= painted(old_buf, g, width as int, height as int));
    let rotation_anchor_right = ROTATION_BASE - (column_count as usize) * 10 - 7;
    let k = rotation_anchor_right - RIGHT_PADDING;
    rotate_right(buffer, k);
}

/// Whether the graph of `grid` can be drawn on a `width` x `height` screen
/// whose buffer holds `buffer_len` pixels (see [`graph_drawable`]).
pub fn graph_can_draw(buffer_len: usize, width: u32, height: u32, grid: &ContributionGrid) -> (ok: bool)
    ensures
        ok == graph_drawable(grid@, width as int, height as int, buffer_len as int),
{
    let ghost g = grid@;
    if grid.rows.len() < 7 {
        return false;
    }
    let n = grid.column_count();
    if n > 168 {
        return false;
    }
    let column_count = n as u32;
    let total_rect_width = column_count * SQUARE_SIZE + GAP_SIZE;
    let total_rect_height = DAYS_IN_WEEK * SQUARE_SIZE + GAP_SIZE;
    if total_rect_width > width || total_rect_height > height {
        return false;
    }
    let rotation = ROTATION_BASE - n * 10 - 7 - RIGHT_PADDING;
    if rotation > buffer_len {
        return false;
    }
    let start_x = (width - total_rect_width) / 2;
    let start_y = (height - total_rect_height) / 2;
    let surrounding_color = apply_transparency(0, 0, 0);
    let level_colors: [u32; 5] = [
        apply_transparency(20, 20, 20),
        apply_transparency(2 * 5, 14 * 5, 5 * 5),
        apply_transparency(2 * 8, 14 * 8, 5 * 8),
        apply_transparency(2 * 10, 14 * 10, 5 * 10),
        apply_transparency(2 * 12, 14 * 12, 5 * 12),
    ];
    assert forall|l: u8| l < 5 implies #[trigger] level_colors@[l as int] == level_color(l) by {}
    let mut y: u32 = 0;
    while y < total_rect_height
        invariant
            g == grid@,
            grid.rows.len() >= 7,
            total_rect_width == rect_width(g),
            total_rect_height == rect_height(),
            start_x == rect_left(g, width as int),
            start_y == rect_top(height as int),
            surrounding_color == frame_color(),
            forall|l: u8| l < 5 ==> #[trigger] level_colors@[l as int] == level_color(l),
            y <= total_rect_height,
            forall|px: int, py: int|
                #![trigger graph_pixel(g, px, py)]
                in_rect(g, px, py) && py < y && graph_pixel(g, px, py) is Some ==> rect_index(g, width as int, height as int, px, py)
                    < buffer_len && rect_index(g, width as int, height as int, px, py) <= u32::MAX,
        decreases total_rect_height - y,
    {
        let mut x: u32 = 0;
        while x < total_rect_width
            invariant
                g == grid@,
                grid.rows.len() >= 7,
                total_rect_width == rect_width(g),
                total_rect_height == rect_height(),
                start_x == rect_left(g, width as int),
                start_y == rect_top(height as int),
                surrounding_color == frame_color(),
                forall|l: u8| l < 5 ==> #[trigger] level_colors@[l as int] == level_color(l),
                y < total_rect_height,
                x <= total_rect_width,
                forall|px: int, py: int|
                    #![trigger graph_pixel(g, px, py)]
                    in_rect(g, px, py) && (py < y || (py == y && px < x)) && graph_pixel(g, px, py) is Some
                        ==> rect_index(g, width as int, height as int, px, py) < buffer_len && rect_index(
                        g,
                        width as int,
                        height as int,
                        px,
                        py,
                    ) <= u32::MAX,
            decreases total_rect_width - x,
        {
            if pixel_color(grid, x, y, surrounding_color, &level_colors).is_some() {
                let row = start_y + y;
                let col = start_x + x;
                assert((row as int) * (width as int) + (col as int) <= u64::MAX) by (nonlinear_arith)
                    requires
                        row <= u32::MAX,
                        width <= u32::MAX,
                        col <= u32::MAX,
                ;
                let index: u64 = row as u64 * width as u64 + col as u64;
                assert(index == rect_index(g, width as int, height as int, x as int, y as int));
                if index >= buffer_len as u64 || index > u32::MAX as u64 {
                    assert(!graph_fits(g, width as int, height as int, buffer_len as int)) by {
                        assert(in_rect(g, x as int, y as int));
                        assert(graph_pixel(g, x as int, y as int) is Some);
                    }
                    return false;
                }
            }
            x = x + 1;
        }
        y = y + 1;
    }
    true
}

/// Rotates `buffer` right by `k` places: the last `k` elements move to the front.
fn rotate_right(buffer: &mut [u32], k: usize)
    requires
        k <= old(buffer)@.len(),
    ensures
        final(buffer)@ == rotated_right(old(buffer)@, k as int),
{
    let len = buffer.len();
    let copy = vstd::slice::slice_to_vec(buffer);
    let mut i: usize = 0;
    while i < len
        invariant
            len == buffer@.len(),
            copy@ == old(buffer)@,
            copy@.len() == len,
            k <= len,
            i <= len,
            forall|j: int| 0 <= j < i ==> #[trigger] buffer@[j] == rotated_right(copy@, k as int)[j],
        decreases len - i,
    {
        let from = if i >= k {
            i - k
        } else {
            i + (len - k)
        };
        buffer[i] = copy[from];
        i = i + 1;
    }
    assert(buffer@ =~= rotated_right(copy@, k as int));
}

} // verus!
