//! The contribution grid: seven rows (Monday first), one column per week.
use vstd::prelude::*;

verus! {

/// Seven rows (Monday = 0 .. Sunday = 6), each with up to one cell per week.
/// A cell is `None` when the day has not happened yet (or does not exist),
/// `Some(0)` when the day has no contributions, and `Some(1..=4)` for the
/// contribution levels.
#[derive(Debug)]
pub struct ContributionGrid {
    /// `rows[day_of_week][week_index]`
    pub rows: Vec<Vec<Option<u8>>>,
}

/// The rows of a grid, as plain sequences.
pub type Cells = Seq<Seq<Option<u8>>>;

impl View for ContributionGrid {
    type V = Cells;

    open spec fn view(&self) -> Cells {
        self.rows@.map_values(|r: Vec<Option<u8>>| r@)
    }
}

/// The length of the longest row (0 for a grid without rows).
pub open spec fn max_row_len(g: Cells) -> nat
    decreases g.len(),
{
    if g.len() == 0 {
        0
    } else {
        let rest = max_row_len(g.drop_last());
        if g.last().len() > rest {
            g.last().len()
        } else {
            rest
        }
    }
}

/// The cell at (`row`, `col`); a position outside the grid reads as `None`.
pub open spec fn cell(g: Cells, row: int, col: int) -> Option<u8> {
    if 0 <= row < g.len() && 0 <= col < g[row].len() {
        g[row][col]
    } else {
        None
    }
}

/// The cell of day `d`, counting days in time order: week `d / 7`, weekday `d % 7`.
pub open spec fn day(g: Cells, d: int) -> Option<u8> {
    cell(g, d % 7, d / 7)
}

/// The latest day before `n` that has data, or -1 when there is none.
pub open spec fn last_day_with_data(g: Cells, n: int) -> int
    decreases n,
{
    if n <= 0 {
        -1
    } else if day(g, n - 1) is Some {
        n - 1
    } else {
        last_day_with_data(g, n - 1)
    }
}

/// The latest day before `n` with no contributions (`Some(0)`), or -1 when there is none.
pub open spec fn last_empty_day(g: Cells, n: int) -> int
    decreases n,
{
    if n <= 0 {
        -1
    } else if day(g, n - 1) == Some(0u8) {
        n - 1
    } else {
        last_empty_day(g, n - 1)
    }
}

/// The first day in `lo..hi` that has data, or `hi` when there is none.
pub open spec fn first_day_with_data(g: Cells, lo: int, hi: int) -> int
    decreases hi - lo,
{
    if lo >= hi {
        hi
    } else if day(g, lo) is Some {
        lo
    } else {
        first_day_with_data(g, lo + 1, hi)
    }
}

/// The number of days that a grid with `n` columns spans.
pub open spec fn span(n: nat) -> int {
    (7 * n) as int
}

/// The most recent day with data in the grid (-1 when there is none).
pub open spec fn latest_day(g: Cells) -> int {
    last_day_with_data(g, span(max_row_len(g)))
}

/// The column in which the current streak starts.
///
/// Walking back from the latest day with data, days without data are skipped
/// and the streak ends at the first day without contributions. The streak
/// starts on the first day with data after that day; when the latest day
/// itself has no contributions, the streak is that day's column; when no day
/// without contributions precedes it, the streak reaches back to column 0.
pub open spec fn streak_start_col(g: Cells) -> int {
    let last = latest_day(g);
    let zero = last_empty_day(g, last + 1);
    if zero < 0 {
        0
    } else if zero == last {
        last / 7
    } else {
        first_day_with_data(g, zero + 1, last + 1) / 7
    }
}

/// The weeks of padding kept before the current streak.
pub open spec fn streak_padding() -> int {
    2
}

/// The first column that stays visible after trimming.
pub open spec fn trim_start_col(g: Cells) -> int {
    let s = streak_start_col(g);
    if s >= streak_padding() {
        s - streak_padding()
    } else {
        0
    }
}

/// Every row with its first `start` cells dropped (an empty row where it is shorter).
pub open spec fn drop_columns(g: Cells, start: int) -> Cells {
    Seq::new(
        g.len(),
        |r: int|
            if start < g[r].len() {
                g[r].subrange(start, g[r].len() as int)
            } else {
                Seq::empty()
            },
    )
}

/// Whether the grid has seven rows and at least one column.
pub open spec fn is_week_grid(g: Cells) -> bool {
    g.len() == 7 && max_row_len(g) > 0
}

/// The grid trimmed to the current streak plus the padding weeks before it.
/// A grid that is not a week grid, or has no day with data, is kept as it is.
pub open spec fn trimmed_to_streak(g: Cells) -> Cells {
    if is_week_grid(g) && latest_day(g) >= 0 {
        drop_columns(g, trim_start_col(g))
    } else {
        g
    }
}

/// Position (`col`, `row`) of day `7 * col + row`.
pub proof fn lemma_day_index(col: int, row: int)
    requires
        0 <= col,
        0 <= row < 7,
    ensures
        (7 * col + row) / 7 == col,
        (7 * col + row) % 7 == row,
{
    vstd::arithmetic::div_mod::lemma_fundamental_div_mod_converse(7 * col + row, 7, col, row);
}

/// The cell at (`row`, `col`) of `rows`.
pub fn cell_at(rows: &Vec<Vec<Option<u8>>>, row: usize, col: usize) -> (c: Option<u8>)
    requires
        row < rows.len(),
    ensures
        c == cell(rows@.map_values(|r: Vec<Option<u8>>| r@), row as int, col as int),
{
    if col < rows[row].len() {
        rows[row][col]
    } else {
        None
    }
}

/// The cells of `rows`, as plain sequences.
pub open spec fn rows_view(rows: &Vec<Vec<Option<u8>>>) -> Cells {
    rows@.map_values(|r: Vec<Option<u8>>| r@)
}

/// Scans back from day `7 * n - 1` for the most recent day with data and
/// returns its (row, column).
pub fn find_latest_day(rows: &Vec<Vec<Option<u8>>>, n: usize) -> (r: Option<(usize, usize)>)
    requires
        rows.len() == 7,
        n > 0,
    ensures
        match r {
            Some((row, col)) => {
                &&& row < 7
                &&& col < n
                &&& 7 * col + row == last_day_with_data(rows_view(rows), span(n as nat))
                &&& day(rows_view(rows), 7 * col + row) is Some
            },
            None => last_day_with_data(rows_view(rows), span(n as nat)) == -1,
        },
{
    let ghost g = rows_view(rows);
    let mut col: usize = n - 1;
    let mut row: usize = 6;
    loop
        invariant
            rows.len() == 7,
            g == rows_view(rows),
            row < 7,
            col < n,
            last_day_with_data(g, span(n as nat)) == last_day_with_data(g, 7 * col + row + 1),
        decreases 7 * col + row,
    {
        proof {
            lemma_day_index(col as int, row as int);
        }
        if cell_at(rows, row, col).is_some() {
            return Some((row, col));
        }
        if row == 0 {
            if col == 0 {
                assert(last_day_with_data(g, 0) == -1);
                return None;
            }
            col = col - 1;
            row = 6;
        } else {
            row = row - 1;
        }
    }
}

/// Trims the grid to the current contribution streak plus two weeks of
/// padding before it.
///
/// Walks back from the most recent day with data, counting consecutive days
/// with contributions (level > 0). `None` cells are skipped; the streak breaks
/// on the first `Some(0)`. The first visible column is then
/// `max(0, streak_start_col - 2)`.
pub fn trim_to_streak(grid: ContributionGrid) -> (r: ContributionGrid)
    ensures
        r@ == trimmed_to_streak(grid@),
{
    let n = grid.column_count();
    if n == 0 || grid.rows.len() != 7 {
        return grid;
    }
    let ghost g = grid@;
    let (mut row, mut col) = match find_latest_day(&grid.rows, n) {
        Some(p) => p,
        None => {
            return grid;
        },
    };
    let ghost last = 7 * col + row;
    let mut streak_col: usize = col;
    proof {
        lemma_day_index(col as int, row as int);
    }
    loop
        invariant_except_break
            0 <= 7 * col + row <= last,
            last_empty_day(g, last + 1) == last_empty_day(g, 7 * col + row + 1),
            7 * col + row == last ==> streak_col == last / 7,
            7 * col + row < last ==> streak_col == first_day_with_data(g, 7 * col + row + 1, last + 1) / 7,
        invariant
            grid.rows.len() == 7,
            g == grid@,
            row < 7,
            col < n,
            last == latest_day(g),
            day(g, last) is Some,
        ensures
            streak_col == streak_start_col(g),
        decreases 7 * col + row,
    {
        proof {
            lemma_day_index(col as int, row as int);
        }
        match cell_at(&grid.rows, row, col) {
            Some(level) => {
                if level > 0 {
                    streak_col = col;
                } else {
                    assert(day(g, 7 * col + row) == Some(0u8));
                    assert(last_empty_day(g, 7 * col + row + 1) == 7 * col + row);
                    break;
                }
            },
            None => {},
        }
        if row == 0 {
            if col == 0 {
                assert(last_empty_day(g, 0) == -1);
                streak_col = 0;
                break;
            }
            col = col - 1;
            row = 6;
        } else {
            row = row - 1;
        }
    }
    let start: usize = if streak_col >= 2 {
        streak_col - 2
    } else {
        0
    };
    let mut new_rows: Vec<Vec<Option<u8>>> = Vec::new();
    let mut r: usize = 0;
    while r < 7
        invariant
            r <= 7,
            grid.rows.len() == 7,
            g == grid@,
            start == trim_start_col(g),
            new_rows@.len() == r,
            forall|i: int| 0 <= i < r ==> #[trigger] new_rows@[i]@ == drop_columns(g, start as int)[i],
        decreases 7 - r,
    {
        let len = grid.rows[r].len();
        if start < len {
            let tail = vstd::slice::slice_subrange(grid.rows[r].as_slice(), start, len);
            new_rows.push(vstd::slice::slice_to_vec(tail));
        } else {
            new_rows.push(Vec::new());
        }
        r = r + 1;
    }
    let result = ContributionGrid { rows: new_rows };
    assert(result@ =~= drop_columns(g, start as int));
    result
}

/// The cell that lands at (`r`, `c`) when weeks are made to start on Monday:
/// Monday..Saturday keep their column and move up one row; Sunday becomes the
/// last day of the previous week.
pub open spec fn monday_first_cell(g: Cells, r: int, c: int) -> Option<u8> {
    if r < 6 {
        cell(g, r + 1, c)
    } else {
        cell(g, 0, c + 1)
    }
}

/// Whether the last of `n` remapped columns holds no day at all.
pub open spec fn last_column_empty(g: Cells, n: int) -> bool {
    forall|r: int| 0 <= r < 7 ==> #[trigger] monday_first_cell(g, r, n - 1) is None
}

/// The grid remapped to Monday-first weeks. A grid that is not a week grid is
/// kept as it is; the remapped grid keeps the number of columns, less the last
/// one when that column holds no day.
pub open spec fn monday_first(g: Cells) -> Cells {
    let n = max_row_len(g) as int;
    if !is_week_grid(g) {
        g
    } else {
        let m = if last_column_empty(g, n) {
            n - 1
        } else {
            n
        };
        Seq::new(7, |r: int| Seq::new(m as nat, |c: int| monday_first_cell(g, r, c)))
    }
}

/// Remaps the grid so weeks start on Monday instead of Sunday.
///
/// GitHub's grid has weeks as Sun..Sat columns. Sunday (row 0, column C) moves
/// to row 6, column C - 1 (the last day of the previous Monday-first week);
/// Monday..Saturday (rows 1..6, column C) move to rows 0..5 of the same column.
/// The very first Sunday has no previous week and is dropped. When every row
/// of the remapped grid ends in a missing day, that last column is removed.
pub fn rotate_to_monday_start(grid: ContributionGrid) -> (r: ContributionGrid)
    ensures
        r@ == monday_first(grid@),
{
    let n = grid.column_count();
    if grid.rows.len() != 7 || n == 0 {
        return grid;
    }
    let ghost g = grid@;
    let mut drop_last = true;
    let mut r: usize = 0;
    while r < 7
        invariant
            r <= 7,
            n > 0,
            grid.rows.len() == 7,
            g == grid@,
            drop_last == forall|i: int| 0 <= i < r ==> #[trigger] monday_first_cell(g, i, n - 1) is None,
        decreases 7 - r,
    {
        let c = if r < 6 {
            cell_at(&grid.rows, r + 1, n - 1)
        } else {
            cell_at(&grid.rows, 0, n)
        };
        assert(c == monday_first_cell(g, r as int, n - 1));
        if c.is_some() {
            drop_last = false;
        }
        r = r + 1;
    }
    let m = if drop_last {
        n - 1
    } else {
        n
    };
    let mut new_rows: Vec<Vec<Option<u8>>> = Vec::new();
    let mut r: usize = 0;
    while r < 7
        invariant
            r <= 7,
            grid.rows.len() == 7,
            g == grid@,
            m <= n,
            new_rows@.len() == r,
            forall|i: int| 0 <= i < r ==> #[trigger] new_rows@[i]@ =~= Seq::new(m as nat, |c: int| monday_first_cell(g, i, c)),
        decreases 7 - r,
    {
        let mut row: Vec<Option<u8>> = Vec::new();
        let mut c: usize = 0;
        while c < m
            invariant
                c <= m,
                m <= n,
                r < 7,
                grid.rows.len() == 7,
                g == grid@,
                row@.len() == c,
                forall|j: int| 0 <= j < c ==> #[trigger] row@[j] == monday_first_cell(g, r as int, j),
            decreases m - c,
        {
            let v = if r < 6 {
                cell_at(&grid.rows, r + 1, c)
            } else {
                cell_at(&grid.rows, 0, c + 1)
            };
            row.push(v);
            c = c + 1;
        }
        new_rows.push(row);
        r = r + 1;
    }
    let result = ContributionGrid { rows: new_rows };
    assert(result@ =~= monday_first(g));
    result
}

/// Whether the latest day with data lies after weekday `today` (Monday = 0),
/// that is, in the future of a viewer whose local day is `today`.
pub open spec fn latest_day_after(g: Cells, today: int) -> bool {
    is_week_grid(g) && latest_day(g) >= 0 && latest_day(g) % 7 > today
}

/// The grid with the latest day with data removed (set to `None`) when it lies
/// after weekday `today`; otherwise the grid as it is.
pub open spec fn without_future_day(g: Cells, today: int) -> Cells {
    if latest_day_after(g, today) {
        let d = latest_day(g);
        g.update(d % 7, g[d % 7].update(d / 7, None))
    } else {
        g
    }
}

/// Whether a future latest day is one without contributions, the only kind
/// that may be removed.
pub open spec fn future_day_is_empty(g: Cells, today: int) -> bool {
    latest_day_after(g, today) ==> day(g, latest_day(g)) == Some(0u8)
}

/// Removes the most recent day with data when it lies after weekday
/// `today_row` (Monday = 0): GitHub may be ahead of the local time zone and
/// show tomorrow with no contributions.
pub fn remove_last_day_if_future_at(grid: ContributionGrid, today_row: u8) -> (r: ContributionGrid)
    requires
        future_day_is_empty(grid@, today_row as int),
    ensures
        r@ == without_future_day(grid@, today_row as int),
{
    let n = grid.column_count();
    if n == 0 || grid.rows.len() != 7 {
        return grid;
    }
    let ghost g = grid@;
    let (last_row, last_col) = match find_latest_day(&grid.rows, n) {
        Some(p) => p,
        None => {
            return grid;
        },
    };
    proof {
        lemma_day_index(last_col as int, last_row as int);
    }
    if last_row > today_row as usize {
        let mut rows = grid.rows;
        let mut row = rows.remove(last_row);
        row[last_col] = None;
        rows.insert(last_row, row);
        let result = ContributionGrid { rows };
        assert(result@ =~= without_future_day(g, today_row as int));
        return result;
    }
    grid
}

/// Removes the most recent day with data when it lies in the future of the
/// local day (see [`remove_last_day_if_future_at`]).
///
/// Such a day must have no contributions; `None` is returned when it has some,
/// and the grid is then left for the caller to reject.
pub fn remove_last_day_if_future(grid: ContributionGrid) -> (r: Option<ContributionGrid>)
    ensures
        match r {
            Some(out) => exists|t: int|
                0 <= t < 7 && #[trigger] future_day_is_empty(grid@, t) && out@ == without_future_day(grid@, t),
            None => exists|t: int| 0 <= t < 7 && !#[trigger] future_day_is_empty(grid@, t),
        },
{
    let today = crate::clock::today_row();
    let n = grid.column_count();
    if n > 0 && grid.rows.len() == 7 {
        if let Some((row, col)) = find_latest_day(&grid.rows, n) {
            proof {
                lemma_day_index(col as int, row as int);
            }
            if row > today as usize && cell_at(&grid.rows, row, col) != Some(0u8) {
                assert(!future_day_is_empty(grid@, today as int));
                return None;
            }
        }
    }
    assert(future_day_is_empty(grid@, today as int));
    let ghost g = grid@;
    let out = remove_last_day_if_future_at(grid, today);
    assert(future_day_is_empty(g, today as int) && out@ == without_future_day(g, today as int));
    Some(out)
}

/// The grid as it is shown to a viewer whose local weekday is `today`:
/// remapped to Monday-first weeks, without a future latest day, and trimmed
/// to the current streak.
pub open spec fn prepared_grid(g: Cells, today: int) -> Cells {
    trimmed_to_streak(without_future_day(monday_first(g), today))
}

/// Prepares a grid as fetched from GitHub for display to a viewer whose local
/// weekday is `today_row` (Monday = 0): remaps it to Monday-first weeks,
/// removes a latest day that lies after `today_row`, and trims it to the
/// current streak.
///
/// `None` when the future day that would be removed has contributions.
pub fn prepare_grid_for(grid: ContributionGrid, today_row: u8) -> (r: Option<ContributionGrid>)
    ensures
        future_day_is_empty(monday_first(grid@), today_row as int) ==> (r matches Some(out) && out@
            == prepared_grid(grid@, today_row as int)),
        !future_day_is_empty(monday_first(grid@), today_row as int) ==> r is None,
{
    let rotated = rotate_to_monday_start(grid);
    let n = rotated.column_count();
    if n > 0 && rotated.rows.len() == 7 {
        if let Some((row, col)) = find_latest_day(&rotated.rows, n) {
            proof {
                lemma_day_index(col as int, row as int);
            }
            if row > today_row as usize && cell_at(&rotated.rows, row, col) != Some(0u8) {
                assert(!future_day_is_empty(rotated@, today_row as int));
                return None;
            }
        }
    }
    assert(future_day_is_empty(rotated@, today_row as int));
    Some(trim_to_streak(remove_last_day_if_future_at(rotated, today_row)))
}

/// Prepares a grid as fetched from GitHub for display: remaps it to
/// Monday-first weeks, removes a latest day that lies in the local future,
/// and trims it to the current streak.
///
/// `None` when the future day that would be removed has contributions.
pub fn prepare_grid(grid: ContributionGrid) -> (r: Option<ContributionGrid>)
    ensures
        match r {
            Some(out) => exists|t: int|
                0 <= t < 7 && #[trigger] future_day_is_empty(monday_first(grid@), t) && out@ == prepared_grid(grid@, t),
            None => exists|t: int| 0 <= t < 7 && !#[trigger] future_day_is_empty(monday_first(grid@), t),
        },
{
    let today = crate::clock::today_row();
    let ghost g = grid@;
    let r = prepare_grid_for(grid, today);
    assert(future_day_is_empty(monday_first(g), today as int) || !future_day_is_empty(monday_first(g), today as int));
    r
}

/// Loading goes by the raw grid and the local weekday alone: a raw grid that
/// comes back unchanged from the cache and is read on the same weekday as it
/// was fetched is refused exactly when it was refused then, and is otherwise
/// prepared into the same grid.
pub proof fn lemma_cache_round_trip(fetched: Cells, cached: Cells, today: int)
    requires
        cached == fetched,
        0 <= today < 7,
    ensures
        future_day_is_empty(monday_first(cached), today) == future_day_is_empty(monday_first(fetched), today),
        prepared_grid(cached, today) == prepared_grid(fetched, today),
{
}

/// Whether the cached grid may be used instead of fetching a new one: the
/// cache exists, no update is forced, and the cache is younger than two hours.
pub fn cache_is_fresh(cache_exists: bool, force_update: bool, age_secs: u64) -> (fresh: bool)
    ensures
        fresh == (cache_exists && !force_update && age_secs < 2 * 60 * 60),
{
    cache_exists && !force_update && age_secs < 7200
}

impl ContributionGrid {
    /// The number of columns: the length of the longest row.
    pub fn column_count(&self) -> (n: usize)
        ensures
            n == max_row_len(self@),
            forall|r: int| 0 <= r < self@.len() ==> #[trigger] self@[r].len() <= n,
            self@.len() > 0 ==> exists|r: int| 0 <= r < self@.len() && #[trigger] self@[r].len() == n,
    {
        let mut n: usize = 0;
        let mut i: usize = 0;
        while i < self.rows.len()
            invariant
                i <= self.rows.len(),
                n == max_row_len(self@.take(i as int)),
                forall|r: int| 0 <= r < i ==> #[trigger] self@[r].len() <= n,
                i > 0 ==> exists|r: int| 0 <= r < i && #[trigger] self@[r].len() == n,
            decreases self.rows.len() - i,
        {
            assert(self@.take(i as int + 1).drop_last() =~= self@.take(i as int));
            if self.rows[i].len() > n {
                n = self.rows[i].len();
                assert(self@[i as int].len() == n);
            }
            i = i + 1;
        }
        assert(self@.take(i as int) =~= self@);
        n
    }
}

} // verus!
