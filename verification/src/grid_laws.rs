//! Laws of the grid transformations.
use vstd::prelude::*;
use crate::grid::{
    Cells, cell, day, drop_columns, first_day_with_data, is_week_grid, last_column_empty,
    last_day_with_data, last_empty_day, latest_day, max_row_len, monday_first, monday_first_cell,
    prepared_grid, span, streak_start_col, trim_start_col, trimmed_to_streak, without_future_day,
};

verus! {

/// No row is longer than the longest row.
proof fn lemma_max_row_len_bound(g: Cells, r: int)
    requires
        0 <= r < g.len(),
    ensures
        g[r].len() <= max_row_len(g),
    decreases g.len(),
{
    if r < g.len() - 1 {
        lemma_max_row_len_bound(g.drop_last(), r);
        assert(g.drop_last()[r] == g[r]);
    }
}

/// A grid whose rows are all at most `b` long has no row longer than `b`.
proof fn lemma_max_row_len_at_most(g: Cells, b: nat)
    requires
        forall|r: int| 0 <= r < g.len() ==> #[trigger] g[r].len() <= b,
    ensures
        max_row_len(g) <= b,
    decreases g.len(),
{
    if g.len() > 0 {
        assert forall|r: int| 0 <= r < g.drop_last().len() implies #[trigger] g.drop_last()[r].len() <= b by {
            assert(g.drop_last()[r] == g[r]);
        }
        lemma_max_row_len_at_most(g.drop_last(), b);
    }
}

/// Days past the last column have no data.
proof fn lemma_day_past_end(g: Cells, d: int)
    requires
        d >= span(max_row_len(g)),
    ensures
        day(g, d) is None,
{
    let r = d % 7;
    let c = d / 7;
    assert(c >= max_row_len(g)) by {
        vstd::arithmetic::div_mod::lemma_fundamental_div_mod(d, 7);
    }
    if 0 <= r < g.len() {
        lemma_max_row_len_bound(g, r);
    }
}

/// The latest day before `n` lies before `n`.
proof fn lemma_last_day_below(g: Cells, n: int)
    requires
        0 <= n,
    ensures
        last_day_with_data(g, n) < n,
        last_day_with_data(g, n) >= -1,
        last_day_with_data(g, n) >= 0 ==> day(g, last_day_with_data(g, n)) is Some,
    decreases n,
{
    if n > 0 {
        lemma_last_day_below(g, n - 1);
    }
}

/// The latest day without contributions before `n` lies before `n`.
proof fn lemma_last_empty_below(g: Cells, n: int)
    requires
        0 <= n,
    ensures
        last_empty_day(g, n) < n,
    decreases n,
{
    if n > 0 {
        lemma_last_empty_below(g, n - 1);
    }
}

/// Days without data at the end of a range do not change the latest day.
proof fn lemma_last_day_extend(g: Cells, n: int, m: int)
    requires
        0 <= n <= m,
        forall|d: int| n <= d < m ==> #[trigger] day(g, d) is None,
    ensures
        last_day_with_data(g, m) == last_day_with_data(g, n),
    decreases m - n,
{
    if n < m {
        lemma_last_day_extend(g, n, m - 1);
    }
}

/// The first day with data in a range that holds a day with data `x` comes no later than `x`.
proof fn lemma_first_day_at_most(g: Cells, lo: int, hi: int, x: int)
    requires
        lo <= x < hi,
        day(g, x) is Some,
    ensures
        lo <= first_day_with_data(g, lo, hi) <= x,
    decreases hi - lo,
{
    if day(g, lo) is None {
        lemma_first_day_at_most(g, lo + 1, hi, x);
    }
}

/// Day `d` of a grid with its first `k` columns dropped is day `d + 7 k` of the grid.
proof fn lemma_drop_columns_day(g: Cells, k: int, d: int)
    requires
        0 <= k,
        0 <= d,
    ensures
        day(drop_columns(g, k), d) == day(g, d + 7 * k),
{
    let r = d % 7;
    let c = d / 7;
    vstd::arithmetic::div_mod::lemma_fundamental_div_mod(d, 7);
    vstd::arithmetic::div_mod::lemma_fundamental_div_mod_converse(d + 7 * k, 7, c + k, r);
    let h = drop_columns(g, k);
    if 0 <= r < g.len() {
        if k < g[r].len() {
            assert(h[r] == g[r].subrange(k, g[r].len() as int));
        }
    }
}

/// Shifting the days by `k`: the latest day with data.
proof fn lemma_shift_last_day(g: Cells, h: Cells, k: int, n: int)
    requires
        0 <= k,
        0 <= n,
        forall|d: int| 0 <= d ==> #[trigger] day(h, d) == day(g, d + k),
    ensures
        last_day_with_data(h, n) == (if last_day_with_data(g, n + k) >= k {
            last_day_with_data(g, n + k) - k
        } else {
            -1
        }),
    decreases n,
{
    if n == 0 {
        lemma_last_day_below(g, k);
    } else {
        assert(day(h, n - 1) == day(g, n - 1 + k));
        lemma_shift_last_day(g, h, k, n - 1);
    }
}

/// Shifting the days by `k`: the latest day without contributions.
proof fn lemma_shift_last_empty(g: Cells, h: Cells, k: int, n: int)
    requires
        0 <= k,
        0 <= n,
        forall|d: int| 0 <= d ==> #[trigger] day(h, d) == day(g, d + k),
    ensures
        last_empty_day(h, n) == (if last_empty_day(g, n + k) >= k {
            last_empty_day(g, n + k) - k
        } else {
            -1
        }),
    decreases n,
{
    if n == 0 {
        lemma_last_empty_below(g, k);
    } else {
        assert(day(h, n - 1) == day(g, n - 1 + k));
        lemma_shift_last_empty(g, h, k, n - 1);
    }
}

/// Shifting the days by `k`: the first day with data in a range.
proof fn lemma_shift_first_day(g: Cells, h: Cells, k: int, lo: int, hi: int)
    requires
        0 <= k,
        0 <= lo,
        forall|d: int| 0 <= d ==> #[trigger] day(h, d) == day(g, d + k),
    ensures
        first_day_with_data(h, lo, hi) == first_day_with_data(g, lo + k, hi + k) - k,
    decreases hi - lo,
{
    if lo < hi {
        assert(day(h, lo) == day(g, lo + k));
        lemma_shift_first_day(g, h, k, lo + 1, hi);
    }
}

/// Trimming keeps the most recent day with data: in the trimmed grid it is
/// the same day, counted from the first visible column.
pub proof fn lemma_trim_keeps_latest_day(g: Cells)
    requires
        is_week_grid(g),
        latest_day(g) >= 0,
    ensures
        latest_day(trimmed_to_streak(g)) == latest_day(g) - 7 * trim_start_col(g),
        day(trimmed_to_streak(g), latest_day(trimmed_to_streak(g))) == day(g, latest_day(g)),
{
    let st = trim_start_col(g);
    let h = drop_columns(g, st);
    let n = max_row_len(g);
    let last = latest_day(g);
    let zero = last_empty_day(g, last + 1);
    let s = streak_start_col(g);
    lemma_last_day_below(g, span(n));
    lemma_last_empty_below(g, last + 1);
    // The streak starts no later than the latest day.
    if zero >= 0 && zero != last {
        lemma_first_day_at_most(g, zero + 1, last + 1, last);
    }
    assert(s <= last / 7);
    assert(st <= s);
    assert(7 * st <= last) by {
        vstd::arithmetic::div_mod::lemma_fundamental_div_mod(last, 7);
    }
    assert forall|d: int| 0 <= d implies #[trigger] day(h, d) == day(g, d + 7 * st) by {
        lemma_drop_columns_day(g, st, d);
    }
    // The trimmed rows are no longer than the original ones.
    assert forall|r: int| 0 <= r < h.len() implies #[trigger] h[r].len() <= n by {
        lemma_max_row_len_bound(g, r);
    }
    lemma_max_row_len_at_most(h, n);
    let m = max_row_len(h);
    assert forall|d: int| span(m) <= d < span(n) implies #[trigger] day(h, d) is None by {
        lemma_day_past_end(h, d);
    }
    lemma_last_day_extend(h, span(m), span(n));
    lemma_shift_last_day(g, h, 7 * st, span(n));
    assert forall|d: int| span(n) <= d < span(n) + 7 * st implies #[trigger] day(g, d) is None by {
        lemma_day_past_end(g, d);
    }
    lemma_last_day_extend(g, span(n), span(n) + 7 * st);
    assert(trimmed_to_streak(g) == h);
    assert(latest_day(h) == last_day_with_data(h, span(m)));
    assert(day(h, last - 7 * st) == day(g, last));
}

/// Trimming to the streak is idempotent: a trimmed grid is already trimmed.
pub proof fn lemma_trim_idempotent(g: Cells)
    ensures
        trimmed_to_streak(trimmed_to_streak(g)) == trimmed_to_streak(g),
{
    if !(is_week_grid(g) && latest_day(g) >= 0) {
        return;
    }
    let st = trim_start_col(g);
    let h = drop_columns(g, st);
    assert(trimmed_to_streak(g) == h);
    if st == 0 {
        assert(h =~= g) by {
            assert forall|r: int| 0 <= r < g.len() implies #[trigger] h[r] == g[r] by {
                if 0 < g[r].len() {
                    assert(g[r].subrange(0, g[r].len() as int) =~= g[r]);
                } else {
                    assert(g[r] =~= Seq::<Option<u8>>::empty());
                }
            }
        }
        return;
    }
    if !(is_week_grid(h) && latest_day(h) >= 0) {
        return;
    }
    lemma_trim_keeps_latest_day(g);
    let last = latest_day(g);
    let k = 7 * st;
    let zero = last_empty_day(g, last + 1);
    let s = streak_start_col(g);
    assert(latest_day(h) == last - k);
    assert forall|d: int| 0 <= d implies #[trigger] day(h, d) == day(g, d + k) by {
        lemma_drop_columns_day(g, st, d);
    }
    lemma_shift_last_empty(g, h, k, last - k + 1);
    let zero_h = last_empty_day(h, last - k + 1);
    // A trimmed grid starts its streak within the padding weeks.
    assert(streak_start_col(h) <= 2) by {
        assert(s >= 3);
        assert(zero >= 0);
        if zero >= k {
            assert(zero_h == zero - k);
            if zero == last {
                vstd::arithmetic::div_mod::lemma_fundamental_div_mod(last, 7);
                vstd::arithmetic::div_mod::lemma_fundamental_div_mod_converse(last - k, 7, last / 7 - st, last % 7);
            } else {
                lemma_shift_first_day(g, h, k, zero_h + 1, last - k + 1);
                let f = first_day_with_data(g, zero + 1, last + 1);
                vstd::arithmetic::div_mod::lemma_fundamental_div_mod(f, 7);
                vstd::arithmetic::div_mod::lemma_fundamental_div_mod_converse(f - k, 7, f / 7 - st, f % 7);
            }
        } else {
            assert(zero_h == -1);
        }
    }
    assert(trim_start_col(h) == 0);
    assert(drop_columns(h, 0) =~= h) by {
        assert forall|r: int| 0 <= r < h.len() implies #[trigger] drop_columns(h, 0)[r] == h[r] by {
            if 0 < h[r].len() {
                assert(h[r].subrange(0, h[r].len() as int) =~= h[r]);
            } else {
                assert(h[r] =~= Seq::<Option<u8>>::empty());
            }
        }
    }
}

/// Remapping to Monday-first weeks keeps the number of columns, less the last
/// one when it would hold no day, and keeps Monday..Saturday in their columns.
pub proof fn lemma_monday_first_columns(g: Cells)
    requires
        is_week_grid(g),
    ensures
        monday_first(g).len() == 7,
        forall|r: int| 0 <= r < 7 ==> {
            ||| #[trigger] monday_first(g)[r].len() == max_row_len(g)
            ||| monday_first(g)[r].len() == max_row_len(g) - 1
        },
        forall|r: int, c: int| 0 <= r < 6 && 0 <= c < monday_first(g)[r].len() ==> #[trigger] monday_first(g)[r][c] == cell(g, r + 1, c),
        forall|c: int| 0 <= c < monday_first(g)[6].len() ==> #[trigger] monday_first(g)[6][c] == cell(g, 0, c + 1),
{
}

/// Remapping to Monday-first weeks keeps every day with data: Monday to
/// Saturday stay in their column, one row up, and a Sunday becomes the last
/// day of the week before; only a Sunday in the very first column has no place.
pub proof fn lemma_monday_first_keeps_days(g: Cells)
    requires
        is_week_grid(g),
    ensures
        forall|r: int, c: int|
            1 <= r < 7 && #[trigger] cell(g, r, c) is Some ==> c < monday_first(g)[r - 1].len()
                && monday_first(g)[r - 1][c] == cell(g, r, c),
        forall|c: int|
            1 <= c && #[trigger] cell(g, 0, c) is Some ==> c - 1 < monday_first(g)[6].len()
                && monday_first(g)[6][c - 1] == cell(g, 0, c),
{
    let n = max_row_len(g) as int;
    assert forall|r: int, c: int| 1 <= r < 7 && #[trigger] cell(g, r, c) is Some implies c < monday_first(g)[r
        - 1].len() && monday_first(g)[r - 1][c] == cell(g, r, c) by {
        lemma_max_row_len_bound(g, r);
        if last_column_empty(g, n) {
            assert(monday_first_cell(g, r - 1, n - 1) is None);
        }
    }
    assert forall|c: int| 1 <= c && #[trigger] cell(g, 0, c) is Some implies c - 1 < monday_first(g)[6].len()
        && monday_first(g)[6][c - 1] == cell(g, 0, c) by {
        lemma_max_row_len_bound(g, 0);
        if last_column_empty(g, n) {
            assert(monday_first_cell(g, 6, n - 1) is None);
        }
    }
}

/// The latest day without contributions before `n` is a day without contributions.
proof fn lemma_last_empty_is_empty(g: Cells, n: int)
    requires
        0 <= n,
    ensures
        last_empty_day(g, n) >= 0 ==> day(g, last_empty_day(g, n)) == Some(0u8),
    decreases n,
{
    if n > 0 {
        lemma_last_empty_is_empty(g, n - 1);
    }
}

/// Preparing a grid keeps the whole current streak, in place: every day with
/// data after which no day without contributions comes, up to the latest day
/// that is not in the future of `today`, is kept at the same distance from the
/// latest day. A day after `today` plays no part in where the streak starts.
pub proof fn lemma_prepared_keeps_streak(g: Cells, today: int)
    ensures
        ({
            let h = without_future_day(monday_first(g), today);
            let p = prepared_grid(g, today);
            let shift = latest_day(h) - latest_day(p);
            forall|d: int|
                0 <= d <= latest_day(h) && #[trigger] day(h, d) is Some && (forall|e: int|
                    d <= e <= latest_day(h) ==> #[trigger] day(h, e) != Some(0u8)) ==> d - shift >= 0 && day(
                    p,
                    d - shift,
                ) == day(h, d)
        }),
{
    let h = without_future_day(monday_first(g), today);
    let p = prepared_grid(g, today);
    let last = latest_day(h);
    if is_week_grid(h) && last >= 0 {
        let st = trim_start_col(h);
        lemma_trim_keeps_latest_day(h);
        assert(latest_day(p) == last - 7 * st);
        let zero = last_empty_day(h, last + 1);
        lemma_last_empty_below(h, last + 1);
        lemma_last_empty_is_empty(h, last + 1);
        assert forall|d: int|
            0 <= d <= last && #[trigger] day(h, d) is Some && (forall|e: int|
                d <= e <= last ==> #[trigger] day(h, e) != Some(0u8)) implies d - 7 * st >= 0 && day(p, d - 7 * st)
            == day(h, d) by {
            if zero >= 0 {
                assert(day(h, zero) == Some(0u8));
                assert(zero < d);
                if zero != last {
                    lemma_first_day_at_most(h, zero + 1, last + 1, d);
                    let f = first_day_with_data(h, zero + 1, last + 1);
                    vstd::arithmetic::div_mod::lemma_div_is_ordered(f, d, 7);
                }
            }
            assert(st <= d / 7);
            vstd::arithmetic::div_mod::lemma_fundamental_div_mod(d, 7);
            assert(7 * st <= d);
            lemma_drop_columns_day(h, st, d - 7 * st);
        }
    }
}

} // verus!
