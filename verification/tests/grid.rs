use contribution_wallpaper::grid::{
    ContributionGrid, cache_is_fresh, prepare_grid, prepare_grid_for, remove_last_day_if_future,
    remove_last_day_if_future_at, rotate_to_monday_start, trim_to_streak,
};

fn grid(rows: Vec<Vec<Option<u8>>>) -> ContributionGrid {
    ContributionGrid { rows }
}

fn full_week(levels: [u8; 7]) -> Vec<Option<u8>> {
    levels.iter().map(|l| Some(*l)).collect()
}

#[test]
fn column_count_is_longest_row() {
    let g = grid(vec![vec![Some(1)], vec![], vec![None, None, Some(2)]]);
    assert_eq!(g.column_count(), 3);
    assert_eq!(grid(vec![]).column_count(), 0);
}

#[test]
fn rotate_moves_sunday_to_previous_week() {
    // GitHub layout: row 0 is Sunday.
    let g = grid(vec![
        vec![Some(1), Some(2)],
        vec![Some(3), Some(4)],
        vec![Some(0), Some(0)],
        vec![Some(0), Some(0)],
        vec![Some(0), Some(0)],
        vec![Some(0), Some(0)],
        vec![Some(0), None],
    ]);
    let r = rotate_to_monday_start(g);
    assert_eq!(r.rows.len(), 7);
    assert_eq!(r.rows[0], vec![Some(3), Some(4)]);
    assert_eq!(r.rows[5], vec![Some(0), None]);
    // The first Sunday is dropped; the second becomes the last day of week 0.
    assert_eq!(r.rows[6], vec![Some(2), None]);
}

#[test]
fn rotate_drops_trailing_empty_column() {
    let g = grid(vec![
        vec![Some(1), Some(1)],
        vec![Some(1), None],
        vec![Some(1), None],
        vec![Some(1), None],
        vec![Some(1), None],
        vec![Some(1), None],
        vec![Some(1), None],
    ]);
    let r = rotate_to_monday_start(g);
    assert_eq!(r.column_count(), 1);
    assert_eq!(r.rows[6], vec![Some(1)]);
    assert_eq!(r.rows[0], vec![Some(1)]);
}

#[test]
fn rotate_keeps_grids_that_are_not_weeks() {
    let g = grid(vec![vec![Some(1)], vec![Some(2)]]);
    let r = rotate_to_monday_start(g);
    assert_eq!(r.rows, vec![vec![Some(1)], vec![Some(2)]]);
    let empty = rotate_to_monday_start(grid(vec![vec![]; 7]));
    assert_eq!(empty.rows, vec![Vec::<Option<u8>>::new(); 7]);
}

fn week_grid_with_last(last_row: usize) -> ContributionGrid {
    let mut rows = vec![vec![Some(1)]; 7];
    for (r, row) in rows.iter_mut().enumerate() {
        if r > last_row {
            row[0] = None;
        }
    }
    rows[last_row][0] = Some(0);
    grid(rows)
}

#[test]
fn remove_future_day_when_ahead_of_today() {
    let g = week_grid_with_last(4);
    let r = remove_last_day_if_future_at(g, 2);
    assert_eq!(r.rows[4][0], None);
    assert_eq!(r.rows[3][0], Some(1));
}

#[test]
fn keep_last_day_when_not_ahead() {
    let g = week_grid_with_last(4);
    let r = remove_last_day_if_future_at(g, 4);
    assert_eq!(r.rows[4][0], Some(0));
    let g = week_grid_with_last(4);
    let r = remove_last_day_if_future_at(g, 6);
    assert_eq!(r.rows[4][0], Some(0));
}

#[test]
fn remove_with_local_clock_never_removes_on_sunday_or_empty_grid() {
    // A latest day on Monday is never ahead of today.
    let g = week_grid_with_last(0);
    let r = remove_last_day_if_future(g).expect("a Monday is never in the future");
    assert_eq!(r.rows[0][0], Some(0));
    let r = remove_last_day_if_future(grid(vec![vec![None]; 7])).unwrap();
    assert_eq!(r.rows, vec![vec![None]; 7]);
}

#[test]
fn remove_with_local_clock_rejects_future_day_with_contributions() {
    // A latest day on Sunday with contributions is in the future unless today is Sunday.
    let mut rows = vec![vec![Some(1)]; 7];
    rows[6][0] = Some(3);
    let result = remove_last_day_if_future(grid(rows.clone()));
    match result {
        None => {}
        Some(g) => assert_eq!(g.rows, rows),
    }
}

#[test]
fn trim_keeps_streak_and_two_weeks_padding() {
    // 6 weeks; a zero on Wednesday of week 1; contributions afterwards.
    let mut rows = vec![vec![Some(1); 6]; 7];
    rows[2][1] = Some(0);
    let r = trim_to_streak(grid(rows));
    // The streak starts on Thursday of week 1, so nothing is trimmed (1 - 2 < 0).
    assert_eq!(r.column_count(), 6);

    let mut rows = vec![vec![Some(2); 8]; 7];
    rows[6][4] = Some(0);
    let r = trim_to_streak(grid(rows));
    // The streak starts in week 5; weeks 3 and 4 stay as padding.
    assert_eq!(r.column_count(), 5);
    assert_eq!(r.rows[6][1], Some(0));
}

#[test]
fn trim_skips_future_days_and_stops_at_zero() {
    let mut rows = vec![vec![Some(1); 6]; 7];
    // Future days in the last week.
    for row in rows.iter_mut().skip(3) {
        row[5] = None;
    }
    // Today (Wednesday of week 5) has no contributions.
    rows[2][5] = Some(0);
    let r = trim_to_streak(grid(rows));
    // The streak is today's column 5; columns 3.. stay.
    assert_eq!(r.column_count(), 3);
    assert_eq!(r.rows[2][2], Some(0));
    assert_eq!(r.rows[3][2], None);
}

#[test]
fn trim_without_zero_keeps_everything() {
    let rows = vec![vec![Some(4); 10]; 7];
    let r = trim_to_streak(grid(rows.clone()));
    assert_eq!(r.rows, rows);
}

#[test]
fn trim_leaves_grids_without_data() {
    let rows = vec![vec![None; 3]; 7];
    assert_eq!(trim_to_streak(grid(rows.clone())).rows, rows);
    let odd = vec![vec![Some(0); 3]; 5];
    assert_eq!(trim_to_streak(grid(odd.clone())).rows, odd);
}

#[test]
fn trim_is_idempotent_on_example() {
    let mut rows = vec![vec![Some(2); 12]; 7];
    rows[1][3] = Some(0);
    rows[5][7] = Some(0);
    let once = trim_to_streak(grid(rows));
    let once_rows = once.rows.clone();
    let twice = trim_to_streak(once);
    assert_eq!(twice.rows, once_rows);
    assert_eq!(once_rows[0].len(), 12 - 5);
}

#[test]
fn trim_keeps_latest_day_example() {
    let mut rows = vec![vec![Some(1); 9]; 7];
    rows[0][2] = Some(0);
    rows[4][8] = Some(3);
    for row in rows.iter_mut().skip(5) {
        row[8] = None;
    }
    let r = trim_to_streak(grid(rows));
    let last_col = r.column_count() - 1;
    assert_eq!(r.rows[4][last_col], Some(3));
}

#[test]
fn cache_freshness() {
    assert!(cache_is_fresh(true, false, 0));
    assert!(cache_is_fresh(true, false, 7199));
    assert!(!cache_is_fresh(true, false, 7200));
    assert!(!cache_is_fresh(true, true, 10));
    assert!(!cache_is_fresh(false, false, 10));
}

#[test]
fn prepare_grid_rotates_and_trims() {
    let mut rows = vec![vec![Some(1); 20]; 7];
    rows[3][2] = Some(0);
    // This week GitHub shows Sunday and Monday, so the latest day is a Monday.
    for row in rows.iter_mut().skip(2) {
        row[19] = None;
    }
    let r = prepare_grid(grid(rows)).expect("no future day with contributions");
    assert_eq!(r.rows.len(), 7);
    assert!(r.column_count() <= 20);
}

/// A GitHub grid (Sunday first) whose last week shows Sunday to Tuesday;
/// Tuesday has level `tuesday`.
fn github_grid(tuesday: u8) -> Vec<Vec<Option<u8>>> {
    let mut rows = vec![vec![Some(1), Some(1), None]; 7];
    rows[0][2] = Some(1);
    rows[1][2] = Some(1);
    rows[2][2] = Some(tuesday);
    rows
}

#[test]
fn prepare_grid_for_removes_future_day() {
    let r = prepare_grid_for(grid(github_grid(0)), 0).expect("future day is empty");
    let mut expected = vec![vec![Some(1), Some(1), None]; 7];
    expected[0][2] = Some(1);
    assert_eq!(r.rows, expected);
}

#[test]
fn prepare_grid_for_keeps_today() {
    let r = prepare_grid_for(grid(github_grid(0)), 1).expect("no future day");
    let mut expected = vec![vec![Some(1), Some(1), None]; 7];
    expected[0][2] = Some(1);
    expected[1][2] = Some(0);
    assert_eq!(r.rows, expected);
}

#[test]
fn prepare_grid_for_refuses_future_day_with_contributions() {
    assert!(prepare_grid_for(grid(github_grid(3)), 0).is_none());
    assert!(prepare_grid_for(grid(github_grid(3)), 1).is_some());
}

#[test]
fn cached_grid_prepares_like_fetched() {
    let fetched = github_grid(0);
    let json = serde_json::to_string(&fetched).expect("serialize");
    let cached: Vec<Vec<Option<u8>>> = serde_json::from_str(&json).expect("deserialize");
    assert_eq!(cached, fetched);
    for today in 0..7u8 {
        let a = prepare_grid_for(grid(fetched.clone()), today).map(|g| g.rows);
        let b = prepare_grid_for(grid(cached.clone()), today).map(|g| g.rows);
        assert_eq!(a, b);
    }
}
