use contribution_wallpaper::html::{grid_from_cells, parse_contribution_html, parse_unsigned_exec};

fn td(row: usize, col: usize, level: &str) -> String {
    format!(
        "<td tabindex=\"0\" data-ix=\"{col}\" aria-selected=\"false\" style=\"width: 10px\" data-date=\"2024-01-07\" id=\"contribution-day-component-{row}-{col}\" data-level=\"{level}\" class=\"ContributionCalendar-day\"></td>"
    )
}

#[test]
fn parses_days_into_grid() {
    let html = format!(
        "<table><tr>{}{}</tr><tr>{}</tr><td class=\"other\" id=\"contribution-day-component-1-9\" data-level=\"2\"></td></table>",
        td(0, 0, "1"),
        td(0, 1, "4"),
        td(3, 1, "0")
    );
    let g = parse_contribution_html(&html).expect("page parses");
    assert_eq!(g.rows.len(), 7);
    assert_eq!(g.rows[0], vec![Some(1), Some(4)]);
    assert_eq!(g.rows[3], vec![None, Some(0)]);
    assert_eq!(g.rows[1], vec![None, None]);
}

#[test]
fn page_without_days_gives_one_empty_column() {
    let g = parse_contribution_html("<html></html>").unwrap();
    assert_eq!(g.rows, vec![vec![None]; 7]);
}

#[test]
fn tag_without_level_is_skipped() {
    let html = format!(
        "{}<td class=\"ContributionCalendar-day\" id=\"contribution-day-component-2-3\"></td>",
        td(1, 0, "2")
    );
    let g = parse_contribution_html(&html).unwrap();
    assert_eq!(g.column_count(), 1);
    assert_eq!(g.rows[1][0], Some(2));
}

#[test]
fn row_outside_week_is_rejected() {
    let html = td(7, 0, "1");
    assert!(parse_contribution_html(&html).is_none());
}

#[test]
fn non_ascii_digit_is_rejected() {
    // U+0663 is a decimal digit for the pattern but not for `str::parse`.
    let html = td(0, 0, "\u{663}");
    assert!(parse_contribution_html(&html).is_none());
}

#[test]
fn later_day_overrides_earlier() {
    let html = format!("{}{}", td(2, 0, "1"), td(2, 0, "3"));
    let g = parse_contribution_html(&html).unwrap();
    assert_eq!(g.rows[2][0], Some(3));
}

#[test]
fn unsigned_numbers_parse_like_str_parse() {
    let cs = |s: &str| s.chars().collect::<Vec<char>>();
    assert_eq!(parse_unsigned_exec(&cs("42"), 255), Some(42));
    assert_eq!(parse_unsigned_exec(&cs("+7"), 255), Some(7));
    assert_eq!(parse_unsigned_exec(&cs("256"), 255), None);
    assert_eq!(parse_unsigned_exec(&cs("255"), 255), Some(255));
    assert_eq!(parse_unsigned_exec(&cs(""), 255), None);
    assert_eq!(parse_unsigned_exec(&cs("+"), 255), None);
    assert_eq!(parse_unsigned_exec(&cs("-1"), 255), None);
    assert_eq!(parse_unsigned_exec(&cs("1a"), 255), None);
    assert_eq!(parse_unsigned_exec(&cs("18446744073709551615"), u64::MAX), Some(u64::MAX));
    assert_eq!(parse_unsigned_exec(&cs("18446744073709551616"), u64::MAX), None);
    for s in ["0", "+12", "300", "", "+", "x"] {
        assert_eq!(parse_unsigned_exec(&cs(s), 255).map(|v| v as u8), s.parse::<u8>().ok());
    }
}

#[test]
fn grid_from_cells_places_levels() {
    let g = grid_from_cells(&vec![(0, 2, 3), (6, 0, 1), (0, 2, 4)]).expect("rows in week");
    let mut expected = vec![vec![None; 3]; 7];
    expected[0][2] = Some(4);
    expected[6][0] = Some(1);
    assert_eq!(g.rows, expected);
    assert_eq!(grid_from_cells(&vec![]).expect("empty").rows, vec![vec![None]; 7]);
    assert!(grid_from_cells(&vec![(7, 0, 1)]).is_none());
    assert!(grid_from_cells(&vec![(0, usize::MAX, 1)]).is_none());
}
