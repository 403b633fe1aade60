use contribution_wallpaper::color::apply_transparency;
use contribution_wallpaper::graph::{
    cell_exists, cell_value, draw_contribution_graph, graph_can_draw,
};
use contribution_wallpaper::grid::ContributionGrid;

#[test]
fn transparency_halves_channels_and_sets_alpha() {
    assert_eq!(apply_transparency(0, 0, 0), 0x8000_0000);
    assert_eq!(apply_transparency(20, 20, 20), 0x800a_0a0a);
    assert_eq!(apply_transparency(1, 3, 255), 0x8001_0280);
    assert_eq!(apply_transparency(24, 168, 60), 0x800c_541e);
}

#[test]
fn transparency_never_brightens() {
    for c in [0u8, 1, 2, 99, 100, 254, 255] {
        let p = apply_transparency(c, c, c);
        assert!((p & 0xff) as u8 <= c);
    }
}

fn one_week_grid() -> ContributionGrid {
    let mut rows = vec![vec![Some(1)]; 7];
    rows[0][0] = Some(4);
    rows[6][0] = None;
    ContributionGrid { rows }
}

#[test]
fn cells_exist_only_inside_the_grid() {
    let g = one_week_grid();
    assert!(cell_exists(&g, 0, 0));
    assert!(!cell_exists(&g, 6, 0));
    assert!(!cell_exists(&g, 7, 0));
    assert!(!cell_exists(&g, 0, 1));
    assert_eq!(cell_value(&g, 0, 0), Some(4));
    assert_eq!(cell_value(&g, 9, 0), None);
}

#[test]
fn graph_draws_squares_frames_and_rotates() {
    let g = one_week_grid();
    let (width, height) = (40u32, 160u32);
    let len = (width * height) as usize;
    let mut buffer = vec![7u32; len];
    assert!(graph_can_draw(len, width, height, &g));
    draw_contribution_graph(&mut buffer, width, height, &g);
    let k = 1720 - 10 - 7 - 30;
    let left = (40 - 27) / 2;
    let top = (160 - 153) / 2;
    let at = |x: usize, y: usize| buffer[((top + y) * 40 + left + x + k) % len];
    // Inside Monday's square: level 4.
    assert_eq!(at(10, 10), apply_transparency(24, 168, 60));
    // Inside Tuesday's square: level 1.
    assert_eq!(at(10, 31), apply_transparency(10, 70, 25));
    // Frame left of Monday.
    assert_eq!(at(2, 10), apply_transparency(0, 0, 0));
    // Sunday does not exist: its inside is untouched, its top frame borders Saturday.
    assert_eq!(at(10, 6 * 21 + 10), 7);
    assert_eq!(at(10, 6 * 21 + 2), apply_transparency(0, 0, 0));
    // The bottom frame below Sunday borders no day.
    assert_eq!(at(10, 7 * 21 + 2), 7);
}

#[test]
fn graph_rejects_small_screens() {
    let g = one_week_grid();
    assert!(!graph_can_draw(100 * 100, 20, 160, &g));
    assert!(!graph_can_draw(40 * 100, 40, 100, &g));
    assert!(!graph_can_draw(1000, 40, 160, &g));
    let wide = ContributionGrid { rows: vec![vec![Some(1); 169]; 7] };
    assert!(!graph_can_draw(4000 * 200, 4000, 200, &wide));
    let short = ContributionGrid { rows: vec![vec![Some(1)]; 6] };
    assert!(!graph_can_draw(6400, 40, 160, &short));
}

#[test]
fn cells_of_a_short_grid() {
    let g = ContributionGrid { rows: vec![vec![Some(2)], vec![None, Some(0)]] };
    assert!(cell_exists(&g, 0, 0));
    assert!(!cell_exists(&g, 1, 0));
    assert!(cell_exists(&g, 1, 1));
    assert!(!cell_exists(&g, 1, 5));
    assert!(!cell_exists(&g, 9, 0));
    assert_eq!(cell_value(&g, 0, 0), Some(2));
    assert_eq!(cell_value(&g, 1, 1), Some(0));
    assert_eq!(cell_value(&g, 7, 0), None);
}
