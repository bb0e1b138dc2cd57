use live_grid::color::Rgb;
use live_grid::grid::{diff, CellUpdate, Grid};

fn black(n: usize) -> Grid {
    vec![vec![Rgb { r: 0, g: 0, b: 0 }; n]; n]
}

#[test]
fn single_changed_cell_is_reported_with_rounded_color() {
    let prev = black(2);
    let mut cur = black(2);
    cur[0][1] = Rgb { r: 255, g: 3, b: 2 };
    let d = diff(Some(&prev), &cur);
    assert_eq!(d, vec![CellUpdate { row: 0, col: 1, color: Rgb { r: 255, g: 0, b: 0 } }]);
    assert_eq!(live_grid::color::hex_string(d[0].color), "#FF0000");
}

#[test]
fn absent_previous_gives_empty_delta() {
    let mut cur = black(3);
    cur[2][2] = Rgb { r: 200, g: 100, b: 50 };
    assert!(diff(None, &cur).is_empty());
}

#[test]
fn noise_below_rounding_is_not_a_change() {
    let prev = black(2);
    let mut cur = black(2);
    cur[1][0] = Rgb { r: 4, g: 1, b: 2 };
    assert!(diff(Some(&prev), &cur).is_empty());
    assert!(diff(Some(&cur), &cur).is_empty());
}

#[test]
fn changes_come_in_row_major_order() {
    let prev = black(3);
    let mut cur = black(3);
    cur[2][0] = Rgb { r: 10, g: 10, b: 10 };
    cur[0][2] = Rgb { r: 20, g: 0, b: 0 };
    cur[1][1] = Rgb { r: 0, g: 30, b: 0 };
    let d = diff(Some(&prev), &cur);
    let positions: Vec<(usize, usize)> = d.iter().map(|u| (u.row, u.col)).collect();
    assert_eq!(positions, vec![(0, 2), (1, 1), (2, 0)]);
    assert_eq!(d[1].color, Rgb { r: 0, g: 30, b: 0 });
}

#[test]
fn every_cell_changed() {
    let prev = black(2);
    let cur = vec![vec![Rgb { r: 255, g: 255, b: 255 }; 2]; 2];
    assert_eq!(diff(Some(&prev), &cur).len(), 4);
}

#[test]
fn empty_grid_has_empty_delta() {
    let g: Grid = Vec::new();
    assert!(diff(Some(&g), &g).is_empty());
}
