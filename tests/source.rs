use live_grid::color::Rgb;
use live_grid::frame::{process_frame_to_grid, Frame};
use live_grid::grid::Grid;
use live_grid::source::{check_grid, draw_cell, recolor, CellDraw, FrameSource, SourceError};

fn filled(n: usize, v: u8) -> Grid {
    vec![vec![Rgb { r: v, g: v, b: v }; n]; n]
}

#[test]
fn empty_video_is_rejected() {
    assert_eq!(FrameSource::video(Vec::new(), 2).err(), Some(SourceError::FrameSourceExhaustion));
}

#[test]
fn video_frame_of_wrong_size_is_rejected() {
    let frames = vec![filled(2, 0), filled(3, 0)];
    assert_eq!(FrameSource::video(frames, 2).err(), Some(SourceError::InvalidConfiguration));
}

#[test]
fn video_cursor_loops_after_last_frame() {
    let frames = vec![filled(2, 10), filled(2, 20), filled(2, 30)];
    let mut src = FrameSource::video(frames, 2).unwrap();
    let unused = filled(2, 0);
    let d = CellDraw { row: 0, col: 0, color: Rgb { r: 0, g: 0, b: 0 } };
    let first = src.next_state(&unused, 2, d);
    let second = src.next_state(&unused, 2, d);
    let _third = src.next_state(&unused, 2, d);
    let fourth = src.next_state(&unused, 2, d);
    assert_eq!(first, filled(2, 10));
    assert_eq!(second, filled(2, 20));
    assert_eq!(fourth, first);
}

#[test]
fn random_step_recolors_one_cell() {
    let prev = filled(3, 0);
    let d = CellDraw { row: 1, col: 2, color: Rgb { r: 9, g: 8, b: 7 } };
    let mut src = FrameSource::Random;
    let next = src.next_state(&prev, 3, d);
    let mut expected = filled(3, 0);
    expected[1][2] = Rgb { r: 9, g: 8, b: 7 };
    assert_eq!(next, expected);
    assert_eq!(recolor(&prev, d), expected);
}

#[test]
fn grid_shape_check() {
    assert!(check_grid(&filled(2, 0), 2));
    assert!(!check_grid(&filled(2, 0), 3));
    let mut ragged = filled(2, 0);
    ragged[1].pop();
    assert!(!check_grid(&ragged, 2));
}

#[test]
fn drawn_cell_lies_in_the_grid() {
    let d = draw_cell(1);
    assert_eq!((d.row, d.col), (0, 0));
    for _ in 0..50 {
        let d = draw_cell(5);
        assert!(d.row < 5 && d.col < 5);
    }
}

#[test]
fn frame_needs_enough_bytes() {
    assert!(Frame::new(2, 2, vec![0; 11]).is_none());
    let f = Frame::new(2, 2, vec![0; 12]).unwrap();
    assert_eq!((f.width(), f.height()), (2, 2));
}

#[test]
fn tiles_average_their_pixels() {
    // 4x2 image cut into 2x2 tiles of 2x1 pixels.
    let mut data = Vec::new();
    for (r, g, b) in [(10, 0, 0), (20, 0, 0), (0, 100, 0), (0, 51, 0), (0, 0, 1), (0, 0, 2), (7, 7, 7), (9, 9, 9)] {
        data.extend_from_slice(&[r, g, b]);
    }
    let f = Frame::new(4, 2, data).unwrap();
    let g = process_frame_to_grid(&f, 2);
    assert_eq!(g[0][0], Rgb { r: 15, g: 0, b: 0 });
    assert_eq!(g[0][1], Rgb { r: 0, g: 75, b: 0 });
    assert_eq!(g[1][0], Rgb { r: 0, g: 0, b: 1 });
    assert_eq!(g[1][1], Rgb { r: 8, g: 8, b: 8 });
}

#[test]
fn edge_pixels_beyond_whole_tiles_are_ignored() {
    // 3x1 image as one tile of 3x1; with n = 1 all pixels count.
    let f = Frame::new(3, 1, vec![3, 0, 0, 6, 0, 0, 9, 0, 0]).unwrap();
    assert_eq!(process_frame_to_grid(&f, 1), vec![vec![Rgb { r: 6, g: 0, b: 0 }]]);
    // 3x3 image in 2x2 tiles of 1x1: the last row and column are not read.
    let mut data = vec![0u8; 27];
    data[3 * 8] = 200;
    let f = Frame::new(3, 3, data).unwrap();
    let g = process_frame_to_grid(&f, 2);
    assert_eq!(g, vec![vec![Rgb { r: 0, g: 0, b: 0 }; 2]; 2]);
}
