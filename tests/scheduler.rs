use live_grid::color::Rgb;
use live_grid::grid::Grid;
use live_grid::scheduler::{Phase, Scheduler};
use live_grid::source::{CellDraw, SourceError};

fn filled(n: usize, v: u8) -> Grid {
    vec![vec![Rgb { r: v, g: v, b: v }; n]; n]
}

#[test]
fn random_ticks_on_distinct_cells_give_one_update_each() {
    let mut s = Scheduler::random(3);
    let cells = [(0usize, 0usize), (0, 1), (1, 2), (2, 2), (2, 0)];
    for (k, (row, col)) in cells.iter().enumerate() {
        assert!(s.try_begin_tick());
        let color = Rgb { r: 100 + k as u8, g: 50, b: 20 };
        let delta = s.advance(CellDraw { row: *row, col: *col, color });
        assert_eq!(delta.len(), 1);
        assert_eq!((delta[0].row, delta[0].col), (*row, *col));
        s.finish_publish();
    }
}

#[test]
fn repeating_a_color_gives_no_update() {
    let mut s = Scheduler::random(2);
    let d = CellDraw { row: 1, col: 1, color: Rgb { r: 90, g: 90, b: 90 } };
    assert!(s.try_begin_tick());
    assert_eq!(s.advance(d).len(), 1);
    s.finish_publish();
    assert!(s.try_begin_tick());
    assert!(s.advance(d).is_empty());
    s.finish_publish();
}

#[test]
fn overlapping_tick_is_skipped() {
    let mut s = Scheduler::random(2);
    assert!(s.try_begin_tick());
    assert!(!s.try_begin_tick());
    assert_eq!(s.skipped, 1);
    assert_eq!(s.phase, Phase::Ticking);
    s.tick();
    assert_eq!(s.phase, Phase::Publishing);
    assert!(!s.try_begin_tick());
    assert_eq!(s.skipped, 2);
    s.finish_publish();
    assert!(s.try_begin_tick());
}

#[test]
fn random_tick_changes_at_most_one_cell() {
    let mut s = Scheduler::random(4);
    for _ in 0..20 {
        assert!(s.try_begin_tick());
        assert!(s.tick().len() <= 1);
        s.finish_publish();
    }
}

#[test]
fn video_first_tick_is_silent_then_diffs() {
    let mut second = filled(2, 0);
    second[1][0] = Rgb { r: 40, g: 40, b: 40 };
    let mut s = Scheduler::video(2, vec![filled(2, 0), second]).unwrap();
    let d = CellDraw { row: 0, col: 0, color: Rgb { r: 0, g: 0, b: 0 } };
    assert!(s.try_begin_tick());
    assert!(s.advance(d).is_empty());
    s.finish_publish();
    assert!(s.try_begin_tick());
    let delta = s.advance(d);
    assert_eq!(delta.len(), 1);
    assert_eq!((delta[0].row, delta[0].col), (1, 0));
    s.finish_publish();
    // Looping back to the first frame reverts the cell.
    assert!(s.try_begin_tick());
    assert_eq!(s.advance(d).len(), 1);
    s.finish_publish();
}

#[test]
fn video_scheduler_rejects_empty_source() {
    assert_eq!(Scheduler::video(2, Vec::new()).err(), Some(SourceError::FrameSourceExhaustion));
}
