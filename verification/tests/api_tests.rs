use minesweeper::api::{get_cells, get_height, get_width, open_cell, restart, toggle_flag};
use minesweeper::board::Minesweeper;
use minesweeper::cell::Cell;

#[test]
fn dimensions_are_reported() {
    let ms = Minesweeper::new(10, 7, 8);
    assert_eq!(get_width(&ms), 10);
    assert_eq!(get_height(&ms), 7);
}

#[test]
fn snapshot_encodes_every_state() {
    let mut ms = Minesweeper::with_mines(3, 2, &vec![(0, 0), (1, 2)]);
    assert_eq!(get_cells(&ms), vec![0, 0, 0, 0, 0, 0]);
    assert!(toggle_flag(&mut ms, 0, 1));
    assert!(!open_cell(&mut ms, 1, 1));
    assert!(!open_cell(&mut ms, 1, 0));
    assert_eq!(get_cells(&ms), vec![0, 10, 0, 21, 22, 0]);
    assert!(open_cell(&mut ms, 0, 0));
    assert_eq!(get_cells(&ms), vec![30, 10, 0, 21, 22, 30]);
}

#[test]
fn api_toggle_round_trip() {
    let mut ms = Minesweeper::with_mines(2, 2, &vec![(1, 0)]);
    assert!(toggle_flag(&mut ms, 1, 0));
    assert_eq!(ms.cells[2], Cell::Flagged(true));
    assert!(!toggle_flag(&mut ms, 1, 0));
    assert_eq!(ms.cells[2], Cell::Closed(true));
}

#[test]
fn api_restart_closes_everything() {
    let mut ms = Minesweeper::new(10, 10, 8);
    open_cell(&mut ms, 3, 3);
    toggle_flag(&mut ms, 9, 9);
    restart(&mut ms);
    assert_eq!(get_width(&ms), 10);
    assert_eq!(get_height(&ms), 10);
    assert_eq!(ms.mines_count, 8);
    let codes = get_cells(&ms);
    assert_eq!(codes.len(), 100);
    assert!(codes.iter().all(|c| *c == 0));
    let mines = ms.cells.iter().filter(|c| c.has_mine()).count();
    assert!(mines >= 1 && mines <= 8);
}
