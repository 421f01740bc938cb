use minesweeper::board::{Minesweeper, Position};
use minesweeper::cell::Cell;

fn mined(cells: &[Cell]) -> usize {
    cells.iter().filter(|c| c.has_mine()).count()
}

fn closed_board(width: usize, height: usize, mines: &[Position]) -> Minesweeper {
    Minesweeper::with_mines(width, height, &mines.to_vec())
}

#[test]
fn test_new() {
    let width: usize = 3;
    let height: usize = 3;
    let mut ms = Minesweeper::new(width, height, 4);
    ms.open((1, 1));
    ms.toggle_flag((2, 2));
    println!("{:?}", ms);
}

#[test]
fn new_has_one_cell_per_position() {
    let ms = Minesweeper::new(5, 3, 4);
    assert_eq!(ms.width, 5);
    assert_eq!(ms.height, 3);
    assert_eq!(ms.mines_count, 4);
    assert_eq!(ms.cells.len(), 15);
    assert!(ms.cells.iter().all(|c| matches!(c, Cell::Closed(_))));
}

#[test]
fn new_on_wide_and_tall_grids_stays_inside() {
    for _ in 0..50 {
        let wide = Minesweeper::new(7, 2, 30);
        assert_eq!(wide.cells.len(), 14);
        assert!(mined(&wide.cells) >= 1);
        let tall = Minesweeper::new(2, 7, 30);
        assert_eq!(tall.cells.len(), 14);
        assert!(mined(&tall.cells) >= 1);
    }
}

#[test]
fn new_without_cells_is_empty() {
    let no_columns = Minesweeper::new(0, 5, 3);
    assert_eq!(no_columns.cells.len(), 0);
    assert_eq!(no_columns.mines_count, 3);
    let no_rows = Minesweeper::new(4, 0, 3);
    assert_eq!(no_rows.cells.len(), 0);
    let nothing = Minesweeper::new(0, 0, 0);
    assert_eq!(nothing.cells.len(), 0);
}

#[test]
fn restart_keeps_shape_and_regenerates() {
    let mut ms = Minesweeper::new(4, 6, 5);
    ms.open((0, 0));
    ms.toggle_flag((5, 3));
    {
        let again = ms.restart();
        assert_eq!(again.width, 4);
        assert_eq!(again.height, 6);
    }
    assert_eq!(ms.width, 4);
    assert_eq!(ms.height, 6);
    assert_eq!(ms.mines_count, 5);
    assert_eq!(ms.cells.len(), 24);
    assert!(ms.cells.iter().all(|c| matches!(c, Cell::Closed(_))));
    assert!(mined(&ms.cells) <= 5);
}

#[test]
fn restart_chains() {
    let mut ms = Minesweeper::new(3, 3, 0);
    let hit = ms.restart().open((1, 1));
    assert!(!hit);
    assert_eq!(ms.cells[4], Cell::Open(0));
}

#[test]
fn mine_count_never_exceeds_request() {
    for _ in 0..100 {
        let one = Minesweeper::new(5, 5, 1);
        assert_eq!(mined(&one.cells), 1);
        let crowded = Minesweeper::new(4, 4, 100);
        assert!(mined(&crowded.cells) <= 16);
        let some = Minesweeper::new(6, 6, 10);
        let count = mined(&some.cells);
        assert!(count >= 1 && count <= 10);
    }
}

#[test]
fn with_mines_places_exactly_the_draws() {
    let ms = closed_board(3, 2, &[(0, 1), (1, 2)]);
    assert_eq!(ms.width, 3);
    assert_eq!(ms.height, 2);
    assert_eq!(ms.mines_count, 2);
    assert_eq!(
        ms.cells,
        vec![
            Cell::Closed(false),
            Cell::Closed(true),
            Cell::Closed(false),
            Cell::Closed(false),
            Cell::Closed(false),
            Cell::Closed(true),
        ]
    );
}

#[test]
fn repeated_draw_mines_one_cell() {
    let ms = closed_board(3, 3, &[(1, 1), (1, 1), (2, 0)]);
    assert_eq!(ms.mines_count, 3);
    assert_eq!(mined(&ms.cells), 2);
    assert_eq!(ms.cells[4], Cell::Closed(true));
    assert_eq!(ms.cells[6], Cell::Closed(true));
}

#[test]
fn distinct_draws_mine_as_many_cells() {
    let ms = closed_board(4, 3, &[(0, 0), (0, 3), (2, 1), (1, 2)]);
    assert_eq!(mined(&ms.cells), 4);
}

#[test]
fn flag_round_trip_restores_cell() {
    let mut ms = closed_board(3, 3, &[(0, 0)]);
    let before = ms.cells.clone();
    assert!(ms.toggle_flag((0, 0)));
    assert_eq!(ms.cells[0], Cell::Flagged(true));
    assert!(!ms.toggle_flag((0, 0)));
    assert_eq!(ms.cells, before);
    assert!(ms.toggle_flag((2, 1)));
    assert_eq!(ms.cells[7], Cell::Flagged(false));
    assert!(!ms.toggle_flag((2, 1)));
    assert_eq!(ms.cells, before);
}

#[test]
fn toggle_touches_one_cell() {
    let mut ms = closed_board(3, 3, &[(0, 0)]);
    let before = ms.cells.clone();
    ms.toggle_flag((1, 2));
    for (i, cell) in ms.cells.iter().enumerate() {
        if i == 5 {
            assert_eq!(*cell, Cell::Flagged(false));
        } else {
            assert_eq!(*cell, before[i]);
        }
    }
}

#[test]
fn toggle_leaves_open_and_revealed_alone() {
    let mut ms = closed_board(2, 2, &[(0, 0)]);
    assert!(!ms.open((1, 1)));
    assert_eq!(ms.cells[3], Cell::Open(1));
    assert!(!ms.toggle_flag((1, 1)));
    assert_eq!(ms.cells[3], Cell::Open(1));
    assert!(ms.open((0, 0)));
    assert_eq!(ms.cells[0], Cell::RevealedMine);
    assert!(!ms.toggle_flag((0, 0)));
    assert_eq!(ms.cells[0], Cell::RevealedMine);
}

#[test]
fn flag_does_not_block_open() {
    let mut ms = closed_board(3, 3, &[(0, 0)]);
    assert!(ms.toggle_flag((1, 1)));
    assert!(!ms.open((1, 1)));
    assert_eq!(ms.cells[4], Cell::Open(1));
    assert!(ms.toggle_flag((0, 0)));
    assert!(ms.open((0, 0)));
    assert_eq!(ms.cells[0], Cell::RevealedMine);
}

#[test]
fn neighbor_count_on_three_by_three() {
    let mut ms = closed_board(3, 3, &[(0, 0)]);
    assert!(!ms.open((1, 1)));
    assert_eq!(ms.cells[4], Cell::Open(1));
    assert!(!ms.open((2, 2)));
    assert_eq!(ms.cells[8], Cell::Open(0));
    assert_eq!(ms.cells[0], Cell::Closed(true));
}

#[test]
fn neighbor_count_reaches_eight() {
    let ring: Vec<Position> = vec![(0, 0), (0, 1), (0, 2), (1, 0), (1, 2), (2, 0), (2, 1), (2, 2)];
    let mut ms = Minesweeper::with_mines(3, 3, &ring);
    assert_eq!(ms.find_neighbors_mines_count((1, 1)), 8);
    assert!(!ms.open((1, 1)));
    assert_eq!(ms.cells[4], Cell::Open(8));
}

#[test]
fn neighbor_count_sees_flagged_and_revealed_mines() {
    let mut ms = closed_board(3, 3, &[(0, 0), (0, 1)]);
    ms.toggle_flag((0, 0));
    assert_eq!(ms.find_neighbors_mines_count((1, 1)), 2);
    assert!(ms.open((0, 1)));
    assert_eq!(ms.cells[0], Cell::RevealedMine);
    assert_eq!(ms.cells[1], Cell::RevealedMine);
    assert_eq!(ms.find_neighbors_mines_count((1, 1)), 2);
    assert!(!ms.open((1, 1)));
    assert_eq!(ms.cells[4], Cell::Open(2));
    assert_eq!(ms.find_neighbors_mines_count((1, 0)), 2);
}

#[test]
fn open_does_not_spread() {
    let mut ms = Minesweeper::new(3, 3, 0);
    assert!(!ms.open((0, 2)));
    for (i, cell) in ms.cells.iter().enumerate() {
        if i == 2 {
            assert_eq!(*cell, Cell::Open(0));
        } else {
            assert_eq!(*cell, Cell::Closed(false));
        }
    }
}

#[test]
fn zero_mines_every_cell_opens_to_zero() {
    for row in 0..3usize {
        for col in 0..3usize {
            let mut ms = Minesweeper::new(3, 3, 0);
            assert!(!ms.open((row, col)));
            for (i, cell) in ms.cells.iter().enumerate() {
                if i == row * 3 + col {
                    assert_eq!(*cell, Cell::Open(0));
                } else {
                    assert_eq!(*cell, Cell::Closed(false));
                }
            }
        }
    }
}

#[test]
fn single_cell_board_is_mined() {
    for _ in 0..20 {
        let mut ms = Minesweeper::new(1, 1, 1);
        assert_eq!(ms.cells, vec![Cell::Closed(true)]);
        assert!(ms.open((0, 0)));
        assert_eq!(ms.cells, vec![Cell::RevealedMine]);
    }
}

#[test]
fn detonation_reveals_every_mine() {
    let mut ms = closed_board(4, 3, &[(0, 0), (1, 2), (2, 3)]);
    ms.toggle_flag((1, 2));
    ms.toggle_flag((0, 1));
    assert!(!ms.open((2, 0)));
    let before = ms.cells.clone();
    assert!(ms.open((2, 3)));
    for (i, cell) in ms.cells.iter().enumerate() {
        if i == 0 || i == 6 || i == 11 {
            assert_eq!(*cell, Cell::RevealedMine);
        } else {
            assert_eq!(*cell, before[i]);
        }
    }
    assert_eq!(ms.cells[1], Cell::Flagged(false));
    assert_eq!(ms.cells[8], Cell::Open(0));
}

#[test]
fn open_after_detonation_is_still_allowed() {
    let mut ms = closed_board(2, 2, &[(0, 0), (1, 1)]);
    assert!(ms.open((0, 0)));
    assert!(ms.open((0, 0)));
    assert!(ms.open((1, 1)));
    assert!(!ms.open((0, 1)));
    assert_eq!(ms.cells[1], Cell::Open(2));
    assert!(!ms.open((0, 1)));
    assert_eq!(ms.cells[1], Cell::Open(2));
}

#[test]
fn wide_board_indexing_and_neighbors_agree() {
    let mut ms = closed_board(5, 3, &[(2, 4)]);
    assert_eq!(ms.cells.len(), 15);
    assert_eq!(ms.cells[14], Cell::Closed(true));
    assert_eq!(ms.get_index(&(2, 4)), 14);
    assert_eq!(ms.get_index(&(1, 3)), 8);
    assert_eq!(ms.find_neighbors((2, 4)), vec![(1, 3), (1, 4), (2, 3)]);
    assert!(!ms.open((1, 3)));
    assert_eq!(ms.cells[8], Cell::Open(1));
    assert!(!ms.open((0, 4)));
    assert_eq!(ms.cells[4], Cell::Open(0));
    assert!(!ms.open((2, 2)));
    assert_eq!(ms.cells[12], Cell::Open(0));
}

#[test]
fn tall_board_indexing_and_neighbors_agree() {
    let mut ms = closed_board(2, 4, &[(3, 0)]);
    assert_eq!(ms.cells[6], Cell::Closed(true));
    assert_eq!(ms.find_neighbors((3, 1)), vec![(2, 0), (2, 1), (3, 0)]);
    assert!(!ms.open((2, 1)));
    assert_eq!(ms.cells[5], Cell::Open(1));
    assert!(!ms.open((1, 0)));
    assert_eq!(ms.cells[2], Cell::Open(0));
}

#[test]
fn find_neighbors_in_the_middle_and_at_the_edges() {
    let ms = Minesweeper::new(3, 3, 0);
    assert_eq!(
        ms.find_neighbors((1, 1)),
        vec![(0, 0), (0, 1), (0, 2), (1, 0), (1, 2), (2, 0), (2, 1), (2, 2)]
    );
    assert_eq!(ms.find_neighbors((0, 0)), vec![(0, 1), (1, 0), (1, 1)]);
    assert_eq!(ms.find_neighbors((0, 1)), vec![(0, 0), (0, 2), (1, 0), (1, 1), (1, 2)]);
    let single = Minesweeper::new(1, 1, 0);
    assert_eq!(single.find_neighbors((0, 0)), Vec::<Position>::new());
}

#[test]
fn get_has_mine_reads_every_variant() {
    let ms = Minesweeper {
        width: 2,
        height: 3,
        mines_count: 0,
        cells: vec![
            Cell::Closed(false),
            Cell::Closed(true),
            Cell::Flagged(false),
            Cell::Flagged(true),
            Cell::Open(3),
            Cell::RevealedMine,
        ],
    };
    assert_eq!(ms.get_has_mine(&(0, 0)), (0, false));
    assert_eq!(ms.get_has_mine(&(0, 1)), (1, true));
    assert_eq!(ms.get_has_mine(&(1, 0)), (2, false));
    assert_eq!(ms.get_has_mine(&(1, 1)), (3, true));
    assert_eq!(ms.get_has_mine(&(2, 0)), (4, false));
    assert_eq!(ms.get_has_mine(&(2, 1)), (5, true));
}

#[test]
fn cell_codes() {
    assert_eq!(Cell::Closed(false).code(), 0);
    assert_eq!(Cell::Closed(true).code(), 0);
    assert_eq!(Cell::Flagged(false).code(), 10);
    assert_eq!(Cell::Flagged(true).code(), 10);
    assert_eq!(Cell::Open(0).code(), 20);
    assert_eq!(Cell::Open(5).code(), 25);
    assert_eq!(Cell::Open(8).code(), 28);
    assert_eq!(Cell::RevealedMine.code(), 30);
}
