use vstd::prelude::*;
use crate::board::{
    cleared, detonated, flag_toggled, in_bounds, layout, linear_index, mine_count, valid_draws,
    Minesweeper, Position,
};

verus! {

/// The number of columns.
pub fn get_width(board: &Minesweeper) -> (width: usize)
    ensures
        width == board.width,
{
    board.width
}

/// The number of rows.
pub fn get_height(board: &Minesweeper) -> (height: usize)
    ensures
        height == board.height,
{
    board.height
}

/// Toggles the flag of the cell in row `x`, column `y`, and returns whether
/// a flag was placed.
pub fn toggle_flag(board: &mut Minesweeper, x: usize, y: usize) -> (placed: bool)
    requires
        old(board).wf(),
        in_bounds(old(board).width, old(board).height, (x, y)),
    ensures
        final(board).width == old(board).width,
        final(board).height == old(board).height,
        final(board).mines_count == old(board).mines_count,
        final(board).cells@ == flag_toggled(old(board).cells@, linear_index(old(board).width, (x, y))),
        placed == (old(board).cells@[linear_index(old(board).width, (x, y))] is Closed),
        final(board).wf(),
{
    board.toggle_flag((x, y))
}

/// The state of every cell as a number, row by row: 0 closed, 10 flagged,
/// 20 to 28 open with that many mined neighbours, 30 revealed mine.
pub fn get_cells(board: &Minesweeper) -> (codes: Vec<usize>)
    requires
        board.wf(),
    ensures
        codes@.len() == board.cells@.len(),
        forall|i: int| 0 <= i < codes@.len() ==> #[trigger] codes@[i] == board.cells@[i].spec_code(),
{
    let mut codes: Vec<usize> = Vec::new();
    let mut i: usize = 0;
    while i < board.cells.len()
        invariant
            board.wf(),
            0 <= i <= board.cells@.len(),
            codes@.len() == i,
            forall|k: int| 0 <= k < i ==> #[trigger] codes@[k] == board.cells@[k].spec_code(),
        decreases board.cells@.len() - i,
    {
        assert(board.cells@[i as int].wf());
        codes.push(board.cells[i].code());
        i += 1;
    }
    codes
}

/// Opens the cell in row `x`, column `y`, and returns whether a mine went
/// off.
pub fn open_cell(board: &mut Minesweeper, x: usize, y: usize) -> (hit: bool)
    requires
        old(board).wf(),
        in_bounds(old(board).width, old(board).height, (x, y)),
    ensures
        final(board).width == old(board).width,
        final(board).height == old(board).height,
        final(board).mines_count == old(board).mines_count,
        hit == old(board).cells@[linear_index(old(board).width, (x, y))].hides_mine(),
        hit ==> final(board).cells@ == detonated(old(board).cells@),
        !hit ==> final(board).cells@ == cleared(old(board).cells@, old(board).width, old(board).height, (x, y)),
        final(board).wf(),
{
    board.open((x, y))
}

/// Lays the board out anew with the same shape and the same number of
/// draws.
pub fn restart(board: &mut Minesweeper)
    requires
        old(board).width * old(board).height <= usize::MAX,
    ensures
        final(board).width == old(board).width,
        final(board).height == old(board).height,
        final(board).mines_count == old(board).mines_count,
        final(board).wf(),
        exists|draws: Seq<Position>| #[trigger]
            valid_draws(old(board).width, old(board).height, old(board).mines_count, draws) && final(board).cells@
                == layout(old(board).width, old(board).height, draws),
        mine_count(final(board).cells@) <= old(board).mines_count,
{
    board.restart();
}

} // verus!
