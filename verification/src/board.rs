use vstd::prelude::*;
use crate::cell::Cell;
use crate::random::draw_below;

verus! {

/// A cell's place on the grid: `(row, col)`.
pub type Position = (usize, usize);

/// Whether `pos` names a cell of a grid of the given shape.
pub open spec fn in_bounds(width: usize, height: usize, pos: Position) -> bool {
    pos.0 < height && pos.1 < width
}

/// The place of `pos` in the row-by-row sequence of cells.
pub open spec fn linear_index(width: usize, pos: Position) -> int {
    pos.0 * width + pos.1
}

/// Whether `b` is one of the up to eight cells that touch `a`.
pub open spec fn adjacent(a: Position, b: Position) -> bool {
    &&& a != b
    &&& a.0 - 1 <= b.0 <= a.0 + 1
    &&& a.1 - 1 <= b.1 <= a.1 + 1
}

/// Whether `a` comes before `b` when the grid is read row by row.
pub open spec fn row_major_before(a: Position, b: Position) -> bool {
    a.0 < b.0 || (a.0 == b.0 && a.1 < b.1)
}

/// The mined cells that touch `pos`.
pub open spec fn mined_neighbors(cells: Seq<Cell>, width: usize, height: usize, pos: Position) -> Set<Position> {
    Set::new(
        |p: Position|
            in_bounds(width, height, p) && adjacent(pos, p) && cells[linear_index(width, p)].hides_mine(),
    )
}

/// How many mined cells touch `pos`.
pub open spec fn neighbor_mines(cells: Seq<Cell>, width: usize, height: usize, pos: Position) -> nat {
    mined_neighbors(cells, width, height, pos).len()
}

/// Whether one of the draws fell on the cell with linear index `i`.
pub open spec fn drawn(width: usize, draws: Seq<Position>, i: int) -> bool {
    exists|k: int| 0 <= k < draws.len() && #[trigger] linear_index(width, draws[k]) == i
}

/// The fresh grid that a sequence of draws leaves behind: every cell closed,
/// mined exactly where some draw fell.
pub open spec fn layout(width: usize, height: usize, draws: Seq<Position>) -> Seq<Cell> {
    Seq::new((width * height) as nat, |i: int| Cell::Closed(drawn(width, draws, i)))
}

/// Draws that `count` requested placements can produce on a grid of the
/// given shape: each one inside the grid, `count` of them unless the grid
/// has no cell to draw.
pub open spec fn valid_draws(width: usize, height: usize, count: usize, draws: Seq<Position>) -> bool {
    &&& forall|k: int| 0 <= k < draws.len() ==> in_bounds(width, height, #[trigger] draws[k])
    &&& draws.len() == if width == 0 || height == 0 { 0 } else { count as int }
}

/// The linear indices of the cells that hold a mine.
pub open spec fn mined_indices(cells: Seq<Cell>) -> Set<int> {
    Set::new(|i: int| 0 <= i < cells.len() && cells[i].hides_mine())
}

/// How many cells hold a mine.
pub open spec fn mine_count(cells: Seq<Cell>) -> nat {
    mined_indices(cells).len()
}

/// The grid after the flag of the cell at `idx` is toggled.
pub open spec fn flag_toggled(cells: Seq<Cell>, idx: int) -> Seq<Cell> {
    cells.update(idx, cells[idx].toggled())
}

/// The grid after a detonation: every hidden mine laid bare, all else kept.
pub open spec fn detonated(cells: Seq<Cell>) -> Seq<Cell> {
    Seq::new(cells.len(), |i: int| cells[i].revealed())
}

/// The grid after the mine-free cell at `pos` is opened.
pub open spec fn cleared(cells: Seq<Cell>, width: usize, height: usize, pos: Position) -> Seq<Cell> {
    cells.update(
        linear_index(width, pos),
        Cell::Open(neighbor_mines(cells, width, height, pos) as usize),
    )
}

/// A cell inside the grid has a linear index inside the sequence of cells.
pub proof fn lemma_index_in_range(width: usize, height: usize, pos: Position)
    requires
        in_bounds(width, height, pos),
    ensures
        0 <= linear_index(width, pos) < width * height,
{
    assert(pos.0 * width + pos.1 < width * height) by (nonlinear_arith)
        requires
            pos.0 < height,
            pos.1 < width,
    ;
    assert(0 <= pos.0 * width) by (nonlinear_arith);
}

/// Two cells of one grid with the same linear index are the same cell.
pub proof fn lemma_index_injective(width: usize, a: Position, b: Position)
    requires
        a.1 < width,
        b.1 < width,
        linear_index(width, a) == linear_index(width, b),
    ensures
        a == b,
{
    assert(a.0 == b.0) by (nonlinear_arith)
        requires
            a.1 < width,
            b.1 < width,
            a.0 * width + a.1 == b.0 * width + b.1,
    ;
}

/// One more draw mines the cell it falls on and changes nothing else.
pub proof fn lemma_layout_push(width: usize, height: usize, draws: Seq<Position>, pos: Position)
    requires
        in_bounds(width, height, pos),
    ensures
        layout(width, height, draws.push(pos)) == layout(width, height, draws).update(
            linear_index(width, pos),
            Cell::Closed(true),
        ),
{
    let more = draws.push(pos);
    let target = linear_index(width, pos);
    lemma_index_in_range(width, height, pos);
    assert forall|i: int| 0 <= i < width * height implies drawn(width, more, i) == (drawn(width, draws, i) || i
        == target) by {
        if drawn(width, more, i) {
            let k = choose|k: int| 0 <= k < more.len() && #[trigger] linear_index(width, more[k]) == i;
            if k < draws.len() {
                assert(linear_index(width, draws[k]) == i);
            }
        }
        if drawn(width, draws, i) {
            let k = choose|k: int| 0 <= k < draws.len() && #[trigger] linear_index(width, draws[k]) == i;
            assert(linear_index(width, more[k]) == i);
        }
        if i == target {
            assert(linear_index(width, more[draws.len() as int]) == i);
        }
    }
    assert(layout(width, height, more) =~= layout(width, height, draws).update(target, Cell::Closed(true)));
}

/// The mined cells of a fresh grid are never more than the draws that made
/// it, and exactly as many when no position was drawn twice.
pub proof fn lemma_mine_count_bound(width: usize, height: usize, draws: Seq<Position>)
    requires
        forall|k: int| 0 <= k < draws.len() ==> in_bounds(width, height, #[trigger] draws[k]),
    ensures
        mined_indices(layout(width, height, draws)).finite(),
        mine_count(layout(width, height, draws)) <= draws.len(),
        draws.no_duplicates() ==> mine_count(layout(width, height, draws)) == draws.len(),
    decreases draws.len(),
{
    if draws.len() == 0 {
        assert(mined_indices(layout(width, height, draws)) =~= Set::<int>::empty());
    } else {
        let rest = draws.drop_last();
        let pos = draws.last();
        let target = linear_index(width, pos);
        assert(draws =~= rest.push(pos));
        lemma_mine_count_bound(width, height, rest);
        lemma_layout_push(width, height, rest, pos);
        lemma_index_in_range(width, height, pos);
        let smaller = mined_indices(layout(width, height, rest));
        assert(mined_indices(layout(width, height, draws)) =~= smaller.insert(target));
        if draws.no_duplicates() {
            assert(rest.no_duplicates());
            if smaller.contains(target) {
                let k = choose|k: int| 0 <= k < rest.len() && #[trigger] linear_index(width, rest[k]) == target;
                lemma_index_injective(width, rest[k], pos);
                assert(draws[k] == draws[draws.len() - 1]);
            }
        }
    }
}

/// Toggling the flag of a closed cell twice places the flag, then takes it
/// off again, and leaves the grid exactly as it was.
pub proof fn lemma_flag_round_trip(cells: Seq<Cell>, idx: int)
    requires
        0 <= idx < cells.len(),
        cells[idx] is Closed,
    ensures
        !(flag_toggled(cells, idx)[idx] is Closed),
        flag_toggled(cells, idx)[idx] == Cell::Flagged(cells[idx].hides_mine()),
        flag_toggled(flag_toggled(cells, idx), idx) == cells,
{
    assert(flag_toggled(flag_toggled(cells, idx), idx) =~= cells);
}

/// A flag does not shield a cell from being opened: a flagged mine goes off
/// and is laid bare, and a flagged cell without a mine becomes open with
/// the count of the mines that touch it.
pub proof fn lemma_flag_does_not_block_open(cells: Seq<Cell>, width: usize, height: usize, pos: Position)
    requires
        cells.len() == width * height,
        in_bounds(width, height, pos),
        cells[linear_index(width, pos)] is Flagged,
    ensures
        cells[linear_index(width, pos)].hides_mine() ==> detonated(cells)[linear_index(width, pos)]
            == Cell::RevealedMine,
        !cells[linear_index(width, pos)].hides_mine() ==> cleared(cells, width, height, pos)[linear_index(
            width,
            pos,
        )] == Cell::Open(neighbor_mines(cells, width, height, pos) as usize),
{
    lemma_index_in_range(width, height, pos);
}

/// A detonation turns every hidden mine, flagged or not, into a revealed
/// mine and leaves every other cell untouched.
pub proof fn lemma_detonation_reveals_all(cells: Seq<Cell>, i: int)
    requires
        0 <= i < cells.len(),
    ensures
        detonated(cells).len() == cells.len(),
        cells[i] == Cell::Closed(true) || cells[i] == Cell::Flagged(true) ==> detonated(cells)[i]
            == Cell::RevealedMine,
        !(cells[i] == Cell::Closed(true) || cells[i] == Cell::Flagged(true)) ==> detonated(cells)[i] == cells[i],
        cells[i].hides_mine() ==> detonated(cells)[i] == Cell::RevealedMine,
        !cells[i].hides_mine() ==> detonated(cells)[i] == cells[i],
{
}

/// No move lays or lifts a mine: toggling a flag, a detonation, and opening
/// a cell without a mine each leave every cell mined or not as it was.
pub proof fn lemma_moves_keep_mines(cells: Seq<Cell>, width: usize, height: usize, pos: Position, i: int)
    requires
        cells.len() == width * height,
        in_bounds(width, height, pos),
        0 <= i < cells.len(),
    ensures
        flag_toggled(cells, linear_index(width, pos))[i].hides_mine() == cells[i].hides_mine(),
        detonated(cells)[i].hides_mine() == cells[i].hides_mine(),
        !cells[linear_index(width, pos)].hides_mine() ==> cleared(cells, width, height, pos)[i].hides_mine()
            == cells[i].hides_mine(),
{
    lemma_index_in_range(width, height, pos);
}

/// No cell is touched by more than eight mines.
pub proof fn lemma_neighbor_mines_bound(cells: Seq<Cell>, width: usize, height: usize, pos: Position)
    ensures
        mined_neighbors(cells, width, height, pos).finite(),
        neighbor_mines(cells, width, height, pos) <= 8,
{
    let (r, c) = (pos.0 as int, pos.1 as int);
    let around: Set<(int, int)> = set![
        (r - 1, c - 1), (r - 1, c), (r - 1, c + 1),
        (r, c - 1), (r, c + 1),
        (r + 1, c - 1), (r + 1, c), (r + 1, c + 1)
    ];
    let mined = mined_neighbors(cells, width, height, pos);
    let back = |q: (int, int)| (q.0 as usize, q.1 as usize);
    let reach = around.map(back);
    assert(around.finite() && around.len() <= 8);
    vstd::set_lib::lemma_map_size_bound(around, reach, back);
    assert forall|p: Position| mined.contains(p) implies reach.contains(p) by {
        let q = (p.0 as int, p.1 as int);
        assert(around.contains(q));
        assert(back(q) == p);
    }
    vstd::set_lib::lemma_len_subset(mined, reach);
}

/// The game state: the shape of the grid, the number of placements that
/// were requested, and the cells row by row.
#[derive(Debug)]
pub struct Minesweeper {
    pub width: usize,
    pub height: usize,
    pub mines_count: usize,
    pub cells: Vec<Cell>,
}

impl Minesweeper {
    /// There is one cell for each position, and no open cell counts more
    /// than eight mines.
    pub open spec fn wf(&self) -> bool {
        &&& self.cells@.len() == self.width * self.height
        &&& forall|i: int| 0 <= i < self.cells@.len() ==> (#[trigger] self.cells@[i]).wf()
    }

    /// A fresh board whose mines lie exactly where the given draws fell; a
    /// position drawn twice is mined once.
    pub fn with_mines(width: usize, height: usize, draws: &Vec<Position>) -> (board: Self)
        requires
            width * height <= usize::MAX,
            forall|k: int| 0 <= k < draws@.len() ==> in_bounds(width, height, #[trigger] draws@[k]),
        ensures
            board.width == width,
            board.height == height,
            board.mines_count == draws@.len(),
            board.cells@ == layout(width, height, draws@),
            board.wf(),
    {
        let mut cells = closed_cells(width, height);
        let mut n: usize = 0;
        while n < draws.len()
            invariant
                0 <= n <= draws@.len(),
                width * height <= usize::MAX,
                forall|k: int| 0 <= k < draws@.len() ==> in_bounds(width, height, #[trigger] draws@[k]),
                cells@ == layout(width, height, draws@.take(n as int)),
            decreases draws@.len() - n,
        {
            let pos = draws[n];
            proof {
                lemma_layout_push(width, height, draws@.take(n as int), pos);
                assert(draws@.take(n as int).push(pos) =~= draws@.take(n + 1));
            }
            place_mine(&mut cells, width, height, pos);
            n += 1;
        }
        assert(draws@.take(n as int) =~= draws@);
        Minesweeper { width, height, mines_count: draws.len(), cells }
    }

    /// A fresh board of the given shape, every cell closed, with mines where
    /// `mines_count` random draws fell. A position drawn twice is mined once,
    /// so the board may hold fewer mines than were requested. A grid without
    /// cells takes no draw.
    pub fn new(width: usize, height: usize, mines_count: usize) -> (board: Self)
        requires
            width * height <= usize::MAX,
        ensures
            board.width == width,
            board.height == height,
            board.mines_count == mines_count,
            board.wf(),
            exists|draws: Seq<Position>| #[trigger]
                valid_draws(width, height, mines_count, draws) && board.cells@ == layout(width, height, draws),
            mine_count(board.cells@) <= mines_count,
    {
        let cells = Minesweeper::init_cells(width, height, mines_count);
        Minesweeper { width, height, mines_count, cells }
    }

    /// Lays the board out anew, with the same shape and the same number of
    /// draws, and hands the board back.
    pub fn restart(&mut self) -> (board: &mut Self)
        requires
            old(self).width * old(self).height <= usize::MAX,
        ensures
            *final(self) == *final(board),
            board.width == old(self).width,
            board.height == old(self).height,
            board.mines_count == old(self).mines_count,
            board.wf(),
            exists|draws: Seq<Position>| #[trigger]
                valid_draws(old(self).width, old(self).height, old(self).mines_count, draws) && board.cells@
                    == layout(old(self).width, old(self).height, draws),
            mine_count(board.cells@) <= old(self).mines_count,
    {
        let cells = Minesweeper::init_cells(self.width, self.height, self.mines_count);
        self.cells = cells;
        self
    }

    /// Draws `mines_count` positions at random, a row and a column each, and
    /// mines the cells they fall on.
    fn init_cells(width: usize, height: usize, mines_count: usize) -> (cells: Vec<Cell>)
        requires
            width * height <= usize::MAX,
        ensures
            cells@.len() == width * height,
            exists|draws: Seq<Position>| #[trigger]
                valid_draws(width, height, mines_count, draws) && cells@ == layout(width, height, draws),
            mine_count(cells@) <= mines_count,
    {
        let mut cells = closed_cells(width, height);
        let ghost mut draws: Seq<Position> = Seq::empty();
        if width > 0 && height > 0 {
            let mut random = rand::thread_rng();
            let mut n: usize = 0;
            while n < mines_count
                invariant
                    0 <= n <= mines_count,
                    width > 0,
                    height > 0,
                    width * height <= usize::MAX,
                    draws.len() == n,
                    forall|k: int| 0 <= k < draws.len() ==> in_bounds(width, height, #[trigger] draws[k]),
                    cells@ == layout(width, height, draws),
                decreases mines_count - n,
            {
                let row = draw_below(&mut random, height);
                let col = draw_below(&mut random, width);
                proof {
                    lemma_layout_push(width, height, draws, (row, col));
                    draws = draws.push((row, col));
                }
                place_mine(&mut cells, width, height, (row, col));
                n += 1;
            }
        }
        proof {
            assert(valid_draws(width, height, mines_count, draws));
            lemma_mine_count_bound(width, height, draws);
        }
        cells
    }

    /// The linear index of `pos`.
    pub fn get_index(&self, pos: &Position) -> (idx: usize)
        requires
            linear_index(self.width, *pos) <= usize::MAX,
        ensures
            idx == linear_index(self.width, *pos),
    {
        assert(0 <= pos.0 * self.width) by (nonlinear_arith);
        pos.0 * self.width + pos.1
    }

    /// The linear index of `position`, and whether a mine sits there.
    pub fn get_has_mine(&self, position: &Position) -> (found: (usize, bool))
        requires
            self.cells@.len() == self.width * self.height,
            in_bounds(self.width, self.height, *position),
        ensures
            found.0 == linear_index(self.width, *position),
            found.1 == self.cells@[linear_index(self.width, *position)].hides_mine(),
    {
        proof {
            lemma_index_in_range(self.width, self.height, *position);
            assert(self.cells@.len() == self.cells.len());
        }
        let idx = self.get_index(position);
        let has_mine = self.cells[idx].has_mine();
        (idx, has_mine)
    }

    /// Places a flag on a closed cell or takes it off a flagged one, and
    /// leaves an open cell or a revealed mine alone. Returns whether a flag
    /// was placed.
    pub fn toggle_flag(&mut self, pos: Position) -> (placed: bool)
        requires
            old(self).wf(),
            in_bounds(old(self).width, old(self).height, pos),
        ensures
            final(self).width == old(self).width,
            final(self).height == old(self).height,
            final(self).mines_count == old(self).mines_count,
            final(self).cells@ == flag_toggled(old(self).cells@, linear_index(old(self).width, pos)),
            placed == (old(self).cells@[linear_index(old(self).width, pos)] is Closed),
            final(self).wf(),
    {
        proof {
            lemma_index_in_range(self.width, self.height, pos);
            assert(self.cells@.len() == self.cells.len());
        }
        let idx = self.get_index(&pos);
        match self.cells[idx] {
            Cell::Open(_) => {
                assert(self.cells@ =~= flag_toggled(self.cells@, idx as int));
                false
            },
            Cell::RevealedMine => {
                assert(self.cells@ =~= flag_toggled(self.cells@, idx as int));
                false
            },
            Cell::Flagged(has_mine) => {
                self.cells[idx] = Cell::Closed(has_mine);
                false
            },
            Cell::Closed(has_mine) => {
                self.cells[idx] = Cell::Flagged(has_mine);
                true
            },
        }
    }

    /// The cells that touch `pos`, in row-by-row order: every cell at most
    /// one row and one column away that lies inside the grid, but for `pos`
    /// itself.
    pub fn find_neighbors(&self, pos: Position) -> (neighbors: Vec<Position>)
        requires
            in_bounds(self.width, self.height, pos),
        ensures
            forall|p: Position|
                #[trigger] neighbors@.contains(p) <==> in_bounds(self.width, self.height, p) && adjacent(pos, p),
            forall|a: int, b: int|
                0 <= a < b < neighbors@.len() ==> row_major_before(#[trigger] neighbors@[a], #[trigger] neighbors@[b]),
            neighbors@.no_duplicates(),
            neighbors@.len() <= 8,
    {
        let (row, col) = pos;
        let first_row: usize = if row >= 1 { row - 1 } else { 0 };
        let last_row: usize = if row + 1 < self.height { row + 1 } else { self.height - 1 };
        let first_col: usize = if col >= 1 { col - 1 } else { 0 };
        let last_col: usize = if col + 1 < self.width { col + 1 } else { self.width - 1 };
        let mut neighbors: Vec<Position> = Vec::new();
        let mut i: usize = first_row;
        while i <= last_row
            invariant
                first_row <= i <= last_row + 1,
                pos == (row, col),
                in_bounds(self.width, self.height, pos),
                first_row == if row >= 1 { row - 1 } else { 0 },
                last_row == if row + 1 < self.height { row + 1 } else { self.height - 1 },
                first_col == if col >= 1 { col - 1 } else { 0 },
                last_col == if col + 1 < self.width { col + 1 } else { self.width - 1 },
                forall|p: Position|
                    #[trigger] neighbors@.contains(p) <==> in_bounds(self.width, self.height, p) && adjacent(pos, p)
                        && p.0 < i,
                forall|a: int, b: int|
                    0 <= a < b < neighbors@.len() ==> row_major_before(
                        #[trigger] neighbors@[a],
                        #[trigger] neighbors@[b],
                    ),
                neighbors@.len() + (if i > row { 1int } else { 0int }) <= 3 * (i - first_row),
            decreases last_row + 1 - i,
        {
            let mut j: usize = first_col;
            while j <= last_col
                invariant
                    first_row <= i <= last_row,
                    first_col <= j <= last_col + 1,
                    pos == (row, col),
                    in_bounds(self.width, self.height, pos),
                    first_row == if row >= 1 { row - 1 } else { 0 },
                    last_row == if row + 1 < self.height { row + 1 } else { self.height - 1 },
                    first_col == if col >= 1 { col - 1 } else { 0 },
                    last_col == if col + 1 < self.width { col + 1 } else { self.width - 1 },
                    forall|p: Position|
                        #[trigger] neighbors@.contains(p) <==> in_bounds(self.width, self.height, p) && adjacent(pos, p)
                            && row_major_before(p, (i, j)),
                    forall|a: int, b: int|
                        0 <= a < b < neighbors@.len() ==> row_major_before(
                            #[trigger] neighbors@[a],
                            #[trigger] neighbors@[b],
                        ),
                    neighbors@.len() + (if i > row || (i == row && j > col) { 1int } else { 0int }) <= 3 * (i
                        - first_row) + (j - first_col),
                decreases last_col + 1 - j,
            {
                if !(i == row && j == col) {
                    let ghost before = neighbors@;
                    neighbors.push((i, j));
                    proof {
                        assert(neighbors@[before.len() as int] == (i, j));
                        assert forall|p: Position| #[trigger] neighbors@.contains(p) <==> before.contains(p) || p == (
                            i,
                            j,
                        ) by {
                            if before.contains(p) {
                                let k = choose|k: int| 0 <= k < before.len() && before[k] == p;
                                assert(neighbors@[k] == p);
                            }
                        }
                        assert forall|a: int, b: int| 0 <= a < b < neighbors@.len() implies row_major_before(
                            #[trigger] neighbors@[a],
                            #[trigger] neighbors@[b],
                        ) by {
                            if b == before.len() {
                                assert(before.contains(before[a]));
                            }
                        }
                    }
                }
                j += 1;
            }
            i += 1;
        }
        proof {
            assert forall|a: int, b: int| 0 <= a < neighbors@.len() && 0 <= b < neighbors@.len() && a != b implies neighbors@[a] != neighbors@[b] by {
                if a < b {
                    assert(row_major_before(neighbors@[a], neighbors@[b]));
                } else {
                    assert(row_major_before(neighbors@[b], neighbors@[a]));
                }
            }
        }
        neighbors
    }

    /// How many of the cells that touch `pos` hold a mine.
    pub fn find_neighbors_mines_count(&self, pos: Position) -> (count: usize)
        requires
            self.cells@.len() == self.width * self.height,
            in_bounds(self.width, self.height, pos),
        ensures
            count == neighbor_mines(self.cells@, self.width, self.height, pos),
            count <= 8,
    {
        let neighbors = self.find_neighbors(pos);
        let ghost seen: Set<Position> = Set::empty();
        let mut count: usize = 0;
        let mut k: usize = 0;
        while k < neighbors.len()
            invariant
                0 <= k <= neighbors@.len() <= 8,
                self.cells@.len() == self.width * self.height,
                forall|p: Position|
                    #[trigger] neighbors@.contains(p) <==> in_bounds(self.width, self.height, p) && adjacent(pos, p),
                neighbors@.no_duplicates(),
                seen.finite(),
                seen.len() == count,
                count <= k,
                forall|m: int|
                    0 <= m < k && mined_neighbors(self.cells@, self.width, self.height, pos).contains(
                        #[trigger] neighbors@[m],
                    ) ==> seen.contains(neighbors@[m]),
                forall|p: Position| #[trigger]
                    seen.contains(p) ==> mined_neighbors(self.cells@, self.width, self.height, pos).contains(p)
                        && exists|m: int| 0 <= m < k && #[trigger] neighbors@[m] == p,
            decreases neighbors@.len() - k,
        {
            let p = neighbors[k];
            assert(neighbors@.contains(p));
            if self.get_has_mine(&p).1 {
                proof {
                    assert(!seen.contains(p));
                    seen = seen.insert(p);
                }
                count += 1;
            }
            k += 1;
        }
        proof {
            assert forall|p: Position| mined_neighbors(self.cells@, self.width, self.height, pos).contains(p)
                implies seen.contains(p) by {
                assert(neighbors@.contains(p));
                let m = choose|m: int| 0 <= m < neighbors@.len() && neighbors@[m] == p;
                assert(seen.contains(neighbors@[m]));
            }
            assert(seen =~= mined_neighbors(self.cells@, self.width, self.height, pos));
        }
        count
    }

    /// Opens the cell at `position` and returns whether a mine went off.
    ///
    /// A mine under the cell, flagged or not, lays bare every mine of the
    /// board. A cell without one becomes open and shows how many mines touch
    /// it; no other cell changes, and a flag does not protect the cell.
    pub fn open(&mut self, position: Position) -> (hit: bool)
        requires
            old(self).wf(),
            in_bounds(old(self).width, old(self).height, position),
        ensures
            final(self).width == old(self).width,
            final(self).height == old(self).height,
            final(self).mines_count == old(self).mines_count,
            hit == old(self).cells@[linear_index(old(self).width, position)].hides_mine(),
            hit ==> final(self).cells@ == detonated(old(self).cells@),
            !hit ==> final(self).cells@ == cleared(old(self).cells@, old(self).width, old(self).height, position),
            final(self).wf(),
    {
        let ghost before = self.cells@;
        let (idx, has_mine) = self.get_has_mine(&position);
        proof {
            lemma_index_in_range(self.width, self.height, position);
        }
        if has_mine {
            let total: usize = self.cells.len();
            let mut i: usize = 0;
            while i < total
                invariant
                    0 <= i <= total,
                    total == before.len(),
                    self.cells@.len() == before.len(),
                    self.width == old(self).width,
                    self.height == old(self).height,
                    self.mines_count == old(self).mines_count,
                    forall|k: int| 0 <= k < i ==> self.cells@[k] == (#[trigger] before[k]).revealed(),
                    forall|k: int| i <= k < total ==> self.cells@[k] == #[trigger] before[k],
                    forall|k: int| 0 <= k < before.len() ==> (#[trigger] before[k]).wf(),
                decreases total - i,
            {
                match self.cells[i] {
                    Cell::Flagged(true) => {
                        self.cells[i] = Cell::RevealedMine;
                    },
                    Cell::Closed(true) => {
                        self.cells[i] = Cell::RevealedMine;
                    },
                    _ => {},
                }
                i += 1;
            }
            assert(self.cells@ =~= detonated(before));
            true
        } else {
            let mines_count = self.find_neighbors_mines_count(position);
            self.cells[idx] = Cell::Open(mines_count);
            false
        }
    }
}

/// A grid of closed cells without a mine.
fn closed_cells(width: usize, height: usize) -> (cells: Vec<Cell>)
    requires
        width * height <= usize::MAX,
    ensures
        cells@ == layout(width, height, Seq::empty()),
{
    let total: usize = width * height;
    let mut cells: Vec<Cell> = Vec::new();
    while cells.len() < total
        invariant
            cells@.len() <= total,
            forall|i: int| 0 <= i < cells@.len() ==> cells@[i] == Cell::Closed(false),
        decreases total - cells@.len(),
    {
        cells.push(Cell::Closed(false));
    }
    assert(cells@ =~= layout(width, height, Seq::empty()));
    cells
}

/// Mines the cell at `pos`.
fn place_mine(cells: &mut Vec<Cell>, width: usize, height: usize, pos: Position)
    requires
        old(cells)@.len() == width * height,
        in_bounds(width, height, pos),
    ensures
        final(cells)@ == old(cells)@.update(linear_index(width, pos), Cell::Closed(true)),
{
    proof {
        lemma_index_in_range(width, height, pos);
        assert(cells@.len() == cells.len());
        assert(0 <= pos.0 * width) by (nonlinear_arith);
    }
    cells[pos.0 * width + pos.1] = Cell::Closed(true);
}

} // verus!
