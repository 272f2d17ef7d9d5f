//! Properties of the game, proved over the model and the grid's contracts.

use crate::board::{after, before, next_state, Board};
use crate::universe::Universe;
use vstd::prelude::*;

verus! {

/// Whether `p` is `start` or the position after it on a ring of `n`.
pub open spec fn in_pair(p: int, start: int, n: int) -> bool {
    p == start || p == after(start, n)
}

/// Whether `p` is `center` or next to it on a ring of `n`.
pub open spec fn in_triple(p: int, center: int, n: int) -> bool {
    p == before(center, n) || p == center || p == after(center, n)
}

/// The living cells of `board` are exactly the two-by-two block whose first
/// corner is `(row, col)`; the block may wrap round the edges.
pub open spec fn is_block(board: Board, row: int, col: int) -> bool {
    &&& board.wf()
    &&& board.has_cell(row, col)
    &&& forall|r: int, c: int|
        board.has_cell(r, c) ==> #[trigger] board.alive(r, c) == (in_pair(
            r,
            row,
            board.height as int,
        ) && in_pair(c, col, board.width as int))
}

/// The living cells of `board` are exactly three in a row, centred on
/// `(row, col)` and lying along that row.
pub open spec fn is_row_blinker(board: Board, row: int, col: int) -> bool {
    &&& board.wf()
    &&& board.has_cell(row, col)
    &&& forall|r: int, c: int|
        board.has_cell(r, c) ==> #[trigger] board.alive(r, c) == (r == row && in_triple(
            c,
            col,
            board.width as int,
        ))
}

/// The living cells of `board` are exactly three in a row, centred on
/// `(row, col)` and lying along that column.
pub open spec fn is_column_blinker(board: Board, row: int, col: int) -> bool {
    &&& board.wf()
    &&& board.has_cell(row, col)
    &&& forall|r: int, c: int|
        board.has_cell(r, c) ==> #[trigger] board.alive(r, c) == (c == col && in_triple(
            r,
            row,
            board.height as int,
        ))
}

/// The grid is a torus: on a grid at least two cells wide and high, the
/// neighbours of the corner cell `(0, 0)` include the cells across the top
/// and left edges, in the last row and the last column.
pub proof fn lemma_corner_neighbors_wrap(board: Board)
    requires
        board.wf(),
        board.width >= 2,
        board.height >= 2,
    ensures
        board.neighbors(0, 0).contains((board.height - 1, board.width - 1)),
        board.neighbors(0, 0).contains((board.height - 1, 0)),
        board.neighbors(0, 0).contains((board.height - 1, 1)),
        board.neighbors(0, 0).contains((0, board.width - 1)),
        board.neighbors(0, 0).contains((0, 1)),
        board.neighbors(0, 0).contains((1, board.width - 1)),
        board.neighbors(0, 0).contains((1, 0)),
        board.neighbors(0, 0).contains((1, 1)),
{
    board.lemma_neighbors(0, 0);
}

/// A cell has between zero and eight living neighbours.
pub proof fn lemma_live_neighbors_range(board: Board, row: int, col: int)
    ensures
        0 <= board.live_neighbors(row, col) <= 8,
{
}

/// The live-neighbour count of a cell is zero exactly when none of its
/// neighbours is alive.
pub proof fn lemma_no_live_neighbors(board: Board, row: int, col: int)
    ensures
        board.live_neighbors(row, col) == 0 <==> forall|cell: (int, int)|
            board.neighbors(row, col).contains(cell) ==> !board.alive(cell.0, cell.1),
{
    let h = board.height as int;
    let w = board.width as int;
    if board.live_neighbors(row, col) == 0 {
        assert forall|cell: (int, int)| board.neighbors(row, col).contains(cell) implies !board.alive(
            cell.0,
            cell.1,
        ) by {
            let (dr, dc) = choose|dr: int, dc: int|
                board.is_offset(dr, dc) && cell == #[trigger] board.shifted(row, col, dr, dc);
            assert(board.neighbor_term(row, col, dr, dc) == 0);
        }
    } else {
        let (dr, dc) = choose|dr: int, dc: int|
            (dr == h - 1 || dr == 0 || dr == 1) && (dc == w - 1 || dc == 0 || dc == 1)
                && board.neighbor_term(row, col, dr, dc) != 0;
        let cell = board.shifted(row, col, dr, dc);
        assert(board.neighbors(row, col).contains(cell));
        assert(board.alive(cell.0, cell.1));
    }
}

/// The rule, as a table: a living cell dies with fewer than two or more than
/// three living neighbours and lives on with two or three; a dead cell comes
/// to life with exactly three and stays dead otherwise.
pub proof fn lemma_rule_table(alive: bool, live_neighbors: int)
    requires
        0 <= live_neighbors <= 8,
    ensures
        alive && live_neighbors <= 1 ==> !next_state(alive, live_neighbors),
        alive && 2 <= live_neighbors <= 3 ==> next_state(alive, live_neighbors),
        alive && 4 <= live_neighbors ==> !next_state(alive, live_neighbors),
        !alive && live_neighbors == 3 ==> next_state(alive, live_neighbors),
        !alive && live_neighbors != 3 ==> !next_state(alive, live_neighbors),
{
}

/// A two-by-two block on a grid at least four cells wide and high is a still
/// life: a step leaves the grid as it was.
pub proof fn lemma_block_is_still(board: Board, row: int, col: int)
    requires
        is_block(board, row, col),
        board.width >= 4,
        board.height >= 4,
    ensures
        board.step() == board,
{
    assert forall|r: int, c: int| board.has_cell(r, c) implies board.step().alive(r, c)
        == board.alive(r, c) by {
        board.lemma_step_by_ring(r, c);
    }
    board.lemma_step_shape();
    board.step().lemma_same_cells(board);
}

/// A two-by-two block on a grid at least four cells wide and high stays as
/// it is through any number of steps.
pub proof fn lemma_block_stays_still(board: Board, row: int, col: int, n: nat)
    requires
        is_block(board, row, col),
        board.width >= 4,
        board.height >= 4,
    ensures
        board.steps(n) == board,
    decreases n,
{
    if n > 0 {
        lemma_block_is_still(board, row, col);
        lemma_block_stays_still(board, row, col, (n - 1) as nat);
    }
}

/// On a grid at least five cells wide and high, a step turns a blinker lying
/// along a row into the blinker with the same centre lying along the column.
pub proof fn lemma_row_blinker_turns(board: Board, row: int, col: int)
    requires
        is_row_blinker(board, row, col),
        board.width >= 5,
        board.height >= 5,
    ensures
        is_column_blinker(board.step(), row, col),
{
    board.lemma_step_shape();
    assert forall|r: int, c: int| board.has_cell(r, c) implies #[trigger] board.step().alive(r, c)
        == (c == col && in_triple(r, row, board.height as int)) by {
        board.lemma_step_by_ring(r, c);
    }
}

/// On a grid at least five cells wide and high, a step turns a blinker lying
/// along a column into the blinker with the same centre lying along the row.
pub proof fn lemma_column_blinker_turns(board: Board, row: int, col: int)
    requires
        is_column_blinker(board, row, col),
        board.width >= 5,
        board.height >= 5,
    ensures
        is_row_blinker(board.step(), row, col),
{
    board.lemma_step_shape();
    assert forall|r: int, c: int| board.has_cell(r, c) implies #[trigger] board.step().alive(r, c)
        == (r == row && in_triple(c, col, board.width as int)) by {
        board.lemma_step_by_ring(r, c);
    }
}

/// On a grid at least five cells wide and high, a blinker oscillates with
/// period two: one step turns it, so the grid has changed, and a second step
/// brings back the grid it started from.
pub proof fn lemma_blinker_period(board: Board, row: int, col: int)
    requires
        is_row_blinker(board, row, col),
        board.width >= 5,
        board.height >= 5,
    ensures
        is_column_blinker(board.step(), row, col),
        board.step() != board,
        board.step().step() == board,
        board.steps(2) == board,
{
    let turned = board.step();
    lemma_row_blinker_turns(board, row, col);
    lemma_column_blinker_turns(turned, row, col);
    let right = after(col, board.width as int);
    assert(board.alive(row, right));
    assert(!turned.alive(row, right));
    turned.lemma_step_shape();
    assert forall|r: int, c: int| board.has_cell(r, c) implies turned.step().alive(r, c)
        == board.alive(r, c) by {
        assert(turned.step().has_cell(r, c));
    }
    turned.step().lemma_same_cells(board);
    assert(board.steps(2) == board) by {
        reveal_with_fuel(Board::steps, 3);
    }
}

/// Any number of steps keeps the width and the height of the grid, and the
/// grid keeps exactly one state per cell.
pub proof fn lemma_steps_keep_shape(board: Board, n: nat)
    requires
        board.wf(),
    ensures
        board.steps(n).wf(),
        board.steps(n).width == board.width,
        board.steps(n).height == board.height,
        board.steps(n).cells.len() == board.width * board.height,
    decreases n,
{
    if n > 0 {
        board.lemma_step_shape();
        lemma_steps_keep_shape(board.step(), (n - 1) as nat);
    }
}

/// The grid a resize leaves behind is well formed and has no living cell.
pub proof fn lemma_dead_grid_has_no_life(width: nat, height: nat, row: int, col: int)
    requires
        width > 0,
        height > 0,
        0 <= row < height,
        0 <= col < width,
    ensures
        Board::dead(width, height).wf(),
        !Board::dead(width, height).alive(row, col),
{
    Board::dead(width, height).lemma_index(row, col);
}

/// A step is a function of the grid: two grids with the same cells have the
/// same cells after one tick each, and after any number of ticks each.
pub proof fn lemma_tick_is_deterministic(
    first: Universe,
    second: Universe,
    first_after: Universe,
    second_after: Universe,
    n: nat,
)
    requires
        first@ == second@,
        first_after@ == first@.steps(n),
        second_after@ == second@.steps(n),
    ensures
        first@.step() == second@.step(),
        first_after@ == second_after@,
{
}

} // verus!
