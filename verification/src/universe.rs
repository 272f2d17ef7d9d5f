//! The executable grid.

use crate::bitset::{bit_at, bits_of, packs, set_every_bit};
use crate::board::{next_cell, Board, ALIVE_GLYPH, DEAD_GLYPH};
use vstd::arithmetic::div_mod::lemma_fundamental_div_mod_converse;
use fixedbitset::FixedBitSet;
use vstd::prelude::*;

verus! {

/// A Game of Life grid on a torus, one bit per cell.
pub struct Universe {
    width: u32,
    height: u32,
    cells: FixedBitSet,
}

impl View for Universe {
    type V = Board;

    closed spec fn view(&self) -> Board {
        Board {
            width: self.width as nat,
            height: self.height as nat,
            cells: bits_of(self.cells),
        }
    }
}

impl Universe {
    /// The grid is a well-formed board whose cell count fits in 32 bits.
    pub open spec fn wf(&self) -> bool {
        &&& self@.wf()
        &&& self@.width <= u32::MAX
        &&& self@.height <= u32::MAX
        &&& self@.width * self@.height <= u32::MAX
    }

    /// What the first `taken` column offsets add to the count for the row
    /// offset `dr`.
    spec fn row_prefix(board: Board, row: int, col: int, dr: int, taken: int) -> int {
        (if taken > 0 {
            board.neighbor_term(row, col, dr, board.width - 1)
        } else {
            0
        }) + (if taken > 1 {
            board.neighbor_term(row, col, dr, 0)
        } else {
            0
        }) + (if taken > 2 {
            board.neighbor_term(row, col, dr, 1)
        } else {
            0
        })
    }

    /// What the first `taken` row offsets add to the count.
    spec fn rows_prefix(board: Board, row: int, col: int, taken: int) -> int {
        (if taken > 0 {
            board.neighbor_row_term(row, col, board.height - 1)
        } else {
            0
        }) + (if taken > 1 {
            board.neighbor_row_term(row, col, 0)
        } else {
            0
        }) + (if taken > 2 {
            board.neighbor_row_term(row, col, 1)
        } else {
            0
        })
    }

    fn get_index(&self, row: u32, column: u32) -> (idx: usize)
        requires
            self.wf(),
            row < self@.height,
            column < self@.width,
        ensures
            idx == row * self@.width + column,
            idx < self@.cells.len(),
    {
        proof {
            self@.lemma_index(row as int, column as int);
        }
        (row * self.width + column) as usize
    }

    /// Counts the living neighbours of the cell at `(row, column)`.
    pub fn live_neighbor_count(&self, row: u32, column: u32) -> (count: u8)
        requires
            self.wf(),
            row < self@.height,
            column < self@.width,
        ensures
            count == self@.live_neighbors(row as int, column as int),
            count <= 8,
    {
        let ghost board = self@;
        let delta_rows: [u32; 3] = [self.height - 1, 0, 1];
        let delta_cols: [u32; 3] = [self.width - 1, 0, 1];
        let mut count: u8 = 0;
        for i in 0..3usize
            invariant
                self.wf(),
                board == self@,
                row < self.height,
                column < self.width,
                delta_rows[0] == self.height - 1 && delta_rows[1] == 0 && delta_rows[2] == 1,
                delta_cols[0] == self.width - 1 && delta_cols[1] == 0 && delta_cols[2] == 1,
                count == Self::rows_prefix(board, row as int, column as int, i as int),
                count <= 3 * i,
        {
            let delta_row = delta_rows[i];
            let ghost before = count;
            for j in 0..3usize
                invariant
                    self.wf(),
                    board == self@,
                    row < self.height,
                    column < self.width,
                    i < 3,
                    delta_row == delta_rows[i as int],
                    delta_rows[0] == self.height - 1 && delta_rows[1] == 0 && delta_rows[2] == 1,
                    delta_cols[0] == self.width - 1 && delta_cols[1] == 0 && delta_cols[2] == 1,
                    count == before + Self::row_prefix(
                        board,
                        row as int,
                        column as int,
                        delta_row as int,
                        j as int,
                    ),
                    before <= 3 * i,
                    count <= before + j,
            {
                let delta_col = delta_cols[j];
                if !(delta_row == 0 && delta_col == 0) {
                    let neighbor_row = ((row as u64 + delta_row as u64) % (self.height as u64)) as u32;
                    let neighbor_col = ((column as u64 + delta_col as u64) % (self.width as u64)) as u32;
                    let idx = self.get_index(neighbor_row, neighbor_col);
                    if bit_at(&self.cells, idx) {
                        count += 1;
                    }
                }
            }
        }
        count
    }

    /// Advances the grid by one generation.
    pub fn tick(&mut self)
        requires
            old(self).wf(),
        ensures
            final(self).wf(),
            final(self)@ == old(self)@.step(),
            final(self)@.width == old(self)@.width,
            final(self)@.height == old(self)@.height,
            final(self)@.cells.len() == old(self)@.width * old(self)@.height,
    {
        let ghost board = self@;
        let mut next = self.cells.clone();
        for row in 0..self.height
            invariant
                self.wf(),
                board == self@,
                *self == *old(self),
                bits_of(next).len() == board.cells.len(),
                forall|r: int, c: int|
                    0 <= r < row && 0 <= c < board.width ==> bits_of(next)[#[trigger] (r
                        * board.width + c)] == board.next_alive(r, c),
        {
            for col in 0..self.width
                invariant
                    self.wf(),
                    board == self@,
                    *self == *old(self),
                    row < self.height,
                    bits_of(next).len() == board.cells.len(),
                    forall|r: int, c: int|
                        0 <= r < row && 0 <= c < board.width ==> bits_of(next)[#[trigger] (r
                            * board.width + c)] == board.next_alive(r, c),
                    forall|c: int|
                        0 <= c < col ==> bits_of(next)[#[trigger] (row * board.width + c)]
                            == board.next_alive(row as int, c),
            {
                let idx = self.get_index(row, col);
                let cell = bit_at(&self.cells, idx);
                let live_neighbors = self.live_neighbor_count(row, col);
                let next_cell = next_cell(cell, live_neighbors);
                next.set(idx, next_cell);
                proof {
                    assert forall|r: int, c: int| 0 <= r < row && 0 <= c < board.width implies
                        bits_of(next)[#[trigger] (r * board.width + c)] == board.next_alive(r, c) by {
                        board.lemma_index(r, c);
                        board.lemma_index(row as int, col as int);
                    }
                    assert forall|c: int| 0 <= c < col + 1 implies bits_of(next)[#[trigger] (row
                        * board.width + c)] == board.next_alive(row as int, c) by {
                        board.lemma_index(row as int, c);
                        board.lemma_index(row as int, col as int);
                    }
                }
            }
        }
        proof {
            assert forall|i: int| 0 <= i < board.cells.len() implies bits_of(next)[i]
                == board.step().cells[i] by {
                board.lemma_cell_of_index(i);
                let r = i / (board.width as int);
                let c = i % (board.width as int);
                assert(bits_of(next)[r * board.width + c] == board.next_alive(r, c));
            }
            assert(bits_of(next) =~= board.step().cells);
        }
        self.cells = next;
    }

    /// Builds a `width` by `height` grid whose cells, in row-major order,
    /// are alive exactly where `seed` is `true`.
    pub fn new(width: u32, height: u32, seed: &[bool]) -> (universe: Universe)
        requires
            width > 0,
            height > 0,
            width * height <= u32::MAX,
            seed@.len() == width * height,
        ensures
            universe.wf(),
            universe@ == (Board { width: width as nat, height: height as nat, cells: seed@ }),
    {
        let size = (width * height) as usize;
        let mut cells = FixedBitSet::with_capacity(size);
        for i in 0..size
            invariant
                seed@.len() == size,
                bits_of(cells).len() == size,
                forall|k: int| 0 <= k < i ==> bits_of(cells)[k] == seed@[k],
        {
            cells.set(i, seed[i]);
        }
        assert(bits_of(cells) =~= seed@);
        Universe { width, height, cells }
    }

    /// Draws the grid as text: one glyph per cell, each row ended by a
    /// newline.
    pub fn render(&self) -> (text: String)
        requires
            self.wf(),
        ensures
            text@ == self@.text(),
    {
        let ghost board = self@;
        let ghost stride = self.width as int + 1;
        let ghost drawing = board.text();
        let mut text = String::new();
        assert(text@ =~= drawing.take(0 * stride)) by {
            assert(0 * stride == 0);
        }
        for row in 0..self.height
            invariant
                self.wf(),
                board == self@,
                stride == self.width + 1,
                drawing == board.text(),
                text@ == drawing.take(row * stride),
        {
            for col in 0..self.width
                invariant
                    self.wf(),
                    board == self@,
                    stride == self.width + 1,
                    drawing == board.text(),
                    row < self.height,
                    text@ == drawing.take(row * stride + col),
            {
                let idx = self.get_index(row, col);
                let symbol = if bit_at(&self.cells, idx) {
                    ALIVE_GLYPH
                } else {
                    DEAD_GLYPH
                };
                proof {
                    Self::lemma_text_position(board, row as int, col as int);
                    assert(drawing.take(row * stride + col).push(symbol) =~= drawing.take(
                        row * stride + col + 1,
                    ));
                }
                text.push(symbol);
            }
            proof {
                Self::lemma_text_position(board, row as int, self.width as int);
                assert(drawing.take(row * stride + self.width).push('\n') =~= drawing.take(
                    (row + 1) * stride,
                )) by {
                    assert((row + 1) * stride == row * stride + self.width + 1) by (nonlinear_arith)
                        requires
                            stride == self.width + 1,
                    ;
                }
            }
            text.push('\n');
        }
        assert(text@ =~= drawing);
        text
    }

    /// Position `col` of row `row` of the drawing (the newline when `col` is
    /// the width) lies inside the text, at `row * (width + 1) + col`.
    proof fn lemma_text_position(board: Board, row: int, col: int)
        requires
            board.wf(),
            0 <= row < board.height,
            0 <= col <= board.width,
        ensures
            0 <= row * (board.width + 1) + col < board.text().len(),
            (row * (board.width + 1) + col) / (board.width as int + 1) == row,
            (row * (board.width + 1) + col) % (board.width as int + 1) == col,
    {
        let stride = board.width as int + 1;
        let h = board.height as int;
        lemma_fundamental_div_mod_converse(row * stride + col, stride, row, col);
        assert(0 <= row * stride && row * stride + stride <= h * stride) by (nonlinear_arith)
            requires
                0 <= row < h,
                0 < stride,
        ;
    }

    /// Gives the grid a new width. Every cell of the resized grid is dead.
    pub fn set_width(&mut self, width: u32)
        requires
            old(self).wf(),
            width > 0,
            width * old(self)@.height <= u32::MAX,
        ensures
            final(self).wf(),
            final(self)@ == Board::dead(width as nat, old(self)@.height),
    {
        self.width = width;
        self.cells = FixedBitSet::with_capacity((self.width * self.height) as usize);
        set_every_bit(&mut self.cells, false);
        assert(bits_of(self.cells) =~= Board::dead(width as nat, self.height as nat).cells);
    }

    /// Gives the grid a new height. Every cell of the resized grid is dead.
    pub fn set_height(&mut self, height: u32)
        requires
            old(self).wf(),
            height > 0,
            old(self)@.width * height <= u32::MAX,
        ensures
            final(self).wf(),
            final(self)@ == Board::dead(old(self)@.width, height as nat),
    {
        self.height = height;
        self.cells = FixedBitSet::with_capacity((self.width * self.height) as usize);
        set_every_bit(&mut self.cells, false);
        assert(bits_of(self.cells) =~= Board::dead(self.width as nat, height as nat).cells);
    }

    /// The number of columns.
    pub fn width(&self) -> (width: u32)
        ensures
            width == self@.width,
    {
        self.width
    }

    /// The number of rows.
    pub fn height(&self) -> (height: u32)
        ensures
            height == self@.height,
    {
        self.height
    }

    /// The cells as packed 32-bit words, for a renderer to read.
    pub fn cells(&self) -> (blocks: &[u32])
        ensures
            packs(blocks@, self@.cells),
    {
        self.cells.as_slice()
    }

    /// The cells as a bit set, in row-major order.
    pub fn get_cells(&self) -> (cells: &FixedBitSet)
        ensures
            bits_of(*cells) == self@.cells,
    {
        &self.cells
    }

    /// Brings every listed `(row, column)` cell to life and leaves the other
    /// cells as they are.
    pub fn set_cells(&mut self, cells: &[(u32, u32)])
        requires
            old(self).wf(),
            forall|k: int|
                0 <= k < cells@.len() ==> (#[trigger] cells@[k]).0 < old(self)@.height
                    && cells@[k].1 < old(self)@.width,
        ensures
            final(self).wf(),
            final(self)@ == old(self)@.with_alive(cells@),
    {
        let ghost board = self@;
        assert(bits_of(self.cells) =~= board.with_alive(cells@.take(0)).cells);
        for k in 0..cells.len()
            invariant
                self.wf(),
                board == old(self)@,
                self.width == old(self).width,
                self.height == old(self).height,
                forall|k: int|
                    0 <= k < cells@.len() ==> (#[trigger] cells@[k]).0 < board.height
                        && cells@[k].1 < board.width,
                bits_of(self.cells) == board.with_alive(cells@.take(k as int)).cells,
        {
            let (row, col) = cells[k];
            let idx = self.get_index(row, col);
            self.cells.set(idx, true);
            proof {
                let shorter = cells@.take(k as int);
                let longer = cells@.take(k + 1);
                assert(longer[k as int] == cells@[k as int]);
                board.lemma_index(row as int, col as int);
                assert forall|i: int| 0 <= i < board.cells.len() implies bits_of(self.cells)[i]
                    == board.with_alive(longer).cells[i] by {
                    let r = i / (board.width as int);
                    let c = i % (board.width as int);
                    board.lemma_cell_of_index(i);
                    if Board::listed(shorter, r, c) {
                        let j = choose|j: int|
                            0 <= j < shorter.len() && (#[trigger] shorter[j]).0 == r
                                && shorter[j].1 == c;
                        assert(longer[j] == shorter[j]);
                    }
                    if Board::listed(longer, r, c) && i != idx {
                        let j = choose|j: int|
                            0 <= j < longer.len() && (#[trigger] longer[j]).0 == r
                                && longer[j].1 == c;
                        assert(j != k);
                        assert(shorter[j] == longer[j]);
                    }
                }
                assert(bits_of(self.cells) =~= board.with_alive(longer).cells);
            }
        }
        assert(cells@.take(cells@.len() as int) =~= cells@);
    }
}

} // verus!
