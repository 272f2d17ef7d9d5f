//! The mathematical model of the grid and of one generation step.
//!
//! A [`Board`] is a width, a height and a row-major sequence of cell states.
//! Everything the executable grid does is stated over this model.

use vstd::arithmetic::div_mod::lemma_fundamental_div_mod_converse;
use vstd::prelude::*;

verus! {

/// The rule of the game: whether a cell lives in the next generation, given
/// whether it lives now and how many of its neighbours do.
pub open spec fn next_state(alive: bool, live_neighbors: int) -> bool {
    live_neighbors == 3 || (alive && live_neighbors == 2)
}

/// Applies the rule to one cell.
pub fn next_cell(alive: bool, live_neighbors: u8) -> (next: bool)
    ensures
        next == next_state(alive, live_neighbors as int),
{
    if alive {
        if live_neighbors < 2 {
            false
        } else if live_neighbors <= 3 {
            true
        } else {
            false
        }
    } else {
        live_neighbors == 3
    }
}

/// The glyph drawn for a living cell.
pub const ALIVE_GLYPH: char = '\u{25FC}';

/// The glyph drawn for a dead cell.
pub const DEAD_GLYPH: char = '\u{25FB}';

/// The glyph drawn for a cell.
pub open spec fn glyph(alive: bool) -> char {
    if alive {
        ALIVE_GLYPH
    } else {
        DEAD_GLYPH
    }
}

/// The position one step back from `p` on a ring of `n` positions.
pub open spec fn before(p: int, n: int) -> int {
    if p == 0 {
        n - 1
    } else {
        p - 1
    }
}

/// The position one step forward from `p` on a ring of `n` positions.
pub open spec fn after(p: int, n: int) -> int {
    if p == n - 1 {
        0
    } else {
        p + 1
    }
}

/// A grid of cells on a torus. `cells` is row-major: the cell in row `r` and
/// column `c` is `cells[r * width + c]`.
pub struct Board {
    pub width: nat,
    pub height: nat,
    pub cells: Seq<bool>,
}

impl Board {
    /// Both dimensions are positive and there is exactly one state per cell.
    pub open spec fn wf(self) -> bool {
        &&& self.width > 0
        &&& self.height > 0
        &&& self.cells.len() == self.width * self.height
    }

    /// Whether `(row, col)` names a cell of the grid.
    pub open spec fn has_cell(self, row: int, col: int) -> bool {
        0 <= row < self.height && 0 <= col < self.width
    }

    /// Whether the cell at `(row, col)` is alive.
    pub open spec fn alive(self, row: int, col: int) -> bool
        recommends
            self.has_cell(row, col),
    {
        self.cells[row * self.width + col]
    }

    /// Whether `(dr, dc)` is one of the offsets that lead from a cell to a
    /// neighbour: each component is "one back" (written as the dimension
    /// minus one, so that it wraps), zero, or one forward, and the pair is not
    /// `(0, 0)`.
    pub open spec fn is_offset(self, dr: int, dc: int) -> bool {
        &&& dr == self.height - 1 || dr == 0 || dr == 1
        &&& dc == self.width - 1 || dc == 0 || dc == 1
        &&& !(dr == 0 && dc == 0)
    }

    /// The cell reached from `(row, col)` by the offset `(dr, dc)`, wrapping
    /// round the edges.
    pub open spec fn shifted(self, row: int, col: int, dr: int, dc: int) -> (int, int) {
        ((row + dr) % (self.height as int), (col + dc) % (self.width as int))
    }

    /// The cells adjacent to `(row, col)` on the torus.
    pub open spec fn neighbors(self, row: int, col: int) -> Set<(int, int)> {
        Set::new(
            |cell: (int, int)|
                exists|dr: int, dc: int|
                    self.is_offset(dr, dc) && cell == #[trigger] self.shifted(row, col, dr, dc),
        )
    }

    /// What the offset `(dr, dc)` adds to the live-neighbour count of
    /// `(row, col)`: one if it is a neighbour offset and the cell it reaches
    /// is alive, zero otherwise.
    pub open spec fn neighbor_term(self, row: int, col: int, dr: int, dc: int) -> int {
        let cell = self.shifted(row, col, dr, dc);
        if self.is_offset(dr, dc) && self.alive(cell.0, cell.1) {
            1
        } else {
            0
        }
    }

    /// What the three offsets with row component `dr` add to the count.
    pub open spec fn neighbor_row_term(self, row: int, col: int, dr: int) -> int {
        self.neighbor_term(row, col, dr, self.width - 1) + self.neighbor_term(row, col, dr, 0)
            + self.neighbor_term(row, col, dr, 1)
    }

    /// The number of living neighbours of `(row, col)`: the sum, over the
    /// offsets `{height - 1, 0, 1} x {width - 1, 0, 1}` other than `(0, 0)`,
    /// of one for each that reaches a living cell.
    pub open spec fn live_neighbors(self, row: int, col: int) -> int {
        self.neighbor_row_term(row, col, self.height - 1) + self.neighbor_row_term(row, col, 0)
            + self.neighbor_row_term(row, col, 1)
    }

    /// The state of the cell at `(row, col)` one generation later.
    pub open spec fn next_alive(self, row: int, col: int) -> bool {
        next_state(self.alive(row, col), self.live_neighbors(row, col))
    }

    /// The next generation: every cell gets the state the rule gives it from
    /// this generation's cells.
    pub open spec fn step(self) -> Board {
        Board {
            width: self.width,
            height: self.height,
            cells: Seq::new(
                self.cells.len(),
                |i: int| self.next_alive(i / (self.width as int), i % (self.width as int)),
            ),
        }
    }

    /// The generation `n` steps later.
    pub open spec fn steps(self, n: nat) -> Board
        decreases n,
    {
        if n == 0 {
            self
        } else {
            self.step().steps((n - 1) as nat)
        }
    }

    /// The grid of the given size with every cell dead.
    pub open spec fn dead(width: nat, height: nat) -> Board {
        Board { width, height, cells: Seq::new(width * height, |i: int| false) }
    }

    /// Whether `(row, col)` occurs in `coords`.
    pub open spec fn listed(coords: Seq<(u32, u32)>, row: int, col: int) -> bool {
        exists|k: int|
            0 <= k < coords.len() && (#[trigger] coords[k]).0 == row && coords[k].1 == col
    }

    /// This grid with every cell listed in `coords` alive and every other cell
    /// as it was.
    pub open spec fn with_alive(self, coords: Seq<(u32, u32)>) -> Board {
        Board {
            width: self.width,
            height: self.height,
            cells: Seq::new(
                self.cells.len(),
                |i: int|
                    self.cells[i] || Self::listed(
                        coords,
                        i / (self.width as int),
                        i % (self.width as int),
                    ),
            ),
        }
    }

    /// The text drawing of the grid: one glyph per cell in row-major order,
    /// each row followed by a newline.
    pub open spec fn text(self) -> Seq<char> {
        let stride = self.width as int + 1;
        Seq::new(
            self.height * (self.width + 1),
            |i: int|
                if i % stride == self.width {
                    '\n'
                } else {
                    glyph(self.alive(i / stride, i % stride))
                },
        )
    }

    /// The row-major index of a cell determines its row and column, and lies
    /// inside the cell sequence.
    pub proof fn lemma_index(self, row: int, col: int)
        requires
            self.wf(),
            self.has_cell(row, col),
        ensures
            0 <= row * self.width + col < self.cells.len(),
            (row * self.width + col) / (self.width as int) == row,
            (row * self.width + col) % (self.width as int) == col,
    {
        let w = self.width as int;
        let h = self.height as int;
        lemma_fundamental_div_mod_converse(row * w + col, w, row, col);
        assert(0 <= row * w && row * w + w <= h * w) by (nonlinear_arith)
            requires
                0 <= row < h,
                0 < w,
        ;
        assert(h * w == w * h) by (nonlinear_arith);
    }

    /// Every index into the cell sequence is the row-major index of a cell.
    pub proof fn lemma_cell_of_index(self, i: int)
        requires
            self.wf(),
            0 <= i < self.cells.len(),
        ensures
            self.has_cell(i / (self.width as int), i % (self.width as int)),
            (i / (self.width as int)) * self.width + i % (self.width as int) == i,
    {
        let w = self.width as int;
        let h = self.height as int;
        assert(i == w * (i / w) + i % w && 0 <= i % w < w && (i / w) * w == w * (i / w))
            by (nonlinear_arith)
            requires
                0 < w,
        ;
        assert(0 <= i / w < h) by (nonlinear_arith)
            requires
                0 < w,
                0 <= i < w * h,
        ;
    }

    /// Moving one step back, nowhere, or one step forward along a dimension
    /// of size `n` from position `p` wraps as it should on a ring.
    pub proof fn lemma_wrap(p: int, n: int)
        requires
            0 <= p < n,
        ensures
            (p + (n - 1)) % n == (if p == 0 { n - 1 } else { p - 1 }),
            (p + 0) % n == p,
            (p + 1) % n == (if p == n - 1 { 0 } else { p + 1 }),
    {
        if p == 0 {
            lemma_fundamental_div_mod_converse(p + (n - 1), n, 0, n - 1);
        } else {
            lemma_fundamental_div_mod_converse(p + (n - 1), n, 1, p - 1);
        }
        lemma_fundamental_div_mod_converse(p + 0, n, 0, p);
        if p == n - 1 {
            lemma_fundamental_div_mod_converse(p + 1, n, 1, 0);
        } else {
            lemma_fundamental_div_mod_converse(p + 1, n, 0, p + 1);
        }
    }

    /// One if the cell at `(row, col)` is alive, zero if it is dead.
    pub open spec fn one_if_alive(self, row: int, col: int) -> int {
        if self.alive(row, col) {
            1
        } else {
            0
        }
    }

    /// On a grid at least two cells wide and high, the neighbours of a cell
    /// are the eight cells one step back, level or forward in each direction,
    /// wrapping at the edges.
    pub proof fn lemma_neighbors(self, row: int, col: int)
        requires
            self.wf(),
            self.has_cell(row, col),
            self.width >= 2,
            self.height >= 2,
        ensures
            ({
                let up = before(row, self.height as int);
                let down = after(row, self.height as int);
                let left = before(col, self.width as int);
                let right = after(col, self.width as int);
                &&& self.neighbors(row, col).contains((up, left))
                &&& self.neighbors(row, col).contains((up, col))
                &&& self.neighbors(row, col).contains((up, right))
                &&& self.neighbors(row, col).contains((row, left))
                &&& self.neighbors(row, col).contains((row, right))
                &&& self.neighbors(row, col).contains((down, left))
                &&& self.neighbors(row, col).contains((down, col))
                &&& self.neighbors(row, col).contains((down, right))
            }),
    {
        let h = self.height as int;
        let w = self.width as int;
        Self::lemma_wrap(row, h);
        Self::lemma_wrap(col, w);
        assert(self.shifted(row, col, h - 1, w - 1) == (before(row, h), before(col, w)));
        assert(self.shifted(row, col, h - 1, 0) == (before(row, h), col));
        assert(self.shifted(row, col, h - 1, 1) == (before(row, h), after(col, w)));
        assert(self.shifted(row, col, 0, w - 1) == (row, before(col, w)));
        assert(self.shifted(row, col, 0, 1) == (row, after(col, w)));
        assert(self.shifted(row, col, 1, w - 1) == (after(row, h), before(col, w)));
        assert(self.shifted(row, col, 1, 0) == (after(row, h), col));
        assert(self.shifted(row, col, 1, 1) == (after(row, h), after(col, w)));
    }

    /// The number of living cells among the eight cells one step back, level
    /// or forward from `(row, col)` in each direction, wrapping at the edges.
    pub open spec fn ring_count(self, row: int, col: int) -> int {
        let up = before(row, self.height as int);
        let down = after(row, self.height as int);
        let left = before(col, self.width as int);
        let right = after(col, self.width as int);
        self.one_if_alive(up, left) + self.one_if_alive(up, col) + self.one_if_alive(up, right)
            + self.one_if_alive(row, left) + self.one_if_alive(row, right) + self.one_if_alive(
            down,
            left,
        ) + self.one_if_alive(down, col) + self.one_if_alive(down, right)
    }

    /// On a grid at least two cells wide and high, the live-neighbour count
    /// of a cell is the number of living cells among the eight around it.
    pub proof fn lemma_live_neighbors(self, row: int, col: int)
        requires
            self.wf(),
            self.has_cell(row, col),
            self.width >= 2,
            self.height >= 2,
        ensures
            self.live_neighbors(row, col) == self.ring_count(row, col),
    {
        Self::lemma_wrap(row, self.height as int);
        Self::lemma_wrap(col, self.width as int);
    }

    /// On a grid at least two cells wide and high, a step gives each cell the
    /// state the rule assigns from its own state and the eight cells around
    /// it.
    pub proof fn lemma_step_by_ring(self, row: int, col: int)
        requires
            self.wf(),
            self.has_cell(row, col),
            self.width >= 2,
            self.height >= 2,
        ensures
            self.step().alive(row, col) == next_state(
                self.alive(row, col),
                self.ring_count(row, col),
            ),
    {
        self.lemma_step_cell(row, col);
        self.lemma_live_neighbors(row, col);
    }

    /// A step keeps the shape of the grid.
    pub proof fn lemma_step_shape(self)
        requires
            self.wf(),
        ensures
            self.step().wf(),
            self.step().width == self.width,
            self.step().height == self.height,
            self.step().cells.len() == self.width * self.height,
    {
    }

    /// After a step, each cell is in the state the rule gives it.
    pub proof fn lemma_step_cell(self, row: int, col: int)
        requires
            self.wf(),
            self.has_cell(row, col),
        ensures
            self.step().alive(row, col) == self.next_alive(row, col),
    {
        self.lemma_index(row, col);
    }

    /// Two well-formed grids of the same shape whose cells agree everywhere
    /// are the same grid.
    pub proof fn lemma_same_cells(self, other: Board)
        requires
            self.wf(),
            other.wf(),
            self.width == other.width,
            self.height == other.height,
            forall|row: int, col: int|
                self.has_cell(row, col) ==> self.alive(row, col) == other.alive(row, col),
        ensures
            self == other,
    {
        assert forall|i: int| 0 <= i < self.cells.len() implies self.cells[i] == other.cells[i] by {
            self.lemma_cell_of_index(i);
            let row = i / (self.width as int);
            let col = i % (self.width as int);
            assert(self.alive(row, col) == other.alive(row, col));
        }
        assert(self.cells =~= other.cells);
    }
}

} // verus!
