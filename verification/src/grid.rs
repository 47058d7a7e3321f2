use vstd::prelude::*;

verus! {

/// One 9-by-9 Sudoku board. A cell holds 0 while it is unassigned and a
/// digit 1 through 9 once it is assigned.
#[derive(Debug, Copy, Clone)]
pub struct Game {
    pub matrix: [[i32; 9]; 9],
}

/// The mathematical model of a board: nine rows, each a sequence of nine
/// cell values.
pub type Board = Seq<Seq<int>>;

impl View for Game {
    type V = Board;

    open spec fn view(&self) -> Board {
        Seq::new(9, |r: int| Seq::new(9, |c: int| self.matrix@[r]@[c] as int))
    }
}

/// The board has nine rows of nine cells, each holding 0 (empty) or a
/// digit 1 through 9.
pub open spec fn board_wf(g: Board) -> bool {
    &&& g.len() == 9
    &&& forall|r: int| 0 <= r < 9 ==> (#[trigger] g[r]).len() == 9
    &&& forall|r: int, c: int| 0 <= r < 9 && 0 <= c < 9 ==> 0 <= #[trigger] g[r][c] <= 9
}

/// Every cell is assigned.
pub open spec fn board_full(g: Board) -> bool {
    forall|r: int, c: int| 0 <= r < 9 && 0 <= c < 9 ==> #[trigger] g[r][c] != 0
}

/// The first row (or column) of the 3-by-3 box containing row (or column)
/// `x`; the search computes it as `x - x % 3`.
pub open spec fn box_base(x: int) -> int {
    x - x % 3
}

/// Two distinct in-range cells share a row, a column, or a 3-by-3 box.
pub open spec fn cells_conflict(r1: int, c1: int, r2: int, c2: int) -> bool {
    &&& 0 <= r1 < 9 && 0 <= c1 < 9 && 0 <= r2 < 9 && 0 <= c2 < 9
    &&& !(r1 == r2 && c1 == c2)
    &&& (r1 == r2 || c1 == c2 || (box_base(r1) == box_base(r2) && box_base(c1) == box_base(c2)))
}

/// No two assigned cells that share a row, a column, or a box hold the
/// same digit.
pub open spec fn board_consistent(g: Board) -> bool {
    forall|r1: int, c1: int, r2: int, c2: int|
        #![trigger g[r1][c1], g[r2][c2]]
        cells_conflict(r1, c1, r2, c2) && g[r1][c1] != 0 ==> g[r1][c1] != g[r2][c2]
}

/// No cell of row `r` holds `n`.
pub open spec fn row_free(g: Board, r: int, n: int) -> bool {
    forall|j: int| 0 <= j < 9 ==> #[trigger] g[r][j] != n
}

/// No cell of column `c` holds `n`.
pub open spec fn col_free(g: Board, c: int, n: int) -> bool {
    forall|i: int| 0 <= i < 9 ==> #[trigger] g[i][c] != n
}

/// No cell of the 3-by-3 box containing `(r, c)` holds `n`.
pub open spec fn box_free(g: Board, r: int, c: int, n: int) -> bool {
    forall|i: int, j: int|
        box_base(r) <= i < box_base(r) + 3 && box_base(c) <= j < box_base(c) + 3
            ==> #[trigger] g[i][j] != n
}

/// Writing `n` at `(r, c)` would not duplicate `n` anywhere in that cell's
/// row, column, or 3-by-3 box.
pub open spec fn placement_legal(g: Board, n: int, r: int, c: int) -> bool {
    row_free(g, r, n) && col_free(g, c, n) && box_free(g, r, c, n)
}

/// Every assigned cell of `g0` holds the same digit in `g1`.
pub open spec fn clues_kept(g0: Board, g1: Board) -> bool {
    forall|r: int, c: int|
        #![trigger g0[r][c]]
        #![trigger g1[r][c]]
        0 <= r < 9 && 0 <= c < 9 && g0[r][c] != 0 ==> g1[r][c] == g0[r][c]
}

/// The first empty cell at or after cursor `(r, c)` in row-major order.
pub open spec fn first_empty_from(g: Board, r: int, c: int) -> Option<(int, int)>
    decreases 9 - r, 9 - c,
{
    if r >= 9 {
        None
    } else if c >= 9 {
        first_empty_from(g, r + 1, 0)
    } else if g[r][c] == 0 {
        Some((r, c))
    } else {
        first_empty_from(g, r, c + 1)
    }
}

/// The number of empty cells at or after cursor `(r, c)` in row-major
/// order.
pub open spec fn empties_from(g: Board, r: int, c: int) -> nat
    decreases 9 - r, 9 - c,
{
    if r >= 9 {
        0
    } else if c >= 9 {
        empties_from(g, r + 1, 0)
    } else {
        (if g[r][c] == 0 { 1nat } else { 0nat }) + empties_from(g, r, c + 1)
    }
}

/// The number of empty cells on the whole board.
pub open spec fn empty_cells(g: Board) -> nat {
    empties_from(g, 0, 0)
}

/// The board with `n` written at `(r, c)`.
pub open spec fn board_place(g: Board, r: int, c: int, n: int) -> Board {
    g.update(r, g[r].update(c, n))
}

impl Game {
    /// Returns true iff placing `number` at `(row, col)` would not
    /// duplicate `number` anywhere in the same row, the same column, or
    /// the same 3-by-3 box. Read-only; no side effects.
    pub fn is_safe(self, number: i32, row: i32, col: i32) -> (safe: bool)
        requires
            0 <= row < 9,
            0 <= col < 9,
        ensures
            safe == placement_legal(self@, number as int, row as int, col as int),
    {
        for i in 0..9usize
            invariant
                0 <= row < 9,
                forall|j: int| 0 <= j < i ==> #[trigger] self@[row as int][j] != number as int,
        {
            if self.matrix[row as usize][i] == number {
                assert(self@[row as int][i as int] == number as int);
                return false;
            }
        }
        for i in 0..9usize
            invariant
                0 <= row < 9,
                0 <= col < 9,
                row_free(self@, row as int, number as int),
                forall|j: int| 0 <= j < i ==> #[trigger] self@[j][col as int] != number as int,
        {
            if self.matrix[i][col as usize] == number {
                assert(self@[i as int][col as int] == number as int);
                return false;
            }
        }
        let row_start: i32 = row - (row % 3);
        let col_start: i32 = col - (col % 3);

        for i in row_start..row_start + 3
            invariant
                0 <= row < 9,
                0 <= col < 9,
                row_start == box_base(row as int),
                col_start == box_base(col as int),
                0 <= row_start,
                row_start + 3 <= 9,
                0 <= col_start,
                col_start + 3 <= 9,
                row_free(self@, row as int, number as int),
                col_free(self@, col as int, number as int),
                forall|i2: int, j2: int|
                    row_start <= i2 < i && col_start <= j2 < col_start + 3
                        ==> #[trigger] self@[i2][j2] != number as int,
        {
            for j in col_start..col_start + 3
                invariant
                    0 <= row < 9,
                    0 <= col < 9,
                    row_start == box_base(row as int),
                    col_start == box_base(col as int),
                    0 <= row_start,
                    row_start + 3 <= 9,
                    0 <= col_start,
                    col_start + 3 <= 9,
                    row_start <= i < row_start + 3,
                    row_free(self@, row as int, number as int),
                    col_free(self@, col as int, number as int),
                    forall|i2: int, j2: int|
                        row_start <= i2 < i && col_start <= j2 < col_start + 3
                            ==> #[trigger] self@[i2][j2] != number as int,
                    forall|j2: int|
                        col_start <= j2 < j ==> #[trigger] self@[i as int][j2] != number as int,
            {
                if self.matrix[i as usize][j as usize] == number {
                    assert(self@[i as int][j as int] == number as int);
                    assert(!box_free(self@, row as int, col as int, number as int));
                    return false;
                }
            }
        }
        true
    }

    /// Scans the cells in row-major order for the first unassigned one.
    /// If one exists at `(r, c)`, writes `r` and `c` through the
    /// out-parameters and returns `[r, c, 1]`; otherwise it leaves them
    /// unchanged and returns `[-1, -1, 0]`.
    pub fn number_unassigned(self, row: &mut i32, col: &mut i32) -> (a: [i32; 3])
        ensures
            first_empty_from(self@, 0, 0) matches Some(rc) ==> {
                &&& a@[0] as int == rc.0
                &&& a@[1] as int == rc.1
                &&& a@[2] == 1
                &&& *final(row) as int == rc.0
                &&& *final(col) as int == rc.1
            },
            first_empty_from(self@, 0, 0) is None ==> {
                &&& a@[0] == -1
                &&& a@[1] == -1
                &&& a@[2] == 0
                &&& *final(row) == *old(row)
                &&& *final(col) == *old(col)
            },
    {
        let mut fr: usize = 0;
        let mut fc: usize = 0;
        let mut found: bool = false;
        let mut i: usize = 0;
        while i < 9 && !found
            invariant
                i <= 9,
                !found ==> first_empty_from(self@, 0, 0) == first_empty_from(self@, i as int, 0),
                found ==> fr < 9 && fc < 9 && first_empty_from(self@, 0, 0) == Some((
                    fr as int,
                    fc as int,
                )),
            decreases 9 - i, (if found { 0int } else { 1int }),
        {
            let mut j: usize = 0;
            while j < 9 && !found
                invariant
                    j <= 9,
                    i < 9,
                    !found ==> first_empty_from(self@, 0, 0) == first_empty_from(
                        self@,
                        i as int,
                        j as int,
                    ),
                    found ==> fr < 9 && fc < 9 && first_empty_from(self@, 0, 0) == Some((
                        fr as int,
                        fc as int,
                    )),
                decreases 9 - j, (if found { 0int } else { 1int }),
            {
                if self.matrix[i][j] == 0 {
                    fr = i;
                    fc = j;
                    found = true;
                } else {
                    j += 1;
                }
            }
            if !found {
                i += 1;
            }
        }
        if found {
            *row = fr as i32;
            *col = fc as i32;
            [fr as i32, fc as i32, 1]
        } else {
            [-1, -1, 0]
        }
    }

    /// Writes `number` at `(row, col)`. The search uses this for its try
    /// step; it enforces no legality, so callers check `is_safe` first.
    pub fn assign(&mut self, row: usize, col: usize, number: i32)
        requires
            row < 9,
            col < 9,
        ensures
            final(self)@ == board_place(old(self)@, row as int, col as int, number as int),
    {
        let mut line = self.matrix[row];
        line[col] = number;
        self.matrix[row] = line;
        proof {
            assert(self@ =~~= board_place(old(self)@, row as int, col as int, number as int));
        }
    }

    /// Resets `(row, col)` to the empty sentinel. The search uses this for
    /// its undo step when a candidate digit leads to a dead end.
    pub fn clear(&mut self, row: usize, col: usize)
        requires
            row < 9,
            col < 9,
        ensures
            final(self)@ == board_place(old(self)@, row as int, col as int, 0),
    {
        self.assign(row, col, 0);
    }
}

/// The legality check is a pure query over the board: two calls with the
/// same arguments and no mutation in between return the same result.
pub proof fn lemma_is_safe_repeatable(g: Game, number: i32, row: i32, col: i32, first: bool, second: bool)
    requires
        first == placement_legal(g@, number as int, row as int, col as int),
        second == placement_legal(g@, number as int, row as int, col as int),
    ensures
        first == second,
{
}

} // verus!
