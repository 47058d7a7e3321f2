use vstd::prelude::*;
use crate::grid::{
    Game, Board, board_wf, board_full, board_consistent, board_place, box_base, cells_conflict,
    clues_kept, col_free, empties_from, empty_cells, first_empty_from, placement_legal, row_free,
    box_free,
};

verus! {

/// A board together with the outcome of a search over it.
#[derive(Debug, Clone, Copy)]
pub struct GameState {
    pub game: Game,
    pub is_solved: bool,
}

/// A complete legal assignment reachable from `g`: every cell assigned,
/// no constraint violated, every clue of `g` kept.
pub open spec fn is_completion(g: Board, s: Board) -> bool {
    &&& board_wf(s)
    &&& board_full(s)
    &&& board_consistent(s)
    &&& clues_kept(g, s)
}

/// Some complete legal assignment is reachable from `g`.
pub open spec fn solvable(g: Board) -> bool {
    exists|s: Board| is_completion(g, s)
}

/// The depth-first search, described at the specification level: find the
/// first empty cell in row-major order; if none exists the board itself is
/// the answer, otherwise try the digits 1 through 9 there in ascending
/// order. `None` means the whole branch is exhausted.
pub open spec fn solve_spec(g: Board) -> Option<Board>
    decreases empty_cells(g), 10int,
{
    match first_empty_from(g, 0, 0) {
        None => Some(g),
        Some(rc) => try_digits(g, rc.0, rc.1, 1),
    }
}

/// The candidate loop of the search: try digit `d`, then `d + 1`, and so
/// on through 9, at the empty cell `(r, c)`; the first digit whose branch
/// solves the board wins.
pub open spec fn try_digits(g: Board, r: int, c: int, d: int) -> Option<Board>
    decreases empty_cells(g), 10 - d,
    via try_digits_decreases
{
    if !board_wf(g) || d < 1 || d > 9 || r < 0 || r >= 9 || c < 0 || c >= 9 || g[r][c] != 0 {
        None
    } else if placement_legal(g, d, r, c) {
        match solve_spec(board_place(g, r, c, d)) {
            Some(s) => Some(s),
            None => try_digits(g, r, c, d + 1),
        }
    } else {
        try_digits(g, r, c, d + 1)
    }
}

#[via_fn]
proof fn try_digits_decreases(g: Board, r: int, c: int, d: int) {
    if board_wf(g) && 1 <= d <= 9 && 0 <= r < 9 && 0 <= c < 9 && g[r][c] == 0 {
        lemma_place_fewer_empties(g, r, c, d);
    }
}

/// What the search promises of its result: on success the returned board
/// is exactly the one the specification-level search finds; on failure the
/// board comes back unchanged.
pub open spec fn solve_outcome(g: Board, result: GameState) -> bool {
    match solve_spec(g) {
        Some(s) => result.is_solved && result.game@ == s,
        None => !result.is_solved && result.game@ == g,
    }
}

/// The full contract of `solve_sudoku` on a well-formed input board `g`.
pub open spec fn solver_post(g: Board, result: GameState) -> bool {
    &&& solve_outcome(g, result)
    &&& board_wf(result.game@)
    &&& (result.is_solved ==> board_full(result.game@) && clues_kept(g, result.game@))
    &&& (result.is_solved && board_consistent(g) ==> board_consistent(result.game@))
    &&& (solvable(g) ==> result.is_solved)
    &&& (!result.is_solved ==> result.game@ == g)
}

/// Whatever `first_empty_from` returns lies at or after the cursor, is in
/// range and empty; and when it returns nothing, every cell from the
/// cursor on is assigned.
pub proof fn lemma_first_empty_props(g: Board, r: int, c: int)
    requires
        0 <= r,
        0 <= c,
    ensures
        first_empty_from(g, r, c) matches Some(rc) ==> {
            &&& 0 <= rc.0 < 9
            &&& 0 <= rc.1 < 9
            &&& g[rc.0][rc.1] == 0
        },
        first_empty_from(g, r, c) is None ==> forall|i: int, j: int|
            0 <= i < 9 && 0 <= j < 9 && (i > r || (i == r && j >= c)) ==> #[trigger] g[i][j] != 0,
    decreases 9 - r, 9 - c,
{
    if r >= 9 {
    } else if c >= 9 {
        lemma_first_empty_props(g, r + 1, 0);
    } else if g[r][c] == 0 {
    } else {
        lemma_first_empty_props(g, r, c + 1);
    }
}

/// A board with no unassigned cell makes the scan come up empty.
pub proof fn lemma_full_board_has_no_empty(g: Board, r: int, c: int)
    requires
        0 <= r,
        0 <= c,
        board_full(g),
    ensures
        first_empty_from(g, r, c) is None,
    decreases 9 - r, 9 - c,
{
    if r >= 9 {
    } else if c >= 9 {
        lemma_full_board_has_no_empty(g, r + 1, 0);
    } else {
        lemma_full_board_has_no_empty(g, r, c + 1);
    }
}

/// Writing a digit into an empty cell removes that cell, and only that
/// cell, from the count of empties seen by any cursor.
proof fn lemma_empties_after_place(g: Board, r: int, c: int, n: int, i: int, j: int)
    requires
        board_wf(g),
        0 <= r < 9,
        0 <= c < 9,
        g[r][c] == 0,
        n != 0,
        0 <= i,
        0 <= j,
    ensures
        (i < r || (i == r && j <= c)) ==> empties_from(board_place(g, r, c, n), i, j) + 1
            == empties_from(g, i, j),
        !(i < r || (i == r && j <= c)) ==> empties_from(board_place(g, r, c, n), i, j)
            == empties_from(g, i, j),
    decreases 9 - i, 9 - j,
{
    let g2 = board_place(g, r, c, n);
    if i >= 9 {
    } else if j >= 9 {
        lemma_empties_after_place(g, r, c, n, i + 1, 0);
    } else {
        assert(g2[i][j] == (if i == r && j == c { n } else { g[i][j] }));
        lemma_empties_after_place(g, r, c, n, i, j + 1);
    }
}

/// Filling an empty cell strictly lowers the number of empty cells.
pub proof fn lemma_place_fewer_empties(g: Board, r: int, c: int, n: int)
    requires
        board_wf(g),
        0 <= r < 9,
        0 <= c < 9,
        g[r][c] == 0,
        n != 0,
    ensures
        empty_cells(board_place(g, r, c, n)) + 1 == empty_cells(g),
{
    lemma_empties_after_place(g, r, c, n, 0, 0);
}

/// Writing a digit 0 through 9 keeps the board well-formed.
pub proof fn lemma_place_wf(g: Board, r: int, c: int, n: int)
    requires
        board_wf(g),
        0 <= r < 9,
        0 <= c < 9,
        0 <= n <= 9,
    ensures
        board_wf(board_place(g, r, c, n)),
{
    let g2 = board_place(g, r, c, n);
    assert forall|i: int, j: int| 0 <= i < 9 && 0 <= j < 9 implies 0 <= #[trigger] g2[i][j] <= 9 by {
        assert(g2[i][j] == (if i == r && j == c { n } else { g[i][j] }));
    }
}

/// A legal placement into an empty cell of a consistent board leaves the
/// board consistent: this is the invariant the try/undo discipline keeps.
pub proof fn lemma_place_consistent(g: Board, r: int, c: int, n: int)
    requires
        board_wf(g),
        board_consistent(g),
        0 <= r < 9,
        0 <= c < 9,
        g[r][c] == 0,
        1 <= n <= 9,
        placement_legal(g, n, r, c),
    ensures
        board_consistent(board_place(g, r, c, n)),
{
    let g2 = board_place(g, r, c, n);
    assert forall|r1: int, c1: int, r2: int, c2: int|
        cells_conflict(r1, c1, r2, c2) && #[trigger] g2[r1][c1] != 0
            implies g2[r1][c1] != #[trigger] g2[r2][c2] by {
        assert(g2[r1][c1] == (if r1 == r && c1 == c { n } else { g[r1][c1] }));
        assert(g2[r2][c2] == (if r2 == r && c2 == c { n } else { g[r2][c2] }));
        if r1 == r && c1 == c {
            lemma_legal_excludes_conflicting(g, r, c, n, r2, c2);
        } else if r2 == r && c2 == c {
            lemma_legal_excludes_conflicting(g, r, c, n, r1, c1);
        } else {
            assert(g[r1][c1] != 0 && g[r1][c1] != g[r2][c2]);
        }
    }
}

/// No cell conflicting with `(r, c)` holds the digit that is legal there.
proof fn lemma_legal_excludes_conflicting(g: Board, r: int, c: int, n: int, i: int, j: int)
    requires
        placement_legal(g, n, r, c),
        cells_conflict(r, c, i, j) || cells_conflict(i, j, r, c),
    ensures
        g[i][j] != n,
{
    if i == r {
        assert(row_free(g, r, n));
        assert(g[r][j] != n);
    } else if j == c {
        assert(col_free(g, c, n));
        assert(g[i][c] != n);
    } else {
        assert(box_base(i) == box_base(r) && box_base(j) == box_base(c));
        assert(box_base(i) <= i < box_base(i) + 3) by {
            assert(0 <= i % 3 < 3);
        }
        assert(box_base(j) <= j < box_base(j) + 3) by {
            assert(0 <= j % 3 < 3);
        }
        assert(box_free(g, r, c, n));
        assert(g[i][j] != n);
    }
}

/// Clues survive a placement into an empty cell: whatever keeps the clues
/// of the filled board also keeps the clues of the board before the fill.
pub proof fn lemma_clues_kept_through_place(g: Board, r: int, c: int, n: int, s: Board)
    requires
        board_wf(g),
        0 <= r < 9,
        0 <= c < 9,
        g[r][c] == 0,
        clues_kept(board_place(g, r, c, n), s),
    ensures
        clues_kept(g, s),
{
    let g2 = board_place(g, r, c, n);
    assert forall|i: int, j: int| 0 <= i < 9 && 0 <= j < 9 && #[trigger] g[i][j] != 0
            implies #[trigger] s[i][j] == g[i][j] by {
        assert(g2[i][j] == g[i][j]);
        assert(g2[i][j] != 0);
    }
}

/// Clearing the cell that a try step filled restores the board exactly:
/// the undo discipline of the search.
pub proof fn lemma_place_then_clear(g: Board, r: int, c: int, n: int)
    requires
        board_wf(g),
        0 <= r < 9,
        0 <= c < 9,
        g[r][c] == 0,
    ensures
        board_place(board_place(g, r, c, n), r, c, 0) == g,
{
    assert(board_place(board_place(g, r, c, n), r, c, 0) =~~= g);
}

/// When a completion of `g` exists, the search starting from any digit no
/// greater than the completion's own digit at `(r, c)` finds a solution.
proof fn lemma_try_digits_finds(g: Board, r: int, c: int, d: int, d0: int)
    requires
        board_wf(g),
        0 <= r < 9,
        0 <= c < 9,
        g[r][c] == 0,
        1 <= d <= d0 <= 9,
        placement_legal(g, d0, r, c),
        solve_spec(board_place(g, r, c, d0)) is Some,
    ensures
        try_digits(g, r, c, d) is Some,
    decreases 10 - d,
{
    if placement_legal(g, d, r, c) {
        match solve_spec(board_place(g, r, c, d)) {
            Some(_) => {},
            None => {
                assert(d != d0);
                lemma_try_digits_finds(g, r, c, d + 1, d0);
            },
        }
    } else {
        assert(d != d0);
        lemma_try_digits_finds(g, r, c, d + 1, d0);
    }
}

/// The search is complete: wherever a complete legal assignment keeping
/// the clues exists, the search finds one.
pub proof fn lemma_completion_found(g: Board, s: Board)
    requires
        board_wf(g),
        is_completion(g, s),
    ensures
        solve_spec(g) is Some,
    decreases empty_cells(g),
{
    match first_empty_from(g, 0, 0) {
        None => {},
        Some(rc) => {
            lemma_first_empty_props(g, 0, 0);
            let r: int = rc.0;
            let c: int = rc.1;
            let d0: int = s[r][c];
            assert(1 <= d0 <= 9);
            assert(placement_legal(g, d0, r, c)) by {
                lemma_completion_legal_digit(g, s, r, c);
            }
            let g2 = board_place(g, r, c, d0);
            lemma_place_wf(g, r, c, d0);
            assert(clues_kept(g2, s)) by {
                assert forall|i: int, j: int| 0 <= i < 9 && 0 <= j < 9 && #[trigger] g2[i][j] != 0
                        implies #[trigger] s[i][j] == g2[i][j] by {
                    assert(g2[i][j] == (if i == r && j == c { d0 } else { g[i][j] }));
                }
            }
            lemma_place_fewer_empties(g, r, c, d0);
            lemma_completion_found(g2, s);
            lemma_try_digits_finds(g, r, c, 1, d0);
        },
    }
}

/// The digit a completion puts in an empty cell is a legal placement on
/// the board as it stands.
proof fn lemma_completion_legal_digit(g: Board, s: Board, r: int, c: int)
    requires
        board_wf(g),
        is_completion(g, s),
        0 <= r < 9,
        0 <= c < 9,
        g[r][c] == 0,
    ensures
        placement_legal(g, s[r][c], r, c),
{
    let d0: int = s[r][c];
    assert(d0 != 0);
    assert forall|j: int| 0 <= j < 9 implies #[trigger] g[r][j] != d0 by {
        if g[r][j] == d0 {
            assert(s[r][j] == d0);
            assert(cells_conflict(r, j, r, c));
            assert(s[r][j] != s[r][c]);
        }
    }
    assert forall|i: int| 0 <= i < 9 implies #[trigger] g[i][c] != d0 by {
        if g[i][c] == d0 {
            assert(s[i][c] == d0);
            assert(cells_conflict(i, c, r, c));
            assert(s[i][c] != s[r][c]);
        }
    }
    assert forall|i: int, j: int|
        box_base(r) <= i < box_base(r) + 3 && box_base(c) <= j < box_base(c) + 3
            implies #[trigger] g[i][j] != d0 by {
        assert(0 <= i < 9 && 0 <= j < 9);
        assert(box_base(i) == box_base(r)) by {
            assert(box_base(r) % 3 == 0);
        }
        assert(box_base(j) == box_base(c)) by {
            assert(box_base(c) % 3 == 0);
        }
        if g[i][j] == d0 {
            assert(s[i][j] == d0);
            if i == r && j == c {
                assert(g[r][c] == 0);
            } else {
                assert(cells_conflict(i, j, r, c));
                assert(s[i][j] != s[r][c]);
            }
        }
    }
}

/// Depth-first backtracking search. Finds the first empty cell in
/// row-major order; if none exists the board is already solved. Otherwise
/// it tries the digits 1 through 9 there in ascending order, recursing
/// after each legal placement and undoing it when the branch fails. The
/// result is exactly what the specification-level search describes; in
/// particular the given clues are kept, a solvable board comes back fully
/// and consistently assigned, and an exhausted search returns the board
/// unchanged.
#[verifier::loop_isolation(false)]
pub fn solve_sudoku(game_state: GameState) -> (result: GameState)
    requires
        board_wf(game_state.game@),
    ensures
        solver_post(game_state.game@, result),
    decreases empty_cells(game_state.game@),
{
    let ghost g0 = game_state.game@;
    let mut game_state = game_state;
    let mut row: i32 = 0;
    let mut col: i32 = 0;
    let a = game_state.game.number_unassigned(&mut row, &mut col);
    if a[2] == 0 {
        proof {
            assert(first_empty_from(g0, 0, 0) is None);
            lemma_first_empty_props(g0, 0, 0);
            assert(board_full(g0));
        }
        return GameState { game: game_state.game, is_solved: true };
    }
    row = a[0];
    col = a[1];
    proof {
        assert(first_empty_from(g0, 0, 0) matches Some(rc) && rc == (row as int, col as int));
        lemma_first_empty_props(g0, 0, 0);
        assert(solve_spec(g0) == try_digits(g0, row as int, col as int, 1));
    }
    for i in 1..10i32
        invariant
            board_wf(g0),
            game_state.game@ == g0,
            0 <= row < 9,
            0 <= col < 9,
            g0[row as int][col as int] == 0,
            solve_spec(g0) == try_digits(g0, row as int, col as int, i as int),
    {
        if game_state.game.is_safe(i, row, col) {
            game_state.game.assign(row as usize, col as usize, i);
            proof {
                assert(game_state.game@ == board_place(g0, row as int, col as int, i as int));
                lemma_place_wf(g0, row as int, col as int, i as int);
                lemma_place_fewer_empties(g0, row as int, col as int, i as int);
            }
            let recur_sudoku = solve_sudoku(game_state);
            let ghost g1 = board_place(g0, row as int, col as int, i as int);
            if recur_sudoku.is_solved {
                proof {
                    let s = solve_spec(g1)->Some_0;
                    assert(solve_spec(g0) == Some(s));
                    lemma_clues_kept_through_place(g0, row as int, col as int, i as int, recur_sudoku.game@);
                    if board_consistent(g0) {
                        lemma_place_consistent(g0, row as int, col as int, i as int);
                    }
                }
                return recur_sudoku;
            }
            game_state.game.clear(row as usize, col as usize);
            proof {
                lemma_place_then_clear(g0, row as int, col as int, i as int);
                assert(game_state.game@ == g0);
                assert(solve_spec(g1) is None);
                assert(try_digits(g0, row as int, col as int, i as int)
                    == try_digits(g0, row as int, col as int, i + 1 as int));
            }
        } else {
            proof {
                assert(try_digits(g0, row as int, col as int, i as int)
                    == try_digits(g0, row as int, col as int, i + 1 as int));
            }
        }
    }
    proof {
        assert(solve_spec(g0) is None);
        if solvable(g0) {
            let s = choose|s: Board| is_completion(g0, s);
            lemma_completion_found(g0, s);
            assert(false);
        }
    }
    GameState { game: game_state.game, is_solved: false }
}

} // verus!
