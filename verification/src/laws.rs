use vstd::prelude::*;
use vstd::set_lib::{lemma_int_range, lemma_len_subset, set_int_range};
use crate::grid::{
    Board, board_consistent, board_full, board_wf, box_base, cells_conflict, clues_kept,
};
use crate::solver::{
    GameState, is_completion, lemma_full_board_has_no_empty, solvable, solve_spec, solver_post,
};

verus! {

/// Digit `d` appears somewhere in row `r`.
pub open spec fn digit_in_row(g: Board, r: int, d: int) -> bool {
    exists|c: int| 0 <= c < 9 && g[r][c] == d
}

/// Digit `d` appears somewhere in column `c`.
pub open spec fn digit_in_col(g: Board, c: int, d: int) -> bool {
    exists|r: int| 0 <= r < 9 && g[r][c] == d
}

/// Digit `d` appears somewhere in the 3-by-3 box whose top-left cell is
/// `(br, bc)`.
pub open spec fn digit_in_box(g: Board, br: int, bc: int, d: int) -> bool {
    exists|i: int, j: int| br <= i < br + 3 && bc <= j < bc + 3 && #[trigger] g[i][j] == d
}

/// A completely solved grid: every row, every column, and every 3-by-3 box
/// contains each digit 1 through 9 at least once; together with
/// `board_consistent` (no unit holds a digit twice) each unit therefore
/// contains each digit exactly once.
pub open spec fn solution_valid(g: Board) -> bool {
    &&& board_wf(g)
    &&& board_full(g)
    &&& board_consistent(g)
    &&& forall|r: int, d: int| 0 <= r < 9 && 1 <= d <= 9 ==> digit_in_row(g, r, d)
    &&& forall|c: int, d: int| 0 <= c < 9 && 1 <= d <= 9 ==> digit_in_col(g, c, d)
    &&& forall|br: int, bc: int, d: int|
        (br == 0 || br == 3 || br == 6) && (bc == 0 || bc == 3 || bc == 6) && 1 <= d <= 9
            ==> digit_in_box(g, br, bc, d)
}

/// Nine pairwise distinct values drawn from the digits 1 through 9 must
/// cover every one of those digits.
proof fn lemma_nine_distinct_digits_cover_all(vals: Seq<int>)
    requires
        vals.len() == 9,
        forall|k: int| 0 <= k < 9 ==> 1 <= #[trigger] vals[k] <= 9,
        vals.no_duplicates(),
    ensures
        forall|d: int| 1 <= d <= 9 ==> vals.contains(d),
{
    vals.unique_seq_to_set();
    assert forall|d: int| 1 <= d <= 9 implies vals.contains(d) by {
        if !vals.contains(d) {
            let all_digits = set_int_range(1, 10);
            lemma_int_range(1, 10);
            let rest = all_digits.remove(d);
            assert(vals.to_set().subset_of(rest)) by {
                assert forall|v: int| vals.to_set().contains(v) implies rest.contains(v) by {
                    assert(vals.contains(v));
                    let k = choose|k: int| 0 <= k < vals.len() && vals[k] == v;
                    assert(1 <= vals[k] <= 9);
                };
            }
            lemma_len_subset(vals.to_set(), rest);
            assert(rest.len() == 8);
            assert(false);
        }
    };
}

/// In a full consistent board, row `r` contains every digit.
proof fn lemma_row_covers(g: Board, r: int)
    requires
        board_wf(g),
        board_full(g),
        board_consistent(g),
        0 <= r < 9,
    ensures
        forall|d: int| 1 <= d <= 9 ==> digit_in_row(g, r, d),
{
    let vals = Seq::new(9, |c: int| g[r][c]);
    assert(vals.no_duplicates()) by {
        assert forall|c1: int, c2: int|
            0 <= c1 < vals.len() && 0 <= c2 < vals.len() && c1 != c2
                implies vals[c1] != vals[c2] by {
            assert(cells_conflict(r, c1, r, c2));
            assert(g[r][c1] != 0 && g[r][c1] != g[r][c2]);
        };
    }
    lemma_nine_distinct_digits_cover_all(vals);
    assert forall|d: int| 1 <= d <= 9 implies digit_in_row(g, r, d) by {
        assert(vals.contains(d));
        let c = choose|c: int| 0 <= c < vals.len() && vals[c] == d;
        assert(g[r][c] == d);
    };
}

/// In a full consistent board, column `c` contains every digit.
proof fn lemma_col_covers(g: Board, c: int)
    requires
        board_wf(g),
        board_full(g),
        board_consistent(g),
        0 <= c < 9,
    ensures
        forall|d: int| 1 <= d <= 9 ==> digit_in_col(g, c, d),
{
    let vals = Seq::new(9, |r: int| g[r][c]);
    assert(vals.no_duplicates()) by {
        assert forall|r1: int, r2: int|
            0 <= r1 < vals.len() && 0 <= r2 < vals.len() && r1 != r2
                implies vals[r1] != vals[r2] by {
            assert(cells_conflict(r1, c, r2, c));
            assert(g[r1][c] != 0 && g[r1][c] != g[r2][c]);
        };
    }
    lemma_nine_distinct_digits_cover_all(vals);
    assert forall|d: int| 1 <= d <= 9 implies digit_in_col(g, c, d) by {
        assert(vals.contains(d));
        let r = choose|r: int| 0 <= r < vals.len() && vals[r] == d;
        assert(g[r][c] == d);
    };
}

/// In a full consistent board, the box with top-left cell `(br, bc)`
/// contains every digit.
proof fn lemma_box_covers(g: Board, br: int, bc: int)
    requires
        board_wf(g),
        board_full(g),
        board_consistent(g),
        br == 0 || br == 3 || br == 6,
        bc == 0 || bc == 3 || bc == 6,
    ensures
        forall|d: int| 1 <= d <= 9 ==> digit_in_box(g, br, bc, d),
{
    let vals = Seq::new(9, |k: int| g[br + k / 3][bc + k % 3]);
    assert(vals.no_duplicates()) by {
        assert forall|k1: int, k2: int|
            0 <= k1 < vals.len() && 0 <= k2 < vals.len() && k1 != k2
                implies vals[k1] != vals[k2] by {
            let (i1, j1) = (br + k1 / 3, bc + k1 % 3);
            let (i2, j2) = (br + k2 / 3, bc + k2 % 3);
            assert(!(i1 == i2 && j1 == j2));
            assert(box_base(i1) == br && box_base(i2) == br);
            assert(box_base(j1) == bc && box_base(j2) == bc);
            assert(cells_conflict(i1, j1, i2, j2));
            assert(g[i1][j1] != 0 && g[i1][j1] != g[i2][j2]);
        };
    }
    lemma_nine_distinct_digits_cover_all(vals);
    assert forall|d: int| 1 <= d <= 9 implies digit_in_box(g, br, bc, d) by {
        assert(vals.contains(d));
        let k = choose|k: int| 0 <= k < vals.len() && vals[k] == d;
        assert(0 <= k / 3 < 3 && 0 <= k % 3 < 3);
        assert(g[br + k / 3][bc + k % 3] == d);
    };
}

/// A board whose clues all survive into a consistent completion is itself
/// consistent.
proof fn lemma_sub_board_consistent(g: Board, s: Board)
    requires
        is_completion(g, s),
    ensures
        board_consistent(g),
{
    assert forall|r1: int, c1: int, r2: int, c2: int|
        cells_conflict(r1, c1, r2, c2) && #[trigger] g[r1][c1] != 0
            implies g[r1][c1] != #[trigger] g[r2][c2] by {
        if g[r2][c2] != 0 {
            assert(s[r1][c1] == g[r1][c1] && s[r2][c2] == g[r2][c2]);
            assert(s[r1][c1] != s[r2][c2]);
        }
    };
}

/// For every solvable input the search succeeds, keeps the given clues,
/// and returns a grid that holds each of the digits 1 through 9 exactly
/// once in every row, every column, and every 3-by-3 box.
pub proof fn lemma_solver_output_valid(g: Board, result: GameState)
    requires
        board_wf(g),
        solvable(g),
        solver_post(g, result),
    ensures
        result.is_solved,
        solution_valid(result.game@),
        clues_kept(g, result.game@),
{
    let s = choose|s: Board| is_completion(g, s);
    lemma_sub_board_consistent(g, s);
    let out = result.game@;
    assert forall|r: int, d: int| 0 <= r < 9 && 1 <= d <= 9 implies digit_in_row(out, r, d) by {
        lemma_row_covers(out, r);
    };
    assert forall|c: int, d: int| 0 <= c < 9 && 1 <= d <= 9 implies digit_in_col(out, c, d) by {
        lemma_col_covers(out, c);
    };
    assert forall|br: int, bc: int, d: int|
        (br == 0 || br == 3 || br == 6) && (bc == 0 || bc == 3 || bc == 6) && 1 <= d <= 9
            implies digit_in_box(out, br, bc, d) by {
        lemma_box_covers(out, br, bc);
    };
}

/// Every originally given clue is unchanged in a returned solved grid.
pub proof fn lemma_clues_never_altered(g: Board, result: GameState)
    requires
        solver_post(g, result),
        result.is_solved,
    ensures
        clues_kept(g, result.game@),
{
}

/// The search is deterministic: its fixed scan order and fixed candidate
/// order pin the result down, so any two results for the same input board
/// agree exactly.
pub proof fn lemma_solver_deterministic(g: Board, r1: GameState, r2: GameState)
    requires
        solver_post(g, r1),
        solver_post(g, r2),
    ensures
        r1.is_solved == r2.is_solved,
        r1.game@ == r2.game@,
{
}

/// A fully assigned input with no constraint violation comes back solved
/// and equal to itself: the scan finds no empty cell, so no candidate
/// digit is ever tried.
pub proof fn lemma_full_board_solved_unchanged(g: Board, result: GameState)
    requires
        board_wf(g),
        board_full(g),
        board_consistent(g),
        solver_post(g, result),
    ensures
        result.is_solved,
        result.game@ == g,
{
    lemma_full_board_has_no_empty(g, 0, 0);
    assert(solve_spec(g) == Some(g));
}

/// A consistent puzzle with no complete legal assignment is reported
/// unsolvable, and the board comes back unchanged. (Consistency of the
/// given clues is needed: the search never re-checks cells that were
/// already assigned, so a full board is accepted as solved even when its
/// given clues conflict.)
pub proof fn lemma_unsolvable_reported(g: Board, result: GameState)
    requires
        board_wf(g),
        board_consistent(g),
        !solvable(g),
        solver_post(g, result),
    ensures
        !result.is_solved,
        result.game@ == g,
{
    if result.is_solved {
        assert(is_completion(g, result.game@));
        assert(solvable(g));
    }
}

} // verus!
