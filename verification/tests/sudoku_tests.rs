use sudoku::grid::Game;
use sudoku::solver::{solve_sudoku, GameState};

fn puzzle() -> [[i32; 9]; 9] {
    [
        [5, 3, 0, 0, 7, 0, 0, 0, 0],
        [6, 0, 0, 1, 9, 5, 0, 0, 0],
        [0, 9, 8, 0, 0, 0, 0, 6, 0],
        [8, 0, 0, 0, 6, 0, 0, 0, 3],
        [4, 0, 0, 8, 0, 3, 0, 0, 1],
        [7, 0, 0, 0, 2, 0, 0, 0, 6],
        [0, 6, 0, 0, 0, 0, 2, 8, 0],
        [0, 0, 0, 4, 1, 9, 0, 0, 5],
        [0, 0, 0, 0, 8, 0, 0, 7, 9],
    ]
}

fn solution() -> [[i32; 9]; 9] {
    [
        [5, 3, 4, 6, 7, 8, 9, 1, 2],
        [6, 7, 2, 1, 9, 5, 3, 4, 8],
        [1, 9, 8, 3, 4, 2, 5, 6, 7],
        [8, 5, 9, 7, 6, 1, 4, 2, 3],
        [4, 2, 6, 8, 5, 3, 7, 9, 1],
        [7, 1, 3, 9, 2, 4, 8, 5, 6],
        [9, 6, 1, 5, 3, 7, 2, 8, 4],
        [2, 8, 7, 4, 1, 9, 6, 3, 5],
        [3, 4, 5, 2, 8, 6, 1, 7, 9],
    ]
}

fn solve(matrix: [[i32; 9]; 9]) -> GameState {
    solve_sudoku(GameState {
        game: Game { matrix },
        is_solved: false,
    })
}

/// Each row, column, and 3x3 box of a solved grid holds each digit 1-9
/// exactly once.
fn assert_valid_solution(m: &[[i32; 9]; 9]) {
    for r in 0..9 {
        let mut seen = [false; 10];
        for c in 0..9 {
            let v = m[r][c];
            assert!((1..=9).contains(&v), "cell ({r},{c}) out of range: {v}");
            assert!(!seen[v as usize], "digit {v} twice in row {r}");
            seen[v as usize] = true;
        }
    }
    for c in 0..9 {
        let mut seen = [false; 10];
        for r in 0..9 {
            let v = m[r][c];
            assert!(!seen[v as usize], "digit {v} twice in column {c}");
            seen[v as usize] = true;
        }
    }
    for br in [0, 3, 6] {
        for bc in [0, 3, 6] {
            let mut seen = [false; 10];
            for i in 0..3 {
                for j in 0..3 {
                    let v = m[br + i][bc + j];
                    assert!(!seen[v as usize], "digit {v} twice in box ({br},{bc})");
                    seen[v as usize] = true;
                }
            }
        }
    }
}

#[test]
fn known_puzzle_yields_its_unique_solution() {
    let result = solve(puzzle());
    assert!(result.is_solved);
    assert_eq!(result.game.matrix, solution());
}

#[test]
fn clues_are_unchanged_in_the_solved_grid() {
    let input = puzzle();
    let result = solve(input);
    assert!(result.is_solved);
    for r in 0..9 {
        for c in 0..9 {
            if input[r][c] != 0 {
                assert_eq!(result.game.matrix[r][c], input[r][c]);
            }
        }
    }
}

#[test]
fn empty_grid_solves_to_a_valid_full_grid() {
    let result = solve([[0; 9]; 9]);
    assert!(result.is_solved);
    assert_valid_solution(&result.game.matrix);
}

#[test]
fn solved_grid_of_known_puzzle_is_valid() {
    let result = solve(puzzle());
    assert!(result.is_solved);
    assert_valid_solution(&result.game.matrix);
}

#[test]
fn repeated_invocations_return_identical_grids() {
    let first = solve(puzzle());
    let second = solve(puzzle());
    assert_eq!(first.is_solved, second.is_solved);
    assert_eq!(first.game.matrix, second.game.matrix);

    let first_empty = solve([[0; 9]; 9]);
    let second_empty = solve([[0; 9]; 9]);
    assert_eq!(first_empty.is_solved, second_empty.is_solved);
    assert_eq!(first_empty.game.matrix, second_empty.game.matrix);
}

#[test]
fn full_consistent_grid_returns_solved_and_unchanged() {
    let result = solve(solution());
    assert!(result.is_solved);
    assert_eq!(result.game.matrix, solution());
}

#[test]
fn unsolvable_consistent_grid_is_reported() {
    // Row 0 forces digit 9 into its first cell, but column 0 already
    // holds a 9: no legal completion exists, yet no two given clues
    // conflict with each other.
    let mut matrix = [[0; 9]; 9];
    matrix[0] = [0, 1, 2, 3, 4, 5, 6, 7, 8];
    matrix[1][0] = 9;
    let result = solve(matrix);
    assert!(!result.is_solved);
    assert_eq!(result.game.matrix[0], [0, 1, 2, 3, 4, 5, 6, 7, 8]);
    assert_eq!(result.game.matrix[1][0], 9);
    for r in 2..9 {
        assert_eq!(result.game.matrix[r], [0; 9]);
    }
}

#[test]
fn is_safe_detects_row_column_and_box_conflicts() {
    let game = Game { matrix: puzzle() };
    // (0, 2) is empty. 5 sits at (0, 0): row conflict.
    assert!(!game.is_safe(5, 0, 2));
    // 8 sits at (2, 2): column conflict (and box conflict).
    assert!(!game.is_safe(8, 0, 2));
    // 9 sits at (2, 1): box conflict only (not in row 0, not in column 2).
    assert!(!game.is_safe(9, 0, 2));
    // 1 appears nowhere in row 0, column 2, or the top-left box.
    assert!(game.is_safe(1, 0, 2));
    // 4 is the digit the unique solution puts at (0, 2).
    assert!(game.is_safe(4, 0, 2));
}

#[test]
fn is_safe_is_repeatable_without_mutation() {
    let game = Game { matrix: puzzle() };
    for digit in 1..=9 {
        let first = game.is_safe(digit, 0, 2);
        let second = game.is_safe(digit, 0, 2);
        assert_eq!(first, second);
    }
}

#[test]
fn number_unassigned_finds_first_empty_in_row_major_order() {
    let game = Game { matrix: puzzle() };
    let mut row = 0;
    let mut col = 0;
    let a = game.number_unassigned(&mut row, &mut col);
    assert_eq!(a, [0, 2, 1]);
    assert_eq!(row, 0);
    assert_eq!(col, 2);

    let empty = Game { matrix: [[0; 9]; 9] };
    let a = empty.number_unassigned(&mut row, &mut col);
    assert_eq!(a, [0, 0, 1]);
    assert_eq!(row, 0);
    assert_eq!(col, 0);
}

#[test]
fn number_unassigned_reports_full_grid() {
    let game = Game { matrix: solution() };
    let mut row = 42;
    let mut col = 17;
    let a = game.number_unassigned(&mut row, &mut col);
    assert_eq!(a, [-1, -1, 0]);
    assert_eq!(row, 42);
    assert_eq!(col, 17);
}

#[test]
fn assign_and_clear_touch_exactly_one_cell() {
    let before = puzzle();
    let mut game = Game { matrix: before };
    game.assign(4, 4, 7);
    for r in 0..9 {
        for c in 0..9 {
            if (r, c) == (4, 4) {
                assert_eq!(game.matrix[r][c], 7);
            } else {
                assert_eq!(game.matrix[r][c], before[r][c]);
            }
        }
    }
    game.clear(4, 4);
    assert_eq!(game.matrix, before);
}
