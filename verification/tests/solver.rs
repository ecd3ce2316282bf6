use ring_solver::eval::count_bits;
use ring_solver::moves::{RingRotations, RingShifts};
use ring_solver::rotate::{rotate_left_12, rotate_left_8, rotate_right_12, rotate_right_8};
use ring_solver::zigzag::{ZigZagBits12, ZigZagBits8};
use ring_solver::{MAX_TURNS, RingMovement, SolveError, find_solution, get_solution, solve};

#[test]
fn rotate_round_trip_12() {
    for v in [0u16, 1, 0x800, 0xfff, 0b1010_0110_0101, 0x123] {
        for k in 0..=24u16 {
            assert_eq!(rotate_right_12(rotate_left_12(v, k), k), v);
            assert_eq!(rotate_left_12(rotate_right_12(v, k), k), v);
        }
    }
}

#[test]
fn rotate_round_trip_8() {
    for v in [0u16, 1, 0x80, 0xff, 0b1011_0010] {
        for k in 0..=16u16 {
            assert_eq!(rotate_right_8(rotate_left_8(v, k), k), v);
            assert_eq!(rotate_left_8(rotate_right_8(v, k), k), v);
        }
    }
}

#[test]
fn rotate_full_turn_is_identity() {
    assert_eq!(rotate_left_12(0x5a5, 12), rotate_left_12(0x5a5, 0));
    assert_eq!(rotate_left_12(0x5a5, 0), 0x5a5);
    assert_eq!(rotate_left_8(0xa5, 8), rotate_left_8(0xa5, 0));
    assert_eq!(rotate_left_8(0xa5, 0), 0xa5);
}

#[test]
fn rotate_exact_values() {
    assert_eq!(rotate_left_12(0b1, 1), 0b10);
    assert_eq!(rotate_left_12(0x800, 1), 0b1);
    assert_eq!(rotate_right_12(0b1, 1), 0x800);
    assert_eq!(rotate_left_8(0x80, 1), 0b1);
    assert_eq!(rotate_right_8(0b1, 2), 0x40);
}

#[test]
fn zigzag_row_example_sequence() {
    let mut z = ZigZagBits8::new(0b0000_0010);
    assert_eq!(z.next(), (0b0000_0100, 1));
    assert_eq!(z.next(), (0b0000_0001, -1));
    assert_eq!(z.next(), (0b0000_1000, 2));
    assert_eq!(z.next(), (0b1000_0000, -2));
    assert_eq!(z.next(), (0b0001_0000, 3));
    assert_eq!(z.next(), (0b0100_0000, -3));
    assert_eq!(z.next(), (0b0010_0000, 4));
}

#[test]
fn zigzag_offsets_alternate_and_grow() {
    let mut z = ZigZagBits12::new(0x234);
    let mut offsets = Vec::new();
    for _ in 0..8 {
        let (_, amount) = z.next();
        offsets.push(amount);
    }
    assert_eq!(offsets, vec![1, -1, 2, -2, 3, -3, 4, -4]);

    // The offsets do not depend on the seed value.
    let mut z2 = ZigZagBits12::new(0);
    let mut offsets2 = Vec::new();
    for _ in 0..8 {
        let (_, amount) = z2.next();
        offsets2.push(amount);
    }
    assert_eq!(offsets, offsets2);
}

#[test]
fn ring_rotations_yields_rotated_boards() {
    let board = [0b1, 0b111, 0, 0];
    let mut g = RingRotations::new(board, 0).unwrap();
    let (moved, movement) = g.next();
    assert_eq!(moved, [0b10, 0b111, 0, 0]);
    assert_eq!(movement, RingMovement::Ring { r: 0, amount: 1, clockwise: true });
    let (moved, movement) = g.next();
    assert_eq!(moved, [0x800, 0b111, 0, 0]);
    assert_eq!(movement, RingMovement::Ring { r: 0, amount: 1, clockwise: false });
}

#[test]
fn ring_rotations_none_for_empty_subring() {
    let board = [0b1, 0, 0, 0];
    assert!(RingRotations::new(board, 1).is_none());
    assert!(RingRotations::new(board, 0).is_some());
}

#[test]
fn ring_shifts_moves_cell_outward_then_wraps() {
    let board = [0b1, 0, 0, 0];
    let mut g = RingShifts::new(board, 0).unwrap();
    let (moved, movement) = g.next();
    assert_eq!(moved, [0, 0b1, 0, 0]);
    assert_eq!(movement, RingMovement::Row { th: 0, amount: 1, outward: true });
    let (moved, movement) = g.next();
    assert_eq!(moved, [1 << 6, 0, 0, 0]);
    assert_eq!(movement, RingMovement::Row { th: 0, amount: 1, outward: false });
}

#[test]
fn ring_shifts_none_for_empty_row() {
    let board = [0b10, 0, 0, 0];
    assert!(RingShifts::new(board, 0).is_none());
    assert!(RingShifts::new(board, 1).is_some());
}

#[test]
fn count_bits_exact_values() {
    assert_eq!(count_bits(0), 0);
    assert_eq!(count_bits(0b101101), 4);
    assert_eq!(count_bits(0xfff), 12);
    assert_eq!(count_bits(0xffff), 16);
}

#[test]
fn terminal_zero_board_solved() {
    let s = get_solution([0, 0, 0, 0]).unwrap();
    assert!(s.moves.is_empty());
    assert_eq!(s.result, [0, 0, 0, 0]);
    assert_eq!(s.jump_rows, 0);
    assert_eq!(s.hammerable_groups, 0);
}

#[test]
fn terminal_single_inner_enemy() {
    for i in 0..12 {
        let s = get_solution([1u16 << i, 0, 0, 0]).unwrap();
        assert_eq!(s.jump_rows, 0);
        assert_eq!(s.hammerable_groups, 1);
        let s = get_solution([0, 1u16 << i, 0, 0]).unwrap();
        assert_eq!(s.jump_rows, 0);
        assert_eq!(s.hammerable_groups, 1);
    }
}

#[test]
fn terminal_full_outer_subring_rejected() {
    // 12 jumps against a budget of 3 actions: not a solution.
    assert!(get_solution([0, 0, 0xfff, 0]).is_none());
    assert!(get_solution([0, 0, 0, 0xfff]).is_none());
}

#[test]
fn terminal_full_board_accepted() {
    // 48 enemies grant 12 actions, exactly the 12 jumps the merged outer
    // mask needs; the inner mask is empty once outer angles are excluded.
    let s = get_solution([0xfff, 0xfff, 0xfff, 0xfff]).unwrap();
    assert_eq!(s.jump_rows, 12);
    assert_eq!(s.hammerable_groups, 0);
}

#[test]
fn terminal_straddling_run_counts_one_group() {
    // Bits 11 and 0 are adjacent around the wrap; one hammer clears both.
    let s = get_solution([0x801, 0, 0, 0]).unwrap();
    assert_eq!(s.jump_rows, 0);
    assert_eq!(s.hammerable_groups, 1);
}

#[test]
fn terminal_adjacent_pair_is_one_group() {
    let s = get_solution([0b110, 0, 0, 0]).unwrap();
    assert_eq!(s.jump_rows, 0);
    assert_eq!(s.hammerable_groups, 1);
}

#[test]
fn terminal_outer_single_bit() {
    let s = get_solution([0, 0, 0b1, 0]).unwrap();
    assert_eq!(s.jump_rows, 1);
    assert_eq!(s.hammerable_groups, 0);
}

#[test]
fn find_solution_zero_budget_matches_terminal() {
    // Solved board: both agree on an empty-move solution.
    let from_search = find_solution([0, 0, 0, 0], 0).unwrap();
    let from_terminal = get_solution([0, 0, 0, 0]).unwrap();
    assert_eq!(from_search.moves.len(), from_terminal.moves.len());
    assert_eq!(from_search.result, from_terminal.result);
    assert_eq!(from_search.jump_rows, from_terminal.jump_rows);
    assert_eq!(from_search.hammerable_groups, from_terminal.hammerable_groups);

    // Unsolved board: both reject.
    let board = [0b1, 0b100, 0, 0];
    assert!(find_solution(board, 0).is_none());
    assert!(get_solution(board).is_none());
}

#[test]
fn find_solution_one_move() {
    // Two inner enemies one angle apart: not solvable as-is (two hammer
    // groups against one action), but one clockwise rotation of subring 0
    // makes them adjacent.
    let board = [0b1, 0b100, 0, 0];
    assert!(find_solution(board, 0).is_none());
    let s = find_solution(board, MAX_TURNS).unwrap();
    assert_eq!(s.moves.len(), 1);
    assert_eq!(s.moves[0], RingMovement::Ring { r: 0, amount: 1, clockwise: true });
    assert_eq!(s.result, [0b10, 0b100, 0, 0]);
    assert_eq!(s.jump_rows, 0);
    assert_eq!(s.hammerable_groups, 1);
}

#[test]
fn find_solution_prefers_smallest_magnitude() {
    // Inner enemies four angles apart in different subrings: no offset
    // smaller than 3 makes them adjacent, so the first solving move is the
    // magnitude-3 rotation of subring 0.
    let board = [0b1, 0b10000, 0, 0];
    assert!(find_solution(board, 0).is_none());
    let s = find_solution(board, MAX_TURNS).unwrap();
    assert_eq!(s.moves.len(), 1);
    assert_eq!(s.moves[0], RingMovement::Ring { r: 0, amount: 3, clockwise: true });
    assert_eq!(s.result, [0b1000, 0b10000, 0, 0]);
    assert_eq!(s.jump_rows, 0);
    assert_eq!(s.hammerable_groups, 1);
}

#[test]
fn find_solution_one_row_move() {
    // Four inner enemies in two adjacent pairs plus one outer enemy: the
    // outer enemy costs a jump the budget cannot afford, and no rotation
    // helps, but shifting its row inward absorbs it into an inner pair.
    let board = [0b11000011, 0, 0b1, 0];
    assert!(find_solution(board, 0).is_none());
    let s = find_solution(board, MAX_TURNS).unwrap();
    assert_eq!(s.moves.len(), 1);
    assert_eq!(s.moves[0], RingMovement::Row { th: 0, amount: 1, outward: false });
    assert_eq!(s.result, [0b11000010, 0b01000001, 0, 0]);
    assert_eq!(s.jump_rows, 0);
    assert_eq!(s.hammerable_groups, 2);
}

#[test]
fn find_solution_returned_depth_is_minimal() {
    // The board above is solved at depth 1, and searching with the budget
    // one below that depth finds nothing.
    let board = [0b1, 0b100, 0, 0];
    let s = find_solution(board, MAX_TURNS).unwrap();
    assert_eq!(s.moves.len(), 1);
    assert!(find_solution(board, s.moves.len() as u16 - 1).is_none());
}

#[test]
fn find_solution_none_within_budget() {
    // A full outer subring always needs 12 jumps but only ever has 3
    // actions, whatever single move is applied.
    assert!(find_solution([0, 0, 0xfff, 0], 1).is_none());
}

#[test]
fn solve_rejects_out_of_range() {
    assert!(matches!(solve([0x1000, 0, 0, 0]), Err(SolveError::OutOfRange)));
    assert!(matches!(solve([0, 0, 0, 0xffff]), Err(SolveError::OutOfRange)));
    assert!(solve([0xfff, 0, 0, 0]).is_ok());
}

#[test]
fn solve_solved_board_needs_no_moves() {
    let s = solve([0, 0, 0, 0]).unwrap().unwrap();
    assert!(s.moves.is_empty());
    assert_eq!(s.jump_rows, 0);
    assert_eq!(s.hammerable_groups, 0);
}

#[test]
fn solve_finds_one_move_solution() {
    let s = solve([0b1, 0b100, 0, 0]).unwrap().unwrap();
    assert_eq!(s.moves.len(), 1);
    assert_eq!(s.moves[0], RingMovement::Ring { r: 0, amount: 1, clockwise: true });
}
