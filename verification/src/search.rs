//! The search: an iterative-deepening depth-first search over board moves.
//!
//! Each recursion level interleaves the move generators round by round: in
//! round `n` every nonempty subring is rotated to its zig-zag offset of step
//! `n + 1` and the result searched one level deeper, and for the first 8
//! rounds every nonempty row is shifted likewise. Rounds stop after 12 ring
//! steps and 8 row steps, which exhaust all distinct rotations of either
//! width. The driver over depths 0 up to the turn budget returns the first
//! solution found, so the returned move count is minimal.

use vstd::prelude::*;
use crate::eval::{Solution, get_solution, solved, spec_jump_rows, spec_hammers};
use crate::moves::{Ring, RingRotations, RingShifts, ring_inv, ring_move, row_move, row_of,
    apply_moves, lemma_apply_moves_prepend};

verus! {

/// The largest number of turns the solver will search.
pub const MAX_TURNS: u16 = 4;

/// Rejection of a malformed board before any search runs.
#[derive(Clone, Copy, PartialEq, Eq, Structural, Debug)]
pub enum SolveError {
    /// Some subring has bits set above angle position 11.
    OutOfRange,
}

/// Whether the search, given `turn` further moves, reaches a board that the
/// terminal evaluator accepts: at depth 0 the board itself must be solved,
/// and otherwise some tried move (a zig-zag rotation step of a nonempty
/// subring, or one of the first 8 zig-zag shift steps of a nonempty row)
/// leads to a board solvable in one move fewer.
pub open spec fn found_at(b: Seq<u16>, turn: nat) -> bool
    recommends
        ring_inv(b),
    decreases turn,
{
    if turn == 0 {
        solved(b)
    } else {
        (exists|r: int, k: nat|
            0 <= r < 4 && 1 <= k <= 12 && b[r] != 0 && found_at(
                #[trigger] ring_move(b, r, k),
                (turn - 1) as nat,
            )) || (exists|th: u16, k: nat|
            th < 6 && 1 <= k <= 8 && row_of(b, th) != 0 && found_at(
                #[trigger] row_move(b, th, k),
                (turn - 1) as nat,
            ))
    }
}

/// A tried ring move whose deeper search succeeds makes the search succeed.
proof fn lemma_found_at_ring_witness(b: Seq<u16>, turn: nat, r: int, k: nat)
    requires
        turn >= 1,
        0 <= r < 4,
        1 <= k <= 12,
        b[r] != 0,
        found_at(ring_move(b, r, k), (turn - 1) as nat),
    ensures
        found_at(b, turn),
{
    assert(exists|r2: int, k2: nat|
        0 <= r2 < 4 && 1 <= k2 <= 12 && b[r2] != 0 && found_at(
            #[trigger] ring_move(b, r2, k2),
            (turn - 1) as nat,
        ));
}

/// A tried row move whose deeper search succeeds makes the search succeed.
proof fn lemma_found_at_row_witness(b: Seq<u16>, turn: nat, th: u16, k: nat)
    requires
        turn >= 1,
        th < 6,
        1 <= k <= 8,
        row_of(b, th) != 0,
        found_at(row_move(b, th, k), (turn - 1) as nat),
    ensures
        found_at(b, turn),
{
    assert(exists|th2: u16, k2: nat|
        th2 < 6 && 1 <= k2 <= 8 && row_of(b, th2) != 0 && found_at(
            #[trigger] row_move(b, th2, k2),
            (turn - 1) as nat,
        ));
}

/// When every tried ring and row move has failed one level deeper, the
/// search at this level fails.
proof fn lemma_found_at_none(b: Seq<u16>, turn: nat, t: nat)
    requires
        turn >= 1,
        t == (turn - 1) as nat,
        rings_tried(b, t, 12),
        rows_tried(b, t, 8),
    ensures
        !found_at(b, turn),
{
    if found_at(b, turn) {
        if exists|r: int, k: nat|
            0 <= r < 4 && 1 <= k <= 12 && b[r] != 0 && found_at(
                #[trigger] ring_move(b, r, k),
                (turn - 1) as nat,
            ) {
            let (r, k) = choose|r: int, k: nat|
                0 <= r < 4 && 1 <= k <= 12 && b[r] != 0 && found_at(
                    #[trigger] ring_move(b, r, k),
                    (turn - 1) as nat,
                );
            assert(!found_at(ring_move(b, r, k), t));
            assert(false);
        } else {
            let (th, k) = choose|th: u16, k: nat|
                th < 6 && 1 <= k <= 8 && row_of(b, th) != 0 && found_at(
                    #[trigger] row_move(b, th, k),
                    (turn - 1) as nat,
                );
            assert(!found_at(row_move(b, th, k), t));
            assert(false);
        }
    }
}

/// A well-formed solution for start board `b`: its moves lead from `b` to
/// its result board, which is solved and carries the evaluator's counters.
pub open spec fn solution_ok(b: Seq<u16>, s: Solution) -> bool
    recommends
        ring_inv(b),
{
    &&& ring_inv(s.result@)
    &&& s.result@ == apply_moves(b, s.moves@)
    &&& solved(s.result@)
    &&& s.jump_rows == spec_jump_rows(s.result@)
    &&& s.hammerable_groups == spec_hammers(s.result@)
}

/// Every ring generator in `gs` was built from board `b` and has taken
/// exactly `n` steps.
pub open spec fn rotators_at(gs: Seq<RingRotations>, b: Seq<u16>, n: nat) -> bool {
    forall|i: int|
        0 <= i < gs.len() ==> (#[trigger] gs[i]).wf() && gs[i].start@ == b && gs[i].steps@ == n
}

/// Every nonempty subring of `b` has a ring generator in `gs`.
pub open spec fn rotators_cover(gs: Seq<RingRotations>, b: Seq<u16>) -> bool {
    forall|rr: int|
        0 <= rr < 4 && b[rr] != 0 ==> exists|i: int|
            0 <= i < gs.len() && (#[trigger] gs[i]).r == rr
}

/// Every row generator in `gs` was built from board `b` and has taken
/// exactly `n` steps.
pub open spec fn shifters_at(gs: Seq<RingShifts>, b: Seq<u16>, n: nat) -> bool {
    forall|i: int|
        0 <= i < gs.len() ==> (#[trigger] gs[i]).wf() && gs[i].start@ == b && gs[i].steps@ == n
}

/// Every nonempty row of `b` has a row generator in `gs`.
pub open spec fn shifters_cover(gs: Seq<RingShifts>, b: Seq<u16>) -> bool {
    forall|th: u16|
        th < 6 && row_of(b, th) != 0 ==> exists|i: int|
            0 <= i < gs.len() && (#[trigger] gs[i]).th == th
}

/// No ring move of zig-zag step up to `hi` leads to a board solvable in `t`
/// further moves.
pub open spec fn rings_tried(b: Seq<u16>, t: nat, hi: nat) -> bool {
    forall|r: int, k: nat|
        0 <= r < 4 && 1 <= k <= hi && b[r] != 0 ==> !found_at(#[trigger] ring_move(b, r, k), t)
}

/// No row move of zig-zag step up to `hi` leads to a board solvable in `t`
/// further moves.
pub open spec fn rows_tried(b: Seq<u16>, t: nat, hi: nat) -> bool {
    forall|th: u16, k: nat|
        th < 6 && 1 <= k <= hi && row_of(b, th) != 0 ==> !found_at(
            #[trigger] row_move(b, th, k),
            t,
        )
}

/// Search for a solution reached in exactly `turn` moves: at `turn == 0`
/// this is the terminal evaluator; otherwise the move-round driver tries
/// every move one level deeper.
pub fn find_solution_at_turn(ring: Ring, turn: u16) -> (res: Option<Solution>)
    requires
        ring_inv(ring@),
    ensures
        res is Some <==> found_at(ring@, turn as nat),
        res matches Some(s) ==> solution_ok(ring@, s) && s.moves@.len() == turn,
    decreases turn, 1int,
{
    if turn == 0 {
        let res = get_solution(ring);
        proof {
            if res is Some {
                let s = res->Some_0;
                assert(apply_moves(ring@, s.moves@) == ring@);
            }
        }
        return res;
    }
    iterate_movements(ring, turn)
}

/// The move-round driver: advance every nonempty-ring generator and, for
/// the first 8 rounds, every nonempty-row generator by one step per round,
/// searching each resulting board one level deeper and short-circuiting on
/// the first success, rings of a round before its rows, lower indices
/// first. The deeper search's move count is one less than `turn`, so the
/// first success gets its move prepended to make a `turn`-move solution.
fn iterate_movements(ring: Ring, turn: u16) -> (res: Option<Solution>)
    requires
        ring_inv(ring@),
        turn >= 1,
    ensures
        res is Some <==> found_at(ring@, turn as nat),
        res matches Some(s) ==> solution_ok(ring@, s) && s.moves@.len() == turn,
    decreases turn, 0int,
{
    let ghost t = (turn - 1) as nat;

    let mut rotators: Vec<RingRotations> = Vec::new();
    for r in 0..4u16
        invariant
            ring_inv(ring@),
            rotators_at(rotators@, ring@, 0),
            forall|rr: int|
                0 <= rr < r && ring@[rr] != 0 ==> exists|i: int|
                    0 <= i < rotators@.len() && (#[trigger] rotators@[i]).r == rr,
    {
        let ghost old_gs = rotators@;
        let g = RingRotations::new(ring, r);
        match g {
            Some(g0) => {
                rotators.push(g0);
                proof {
                    assert forall|rr: int| 0 <= rr < r + 1 && ring@[rr] != 0 implies exists|i: int|
                        0 <= i < rotators@.len() && (#[trigger] rotators@[i]).r == rr by {
                        if rr < r {
                            let i0 = choose|i0: int|
                                0 <= i0 < old_gs.len() && (#[trigger] old_gs[i0]).r == rr;
                            assert(rotators@[i0].r == rr);
                        } else {
                            assert(rotators@[old_gs.len() as int].r == rr);
                        }
                    }
                }
            },
            None => {},
        }
    }

    let mut shifters: Vec<RingShifts> = Vec::new();
    for th in 0..6u16
        invariant
            ring_inv(ring@),
            shifters_at(shifters@, ring@, 0),
            forall|tt: u16|
                tt < th && row_of(ring@, tt) != 0 ==> exists|i: int|
                    0 <= i < shifters@.len() && (#[trigger] shifters@[i]).th == tt,
    {
        let ghost old_gs = shifters@;
        let g = RingShifts::new(ring, th);
        match g {
            Some(g0) => {
                shifters.push(g0);
                proof {
                    assert forall|tt: u16| tt < th + 1 && row_of(ring@, tt) != 0 implies exists|
                        i: int,
                    | 0 <= i < shifters@.len() && (#[trigger] shifters@[i]).th == tt by {
                        if tt < th {
                            let i0 = choose|i0: int|
                                0 <= i0 < old_gs.len() && (#[trigger] old_gs[i0]).th == tt;
                            assert(shifters@[i0].th == tt);
                        } else {
                            assert(shifters@[old_gs.len() as int].th == tt);
                        }
                    }
                }
            },
            None => {},
        }
    }

    let nrot = rotators.len();
    let nshift = shifters.len();
    for n in 0..12u16
        invariant
            ring_inv(ring@),
            turn >= 1,
            t == (turn - 1) as nat,
            rotators@.len() == nrot,
            shifters@.len() == nshift,
            rotators_at(rotators@, ring@, n as nat),
            shifters_at(shifters@, ring@, if n <= 8 { n as nat } else { 8nat }),
            rotators_cover(rotators@, ring@),
            shifters_cover(shifters@, ring@),
            rings_tried(ring@, t, n as nat),
            rows_tried(ring@, t, if n <= 8 { n as nat } else { 8nat }),
    {
        let ghost round_gs = rotators@;
        proof {
            assert(rotators_cover(round_gs, ring@));
            assert(round_gs.len() == nrot);
        }
        for i in 0..nrot
            invariant
                ring_inv(ring@),
                turn >= 1,
                t == (turn - 1) as nat,
                rotators@.len() == nrot,
                n < 12,
                forall|ii: int|
                    0 <= ii < nrot ==> (#[trigger] rotators@[ii]).wf() && rotators@[ii].start@
                        == ring@ && rotators@[ii].steps@ == (if ii < i {
                        (n + 1) as nat
                    } else {
                        n as nat
                    }),
                forall|ii: int|
                    0 <= ii < nrot ==> (#[trigger] rotators@[ii]).r == round_gs[ii].r,
                forall|ii: int|
                    0 <= ii < i ==> !(#[trigger] found_at(
                        ring_move(ring@, rotators@[ii].r as int, (n + 1) as nat),
                        t,
                    )),
        {
            let (moved, movement) = rotators[i].next();
            let ghost r0 = rotators@[i as int].r as int;
            let deeper = find_solution_at_turn(moved, turn - 1);
            match deeper {
                Some(mut solution) => {
                    let ghost sub_moves = solution.moves@;
                    solution.moves.push_front(movement);
                    proof {
                        lemma_apply_moves_prepend(ring@, movement, sub_moves);
                        lemma_found_at_ring_witness(ring@, turn as nat, r0, (n + 1) as nat);
                    }
                    return Some(solution);
                },
                None => {},
            }
        }
        proof {
            assert forall|r: int, k: nat|
                0 <= r < 4 && 1 <= k <= (n + 1) as nat && ring@[r] != 0 implies !(
            #[trigger] found_at(ring_move(ring@, r, k), t)) by {
                if k <= n {
                    assert(rings_tried(ring@, t, n as nat));
                } else {
                    let i0 = choose|i0: int|
                        0 <= i0 < round_gs.len() && (#[trigger] round_gs[i0]).r == r;
                    assert(rotators@[i0].r == r);
                    assert(!found_at(ring_move(ring@, rotators@[i0].r as int, (n + 1) as nat), t));
                }
            }
            assert forall|rr: int| 0 <= rr < 4 && ring@[rr] != 0 implies exists|i2: int|
                0 <= i2 < rotators@.len() && (#[trigger] rotators@[i2]).r == rr by {
                let i0 = choose|i0: int|
                    0 <= i0 < round_gs.len() && (#[trigger] round_gs[i0]).r == rr;
                assert(rotators@[i0].r == rr);
            }
        }
        if n < 8 {
            let ghost round_ss = shifters@;
            proof {
                assert(shifters_cover(round_ss, ring@));
                assert(round_ss.len() == nshift);
            }
            for i in 0..nshift
                invariant
                    ring_inv(ring@),
                    turn >= 1,
                    t == (turn - 1) as nat,
                    shifters@.len() == nshift,
                    n < 8,
                    forall|ii: int|
                        0 <= ii < nshift ==> (#[trigger] shifters@[ii]).wf()
                            && shifters@[ii].start@ == ring@ && shifters@[ii].steps@ == (if ii < i {
                            (n + 1) as nat
                        } else {
                            n as nat
                        }),
                    forall|ii: int|
                        0 <= ii < nshift ==> (#[trigger] shifters@[ii]).th == round_ss[ii].th,
                    forall|ii: int|
                        0 <= ii < i ==> !(#[trigger] found_at(
                            row_move(ring@, shifters@[ii].th, (n + 1) as nat),
                            t,
                        )),
            {
                let (moved, movement) = shifters[i].next();
                let ghost th0 = shifters@[i as int].th;
                let deeper = find_solution_at_turn(moved, turn - 1);
                match deeper {
                    Some(mut solution) => {
                        let ghost sub_moves = solution.moves@;
                        solution.moves.push_front(movement);
                        proof {
                            lemma_apply_moves_prepend(ring@, movement, sub_moves);
                            lemma_found_at_row_witness(ring@, turn as nat, th0, (n + 1) as nat);
                        }
                        return Some(solution);
                    },
                    None => {},
                }
            }
            proof {
                assert forall|th: u16, k: nat|
                    th < 6 && 1 <= k <= (n + 1) as nat && row_of(ring@, th) != 0 implies !(
                #[trigger] found_at(row_move(ring@, th, k), t)) by {
                    if k <= n {
                        assert(rows_tried(ring@, t, n as nat));
                    } else {
                        let i0 = choose|i0: int|
                            0 <= i0 < round_ss.len() && (#[trigger] round_ss[i0]).th == th;
                        assert(shifters@[i0].th == th);
                        assert(!found_at(row_move(ring@, shifters@[i0].th, (n + 1) as nat), t));
                    }
                }
                assert forall|tt: u16| tt < 6 && row_of(ring@, tt) != 0 implies exists|i2: int|
                    0 <= i2 < shifters@.len() && (#[trigger] shifters@[i2]).th == tt by {
                    let i0 = choose|i0: int|
                        0 <= i0 < round_ss.len() && (#[trigger] round_ss[i0]).th == tt;
                    assert(shifters@[i0].th == tt);
                }
            }
        }
    }
    proof {
        assert(rings_tried(ring@, t, 12));
        assert(rows_tried(ring@, t, 8));
        lemma_found_at_none(ring@, turn as nat, t);
    }
    None
}

/// Find a solution with the minimum number of turns, given a maximum number
/// of turns allowed: iterative deepening, returning the first depth at
/// which the bounded search succeeds.
pub fn find_solution(ring: Ring, max_turns: u16) -> (res: Option<Solution>)
    requires
        ring_inv(ring@),
    ensures
        res matches Some(s) ==> solution_ok(ring@, s) && s.moves@.len() <= max_turns && found_at(
            ring@,
            s.moves@.len() as nat,
        ) && (forall|t: nat| t < s.moves@.len() ==> !found_at(ring@, t)),
        res is None ==> forall|t: nat| t <= max_turns ==> !found_at(ring@, t),
{
    let mut turn: u16 = 0;
    loop
        invariant
            turn <= max_turns,
            ring_inv(ring@),
            forall|t: nat| t < turn ==> !found_at(ring@, t),
        decreases max_turns - turn,
    {
        match find_solution_at_turn(ring, turn) {
            Some(solution) => {
                return Some(solution);
            },
            None => {},
        }
        if turn == max_turns {
            return None;
        }
        turn = turn + 1;
    }
}

/// Solve a board: reject one whose subrings set bits above angle position
/// 11 before any search logic runs, and otherwise search up to the maximum
/// turn budget, returning the minimal-turn solution or nothing.
pub fn solve(ring: Ring) -> (res: Result<Option<Solution>, SolveError>)
    ensures
        res is Err <==> !ring_inv(ring@),
        res matches Ok(opt) ==> {
            &&& (opt matches Some(s) ==> solution_ok(ring@, s) && s.moves@.len() <= MAX_TURNS
                && found_at(ring@, s.moves@.len() as nat) && (forall|t: nat|
                t < s.moves@.len() ==> !found_at(ring@, t)))
            &&& (opt is None ==> forall|t: nat| t <= MAX_TURNS ==> !found_at(ring@, t))
        },
{
    for r in 0..4usize
        invariant
            forall|j: int| 0 <= j < r ==> ring@[j] < 4096,
    {
        if ring[r] >= 4096 {
            return Err(SolveError::OutOfRange);
        }
    }
    Ok(find_solution(ring, MAX_TURNS))
}

/// At a turn budget of zero, the search behaves identically to the terminal
/// evaluator: given any result meeting `find_solution`'s contract for a
/// budget of 0 and any result meeting the terminal evaluator's contract on
/// the same board, both succeed together, with an empty move list, the
/// board itself as result, and the same counters.
pub proof fn lemma_depth_zero_is_terminal(b: Seq<u16>, r1: Option<Solution>, r2: Option<Solution>)
    requires
        ring_inv(b),
        r1 matches Some(s1) ==> solution_ok(b, s1) && s1.moves@.len() <= 0 && found_at(
            b,
            s1.moves@.len() as nat,
        ),
        r1 is None ==> forall|t: nat| t <= 0 ==> !found_at(b, t),
        r2 is Some <==> solved(b),
        r2 matches Some(s2) ==> s2.moves@.len() == 0 && s2.result@ == b && s2.jump_rows
            == spec_jump_rows(b) && s2.hammerable_groups == spec_hammers(b),
    ensures
        r1 is Some <==> r2 is Some,
        r1 matches Some(s1) ==> (r2 matches Some(s2) && s1.moves@ == s2.moves@ && s1.result@
            == s2.result@ && s1.jump_rows == s2.jump_rows && s1.hammerable_groups
            == s2.hammerable_groups),
{
    if r1 is Some {
        let s1 = r1->Some_0;
        assert(s1.moves@.len() == 0);
        assert(apply_moves(b, s1.moves@) == b);
        assert(found_at(b, 0) == solved(b));
    }
    if r2 is Some {
        assert(found_at(b, 0) == solved(b));
    }
}

/// The depth of a returned solution is minimal: if the search with budget
/// `k` returns a solution of `d >= 1` moves, then any result meeting the
/// search's contract for the same board with budget `d - 1` is the "no
/// solution" outcome.
pub proof fn lemma_returned_depth_minimal(
    b: Seq<u16>,
    k: u16,
    d: u16,
    r1: Option<Solution>,
    r2: Option<Solution>,
)
    requires
        ring_inv(b),
        1 <= d <= k,
        r1 matches Some(s1) && s1.moves@.len() == d && (forall|t: nat|
            t < s1.moves@.len() ==> !found_at(b, t)),
        r2 matches Some(s2) ==> s2.moves@.len() <= d - 1 && found_at(b, s2.moves@.len() as nat),
    ensures
        r2 is None,
{
    if r2 is Some {
        let s2 = r2->Some_0;
        assert(!found_at(b, s2.moves@.len() as nat));
    }
}

} // verus!
