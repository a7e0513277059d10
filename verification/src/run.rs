use vstd::prelude::*;
use crate::best::{best_move, best_move_ab, chosen_move, deepening_evals};
use crate::counter::{eval_counter, reset_eval_counter, tally, EvalCounter};
use crate::moves::Side;
use crate::position::Position;
use crate::search::{leaves_below, reply_depth};

verus! {

/// The number of evaluations that a run makes on a fresh counter.
pub open spec fn run_evals(
    kids: Seq<Position>,
    depth: u8,
    side: Side,
    improved: bool,
    deepening: bool,
) -> nat {
    if deepening {
        tally(0, deepening_evals(kids, depth as nat, side, improved))
    } else {
        tally(0, leaves_below(kids, reply_depth(depth), side.opponent()))
    }
}

/// Runs one search from start to end: resets a counter, searches for the
/// best move of `side`, plainly or by iterative deepening, and reads the
/// counter. The side must have a move, and iterative deepening needs a depth
/// of at least 1.
pub fn run(pos: &Position, depth: u8, side: Side, improved: bool, deepening: bool) -> (out: (
    Position,
    i32,
    usize,
    u8,
))
    requires
        pos.moves_played < u8::MAX,
        pos.moves_played + depth <= u8::MAX,
        pos.moves(side).len() > 0,
        deepening ==> depth > 0,
    ensures
        chosen_move(pos.moves(side), reply_depth(depth), side, improved) == Some(
            (out.0, out.1 as int),
        ),
        out.2 == run_evals(pos.moves(side), depth, side, improved, deepening),
        out.3 == depth,
{
    let mut counter = EvalCounter::new();
    reset_eval_counter(&mut counter);
    let best = if deepening {
        best_move_ab(pos, depth, side, improved, &mut counter)
    } else {
        best_move(pos, depth, side, improved, &mut counter)
    };
    let evals = eval_counter(&counter);
    match best {
        Some((m, score)) => (m, score, evals, depth),
        None => vstd::pervasive::unreached(),
    }
}

/// Runs a plain search for white with the basic evaluation on a fresh
/// counter: the chosen move, its value, the number of evaluations and the
/// depth asked for. White must have a move.
pub fn minimax_white(pos: &Position, depth: u8) -> (out: (Position, i32, usize, u8))
    requires
        pos.moves_played < u8::MAX,
        pos.moves_played + depth <= u8::MAX,
        pos.moves(Side::White).len() > 0,
    ensures
        chosen_move(pos.moves(Side::White), reply_depth(depth), Side::White, false) == Some(
            (out.0, out.1 as int),
        ),
        out.2 == tally(
            0,
            leaves_below(pos.moves(Side::White), reply_depth(depth), Side::White.opponent()),
        ),
        out.3 == depth,
{
    run(pos, depth, Side::White, false, false)
}

/// Runs an iterative-deepening search for white with the basic
/// evaluation on a fresh counter: the chosen move, its value, the number of
/// evaluations and the depth asked for. White must have a move
/// and the depth must not be 0.
pub fn minimax_white_ab(pos: &Position, depth: u8) -> (out: (Position, i32, usize, u8))
    requires
        depth > 0,
        pos.moves_played + depth <= u8::MAX,
        pos.moves(Side::White).len() > 0,
    ensures
        chosen_move(pos.moves(Side::White), reply_depth(depth), Side::White, false) == Some(
            (out.0, out.1 as int),
        ),
        out.2 == tally(0, deepening_evals(pos.moves(Side::White), depth as nat, Side::White, false)),
        out.3 == depth,
{
    run(pos, depth, Side::White, false, true)
}

/// Runs a plain search for black with the basic evaluation on a fresh
/// counter: the chosen move, its value, the number of evaluations and the
/// depth asked for. Black must have a move.
pub fn minimax_black(pos: &Position, depth: u8) -> (out: (Position, i32, usize, u8))
    requires
        pos.moves_played < u8::MAX,
        pos.moves_played + depth <= u8::MAX,
        pos.moves(Side::Black).len() > 0,
    ensures
        chosen_move(pos.moves(Side::Black), reply_depth(depth), Side::Black, false) == Some(
            (out.0, out.1 as int),
        ),
        out.2 == tally(
            0,
            leaves_below(pos.moves(Side::Black), reply_depth(depth), Side::Black.opponent()),
        ),
        out.3 == depth,
{
    run(pos, depth, Side::Black, false, false)
}

/// Runs an iterative-deepening search for black with the basic
/// evaluation on a fresh counter: the chosen move, its value, the number of
/// evaluations and the depth asked for. Black must have a move
/// and the depth must not be 0.
pub fn minimax_black_ab(pos: &Position, depth: u8) -> (out: (Position, i32, usize, u8))
    requires
        depth > 0,
        pos.moves_played + depth <= u8::MAX,
        pos.moves(Side::Black).len() > 0,
    ensures
        chosen_move(pos.moves(Side::Black), reply_depth(depth), Side::Black, false) == Some(
            (out.0, out.1 as int),
        ),
        out.2 == tally(0, deepening_evals(pos.moves(Side::Black), depth as nat, Side::Black, false)),
        out.3 == depth,
{
    run(pos, depth, Side::Black, false, true)
}

/// Runs a plain search for white with the improved evaluation on a fresh
/// counter: the chosen move, its value, the number of evaluations and the
/// depth asked for. White must have a move.
pub fn minimax_white_improved(pos: &Position, depth: u8) -> (out: (Position, i32, usize, u8))
    requires
        pos.moves_played < u8::MAX,
        pos.moves_played + depth <= u8::MAX,
        pos.moves(Side::White).len() > 0,
    ensures
        chosen_move(pos.moves(Side::White), reply_depth(depth), Side::White, true) == Some(
            (out.0, out.1 as int),
        ),
        out.2 == tally(
            0,
            leaves_below(pos.moves(Side::White), reply_depth(depth), Side::White.opponent()),
        ),
        out.3 == depth,
{
    run(pos, depth, Side::White, true, false)
}

/// Runs an iterative-deepening search for white with the improved
/// evaluation on a fresh counter: the chosen move, its value, the number of
/// evaluations and the depth asked for. White must have a move
/// and the depth must not be 0.
pub fn minimax_white_ab_improved(pos: &Position, depth: u8) -> (out: (Position, i32, usize, u8))
    requires
        depth > 0,
        pos.moves_played + depth <= u8::MAX,
        pos.moves(Side::White).len() > 0,
    ensures
        chosen_move(pos.moves(Side::White), reply_depth(depth), Side::White, true) == Some(
            (out.0, out.1 as int),
        ),
        out.2 == tally(0, deepening_evals(pos.moves(Side::White), depth as nat, Side::White, true)),
        out.3 == depth,
{
    run(pos, depth, Side::White, true, true)
}

/// Runs a plain search for black with the improved evaluation on a fresh
/// counter: the chosen move, its value, the number of evaluations and the
/// depth asked for. Black must have a move.
pub fn minimax_black_improved(pos: &Position, depth: u8) -> (out: (Position, i32, usize, u8))
    requires
        pos.moves_played < u8::MAX,
        pos.moves_played + depth <= u8::MAX,
        pos.moves(Side::Black).len() > 0,
    ensures
        chosen_move(pos.moves(Side::Black), reply_depth(depth), Side::Black, true) == Some(
            (out.0, out.1 as int),
        ),
        out.2 == tally(
            0,
            leaves_below(pos.moves(Side::Black), reply_depth(depth), Side::Black.opponent()),
        ),
        out.3 == depth,
{
    run(pos, depth, Side::Black, true, false)
}

/// Runs an iterative-deepening search for black with the improved
/// evaluation on a fresh counter: the chosen move, its value, the number of
/// evaluations and the depth asked for. Black must have a move
/// and the depth must not be 0.
pub fn minimax_black_ab_improved(pos: &Position, depth: u8) -> (out: (Position, i32, usize, u8))
    requires
        depth > 0,
        pos.moves_played + depth <= u8::MAX,
        pos.moves(Side::Black).len() > 0,
    ensures
        chosen_move(pos.moves(Side::Black), reply_depth(depth), Side::Black, true) == Some(
            (out.0, out.1 as int),
        ),
        out.2 == tally(0, deepening_evals(pos.moves(Side::Black), depth as nat, Side::Black, true)),
        out.3 == depth,
{
    run(pos, depth, Side::Black, true, true)
}

} // verus!
