use minimax_toruney::alphabeta::search_ab;
use minimax_toruney::best::{best_move, best_move_ab, has_move};
use minimax_toruney::search::search;
use minimax_toruney::{
    eval_counter, minimax_black, minimax_black_ab, minimax_black_ab_improved,
    minimax_black_improved, minimax_white, minimax_white_ab, minimax_white_ab_improved,
    minimax_white_improved, reset_eval_counter, EvalCounter, Position, Side,
};

fn at(w1: u8, w2: u8, b1: u8, b2: u8, moves_played: u8) -> Position {
    Position { w1, w2, b1, b2, moves_played }
}

fn other(side: Side) -> Side {
    match side {
        Side::White => Side::Black,
        Side::Black => Side::White,
    }
}

/// The minimax value and the number of leaves, computed on their own.
fn reference(p: &Position, depth: u8, side: Side, improved: bool) -> (i32, usize) {
    if depth == 0 || p.white_win() || p.black_win() {
        let mut scratch = EvalCounter::new();
        return (p.evaluate(improved, side == Side::White, &mut scratch), 1);
    }
    let mut value: i32 = if side == Side::White { i32::MIN } else { i32::MAX };
    let mut leaves: usize = 0;
    for child in p.children(side) {
        let (v, n) = reference(&child, depth - 1, other(side), improved);
        leaves += n;
        value = if side == Side::White { value.max(v) } else { value.min(v) };
    }
    (value, leaves)
}

fn well_formed_positions() -> Vec<Position> {
    let mut all: Vec<Position> = Vec::new();
    for w1 in 1u8..=9 {
        for w2 in 1u8..=9 {
            for b1 in 0u8..=8 {
                for b2 in 0u8..=8 {
                    let p = Position::new(w1, w2, b1, b2);
                    if p.is_well_formed() {
                        all.push(p);
                    }
                }
            }
        }
    }
    all
}

#[test]
fn first_white_move_from_the_usual_start() {
    let mut counter = EvalCounter::new();
    let start = Position::new(1, 2, 7, 8);
    let (best, score) = Position::best_white_move(&start, 1, &mut counter).unwrap();
    assert_eq!(best, at(3, 2, 7, 8, 1));
    assert_eq!(score, 2);
    assert_eq!(score, best.static_eval());
    assert_eq!(eval_counter(&counter), 2);
}

#[test]
fn depth_zero_scores_the_position_itself() {
    let mut counter = EvalCounter::new();
    let p = at(5, 6, 7, 8, 0);
    assert_eq!(Position::max_min(&p, 0, &mut counter), 8);
    assert_eq!(Position::min_max(&p, 0, &mut counter), 8);
    assert_eq!(Position::max_min_ab(&p, 0, i32::MIN, i32::MAX, 0, None, &mut counter), 8);
    assert_eq!(Position::min_max_ab(&p, 0, i32::MIN, i32::MAX, 0, None, &mut counter), 8);
    assert_eq!(eval_counter(&counter), 4);
    // depth 0 in a best-move search still looks at the moves
    let (best, score) = Position::best_white_move(&p, 0, &mut counter).unwrap();
    assert_eq!((best, score), (at(9, 6, 7, 8, 1), 12));
}

#[test]
fn plain_search_values() {
    let mut counter = EvalCounter::new();
    let start = Position::new(1, 2, 7, 8);
    assert_eq!(Position::max_min(&start, 1, &mut counter), 2);
    assert_eq!(Position::min_max(&start, 1, &mut counter), -2);
    assert_eq!(Position::max_min(&start, 2, &mut counter), 0);
    assert_eq!(Position::max_min(&start, 5, &mut counter), 4);
    assert_eq!(Position::min_max(&start, 5, &mut counter), -4);
    assert_eq!(Position::max_min_improved(&start, 5, &mut counter), 4);
    assert_eq!(Position::min_max_improved(&start, 5, &mut counter), -4);
    let p = at(1, 3, 2, 8, 0);
    assert_eq!(Position::max_min(&p, 5, &mut counter), 1);
    assert_eq!(Position::min_max(&p, 5, &mut counter), -5);
    assert_eq!(Position::max_min(&at(5, 6, 7, 8, 0), 2, &mut counter), 9);
    assert_eq!(Position::min_max(&at(5, 6, 7, 8, 0), 2, &mut counter), 7);
}

#[test]
fn a_won_position_is_a_leaf_at_every_depth() {
    for depth in [0u8, 1, 2, 5, 40] {
        let mut counter = EvalCounter::new();
        let white = at(9, 9, 3, 4, 0);
        let black = at(3, 4, 0, 0, 0);
        assert_eq!(Position::max_min(&white, depth, &mut counter), 100);
        assert_eq!(Position::min_max(&white, depth, &mut counter), 100);
        assert_eq!(Position::max_min_improved(&black, depth, &mut counter), -100);
        assert_eq!(Position::min_max_improved(&black, depth, &mut counter), -100);
        assert_eq!(
            Position::max_min_ab(&black, depth, i32::MIN, i32::MAX, 0, None, &mut counter),
            -100
        );
        assert_eq!(
            Position::min_max_ab_improved(&white, depth, i32::MIN, i32::MAX, 0, None, &mut counter),
            100
        );
        assert_eq!(eval_counter(&counter), 6);
    }
}

#[test]
fn improved_search_uses_the_side_to_move_at_the_leaf() {
    let mut counter = EvalCounter::new();
    let duel = at(9, 8, 1, 0, 0);
    assert_eq!(Position::max_min(&duel, 0, &mut counter), 0);
    assert_eq!(Position::max_min_improved(&duel, 0, &mut counter), 100);
    assert_eq!(Position::min_max_improved(&duel, 0, &mut counter), -100);
}

#[test]
fn plain_search_counts_the_leaves() {
    let start = Position::new(1, 2, 7, 8);
    let mut counter = EvalCounter::new();
    for (depth, leaves) in [(0u8, 1usize), (1, 2), (2, 4), (5, 32)] {
        reset_eval_counter(&mut counter);
        Position::max_min(&start, depth, &mut counter);
        assert_eq!(eval_counter(&counter), leaves);
        reset_eval_counter(&mut counter);
        Position::min_max_improved(&start, depth, &mut counter);
        assert_eq!(eval_counter(&counter), leaves);
    }
    reset_eval_counter(&mut counter);
    Position::max_min(&at(1, 3, 2, 8, 0), 5, &mut counter);
    assert_eq!(eval_counter(&counter), 28);
    reset_eval_counter(&mut counter);
    Position::min_max(&at(1, 3, 2, 8, 0), 5, &mut counter);
    assert_eq!(eval_counter(&counter), 18);
}

#[test]
fn the_counter_goes_on_from_where_it_stands() {
    let start = Position::new(1, 2, 7, 8);
    let mut counter = EvalCounter::new();
    Position::max_min(&start, 2, &mut counter);
    Position::max_min(&start, 5, &mut counter);
    assert_eq!(eval_counter(&counter), 36);
}

#[test]
fn plain_search_agrees_with_an_independent_count() {
    for p in well_formed_positions() {
        for depth in 0u8..=3 {
            for side in [Side::White, Side::Black] {
                for improved in [false, true] {
                    let mut counter = EvalCounter::new();
                    let value = search(&p, depth, side, improved, &mut counter);
                    let (expected, leaves) = reference(&p, depth, side, improved);
                    assert_eq!(value, expected);
                    assert_eq!(eval_counter(&counter), leaves);
                }
            }
        }
    }
}

#[test]
fn alpha_beta_returns_the_minimax_value() {
    for p in well_formed_positions() {
        for depth in 0u8..=4 {
            for side in [Side::White, Side::Black] {
                for improved in [false, true] {
                    let mut plain = EvalCounter::new();
                    let mut pruned = EvalCounter::new();
                    let expected = search(&p, depth, side, improved, &mut plain);
                    let value = search_ab(
                        &p,
                        depth,
                        i32::MIN,
                        i32::MAX,
                        0,
                        None,
                        side,
                        improved,
                        &mut pruned,
                    );
                    assert_eq!(value, expected);
                    assert!(eval_counter(&pruned) <= eval_counter(&plain));
                    assert!(eval_counter(&pruned) >= 1);
                }
            }
        }
    }
}

#[test]
fn alpha_beta_returns_the_minimax_value_in_deep_searches() {
    for p in [Position::new(1, 2, 7, 8), Position::new(3, 5, 4, 6), Position::new(1, 3, 2, 8)] {
        for depth in [6u8, 9, 12] {
            let mut counter = EvalCounter::new();
            assert_eq!(
                Position::max_min_ab(&p, depth, i32::MIN, i32::MAX, 0, None, &mut counter),
                Position::max_min(&p, depth, &mut counter)
            );
            assert_eq!(
                Position::min_max_ab(&p, depth, i32::MIN, i32::MAX, 0, None, &mut counter),
                Position::min_max(&p, depth, &mut counter)
            );
            assert_eq!(
                Position::max_min_ab_improved(&p, depth, i32::MIN, i32::MAX, 0, None, &mut counter),
                Position::max_min_improved(&p, depth, &mut counter)
            );
            assert_eq!(
                Position::min_max_ab_improved(&p, depth, i32::MIN, i32::MAX, 0, None, &mut counter),
                Position::min_max_improved(&p, depth, &mut counter)
            );
        }
    }
}

#[test]
fn alpha_beta_prunes() {
    let start = Position::new(1, 2, 7, 8);
    let mut counter = EvalCounter::new();
    assert_eq!(Position::max_min_ab(&start, 5, i32::MIN, i32::MAX, 0, None, &mut counter), 4);
    assert_eq!(eval_counter(&counter), 17);
    reset_eval_counter(&mut counter);
    assert_eq!(Position::min_max_ab(&start, 5, i32::MIN, i32::MAX, 0, None, &mut counter), -4);
    assert_eq!(eval_counter(&counter), 19);
    reset_eval_counter(&mut counter);
    assert_eq!(Position::max_min_ab(&start, 2, i32::MIN, i32::MAX, 0, None, &mut counter), 0);
    assert_eq!(eval_counter(&counter), 3);
}

#[test]
fn a_narrow_window_bounds_the_value() {
    let start = Position::new(1, 2, 7, 8);
    let mut counter = EvalCounter::new();
    // the value is 4: a window above it gets an upper bound
    let low = Position::max_min_ab(&start, 5, 10, 20, 0, None, &mut counter);
    assert!(low <= 10 && 4 <= low);
    // a window below it gets a lower bound
    let high = Position::max_min_ab(&start, 5, -20, -10, 0, None, &mut counter);
    assert!(high >= -10 && 4 >= high);
    // a window around it gets the value
    assert_eq!(Position::max_min_ab(&start, 5, 3, 5, 0, None, &mut counter), 4);
    assert_eq!(Position::min_max_ab(&start, 5, -5, -3, 0, None, &mut counter), -4);
}

#[test]
fn an_empty_window_stops_after_the_first_move() {
    let start = Position::new(1, 2, 7, 8);
    let mut counter = EvalCounter::new();
    // only the first move, to (3, 2, 7, 8), is valued
    assert_eq!(Position::max_min_ab(&start, 1, 5, 5, 0, None, &mut counter), 2);
    assert_eq!(eval_counter(&counter), 1);
    reset_eval_counter(&mut counter);
    assert_eq!(Position::min_max_ab(&start, 1, 7, -7, 0, None, &mut counter), -1);
    assert_eq!(eval_counter(&counter), 1);
}

#[test]
fn the_hint_is_searched_first() {
    let start = Position::new(1, 2, 7, 8);
    let mut counter = EvalCounter::new();
    // with an empty window only the first move is valued: the hinted one
    let hint = Some(at(1, 3, 7, 8, 1));
    assert_eq!(Position::max_min_ab(&start, 1, 5, 5, 0, hint, &mut counter), 1);
    assert_eq!(eval_counter(&counter), 1);
    // a hint that is no move changes nothing
    let stray = Some(at(4, 4, 4, 4, 4));
    assert_eq!(Position::max_min_ab(&start, 1, 5, 5, 0, stray, &mut counter), 2);
}

#[test]
fn best_moves_from_the_usual_start() {
    let start = Position::new(1, 2, 7, 8);
    let white: [(u8, i32, usize); 6] =
        [(0, 2, 2), (1, 2, 2), (2, 0, 4), (3, 2, 8), (4, 0, 16), (6, -1, 64)];
    for (depth, score, evals) in white {
        let mut counter = EvalCounter::new();
        let best = Position::best_white_move(&start, depth, &mut counter);
        assert_eq!(best, Some((at(3, 2, 7, 8, 1), score)));
        assert_eq!(eval_counter(&counter), evals);
        reset_eval_counter(&mut counter);
        let best = Position::best_white_move_improved(&start, depth, &mut counter);
        assert_eq!(best, Some((at(3, 2, 7, 8, 1), score)));
        assert_eq!(eval_counter(&counter), evals);
    }
    let black: [(u8, i32, usize); 6] =
        [(0, -2, 2), (1, -2, 2), (2, 0, 4), (3, -2, 8), (4, 0, 16), (6, 1, 64)];
    for (depth, score, evals) in black {
        let mut counter = EvalCounter::new();
        let best = Position::best_black_move(&start, depth, &mut counter);
        assert_eq!(best, Some((at(1, 2, 7, 6, 1), score)));
        assert_eq!(eval_counter(&counter), evals);
        reset_eval_counter(&mut counter);
        let best = Position::best_black_move_improved(&start, depth, &mut counter);
        assert_eq!(best, Some((at(1, 2, 7, 6, 1), score)));
        assert_eq!(eval_counter(&counter), evals);
    }
    let mut counter = EvalCounter::new();
    assert_eq!(
        Position::best_black_move(&start, 8, &mut counter),
        Some((at(1, 2, 6, 8, 1), 1))
    );
    assert_eq!(eval_counter(&counter), 256);
}

#[test]
fn iterative_deepening_from_the_usual_start() {
    let start = Position::new(1, 2, 7, 8);
    let white: [(u8, i32, usize); 6] =
        [(1, 2, 2), (2, 0, 6), (3, 2, 14), (4, 0, 28), (6, -1, 100), (8, -1, 235)];
    for (depth, score, evals) in white {
        let mut counter = EvalCounter::new();
        let best = Position::best_white_move_ab(&start, depth, &mut counter);
        assert_eq!(best, Some((at(3, 2, 7, 8, 1), score)));
        assert_eq!(eval_counter(&counter), evals);
    }
    let black: [(u8, i32, usize); 5] = [(1, -2, 2), (2, 0, 6), (3, -2, 12), (4, 0, 23), (6, 1, 69)];
    for (depth, score, evals) in black {
        let mut counter = EvalCounter::new();
        let best = Position::best_black_move_ab(&start, depth, &mut counter);
        assert_eq!(best, Some((at(1, 2, 7, 6, 1), score)));
        assert_eq!(eval_counter(&counter), evals);
    }
    let mut counter = EvalCounter::new();
    assert_eq!(
        Position::best_white_move_ab_improved(&start, 10, &mut counter),
        Some((at(3, 2, 7, 8, 1), 0))
    );
    assert_eq!(eval_counter(&counter), 777);
    reset_eval_counter(&mut counter);
    assert_eq!(
        Position::best_black_move_ab_improved(&start, 10, &mut counter),
        Some((at(1, 2, 7, 6, 1), 0))
    );
    assert_eq!(eval_counter(&counter), 657);
}

#[test]
fn iterative_deepening_chooses_what_plain_search_chooses() {
    for p in well_formed_positions() {
        for depth in 1u8..=4 {
            for side in [Side::White, Side::Black] {
                for improved in [false, true] {
                    let mut counter = EvalCounter::new();
                    assert_eq!(
                        best_move_ab(&p, depth, side, improved, &mut counter),
                        best_move(&p, depth, side, improved, &mut counter)
                    );
                }
            }
        }
    }
}

#[test]
fn the_first_of_equally_good_moves_is_chosen() {
    let mut counter = EvalCounter::new();
    // both white moves are worth -12 at depth 2
    let p = Position::new(1, 2, 0, 4);
    assert_eq!(
        Position::min_max(&at(3, 2, 0, 4, 1), 1, &mut counter),
        Position::min_max(&at(1, 3, 0, 4, 1), 1, &mut counter)
    );
    assert_eq!(
        Position::best_white_move(&p, 2, &mut counter),
        Some((at(3, 2, 0, 4, 1), -12))
    );
    assert_eq!(
        Position::best_white_move_ab(&p, 2, &mut counter),
        Some((at(3, 2, 0, 4, 1), -12))
    );
    // black has won already: both white moves score -100
    let lost = Position::new(1, 2, 0, 0);
    assert_eq!(
        Position::best_white_move(&lost, 3, &mut counter),
        Some((at(3, 2, 0, 0, 1), -100))
    );
    // both black moves are worth 12 at depth 2
    let q = Position::new(9, 5, 7, 8);
    let first = Position::best_black_move(&q, 2, &mut counter).unwrap();
    let kids: Vec<Position> = Position::black_children(&q).into_iter().collect();
    let values: Vec<i32> =
        kids.iter().map(|k| Position::max_min(k, 1, &mut EvalCounter::new())).collect();
    let least: i32 = *values.iter().min().unwrap();
    let index: usize = values.iter().position(|v| *v == least).unwrap();
    assert_eq!(first, (kids[index], least));
}

#[test]
fn no_move_gives_no_result() {
    let mut counter = EvalCounter::new();
    let white_home = Position::new(9, 9, 3, 4);
    assert!(!has_move(&white_home, Side::White));
    assert!(has_move(&white_home, Side::Black));
    assert_eq!(Position::best_white_move(&white_home, 3, &mut counter), None);
    assert_eq!(Position::best_white_move_improved(&white_home, 3, &mut counter), None);
    assert_eq!(Position::best_white_move_ab(&white_home, 3, &mut counter), None);
    assert_eq!(Position::best_white_move_ab_improved(&white_home, 3, &mut counter), None);
    let black_home = Position::new(3, 4, 0, 0);
    assert_eq!(Position::best_black_move(&black_home, 3, &mut counter), None);
    assert_eq!(Position::best_black_move_improved(&black_home, 3, &mut counter), None);
    assert_eq!(Position::best_black_move_ab(&black_home, 3, &mut counter), None);
    assert_eq!(Position::best_black_move_ab_improved(&black_home, 3, &mut counter), None);
    assert_eq!(eval_counter(&counter), 0);
}

#[test]
fn iterative_deepening_to_depth_zero_gives_no_result() {
    let mut counter = EvalCounter::new();
    let start = Position::new(1, 2, 7, 8);
    assert_eq!(Position::best_white_move_ab(&start, 0, &mut counter), None);
    assert_eq!(Position::best_black_move_ab(&start, 0, &mut counter), None);
    assert_eq!(Position::best_white_move_ab_improved(&start, 0, &mut counter), None);
    assert_eq!(Position::best_black_move_ab_improved(&start, 0, &mut counter), None);
    assert_eq!(eval_counter(&counter), 0);
}

#[test]
fn a_losing_side_still_gets_its_move() {
    let mut counter = EvalCounter::new();
    // black has won: white has moves, all of them lost
    let lost = Position::new(5, 6, 0, 0);
    let best = Position::best_white_move(&lost, 2, &mut counter);
    assert_eq!(best, Some((at(7, 6, 0, 0, 1), -100)));
}

#[test]
fn whole_runs() {
    let start = Position::new(1, 2, 7, 8);
    assert_eq!(minimax_white(&start, 4), (at(3, 2, 7, 8, 1), 0, 16, 4));
    assert_eq!(minimax_white_ab(&start, 4), (at(3, 2, 7, 8, 1), 0, 28, 4));
    assert_eq!(minimax_black(&start, 4), (at(1, 2, 7, 6, 1), 0, 16, 4));
    assert_eq!(minimax_black_ab(&start, 4), (at(1, 2, 7, 6, 1), 0, 23, 4));
    assert_eq!(minimax_white_improved(&start, 6), (at(3, 2, 7, 8, 1), -1, 64, 6));
    assert_eq!(minimax_white_ab_improved(&start, 6), (at(3, 2, 7, 8, 1), -1, 100, 6));
    assert_eq!(minimax_black_improved(&start, 6), (at(1, 2, 7, 6, 1), 1, 64, 6));
    assert_eq!(minimax_black_ab_improved(&start, 6), (at(1, 2, 7, 6, 1), 1, 69, 6));
    assert_eq!(minimax_white(&start, 0), (at(3, 2, 7, 8, 1), 2, 2, 0));
}

#[test]
fn searches_reach_the_move_limit() {
    let mut counter = EvalCounter::new();
    // at 24 moves played every child is at the limit
    let late = at(1, 2, 7, 8, 24);
    assert_eq!(Position::max_min_improved(&late, 1, &mut counter), -100);
    assert_eq!(Position::max_min(&late, 1, &mut counter), 2);
    assert_eq!(
        Position::max_min_ab_improved(&late, 3, i32::MIN, i32::MAX, 0, None, &mut counter),
        -100
    );
}
