use minimax_toruney::eval::MOVE_LIMIT;
use minimax_toruney::{eval_counter, reset_eval_counter, EvalCounter, Position};

fn at(w1: u8, w2: u8, b1: u8, b2: u8, moves_played: u8) -> Position {
    Position { w1, w2, b1, b2, moves_played }
}

#[test]
fn improved_eval_parity_rule() {
    let mut counter = EvalCounter::new();
    // White on square 1, Black on square 4: the sum is 5, odd
    let p = Position::new(1, 9, 4, 0);

    // White to move on an odd sum: White wins
    assert_eq!(p.estimate_position_improved(true, &mut counter), 100);

    // Black to move on an odd sum: Black wins
    assert_eq!(p.estimate_position_improved(false, &mut counter), -100);
}

#[test]
fn parity_rule_on_an_even_sum() {
    let mut counter = EvalCounter::new();
    let p = Position::new(9, 2, 0, 4);
    assert_eq!(p.estimate_position_improved(true, &mut counter), -100);
    assert_eq!(p.estimate_position_improved(false, &mut counter), 100);
}

#[test]
fn parity_rule_holds_for_every_duel() {
    let mut counter = EvalCounter::new();
    for w in 1u8..=8 {
        for b in 1u8..=8 {
            if w == b {
                continue;
            }
            for p in [at(w, 9, b, 0, 0), at(9, w, 0, b, 3), at(w, 9, 0, b, 24)] {
                let even = (w + b) % 2 == 0;
                let white_moving: i32 = if even { -100 } else { 100 };
                assert_eq!(p.estimate_position_improved(true, &mut counter), white_moving);
                assert_eq!(p.estimate_position_improved(false, &mut counter), -white_moving);
            }
        }
    }
}

#[test]
fn new_position_has_no_move_played() {
    let p = Position::new(1, 2, 7, 8);
    assert_eq!(p, at(1, 2, 7, 8, 0));
    assert!(!p.white_win());
    assert!(!p.black_win());
}

#[test]
fn win_predicates() {
    assert!(at(9, 9, 3, 4, 0).white_win());
    assert!(!at(9, 8, 3, 4, 0).white_win());
    assert!(at(3, 4, 0, 0, 0).black_win());
    assert!(!at(3, 4, 0, 1, 0).black_win());
}

#[test]
fn won_positions_score_a_hundred() {
    let mut counter = EvalCounter::new();
    let white = at(9, 9, 3, 4, 10);
    let black = at(3, 4, 0, 0, 10);
    assert_eq!(white.static_eval(), 100);
    assert_eq!(black.static_eval(), -100);
    assert_eq!(white.estimate_position(&mut counter), 100);
    assert_eq!(black.estimate_position(&mut counter), -100);
    for white_to_move in [true, false] {
        assert_eq!(white.estimate_position_improved(white_to_move, &mut counter), 100);
        assert_eq!(black.estimate_position_improved(white_to_move, &mut counter), -100);
    }
}

#[test]
fn material_count_is_the_sum_of_squares_less_eighteen() {
    let mut counter = EvalCounter::new();
    assert_eq!(at(1, 2, 7, 8, 0).estimate_position(&mut counter), 0);
    assert_eq!(at(3, 2, 7, 8, 1).estimate_position(&mut counter), 2);
    assert_eq!(at(1, 2, 3, 4, 0).estimate_position(&mut counter), -8);
    assert_eq!(at(9, 8, 8, 7, 0).static_eval(), 14);
    // no duel: two pawns of each side are on the track
    assert_eq!(at(5, 6, 7, 8, 0).estimate_position_improved(true, &mut counter), 8);
    // no duel either: both white pawns and one black pawn
    assert_eq!(at(5, 6, 7, 0, 0).estimate_position_improved(false, &mut counter), 0);
}

#[test]
fn basic_evaluation_ignores_the_move_count() {
    let mut counter = EvalCounter::new();
    assert_eq!(at(5, 6, 7, 8, 200).estimate_position(&mut counter), 8);
    assert_eq!(at(9, 9, 7, 8, 60).estimate_position(&mut counter), 100);
}

#[test]
fn move_limit_cuts_the_improved_evaluation_off() {
    let mut counter = EvalCounter::new();
    assert_eq!(MOVE_LIMIT, 25);
    let good = at(8, 8, 8, 7, 25);
    assert_eq!(good.static_eval(), 13);
    assert_eq!(good.estimate_position_improved(true, &mut counter), -100);
    assert_eq!(good.estimate_position_improved(false, &mut counter), -100);
    assert_eq!(at(9, 9, 7, 8, 25).estimate_position_improved(true, &mut counter), -100);
    assert_eq!(at(9, 9, 7, 8, 255).estimate_position_improved(true, &mut counter), -100);
    assert_eq!(at(1, 9, 4, 0, 25).estimate_position_improved(true, &mut counter), -100);
    // one move earlier the position is scored as usual
    assert_eq!(at(9, 8, 8, 7, 24).estimate_position_improved(true, &mut counter), 14);
    assert_eq!(at(9, 9, 7, 8, 24).estimate_position_improved(true, &mut counter), 100);
}

#[test]
fn each_evaluation_is_counted_once() {
    let mut counter = EvalCounter::new();
    assert_eq!(eval_counter(&counter), 0);
    let p = at(1, 2, 7, 8, 0);
    p.estimate_position(&mut counter);
    assert_eq!(eval_counter(&counter), 1);
    p.estimate_position_improved(true, &mut counter);
    p.estimate_position_improved(false, &mut counter);
    assert_eq!(eval_counter(&counter), 3);
    p.evaluate(false, true, &mut counter);
    p.evaluate(true, true, &mut counter);
    assert_eq!(eval_counter(&counter), 5);
    p.static_eval();
    assert_eq!(eval_counter(&counter), 5);
    reset_eval_counter(&mut counter);
    assert_eq!(eval_counter(&counter), 0);
    p.estimate_position(&mut counter);
    assert_eq!(eval_counter(&counter), 1);
}

#[test]
fn evaluate_picks_the_evaluation() {
    let mut counter = EvalCounter::new();
    let duel = at(1, 9, 4, 0, 0);
    assert_eq!(duel.evaluate(false, true, &mut counter), -4);
    assert_eq!(duel.evaluate(true, true, &mut counter), 100);
    assert_eq!(duel.evaluate(true, false, &mut counter), -100);
}
