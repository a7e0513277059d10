use minimax_toruney::order::{order_moves, sort_moves};
use minimax_toruney::{MoveList, Position};

fn at(w1: u8, w2: u8, b1: u8, b2: u8) -> Position {
    Position { w1, w2, b1, b2, moves_played: 0 }
}

fn list(items: &[Position]) -> MoveList {
    let mut l = MoveList::new();
    for p in items {
        l.push(*p);
    }
    l
}

fn items(l: MoveList) -> Vec<Position> {
    l.into_iter().collect()
}

/// Six positions with the static scores 0, 2, 100, -100, 2 and 6.
fn six() -> [Position; 6] {
    [
        at(1, 2, 7, 8),
        at(3, 2, 7, 8),
        at(9, 9, 1, 2),
        at(1, 2, 0, 0),
        at(2, 3, 7, 8),
        at(4, 5, 7, 8),
    ]
}

#[test]
fn scores_of_the_sample() {
    let scores: Vec<i32> = six().iter().map(|p| p.static_eval()).collect();
    assert_eq!(scores, vec![0, 2, 100, -100, 2, 6]);
}

#[test]
fn more_than_two_moves_are_sorted_best_first() {
    let s = six();
    assert_eq!(
        items(order_moves(list(&s), true, None)),
        vec![s[2], s[5], s[1], s[4], s[0], s[3]]
    );
    assert_eq!(
        items(order_moves(list(&s), false, None)),
        vec![s[3], s[0], s[1], s[4], s[5], s[2]]
    );
    assert_eq!(items(order_moves(list(&s[..3]), true, None)), vec![s[2], s[1], s[0]]);
    assert_eq!(items(order_moves(list(&s[..3]), false, None)), vec![s[0], s[1], s[2]]);
}

#[test]
fn equal_scores_keep_their_order() {
    let s = six();
    // s[1] and s[4] both score 2
    let forth = items(order_moves(list(&[s[0], s[1], s[4]]), true, None));
    assert_eq!(forth, vec![s[1], s[4], s[0]]);
    let back = items(order_moves(list(&[s[0], s[4], s[1]]), true, None));
    assert_eq!(back, vec![s[4], s[1], s[0]]);
    let rising = items(order_moves(list(&[s[5], s[4], s[1]]), false, None));
    assert_eq!(rising, vec![s[4], s[1], s[5]]);
}

#[test]
fn two_moves_or_fewer_are_left_as_they_are() {
    let s = six();
    assert_eq!(items(order_moves(list(&[s[0], s[2]]), true, None)), vec![s[0], s[2]]);
    assert_eq!(items(order_moves(list(&[s[2], s[0]]), false, None)), vec![s[2], s[0]]);
    assert_eq!(items(order_moves(list(&[s[3]]), true, None)), vec![s[3]]);
    assert!(order_moves(list(&[]), true, None).is_empty());
    assert!(order_moves(list(&[]), false, Some(s[0])).is_empty());
}

#[test]
fn the_hint_comes_first() {
    let s = six();
    assert_eq!(items(order_moves(list(&[s[0], s[1]]), true, Some(s[1]))), vec![s[1], s[0]]);
    assert_eq!(items(order_moves(list(&[s[0], s[1]]), true, Some(s[0]))), vec![s[0], s[1]]);
    assert_eq!(
        items(order_moves(list(&s), true, Some(s[4]))),
        vec![s[4], s[2], s[5], s[1], s[0], s[3]]
    );
    assert_eq!(
        items(order_moves(list(&s), false, Some(s[5]))),
        vec![s[5], s[3], s[0], s[1], s[4], s[2]]
    );
    // the worst move of all, hinted
    assert_eq!(
        items(order_moves(list(&s[..4]), true, Some(s[3]))),
        vec![s[3], s[2], s[1], s[0]]
    );
}

#[test]
fn a_hint_that_is_no_move_is_ignored() {
    let s = six();
    let stray = Some(at(4, 4, 4, 4));
    assert_eq!(items(order_moves(list(&[s[0], s[1]]), true, stray)), vec![s[0], s[1]]);
    assert_eq!(items(order_moves(list(&s[..3]), true, stray)), vec![s[2], s[1], s[0]]);
    // the move count is part of a position
    let later = Some(Position { moves_played: 1, ..s[0] });
    assert_eq!(items(order_moves(list(&[s[1], s[0]]), true, later)), vec![s[1], s[0]]);
}

#[test]
fn only_the_first_of_two_equal_moves_is_moved_to_the_front() {
    let s = six();
    let out = items(order_moves(list(&[s[0], s[1], s[0], s[5]]), false, Some(s[0])));
    assert_eq!(out, vec![s[0], s[0], s[1], s[5]]);
    let out = items(order_moves(list(&[s[5], s[1], s[5]]), false, Some(s[5])));
    assert_eq!(out, vec![s[5], s[1], s[5]]);
}

#[test]
fn sorting_from_an_index_leaves_out_what_is_before_it() {
    let s = six();
    assert_eq!(items(sort_moves(&list(&s), 0, true)), vec![s[2], s[5], s[1], s[4], s[0], s[3]]);
    assert_eq!(items(sort_moves(&list(&s), 3, true)), vec![s[5], s[4], s[3]]);
    assert_eq!(items(sort_moves(&list(&s), 3, false)), vec![s[3], s[4], s[5]]);
    assert!(sort_moves(&list(&s), 6, false).is_empty());
}

#[test]
fn ordered_children_of_a_position() {
    let p = Position::new(1, 2, 7, 8);
    let w1 = Position { w1: 3, w2: 2, b1: 7, b2: 8, moves_played: 1 };
    let w2 = Position { w1: 1, w2: 3, b1: 7, b2: 8, moves_played: 1 };
    let b1 = Position { w1: 1, w2: 2, b1: 6, b2: 8, moves_played: 1 };
    let b2 = Position { w1: 1, w2: 2, b1: 7, b2: 6, moves_played: 1 };
    assert_eq!(items(p.ordered_children(true, None)), vec![w1, w2]);
    assert_eq!(items(p.ordered_children(true, Some(w2))), vec![w2, w1]);
    assert_eq!(items(p.ordered_children(true, Some(b1))), vec![w1, w2]);
    assert_eq!(items(p.ordered_children(false, None)), vec![b1, b2]);
    assert_eq!(items(p.ordered_children(false, Some(b2))), vec![b2, b1]);
    assert!(Position::new(9, 9, 1, 2).ordered_children(true, None).is_empty());
}
