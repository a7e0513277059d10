use minimax_toruney::{Cli, Position};

#[test]
fn position_text_lists_the_four_squares() {
    assert_eq!(Position::new(1, 2, 7, 8).to_text(), "1 2 7 8");
    assert_eq!(Position::new(9, 9, 0, 0).to_text(), "9 9 0 0");
    let moved = Position { w1: 3, w2: 2, b1: 7, b2: 8, moves_played: 12 };
    assert_eq!(moved.to_text(), "3 2 7 8");
}

#[test]
fn position_text_writes_numbers_in_decimal() {
    assert_eq!(Position::new(255, 100, 10, 99).to_text(), "255 100 10 99");
    assert_eq!(Position::new(0, 109, 210, 7).to_text(), "0 109 210 7");
}

#[test]
fn default_arguments_are_the_usual_start() {
    let cli = Cli::default();
    assert_eq!((cli.w1, cli.w2, cli.b1, cli.b2), (1, 2, 7, 8));
    assert_eq!(cli.start(), Position::new(1, 2, 7, 8));
    let other = Cli { w1: 3, w2: 4, b1: 5, b2: 6 };
    assert_eq!(other.start(), Position { w1: 3, w2: 4, b1: 5, b2: 6, moves_played: 0 });
}
