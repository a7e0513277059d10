use vstd::prelude::*;
use crate::counter::{tally, EvalCounter};
use crate::position::{on_track, Position};

verus! {

/// The number of moves played from which the improved evaluation scores a
/// position as lost for white.
pub const MOVE_LIMIT: u8 = 25;

impl Position {
    /// Whether exactly one white pawn and exactly one black pawn are on the
    /// track.
    pub open spec fn is_duel(self) -> bool {
        on_track(self.w1) != on_track(self.w2) && on_track(self.b1) != on_track(self.b2)
    }

    /// The sum of the squares of the two pawns of a duel.
    pub open spec fn duel_sum(self) -> int {
        (if on_track(self.w1) {
            self.w1
        } else {
            self.w2
        }) + (if on_track(self.b1) {
            self.b1
        } else {
            self.b2
        })
    }

    /// Who wins a duel: with an even sum the side that does not move next,
    /// with an odd sum the side that does.
    pub open spec fn white_wins_duel(self, white_to_move: bool) -> bool {
        if self.duel_sum() % 2 == 0 {
            !white_to_move
        } else {
            white_to_move
        }
    }

    /// The improved score of a position: -100 once the move limit is reached;
    /// else 100 or -100 for a position that is won; else 100 or -100 for a
    /// duel, by its parity rule; else the material count.
    pub open spec fn improved_score(self, white_to_move: bool) -> int {
        if self.moves_played >= MOVE_LIMIT {
            -100
        } else if self.white_has_won() {
            100
        } else if self.black_has_won() {
            -100
        } else if self.is_duel() {
            if self.white_wins_duel(white_to_move) {
                100
            } else {
                -100
            }
        } else {
            self.material()
        }
    }

    /// The score of a position under one of the two evaluations.
    pub open spec fn score(self, improved: bool, white_to_move: bool) -> int {
        if improved {
            self.improved_score(white_to_move)
        } else {
            self.static_score()
        }
    }

    /// The basic evaluation: the static score. It counts one evaluation.
    pub fn estimate_position(&self, counter: &mut EvalCounter) -> (score: i32)
        ensures
            score == self.static_score(),
            final(counter)@ == tally(old(counter)@, 1),
    {
        counter.count_one();
        self.static_eval()
    }

    /// The improved evaluation. It counts one evaluation.
    pub fn estimate_position_improved(&self, white_to_move: bool, counter: &mut EvalCounter) -> (score: i32)
        ensures
            score == self.improved_score(white_to_move),
            final(counter)@ == tally(old(counter)@, 1),
    {
        counter.count_one();
        if self.moves_played >= MOVE_LIMIT {
            return -100;
        }
        if self.white_win() {
            return 100;
        }
        if self.black_win() {
            return -100;
        }
        let w1_on = 1 <= self.w1 && self.w1 <= 8;
        let w2_on = 1 <= self.w2 && self.w2 <= 8;
        let b1_on = 1 <= self.b1 && self.b1 <= 8;
        let b2_on = 1 <= self.b2 && self.b2 <= 8;
        if w1_on != w2_on && b1_on != b2_on {
            let white: u8 = if w1_on {
                self.w1
            } else {
                self.w2
            };
            let black: u8 = if b1_on {
                self.b1
            } else {
                self.b2
            };
            let even = (white + black) % 2 == 0;
            let white_wins = if even {
                !white_to_move
            } else {
                white_to_move
            };
            return if white_wins {
                100
            } else {
                -100
            };
        }
        self.static_eval()
    }

    /// The evaluation that a search uses at a leaf.
    pub fn evaluate(&self, improved: bool, white_to_move: bool, counter: &mut EvalCounter) -> (score: i32)
        ensures
            score == self.score(improved, white_to_move),
            final(counter)@ == tally(old(counter)@, 1),
    {
        if improved {
            self.estimate_position_improved(white_to_move, counter)
        } else {
            self.estimate_position(counter)
        }
    }
}

/// A position that is won scores 100 for white and -100 for black under the
/// static score, and a position is scored for white if both sides have all
/// their pawns home.
pub proof fn lemma_static_score_of_wins(p: Position)
    ensures
        p.white_has_won() ==> p.static_score() == 100,
        p.black_has_won() && !p.white_has_won() ==> p.static_score() == -100,
{
}

/// Below the move limit, a position that is won scores 100 for white and
/// -100 for black under the improved score, whoever moves next.
pub proof fn lemma_improved_score_of_wins(p: Position, white_to_move: bool)
    requires
        p.moves_played < MOVE_LIMIT,
    ensures
        p.white_has_won() ==> p.improved_score(white_to_move) == 100,
        p.black_has_won() && !p.white_has_won() ==> p.improved_score(white_to_move) == -100,
{
}

/// From the move limit on, the improved score is -100, whatever the pawns'
/// squares.
pub proof fn lemma_move_limit_cutoff(p: Position, white_to_move: bool)
    requires
        p.moves_played >= MOVE_LIMIT,
    ensures
        p.improved_score(white_to_move) == -100,
{
}

/// A duel below the move limit scores 100 or -100, by the parity of the sum
/// of the two squares and the side to move: white wins an even sum when black
/// moves next and an odd sum when white moves next, and black wins the two
/// other cases. The material count plays no part.
pub proof fn lemma_duel_parity(p: Position, white_to_move: bool)
    requires
        p.moves_played < MOVE_LIMIT,
        p.is_duel(),
    ensures
        p.duel_sum() % 2 == 0 && !white_to_move ==> p.improved_score(white_to_move) == 100,
        p.duel_sum() % 2 == 1 && white_to_move ==> p.improved_score(white_to_move) == 100,
        p.duel_sum() % 2 == 0 && white_to_move ==> p.improved_score(white_to_move) == -100,
        p.duel_sum() % 2 == 1 && !white_to_move ==> p.improved_score(white_to_move) == -100,
        !p.white_has_won(),
        !p.black_has_won(),
{
}

/// Every score fits well inside an `i32`.
pub proof fn lemma_score_bounds(p: Position, improved: bool, white_to_move: bool)
    ensures
        -100 <= p.score(improved, white_to_move) <= 1002,
{
}

} // verus!
