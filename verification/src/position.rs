use vstd::prelude::*;

verus! {

/// White's home square. White pawns advance towards it.
pub const WHITE_HOME: u8 = 9;

/// Black's home square. Black pawns advance towards it.
pub const BLACK_HOME: u8 = 0;

/// One position of the game: the squares of the four pawns and the number of
/// moves played to reach it.
///
/// Square 0 is black's home, squares 1 to 8 are the track and square 9 is
/// white's home.
#[derive(Debug, PartialEq, Eq, Structural, Copy, Clone)]
pub struct Position {
    pub w1: u8,
    pub w2: u8,
    pub b1: u8,
    pub b2: u8,
    pub moves_played: u8,
}

/// Whether a square lies on the track, that is between the two homes.
pub open spec fn on_track(sq: u8) -> bool {
    1 <= sq <= 8
}

impl Position {
    /// The invariant of a position that can arise in play: white pawns stand
    /// on 1..=9 and black pawns on 0..=8, and no track square holds two pawns.
    /// Either home may hold both pawns of its side.
    pub open spec fn well_formed(self) -> bool {
        &&& 1 <= self.w1 <= 9
        &&& 1 <= self.w2 <= 9
        &&& self.b1 <= 8
        &&& self.b2 <= 8
        &&& (self.w1 == self.w2 ==> self.w1 == WHITE_HOME)
        &&& (self.b1 == self.b2 ==> self.b1 == BLACK_HOME)
        &&& self.w1 != self.b1
        &&& self.w1 != self.b2
        &&& self.w2 != self.b1
        &&& self.w2 != self.b2
    }

    /// White has won: both white pawns are home.
    pub open spec fn white_has_won(self) -> bool {
        self.w1 == WHITE_HOME && self.w2 == WHITE_HOME
    }

    /// Black has won: both black pawns are home.
    pub open spec fn black_has_won(self) -> bool {
        self.b1 == BLACK_HOME && self.b2 == BLACK_HOME
    }

    /// The game is over in this position.
    pub open spec fn is_terminal(self) -> bool {
        self.white_has_won() || self.black_has_won()
    }

    /// The material count: the sum of the four squares, centred so that the
    /// usual starting position counts 0.
    pub open spec fn material(self) -> int {
        self.w1 + self.w2 + self.b1 + self.b2 - 18
    }

    /// The static score of a position: 100 for a white win, -100 for a black
    /// win, and the material count otherwise.
    pub open spec fn static_score(self) -> int {
        if self.white_has_won() {
            100
        } else if self.black_has_won() {
            -100
        } else {
            self.material()
        }
    }

    /// A starting position: the four pawns on the given squares, no move played.
    pub fn new(w1: u8, w2: u8, b1: u8, b2: u8) -> (p: Position)
        ensures
            p == (Position { w1, w2, b1, b2, moves_played: 0 }),
    {
        Position { w1, w2, b1, b2, moves_played: 0 }
    }

    /// Whether white has won.
    pub fn white_win(&self) -> (won: bool)
        ensures
            won == self.white_has_won(),
    {
        self.w1 == WHITE_HOME && self.w2 == WHITE_HOME
    }

    /// Whether black has won.
    pub fn black_win(&self) -> (won: bool)
        ensures
            won == self.black_has_won(),
    {
        self.b1 == BLACK_HOME && self.b2 == BLACK_HOME
    }

    /// Checks the invariant of a position at run time.
    pub fn is_well_formed(&self) -> (ok: bool)
        ensures
            ok == self.well_formed(),
    {
        1 <= self.w1 && self.w1 <= 9 && 1 <= self.w2 && self.w2 <= 9 && self.b1 <= 8 && self.b2
            <= 8 && (self.w1 != self.w2 || self.w1 == WHITE_HOME) && (self.b1 != self.b2 || self.b1
            == BLACK_HOME) && self.w1 != self.b1 && self.w1 != self.b2 && self.w2 != self.b1
            && self.w2 != self.b2
    }

    /// The static score, without counting an evaluation.
    pub fn static_eval(&self) -> (score: i32)
        ensures
            score == self.static_score(),
    {
        if self.white_win() {
            100
        } else if self.black_win() {
            -100
        } else {
            (self.w1 as i32 + self.w2 as i32 + self.b1 as i32 + self.b2 as i32) - 18
        }
    }
}

} // verus!
