use vstd::prelude::*;
use crate::move_list::{list_items, list_new, list_push, MoveList, MOVE_LIST_CAPACITY};
use crate::position::Position;

verus! {

/// The longest step that a pawn can take.
pub const LONGEST_STEP: u8 = 4;

/// The number of squares that a leaped pawn may be put back on.
pub const FALLBACK_COUNT: u8 = 3;

/// One of the two players. White moves up the track, black moves down.
#[derive(Debug, PartialEq, Eq, Structural, Copy, Clone)]
pub enum Side {
    White,
    Black,
}

/// The board as the moving pawn sees it: its own square, the square of the
/// other pawn of its side, and the squares of the two opposing pawns.
#[derive(Debug, PartialEq, Eq, Structural, Copy, Clone)]
pub struct Lane {
    pub pawn: u8,
    pub other: u8,
    pub foe1: u8,
    pub foe2: u8,
}

impl Side {
    /// The side that moves next.
    pub open spec fn opponent(self) -> Side {
        match self {
            Side::White => Side::Black,
            Side::Black => Side::White,
        }
    }

    /// The square that this side's pawns run to.
    pub open spec fn home_square(self) -> u8 {
        match self {
            Side::White => 9,
            Side::Black => 0,
        }
    }

    /// The square `k` steps ahead of `sq` in this side's direction. It may lie
    /// off the board.
    pub open spec fn ahead(self, sq: u8, k: int) -> int {
        match self {
            Side::White => sq + k,
            Side::Black => sq - k,
        }
    }

    /// Whether a pawn of this side may stand on `sq` at all: the track and
    /// the side's own home.
    pub open spec fn admits(self, sq: int) -> bool {
        match self {
            Side::White => 1 <= sq <= 9,
            Side::Black => 0 <= sq <= 8,
        }
    }

    /// The squares on which a pawn that this side has leaped is put back, in
    /// the order of preference: 8, 7, 6 after a white leap and 1, 2, 3 after
    /// a black one.
    pub open spec fn fallback(self, n: int) -> int {
        match self {
            Side::White => 8 - n,
            Side::Black => 1 + n,
        }
    }

    /// The opponent of this side.
    pub fn other(self) -> (side: Side)
        ensures
            side == self.opponent(),
    {
        match self {
            Side::White => Side::Black,
            Side::Black => Side::White,
        }
    }

    /// The home square of this side.
    pub fn home(self) -> (sq: u8)
        ensures
            sq == self.home_square(),
    {
        match self {
            Side::White => 9,
            Side::Black => 0,
        }
    }

    /// The square `k` steps ahead of `sq`, if a pawn of this side may stand
    /// there.
    pub fn square_ahead(self, sq: u8, k: u8) -> (dest: Option<u8>)
        ensures
            dest matches Some(d) ==> d == self.ahead(sq, k as int),
            dest is Some <==> self.admits(self.ahead(sq, k as int)),
    {
        match self {
            Side::White => {
                if sq <= 9 && k <= 9 - sq && sq + k >= 1 {
                    Some(sq + k)
                } else {
                    None
                }
            },
            Side::Black => {
                if k <= sq && sq - k <= 8 {
                    Some(sq - k)
                } else {
                    None
                }
            },
        }
    }

    /// The `n`-th square of the fallback list.
    pub fn fallback_square(self, n: u8) -> (sq: u8)
        requires
            n < FALLBACK_COUNT,
        ensures
            sq == self.fallback(n as int),
    {
        match self {
            Side::White => 8 - n,
            Side::Black => 1 + n,
        }
    }
}

impl Lane {
    /// Whether the moving pawn may land on `sq`: the square is on its side's
    /// part of the board, no opposing pawn stands on it, and the side's other
    /// pawn does not stand on it either, unless it is the side's home.
    pub open spec fn free(self, side: Side, sq: int) -> bool {
        &&& side.admits(sq)
        &&& (sq == side.home_square() || sq != self.other)
        &&& sq != self.foe1
        &&& sq != self.foe2
    }

    /// The first step length from `k` up to the longest whose destination is
    /// free.
    pub open spec fn first_free(self, side: Side, k: int) -> Option<int>
        decreases LONGEST_STEP + 1 - k,
    {
        if k > LONGEST_STEP {
            None
        } else if self.free(side, side.ahead(self.pawn, k)) {
            Some(k)
        } else {
            self.first_free(side, k + 1)
        }
    }

    /// The length of the step that the pawn takes, if it can move: none from
    /// home, one into home from the square before it, and else the shortest
    /// of 1 to 4 whose destination is free.
    pub open spec fn step_length(self, side: Side) -> Option<int> {
        if self.pawn == side.home_square() {
            None
        } else if side.ahead(self.pawn, 1) == side.home_square() {
            Some(1)
        } else {
            self.first_free(side, 1)
        }
    }

    /// Whether a leaped pawn can be put back on `sq` after a leap to `dest`:
    /// the square is not the leap's destination and no pawn stood on it
    /// before the leap.
    pub open spec fn vacant(self, dest: int, sq: int) -> bool {
        &&& sq != dest
        &&& sq != self.pawn
        &&& sq != self.other
        &&& sq != self.foe1
        &&& sq != self.foe2
    }

    /// The first vacant square of the fallback list from its `n`-th entry on.
    pub open spec fn first_vacant(self, side: Side, dest: int, n: int) -> Option<int>
        decreases FALLBACK_COUNT - n,
    {
        if n >= FALLBACK_COUNT {
            None
        } else if self.vacant(dest, side.fallback(n)) {
            Some(side.fallback(n))
        } else {
            self.first_vacant(side, dest, n + 1)
        }
    }

    /// Where a pawn that stood on `leaped` is after a leap to `dest`: where
    /// it was if the leap ends on the mover's home or no fallback square is
    /// vacant, and else on the first vacant fallback square.
    pub open spec fn displaced(self, side: Side, dest: int, leaped: u8) -> u8 {
        if dest == side.home_square() {
            leaped
        } else {
            match self.first_vacant(side, dest, 0) {
                Some(sq) => sq as u8,
                None => leaped,
            }
        }
    }

    /// Whether the pawn's move is a leap over an opposing pawn: a step of two
    /// whose middle square holds one.
    pub open spec fn leaps(self, side: Side) -> bool {
        &&& self.step_length(side) == Some(2int)
        &&& (self.foe1 == side.ahead(self.pawn, 1) || self.foe2 == side.ahead(self.pawn, 1))
    }

    /// The board after the pawn's move, or `None` if it cannot move.
    pub open spec fn advance(self, side: Side) -> Option<Lane> {
        match self.step_length(side) {
            None => None,
            Some(k) => {
                let dest = side.ahead(self.pawn, k);
                let mid = side.ahead(self.pawn, 1);
                if k == 2 && self.foe1 == mid {
                    Some(
                        Lane {
                            pawn: dest as u8,
                            foe1: self.displaced(side, dest, self.foe1),
                            ..self
                        },
                    )
                } else if k == 2 && self.foe2 == mid {
                    Some(
                        Lane {
                            pawn: dest as u8,
                            foe2: self.displaced(side, dest, self.foe2),
                            ..self
                        },
                    )
                } else {
                    Some(Lane { pawn: dest as u8, ..self })
                }
            },
        }
    }

    /// The invariant of a position, seen from the moving pawn.
    pub open spec fn well_formed(self, side: Side) -> bool {
        &&& side.admits(self.pawn as int)
        &&& side.admits(self.other as int)
        &&& side.opponent().admits(self.foe1 as int)
        &&& side.opponent().admits(self.foe2 as int)
        &&& (self.pawn == self.other ==> self.pawn == side.home_square())
        &&& (self.foe1 == self.foe2 ==> self.foe1 == side.opponent().home_square())
        &&& self.pawn != self.foe1
        &&& self.pawn != self.foe2
        &&& self.other != self.foe1
        &&& self.other != self.foe2
    }

    /// The square `k` steps ahead of the pawn, if the pawn may land there.
    fn free_ahead(&self, side: Side, k: u8) -> (dest: Option<u8>)
        ensures
            dest matches Some(d) ==> d == side.ahead(self.pawn, k as int),
            dest is Some <==> self.free(side, side.ahead(self.pawn, k as int)),
    {
        match side.square_ahead(self.pawn, k) {
            Some(d) => {
                if (d == side.home() || d != self.other) && d != self.foe1 && d != self.foe2 {
                    Some(d)
                } else {
                    None
                }
            },
            None => None,
        }
    }

    /// The pawn's destination and the length of its step, if it can move.
    fn destination(&self, side: Side) -> (found: Option<(u8, u8)>)
        ensures
            match found {
                Some((dest, k)) => self.step_length(side) == Some(k as int) && dest
                    == side.ahead(self.pawn, k as int),
                None => self.step_length(side) is None,
            },
    {
        let home = side.home();
        if self.pawn == home {
            return None;
        }
        if side.square_ahead(self.pawn, 1) == Some(home) {
            return Some((home, 1));
        }
        let mut k: u8 = 1;
        while k <= LONGEST_STEP
            invariant
                1 <= k <= LONGEST_STEP + 1,
                self.first_free(side, 1) == self.first_free(side, k as int),
            decreases LONGEST_STEP + 1 - k,
        {
            match self.free_ahead(side, k) {
                Some(dest) => {
                    return Some((dest, k));
                },
                None => {},
            }
            k = k + 1;
        }
        None
    }

    /// The square of a leaped pawn after a leap to `dest`.
    fn bump(&self, side: Side, dest: u8, leaped: u8) -> (sq: u8)
        ensures
            sq == self.displaced(side, dest as int, leaped),
    {
        if dest == side.home() {
            return leaped;
        }
        let mut n: u8 = 0;
        while n < FALLBACK_COUNT
            invariant
                n <= FALLBACK_COUNT,
                dest != side.home_square(),
                self.first_vacant(side, dest as int, 0) == self.first_vacant(
                    side,
                    dest as int,
                    n as int,
                ),
            decreases FALLBACK_COUNT - n,
        {
            let sq = side.fallback_square(n);
            if sq != dest && sq != self.pawn && sq != self.other && sq != self.foe1 && sq
                != self.foe2 {
                return sq;
            }
            n = n + 1;
        }
        leaped
    }

    /// Moves the pawn: the board after its move, or `None` if it has none.
    pub fn step(&self, side: Side) -> (next: Option<Lane>)
        ensures
            next == self.advance(side),
    {
        match self.destination(side) {
            None => None,
            Some((dest, k)) => {
                if k == 2 {
                    let mid: u8 = match side {
                        Side::White => dest - 1,
                        Side::Black => dest + 1,
                    };
                    if self.foe1 == mid {
                        let foe1 = self.bump(side, dest, self.foe1);
                        return Some(Lane { pawn: dest, other: self.other, foe1, foe2: self.foe2 });
                    }
                    if self.foe2 == mid {
                        let foe2 = self.bump(side, dest, self.foe2);
                        return Some(Lane { pawn: dest, other: self.other, foe1: self.foe1, foe2 });
                    }
                }
                Some(Lane { pawn: dest, other: self.other, foe1: self.foe1, foe2: self.foe2 })
            },
        }
    }
}

impl Position {
    /// The board as a pawn of `side` sees it: its first pawn, or its second.
    pub open spec fn lane(self, side: Side, second: bool) -> Lane {
        match side {
            Side::White => if second {
                Lane { pawn: self.w2, other: self.w1, foe1: self.b1, foe2: self.b2 }
            } else {
                Lane { pawn: self.w1, other: self.w2, foe1: self.b1, foe2: self.b2 }
            },
            Side::Black => if second {
                Lane { pawn: self.b2, other: self.b1, foe1: self.w1, foe2: self.w2 }
            } else {
                Lane { pawn: self.b1, other: self.b2, foe1: self.w1, foe2: self.w2 }
            },
        }
    }

    /// The position one move later, with the pawns on the squares that the
    /// mover's view gives. This is the inverse of `lane`.
    pub open spec fn reached(self, side: Side, second: bool, lane: Lane) -> Position {
        let moves_played = (self.moves_played + 1) as u8;
        match side {
            Side::White => if second {
                Position { w1: lane.other, w2: lane.pawn, b1: lane.foe1, b2: lane.foe2, moves_played }
            } else {
                Position { w1: lane.pawn, w2: lane.other, b1: lane.foe1, b2: lane.foe2, moves_played }
            },
            Side::Black => if second {
                Position { w1: lane.foe1, w2: lane.foe2, b1: lane.other, b2: lane.pawn, moves_played }
            } else {
                Position { w1: lane.foe1, w2: lane.foe2, b1: lane.pawn, b2: lane.other, moves_played }
            },
        }
    }

    /// The positions that one pawn's move leads to: one, or none if the pawn
    /// cannot move.
    pub open spec fn pawn_moves(self, side: Side, second: bool) -> Seq<Position> {
        match self.lane(side, second).advance(side) {
            Some(lane) => seq![self.reached(side, second, lane)],
            None => Seq::empty(),
        }
    }

    /// The moves of white's first pawn.
    pub open spec fn w1_moves(self) -> Seq<Position> {
        self.pawn_moves(Side::White, false)
    }

    /// The moves of white's second pawn.
    pub open spec fn w2_moves(self) -> Seq<Position> {
        self.pawn_moves(Side::White, true)
    }

    /// The moves of black's first pawn.
    pub open spec fn b1_moves(self) -> Seq<Position> {
        self.pawn_moves(Side::Black, false)
    }

    /// The moves of black's second pawn.
    pub open spec fn b2_moves(self) -> Seq<Position> {
        self.pawn_moves(Side::Black, true)
    }

    /// The positions that a side can move to: those of its first pawn, then
    /// those of its second.
    pub open spec fn moves(self, side: Side) -> Seq<Position> {
        self.pawn_moves(side, false) + self.pawn_moves(side, true)
    }

    fn lane_of(&self, side: Side, second: bool) -> (lane: Lane)
        ensures
            lane == self.lane(side, second),
    {
        match side {
            Side::White => if second {
                Lane { pawn: self.w2, other: self.w1, foe1: self.b1, foe2: self.b2 }
            } else {
                Lane { pawn: self.w1, other: self.w2, foe1: self.b1, foe2: self.b2 }
            },
            Side::Black => if second {
                Lane { pawn: self.b2, other: self.b1, foe1: self.w1, foe2: self.w2 }
            } else {
                Lane { pawn: self.b1, other: self.b2, foe1: self.w1, foe2: self.w2 }
            },
        }
    }

    fn reach(&self, side: Side, second: bool, lane: Lane) -> (next: Position)
        requires
            self.moves_played < u8::MAX,
        ensures
            next == self.reached(side, second, lane),
    {
        let moves_played: u8 = self.moves_played + 1;
        match side {
            Side::White => if second {
                Position { w1: lane.other, w2: lane.pawn, b1: lane.foe1, b2: lane.foe2, moves_played }
            } else {
                Position { w1: lane.pawn, w2: lane.other, b1: lane.foe1, b2: lane.foe2, moves_played }
            },
            Side::Black => if second {
                Position { w1: lane.foe1, w2: lane.foe2, b1: lane.other, b2: lane.pawn, moves_played }
            } else {
                Position { w1: lane.foe1, w2: lane.foe2, b1: lane.pawn, b2: lane.other, moves_played }
            },
        }
    }

    /// Adds the move of one pawn, if it has one, to a list.
    fn push_pawn_step(&self, side: Side, second: bool, list: &mut MoveList)
        requires
            self.moves_played < u8::MAX,
            list_items(*old(list)).len() < MOVE_LIST_CAPACITY,
        ensures
            list_items(*final(list)) == list_items(*old(list)) + self.pawn_moves(side, second),
    {
        match self.lane_of(side, second).step(side) {
            Some(lane) => {
                list_push(list, self.reach(side, second, lane));
                assert(list_items(*list) =~= list_items(*old(list)) + self.pawn_moves(
                    side,
                    second,
                ));
            },
            None => {
                assert(list_items(*list) =~= list_items(*old(list)) + self.pawn_moves(
                    side,
                    second,
                ));
            },
        }
    }

    /// The moves of one pawn of a side.
    pub fn pawn_step(&self, side: Side, second: bool) -> (next: MoveList)
        requires
            self.moves_played < u8::MAX,
        ensures
            list_items(next) == self.pawn_moves(side, second),
    {
        let mut next = list_new();
        self.push_pawn_step(side, second, &mut next);
        assert(list_items(next) =~= self.pawn_moves(side, second));
        next
    }

    /// The moves of white's first pawn.
    pub fn w1_step(&self) -> (next: MoveList)
        requires
            self.moves_played < u8::MAX,
        ensures
            list_items(next) == self.w1_moves(),
            self.well_formed() ==> forall|i: int|
                0 <= i < list_items(next).len() ==> (#[trigger] list_items(next)[i]).well_formed(),
    {
        proof {
            if self.well_formed() {
                lemma_moves_keep_well_formed(*self, Side::White, false);
            }
        }
        self.pawn_step(Side::White, false)
    }

    /// The moves of white's second pawn.
    pub fn w2_step(&self) -> (next: MoveList)
        requires
            self.moves_played < u8::MAX,
        ensures
            list_items(next) == self.w2_moves(),
            self.well_formed() ==> forall|i: int|
                0 <= i < list_items(next).len() ==> (#[trigger] list_items(next)[i]).well_formed(),
    {
        proof {
            if self.well_formed() {
                lemma_moves_keep_well_formed(*self, Side::White, true);
            }
        }
        self.pawn_step(Side::White, true)
    }

    /// The moves of black's first pawn.
    pub fn b1_step(&self) -> (next: MoveList)
        requires
            self.moves_played < u8::MAX,
        ensures
            list_items(next) == self.b1_moves(),
            self.well_formed() ==> forall|i: int|
                0 <= i < list_items(next).len() ==> (#[trigger] list_items(next)[i]).well_formed(),
    {
        proof {
            if self.well_formed() {
                lemma_moves_keep_well_formed(*self, Side::Black, false);
            }
        }
        self.pawn_step(Side::Black, false)
    }

    /// The moves of black's second pawn.
    pub fn b2_step(&self) -> (next: MoveList)
        requires
            self.moves_played < u8::MAX,
        ensures
            list_items(next) == self.b2_moves(),
            self.well_formed() ==> forall|i: int|
                0 <= i < list_items(next).len() ==> (#[trigger] list_items(next)[i]).well_formed(),
    {
        proof {
            if self.well_formed() {
                lemma_moves_keep_well_formed(*self, Side::Black, true);
            }
        }
        self.pawn_step(Side::Black, true)
    }

    /// All the moves of a side: those of its first pawn, then those of its
    /// second.
    pub fn children(&self, side: Side) -> (kids: MoveList)
        requires
            self.moves_played < u8::MAX,
        ensures
            list_items(kids) == self.moves(side),
    {
        let mut kids = list_new();
        self.push_pawn_step(side, false, &mut kids);
        self.push_pawn_step(side, true, &mut kids);
        assert(list_items(kids) =~= self.moves(side));
        kids
    }

    /// All the moves of white.
    pub fn white_children(p: &Position) -> (kids: MoveList)
        requires
            p.moves_played < u8::MAX,
        ensures
            list_items(kids) == p.moves(Side::White),
    {
        p.children(Side::White)
    }

    /// All the moves of black.
    pub fn black_children(p: &Position) -> (kids: MoveList)
        requires
            p.moves_played < u8::MAX,
        ensures
            list_items(kids) == p.moves(Side::Black),
    {
        p.children(Side::Black)
    }
}

/// A pawn's view of a well-formed position is well formed, whichever pawn it
/// is.
pub proof fn lemma_lane_well_formed(p: Position, side: Side, second: bool)
    ensures
        p.lane(side, second).well_formed(side) <==> p.well_formed(),
{
}

/// A move keeps the invariant, seen from the mover: the pawn lands on a square
/// of its side that is free, and a leaped pawn stays on the track, on a square
/// that no other pawn holds.
pub proof fn lemma_advance_keeps_well_formed(lane: Lane, side: Side)
    requires
        lane.well_formed(side),
    ensures
        lane.advance(side) matches Some(next) ==> next.well_formed(side),
{
    reveal_with_fuel(Lane::first_free, 5);
    reveal_with_fuel(Lane::first_vacant, 4);
}

/// Every position that a pawn's move leads to from a well-formed position is
/// well formed.
pub proof fn lemma_moves_keep_well_formed(p: Position, side: Side, second: bool)
    requires
        p.well_formed(),
    ensures
        forall|i: int|
            0 <= i < p.pawn_moves(side, second).len() ==> (#[trigger] p.pawn_moves(
                side,
                second,
            )[i]).well_formed(),
{
    lemma_lane_well_formed(p, side, second);
    lemma_advance_keeps_well_formed(p.lane(side, second), side);
    match p.lane(side, second).advance(side) {
        Some(next) => {
            let q = p.reached(side, second, next);
            assert(q.lane(side, second) == next);
            lemma_lane_well_formed(q, side, second);
        },
        None => {},
    }
}

/// A pawn has at most one move and a side at most two, and each move adds one
/// to the number of moves played.
pub proof fn lemma_moves_count(p: Position, side: Side)
    ensures
        p.pawn_moves(side, false).len() <= 1,
        p.pawn_moves(side, true).len() <= 1,
        p.moves(side).len() <= 2,
        p.moves_played < u8::MAX ==> forall|i: int|
            0 <= i < p.moves(side).len() ==> (#[trigger] p.moves(side)[i]).moves_played
                == p.moves_played + 1,
{
}

/// Home can be shared. A pawn that a step of 1 to 4 brings home has a move
/// whenever no opposing pawn stands on that home, wherever the other pawn of
/// its side stands, and also if that pawn is home already.
pub proof fn lemma_home_is_shared(lane: Lane, side: Side, k: int)
    requires
        1 <= k <= LONGEST_STEP,
        side.ahead(lane.pawn, k) == side.home_square(),
        lane.foe1 != side.home_square(),
        lane.foe2 != side.home_square(),
    ensures
        lane.free(side, side.home_square() as int),
        lane.advance(side) is Some,
{
    reveal_with_fuel(Lane::first_free, 5);
}

/// The square of a leaped pawn. When a pawn leaps, it lands two squares
/// ahead and the opposing pawn on the middle square (the first one, should
/// both stand there) goes to the first square of the mover's fallback list
/// that is not the landing square and that no pawn stood on. It stays where
/// it was if there is no such square or if the leap ends on the mover's home.
/// The two other pawns stay where they were.
pub proof fn lemma_leap_displacement(lane: Lane, side: Side)
    requires
        lane.leaps(side),
    ensures
        lane.advance(side) matches Some(next) && {
            let dest = side.ahead(lane.pawn, 2);
            let put_back = |leaped: u8|
                if dest == side.home_square() {
                    leaped as int
                } else if lane.vacant(dest, side.fallback(0)) {
                    side.fallback(0)
                } else if lane.vacant(dest, side.fallback(1)) {
                    side.fallback(1)
                } else if lane.vacant(dest, side.fallback(2)) {
                    side.fallback(2)
                } else {
                    leaped as int
                };
            &&& next.pawn == dest
            &&& next.other == lane.other
            &&& if lane.foe1 == side.ahead(lane.pawn, 1) {
                next.foe1 == put_back(lane.foe1) && next.foe2 == lane.foe2
            } else {
                next.foe1 == lane.foe1 && next.foe2 == put_back(lane.foe2)
            }
        },
{
    reveal_with_fuel(Lane::first_free, 5);
    reveal_with_fuel(Lane::first_vacant, 4);
}

/// In a well-formed position, a pawn that a step of 1 to 4 brings home has a
/// move, also when the other pawn of its side is home already.
pub proof fn lemma_pawn_near_home_moves(p: Position, side: Side, second: bool, k: int)
    requires
        p.well_formed(),
        1 <= k <= LONGEST_STEP,
        side.ahead(p.lane(side, second).pawn, k) == side.home_square(),
    ensures
        p.pawn_moves(side, second).len() == 1,
{
    lemma_lane_well_formed(p, side, second);
    lemma_home_is_shared(p.lane(side, second), side, k);
}

} // verus!
