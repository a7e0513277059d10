use vstd::prelude::*;
use vstd::arithmetic::power2::{
    lemma2_to64, lemma_pow2_pos, lemma_pow2_strictly_increases, lemma_pow2_unfold, pow2,
};
use crate::counter::{lemma_counter_bounded, lemma_tally_adds, tally, EvalCounter};
use crate::move_list::{list_get, list_items, list_len};
use crate::moves::{lemma_moves_count, Side};
use crate::position::Position;

verus! {

/// Whether a search stops at a position: no depth is left, or the game is
/// over.
pub open spec fn is_leaf(p: Position, depth: nat) -> bool {
    depth == 0 || p.is_terminal()
}

/// The value, for a side, of having no move at all.
pub open spec fn worst(side: Side) -> int {
    match side {
        Side::White => i32::MIN as int,
        Side::Black => i32::MAX as int,
    }
}

/// The one of two values that a side prefers: white the larger, black the
/// smaller.
pub open spec fn better(side: Side, a: int, b: int) -> int {
    match side {
        Side::White => if a >= b {
            a
        } else {
            b
        },
        Side::Black => if a <= b {
            a
        } else {
            b
        },
    }
}

/// The minimax value of a position for the side to move, searched `depth`
/// plies deep: the score at a leaf, and else the best for the side of the
/// values that its moves have for the opponent.
pub open spec fn minimax(p: Position, depth: nat, side: Side, improved: bool) -> int
    decreases depth, 0nat,
{
    if is_leaf(p, depth) {
        p.score(improved, side == Side::White)
    } else {
        best_value(p.moves(side), (depth - 1) as nat, side, improved)
    }
}

/// The best for `side` of the values that the positions `kids`, in which its
/// opponent moves next, have at `depth`.
pub open spec fn best_value(kids: Seq<Position>, depth: nat, side: Side, improved: bool) -> int
    decreases depth, kids.len() + 1,
{
    if kids.len() == 0 {
        worst(side)
    } else {
        better(
            side,
            best_value(kids.drop_last(), depth, side, improved),
            minimax(kids.last(), depth, side.opponent(), improved),
        )
    }
}

/// The number of leaves of the tree that a plain search of `depth` plies
/// visits from a position.
pub open spec fn leaves(p: Position, depth: nat, side: Side) -> nat
    decreases depth, 0nat,
{
    if is_leaf(p, depth) {
        1
    } else {
        leaves_below(p.moves(side), (depth - 1) as nat, side.opponent())
    }
}

/// The number of leaves of the trees below the positions `kids`, in which
/// `side` moves next.
pub open spec fn leaves_below(kids: Seq<Position>, depth: nat, side: Side) -> nat
    decreases depth, kids.len() + 1,
{
    if kids.len() == 0 {
        0
    } else {
        leaves_below(kids.drop_last(), depth, side) + leaves(kids.last(), depth, side)
    }
}

/// The depth that is left for the replies to a first move.
pub open spec fn reply_depth(depth: u8) -> nat {
    if depth == 0 {
        0
    } else {
        (depth - 1) as nat
    }
}

/// Plain minimax search for either side and either evaluation. It visits
/// every move of every position down to the leaves and counts one evaluation
/// for each leaf.
pub fn search(pos: &Position, depth: u8, side: Side, improved: bool, counter: &mut EvalCounter) -> (v: i32)
    requires
        pos.moves_played + depth <= u8::MAX,
    ensures
        v == minimax(*pos, depth as nat, side, improved),
        final(counter)@ == tally(old(counter)@, leaves(*pos, depth as nat, side)),
    decreases depth,
{
    if depth == 0 || pos.white_win() || pos.black_win() {
        return pos.evaluate(improved, side == Side::White, counter);
    }
    let kids = pos.children(side);
    let n = list_len(&kids);
    let replier = side.other();
    let mut v: i32 = match side {
        Side::White => i32::MIN,
        Side::Black => i32::MAX,
    };
    let mut i: usize = 0;
    proof {
        lemma_moves_count(*pos, side);
        lemma_counter_bounded(*old(counter));
        lemma_tally_adds(old(counter)@, 0, 0);
    }
    while i < n
        invariant
            i <= n,
            n == list_items(kids).len(),
            depth > 0,
            pos.moves_played + depth <= u8::MAX,
            list_items(kids) == pos.moves(side),
            replier == side.opponent(),
            old(counter)@ <= usize::MAX,
            forall|j: int|
                0 <= j < n ==> (#[trigger] list_items(kids)[j]).moves_played == pos.moves_played
                    + 1,
            v == best_value(list_items(kids).take(i as int), (depth - 1) as nat, side, improved),
            counter@ == tally(
                old(counter)@,
                leaves_below(list_items(kids).take(i as int), (depth - 1) as nat, replier),
            ),
        decreases n - i,
    {
        let child = list_get(&kids, i);
        let r = search(&child, depth - 1, replier, improved, counter);
        proof {
            let done = list_items(kids).take(i as int);
            let next = list_items(kids).take(i + 1);
            assert(next.drop_last() =~= done);
            assert(next.last() == child);
            lemma_tally_adds(
                old(counter)@,
                leaves_below(done, (depth - 1) as nat, replier),
                leaves(child, (depth - 1) as nat, replier),
            );
        }
        v = match side {
            Side::White => if v >= r {
                v
            } else {
                r
            },
            Side::Black => if v <= r {
                v
            } else {
                r
            },
        };
        i = i + 1;
    }
    assert(list_items(kids).take(n as int) =~= list_items(kids));
    v
}

impl Position {
    /// White to move, basic evaluation: the minimax value of `pos` at `depth`.
    pub fn max_min(pos: &Position, depth: u8, counter: &mut EvalCounter) -> (v: i32)
        requires
            pos.moves_played + depth <= u8::MAX,
        ensures
            v == minimax(*pos, depth as nat, Side::White, false),
            final(counter)@ == tally(old(counter)@, leaves(*pos, depth as nat, Side::White)),
    {
        search(pos, depth, Side::White, false, counter)
    }

    /// White to move, improved evaluation: the minimax value of `pos` at
    /// `depth`.
    pub fn max_min_improved(pos: &Position, depth: u8, counter: &mut EvalCounter) -> (v: i32)
        requires
            pos.moves_played + depth <= u8::MAX,
        ensures
            v == minimax(*pos, depth as nat, Side::White, true),
            final(counter)@ == tally(old(counter)@, leaves(*pos, depth as nat, Side::White)),
    {
        search(pos, depth, Side::White, true, counter)
    }

    /// Black to move, basic evaluation: the minimax value of `pos` at `depth`.
    pub fn min_max(pos: &Position, depth: u8, counter: &mut EvalCounter) -> (v: i32)
        requires
            pos.moves_played + depth <= u8::MAX,
        ensures
            v == minimax(*pos, depth as nat, Side::Black, false),
            final(counter)@ == tally(old(counter)@, leaves(*pos, depth as nat, Side::Black)),
    {
        search(pos, depth, Side::Black, false, counter)
    }

    /// Black to move, improved evaluation: the minimax value of `pos` at
    /// `depth`.
    pub fn min_max_improved(pos: &Position, depth: u8, counter: &mut EvalCounter) -> (v: i32)
        requires
            pos.moves_played + depth <= u8::MAX,
        ensures
            v == minimax(*pos, depth as nat, Side::Black, true),
            final(counter)@ == tally(old(counter)@, leaves(*pos, depth as nat, Side::Black)),
    {
        search(pos, depth, Side::Black, true, counter)
    }
}

/// At a leaf the minimax value is the position's score, whatever depth is
/// left: a position that is won is never searched further.
pub proof fn lemma_minimax_at_leaf(p: Position, depth: nat, side: Side, improved: bool)
    requires
        is_leaf(p, depth),
    ensures
        minimax(p, depth, side, improved) == p.score(improved, side == Side::White),
        leaves(p, depth, side) == 1,
{
}

/// Every minimax value fits in an `i32`.
pub proof fn lemma_minimax_bounds(p: Position, depth: nat, side: Side, improved: bool)
    ensures
        i32::MIN <= minimax(p, depth, side, improved) <= i32::MAX,
    decreases depth, 0nat,
{
    if !is_leaf(p, depth) {
        lemma_best_value_bounds(p.moves(side), (depth - 1) as nat, side, improved);
    }
}

/// Every best value fits in an `i32`.
pub proof fn lemma_best_value_bounds(kids: Seq<Position>, depth: nat, side: Side, improved: bool)
    ensures
        i32::MIN <= best_value(kids, depth, side, improved) <= i32::MAX,
    decreases depth, kids.len() + 1,
{
    if kids.len() > 0 {
        lemma_best_value_bounds(kids.drop_last(), depth, side, improved);
        lemma_minimax_bounds(kids.last(), depth, side.opponent(), improved);
    }
}

/// A search of `depth` plies reaches at most 2 to the power of `depth` leaves:
/// a side has at most two moves.
pub proof fn lemma_leaves_bound(p: Position, depth: nat, side: Side)
    ensures
        leaves(p, depth, side) <= pow2(depth),
    decreases depth, 0nat,
{
    lemma_pow2_pos(depth);
    if !is_leaf(p, depth) {
        let d = (depth - 1) as nat;
        lemma_moves_count(p, side);
        lemma_leaves_below_bound(p.moves(side), d, side.opponent());
        lemma_pow2_unfold(depth);
        assert(p.moves(side).len() * pow2(d) <= 2 * pow2(d)) by (nonlinear_arith)
            requires
                p.moves(side).len() <= 2,
        ;
    }
}

/// The searches below some positions reach at most 2 to the power of `depth`
/// leaves each.
pub proof fn lemma_leaves_below_bound(kids: Seq<Position>, depth: nat, side: Side)
    ensures
        leaves_below(kids, depth, side) <= kids.len() * pow2(depth),
    decreases depth, kids.len() + 1,
{
    if kids.len() > 0 {
        lemma_leaves_below_bound(kids.drop_last(), depth, side);
        lemma_leaves_bound(kids.last(), depth, side);
        assert((kids.len() - 1) * pow2(depth) + pow2(depth) == kids.len() * pow2(depth))
            by (nonlinear_arith);
    }
}

/// The count of a plain search is exact up to 31 plies: a counter that was
/// reset before the search reads the number of leaves after it, and no less.
pub proof fn lemma_count_is_exact(p: Position, depth: nat, side: Side)
    requires
        depth <= 31,
    ensures
        tally(0, leaves(p, depth, side)) == leaves(p, depth, side),
{
    lemma_leaves_bound(p, depth, side);
    lemma2_to64();
    if depth < 31 {
        lemma_pow2_strictly_increases(depth, 31);
    }
}

} // verus!
