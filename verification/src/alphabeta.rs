use vstd::prelude::*;
use crate::counter::{lemma_counter_bounded, lemma_tally_adds, tally, EvalCounter};
use crate::move_list::{list_get, list_items, list_len};
use crate::moves::{lemma_moves_count, Side};
use crate::order::lemma_ordered_permutes;
use crate::position::Position;
use crate::search::{
    best_value, better, is_leaf, leaves, leaves_below, lemma_best_value_bounds,
    lemma_minimax_bounds, minimax, worst,
};

verus! {

/// The hint that the `i`-th move of a position inherits: only the first move
/// gets the position's own hint.
pub open spec fn hint_for(i: int, pv: Option<Position>) -> Option<Position> {
    if i == 0 {
        pv
    } else {
        None
    }
}

/// The lower bound of the window after a move was valued: white raises it to
/// the best value found.
pub open spec fn raised(side: Side, alpha: int, best: int) -> int {
    match side {
        Side::White => if alpha >= best {
            alpha
        } else {
            best
        },
        Side::Black => alpha,
    }
}

/// The upper bound of the window after a move was valued: black lowers it to
/// the best value found.
pub open spec fn lowered(side: Side, beta: int, best: int) -> int {
    match side {
        Side::White => beta,
        Side::Black => if beta <= best {
            beta
        } else {
            best
        },
    }
}

/// What an alpha-beta search of a position returns and how many leaves it
/// evaluates: the score and one evaluation at a leaf, and else the outcome
/// of going through the ordered moves.
pub open spec fn alpha_beta(
    p: Position,
    depth: nat,
    alpha: int,
    beta: int,
    pv: Option<Position>,
    side: Side,
    improved: bool,
) -> (int, nat)
    decreases depth, 0nat,
{
    if is_leaf(p, depth) {
        (p.score(improved, side == Side::White), 1nat)
    } else {
        scan(
            p.ordered_moves(side, pv),
            0,
            (depth - 1) as nat,
            alpha,
            beta,
            pv,
            side,
            improved,
            worst(side),
            0,
        )
    }
}

/// What going through the moves from the `i`-th on returns, and how many
/// leaves have been evaluated by then, when the moves before it gave `best`
/// after `evals` evaluations and left the window `alpha` to `beta`. Each move
/// is searched with the current window; the window is then narrowed by the
/// best value so far, and the moves that remain are skipped as soon as the
/// window is empty.
pub open spec fn scan(
    kids: Seq<Position>,
    i: int,
    depth: nat,
    alpha: int,
    beta: int,
    pv: Option<Position>,
    side: Side,
    improved: bool,
    best: int,
    evals: nat,
) -> (int, nat)
    decreases depth, kids.len() - i + 1,
{
    if i < 0 || i >= kids.len() {
        (best, evals)
    } else {
        let reply = alpha_beta(
            kids[i],
            depth,
            alpha,
            beta,
            hint_for(i, pv),
            side.opponent(),
            improved,
        );
        let found = better(side, best, reply.0);
        let low = raised(side, alpha, found);
        let high = lowered(side, beta, found);
        if low >= high {
            (found, evals + reply.1)
        } else {
            scan(kids, i + 1, depth, low, high, pv, side, improved, found, evals + reply.1)
        }
    }
}

/// Alpha-beta search for either side and either evaluation. It visits the
/// moves of a position in their search order, hands the hint on to the first
/// of them only, and counts one evaluation for each leaf that it reaches.
pub fn search_ab(
    pos: &Position,
    depth: u8,
    alpha: i32,
    beta: i32,
    ply: usize,
    pv: Option<Position>,
    side: Side,
    improved: bool,
    counter: &mut EvalCounter,
) -> (v: i32)
    requires
        pos.moves_played + depth <= u8::MAX,
        ply + depth <= usize::MAX,
    ensures
        v == alpha_beta(*pos, depth as nat, alpha as int, beta as int, pv, side, improved).0,
        final(counter)@ == tally(
            old(counter)@,
            alpha_beta(*pos, depth as nat, alpha as int, beta as int, pv, side, improved).1,
        ),
    decreases depth,
{
    if depth == 0 || pos.white_win() || pos.black_win() {
        return pos.evaluate(improved, side == Side::White, counter);
    }
    let kids = pos.ordered_children(side == Side::White, pv);
    let n = list_len(&kids);
    let replier = side.other();
    let mut alpha = alpha;
    let mut beta = beta;
    let mut v: i32 = match side {
        Side::White => i32::MIN,
        Side::Black => i32::MAX,
    };
    let mut cut = false;
    let mut i: usize = 0;
    let ghost mut evals: nat = 0;
    let ghost whole = alpha_beta(*pos, depth as nat, alpha as int, beta as int, pv, side, improved);
    proof {
        lemma_moves_count(*pos, side);
        lemma_ordered_permutes(pos.moves(side), side == Side::White, pv);
        lemma_counter_bounded(*old(counter));
        lemma_tally_adds(old(counter)@, 0, 0);
        assert forall|j: int| 0 <= j < n implies (#[trigger] list_items(kids)[j]).moves_played
            == pos.moves_played + 1 by {
            broadcast use vstd::seq_lib::to_multiset_contains;

            let k = list_items(kids)[j];
            assert(list_items(kids).contains(k));
            assert(list_items(kids).to_multiset().count(k) > 0);
            assert(pos.moves(side).contains(k));
        }
    }
    while i < n && !cut
        invariant
            i <= n,
            n == list_items(kids).len(),
            depth > 0,
            pos.moves_played + depth <= u8::MAX,
            ply + depth <= usize::MAX,
            replier == side.opponent(),
            old(counter)@ <= usize::MAX,
            forall|j: int|
                0 <= j < n ==> (#[trigger] list_items(kids)[j]).moves_played == pos.moves_played
                    + 1,
            counter@ == tally(old(counter)@, evals),
            cut ==> whole == (v as int, evals),
            !cut ==> whole == scan(
                list_items(kids),
                i as int,
                (depth - 1) as nat,
                alpha as int,
                beta as int,
                pv,
                side,
                improved,
                v as int,
                evals,
            ),
        decreases n - i,
    {
        let child = list_get(&kids, i);
        let child_pv = if i == 0 {
            pv
        } else {
            None
        };
        let ghost reply = alpha_beta(
            child,
            (depth - 1) as nat,
            alpha as int,
            beta as int,
            child_pv,
            replier,
            improved,
        );
        let r = search_ab(&child, depth - 1, alpha, beta, ply + 1, child_pv, replier, improved, counter);
        proof {
            lemma_tally_adds(old(counter)@, evals, reply.1);
            evals = evals + reply.1;
        }
        match side {
            Side::White => {
                if r > v {
                    v = r;
                }
                if v > alpha {
                    alpha = v;
                }
            },
            Side::Black => {
                if r < v {
                    v = r;
                }
                if v < beta {
                    beta = v;
                }
            },
        }
        if alpha >= beta {
            cut = true;
        }
        i = i + 1;
    }
    v
}

impl Position {
    /// White to move, basic evaluation: alpha-beta search of `pos` at `depth`
    /// with the window `alpha` to `beta`.
    pub fn max_min_ab(
        pos: &Position,
        depth: u8,
        alpha: i32,
        beta: i32,
        ply: usize,
        pv: Option<Position>,
        counter: &mut EvalCounter,
    ) -> (v: i32)
        requires
            pos.moves_played + depth <= u8::MAX,
            ply + depth <= usize::MAX,
        ensures
            v == alpha_beta(*pos, depth as nat, alpha as int, beta as int, pv, Side::White, false).0,
            final(counter)@ == tally(
                old(counter)@,
                alpha_beta(*pos, depth as nat, alpha as int, beta as int, pv, Side::White, false).1,
            ),
            alpha < beta ==> fail_soft(
                v as int,
                minimax(*pos, depth as nat, Side::White, false),
                alpha as int,
                beta as int,
            ),
    {
        proof {
            if alpha < beta {
                lemma_alpha_beta_sound(*pos, depth as nat, alpha as int, beta as int, pv, Side::White, false);
            }
        }
        search_ab(pos, depth, alpha, beta, ply, pv, Side::White, false, counter)
    }

    /// White to move, improved evaluation: alpha-beta search of `pos` at
    /// `depth` with the window `alpha` to `beta`.
    pub fn max_min_ab_improved(
        pos: &Position,
        depth: u8,
        alpha: i32,
        beta: i32,
        ply: usize,
        pv: Option<Position>,
        counter: &mut EvalCounter,
    ) -> (v: i32)
        requires
            pos.moves_played + depth <= u8::MAX,
            ply + depth <= usize::MAX,
        ensures
            v == alpha_beta(*pos, depth as nat, alpha as int, beta as int, pv, Side::White, true).0,
            final(counter)@ == tally(
                old(counter)@,
                alpha_beta(*pos, depth as nat, alpha as int, beta as int, pv, Side::White, true).1,
            ),
            alpha < beta ==> fail_soft(
                v as int,
                minimax(*pos, depth as nat, Side::White, true),
                alpha as int,
                beta as int,
            ),
    {
        proof {
            if alpha < beta {
                lemma_alpha_beta_sound(*pos, depth as nat, alpha as int, beta as int, pv, Side::White, true);
            }
        }
        search_ab(pos, depth, alpha, beta, ply, pv, Side::White, true, counter)
    }

    /// Black to move, basic evaluation: alpha-beta search of `pos` at `depth`
    /// with the window `alpha` to `beta`.
    pub fn min_max_ab(
        pos: &Position,
        depth: u8,
        alpha: i32,
        beta: i32,
        ply: usize,
        pv: Option<Position>,
        counter: &mut EvalCounter,
    ) -> (v: i32)
        requires
            pos.moves_played + depth <= u8::MAX,
            ply + depth <= usize::MAX,
        ensures
            v == alpha_beta(*pos, depth as nat, alpha as int, beta as int, pv, Side::Black, false).0,
            final(counter)@ == tally(
                old(counter)@,
                alpha_beta(*pos, depth as nat, alpha as int, beta as int, pv, Side::Black, false).1,
            ),
            alpha < beta ==> fail_soft(
                v as int,
                minimax(*pos, depth as nat, Side::Black, false),
                alpha as int,
                beta as int,
            ),
    {
        proof {
            if alpha < beta {
                lemma_alpha_beta_sound(*pos, depth as nat, alpha as int, beta as int, pv, Side::Black, false);
            }
        }
        search_ab(pos, depth, alpha, beta, ply, pv, Side::Black, false, counter)
    }

    /// Black to move, improved evaluation: alpha-beta search of `pos` at
    /// `depth` with the window `alpha` to `beta`.
    pub fn min_max_ab_improved(
        pos: &Position,
        depth: u8,
        alpha: i32,
        beta: i32,
        ply: usize,
        pv: Option<Position>,
        counter: &mut EvalCounter,
    ) -> (v: i32)
        requires
            pos.moves_played + depth <= u8::MAX,
            ply + depth <= usize::MAX,
        ensures
            v == alpha_beta(*pos, depth as nat, alpha as int, beta as int, pv, Side::Black, true).0,
            final(counter)@ == tally(
                old(counter)@,
                alpha_beta(*pos, depth as nat, alpha as int, beta as int, pv, Side::Black, true).1,
            ),
            alpha < beta ==> fail_soft(
                v as int,
                minimax(*pos, depth as nat, Side::Black, true),
                alpha as int,
                beta as int,
            ),
    {
        proof {
            if alpha < beta {
                lemma_alpha_beta_sound(*pos, depth as nat, alpha as int, beta as int, pv, Side::Black, true);
            }
        }
        search_ab(pos, depth, alpha, beta, ply, pv, Side::Black, true, counter)
    }
}

/// How a value `found` by a search with the window `alpha` to `beta` relates
/// to the true value `exact`: inside the window it is exact, at or below
/// `alpha` it is an upper bound, and at or above `beta` a lower bound.
pub open spec fn fail_soft(found: int, exact: int, alpha: int, beta: int) -> bool {
    &&& alpha < found < beta ==> exact == found
    &&& found <= alpha ==> exact <= found
    &&& found >= beta ==> exact >= found
}

/// The value that a position in which the opponent of `side` moves next has
/// at `depth`.
pub open spec fn reply_value(kid: Position, depth: nat, side: Side, improved: bool) -> int {
    minimax(kid, depth, side.opponent(), improved)
}

/// Whether `a` is at least as good for `side` as `b`.
pub open spec fn at_least_as_good(side: Side, a: int, b: int) -> bool {
    match side {
        Side::White => a >= b,
        Side::Black => a <= b,
    }
}

/// The best value is at least as good for the side as the value of each move
/// and, unless there is no move, it is the value of one of them.
pub proof fn lemma_best_value_is_best(kids: Seq<Position>, depth: nat, side: Side, improved: bool)
    ensures
        forall|i: int|
            0 <= i < kids.len() ==> at_least_as_good(
                side,
                best_value(kids, depth, side, improved),
                #[trigger] reply_value(kids[i], depth, side, improved),
            ),
        kids.len() == 0 ==> best_value(kids, depth, side, improved) == worst(side),
        kids.len() > 0 ==> exists|i: int|
            0 <= i < kids.len() && best_value(kids, depth, side, improved) == #[trigger] reply_value(
                kids[i],
                depth,
                side,
                improved,
            ),
    decreases kids.len(),
{
    if kids.len() > 0 {
        let front = kids.drop_last();
        lemma_best_value_is_best(front, depth, side, improved);
        let last = reply_value(kids.last(), depth, side, improved);
        assert forall|i: int| 0 <= i < kids.len() implies at_least_as_good(
            side,
            best_value(kids, depth, side, improved),
            #[trigger] reply_value(kids[i], depth, side, improved),
        ) by {
            if i < front.len() {
                assert(front[i] == kids[i]);
                assert(at_least_as_good(
                    side,
                    best_value(front, depth, side, improved),
                    reply_value(front[i], depth, side, improved),
                ));
            }
        }
        if front.len() > 0 && best_value(kids, depth, side, improved) == best_value(
            front,
            depth,
            side,
            improved,
        ) {
            let i = choose|i: int|
                0 <= i < front.len() && best_value(front, depth, side, improved)
                    == #[trigger] reply_value(front[i], depth, side, improved);
            assert(front[i] == kids[i]);
            assert(best_value(kids, depth, side, improved) == reply_value(
                kids[i],
                depth,
                side,
                improved,
            ));
        } else {
            lemma_minimax_bounds(kids.last(), depth, side.opponent(), improved);
            assert(best_value(kids, depth, side, improved) == reply_value(
                kids[kids.len() - 1],
                depth,
                side,
                improved,
            ));
        }
    }
}

/// The best value does not depend on the order of the moves.
pub proof fn lemma_best_value_of_permutation(
    a: Seq<Position>,
    b: Seq<Position>,
    depth: nat,
    side: Side,
    improved: bool,
)
    requires
        a.to_multiset() == b.to_multiset(),
    ensures
        best_value(a, depth, side, improved) == best_value(b, depth, side, improved),
{
    broadcast use vstd::seq_lib::to_multiset_contains;

    vstd::seq_lib::to_multiset_len(a);
    vstd::seq_lib::to_multiset_len(b);

    lemma_best_value_is_best(a, depth, side, improved);
    lemma_best_value_is_best(b, depth, side, improved);
    assert(a.len() == b.len());
    if a.len() > 0 {
        let i = choose|i: int|
            0 <= i < a.len() && best_value(a, depth, side, improved) == #[trigger] reply_value(
                a[i],
                depth,
                side,
                improved,
            );
        assert(a.contains(a[i]));
        assert(a.to_multiset().count(a[i]) > 0);
        assert(b.contains(a[i]));
        let i2 = choose|k: int| 0 <= k < b.len() && b[k] == a[i];
        assert(at_least_as_good(
            side,
            best_value(b, depth, side, improved),
            reply_value(b[i2], depth, side, improved),
        ));
        let j = choose|j: int|
            0 <= j < b.len() && best_value(b, depth, side, improved) == #[trigger] reply_value(
                b[j],
                depth,
                side,
                improved,
            );
        assert(b.contains(b[j]));
        assert(b.to_multiset().count(b[j]) > 0);
        assert(a.contains(b[j]));
        let j2 = choose|k: int| 0 <= k < a.len() && a[k] == b[j];
        assert(at_least_as_good(
            side,
            best_value(a, depth, side, improved),
            reply_value(a[j2], depth, side, improved),
        ));
    }
}

/// Alpha-beta search is sound. With a window that is not empty, the value
/// that it returns is the minimax value whenever it lies inside the window;
/// at or below `alpha` it is an upper bound of the minimax value, and at or
/// above `beta` a lower bound. This holds for every hint. The search also
/// never evaluates more leaves than the plain search.
pub proof fn lemma_alpha_beta_sound(
    p: Position,
    depth: nat,
    alpha: int,
    beta: int,
    pv: Option<Position>,
    side: Side,
    improved: bool,
)
    requires
        i32::MIN <= alpha < beta <= i32::MAX,
    ensures
        fail_soft(
            alpha_beta(p, depth, alpha, beta, pv, side, improved).0,
            minimax(p, depth, side, improved),
            alpha,
            beta,
        ),
        alpha_beta(p, depth, alpha, beta, pv, side, improved).1 <= leaves(p, depth, side),
    decreases depth, 0nat,
{
    if !is_leaf(p, depth) {
        let kids = p.ordered_moves(side, pv);
        let d = (depth - 1) as nat;
        lemma_ordered_permutes(p.moves(side), side == Side::White, pv);
        lemma_best_value_of_permutation(kids, p.moves(side), d, side, improved);
        lemma_leaves_below_of_permutation(kids, p.moves(side), d, side.opponent());
        assert(kids.take(0) =~= Seq::<Position>::empty());
        lemma_scan_sound(kids, 0, d, alpha, beta, alpha, beta, pv, side, improved, worst(side), 0);
    }
}

/// Whether the best value `best` found for the first moves, which have the
/// true best value `exact`, fits a search that began with the window
/// `alpha` to `beta`: it is no better than the truth claims, and it is the
/// truth once it lies inside the window.
pub open spec fn on_track_so_far(side: Side, best: int, exact: int, alpha: int, beta: int) -> bool {
    match side {
        Side::White => exact <= best && (best > alpha ==> exact == best),
        Side::Black => exact >= best && (best < beta ==> exact == best),
    }
}

/// Going through the moves is sound: see `lemma_alpha_beta_sound`. Here
/// `alpha0` to `beta0` is the window that the position was given, and `alpha`
/// to `beta` what the moves before the `i`-th have left of it.
proof fn lemma_scan_sound(
    kids: Seq<Position>,
    i: int,
    depth: nat,
    alpha0: int,
    beta0: int,
    alpha: int,
    beta: int,
    pv: Option<Position>,
    side: Side,
    improved: bool,
    best: int,
    evals: nat,
)
    requires
        0 <= i <= kids.len(),
        i32::MIN <= alpha0 < beta0 <= i32::MAX,
        alpha < beta,
        alpha == raised(side, alpha0, best),
        beta == lowered(side, beta0, best),
        on_track_so_far(side, best, best_value(kids.take(i), depth, side, improved), alpha0, beta0),
        evals <= leaves_below(kids.take(i), depth, side.opponent()),
    ensures
        fail_soft(
            scan(kids, i, depth, alpha, beta, pv, side, improved, best, evals).0,
            best_value(kids, depth, side, improved),
            alpha0,
            beta0,
        ),
        scan(kids, i, depth, alpha, beta, pv, side, improved, best, evals).1 <= leaves_below(
            kids,
            depth,
            side.opponent(),
        ),
    decreases depth, kids.len() - i + 1,
{
    if i >= kids.len() {
        assert(kids.take(i) =~= kids);
    } else {
        let hint = hint_for(i, pv);
        lemma_alpha_beta_sound(kids[i], depth, alpha, beta, hint, side.opponent(), improved);
        let reply = alpha_beta(kids[i], depth, alpha, beta, hint, side.opponent(), improved);
        let exact_reply = reply_value(kids[i], depth, side, improved);
        let found = better(side, best, reply.0);
        let low = raised(side, alpha, found);
        let high = lowered(side, beta, found);
        let done = kids.take(i);
        let next = kids.take(i + 1);
        assert(next.drop_last() =~= done);
        assert(next.last() == kids[i]);
        lemma_best_value_bounds(done, depth, side, improved);
        lemma_minimax_bounds(kids[i], depth, side.opponent(), improved);
        if low >= high {
            lemma_best_value_is_best(kids, depth, side, improved);
            assert(at_least_as_good(
                side,
                best_value(kids, depth, side, improved),
                reply_value(kids[i], depth, side, improved),
            ));
            lemma_leaves_below_grows(kids, i + 1, depth, side.opponent());
        } else {
            lemma_scan_sound(
                kids,
                i + 1,
                depth,
                alpha0,
                beta0,
                low,
                high,
                pv,
                side,
                improved,
                found,
                evals + reply.1,
            );
        }
    }
}

/// The leaves below the first moves are among the leaves below all of them.
pub proof fn lemma_leaves_below_grows(kids: Seq<Position>, i: int, depth: nat, side: Side)
    requires
        0 <= i <= kids.len(),
    ensures
        leaves_below(kids.take(i), depth, side) <= leaves_below(kids, depth, side),
    decreases kids.len() - i,
{
    if i == kids.len() {
        assert(kids.take(i) =~= kids);
    } else {
        lemma_leaves_below_grows(kids, i + 1, depth, side);
        assert(kids.take(i + 1).drop_last() =~= kids.take(i));
    }
}

/// The number of leaves below some moves without one of them.
proof fn lemma_leaves_below_remove(kids: Seq<Position>, i: int, depth: nat, side: Side)
    requires
        0 <= i < kids.len(),
    ensures
        leaves_below(kids, depth, side) == leaves_below(kids.remove(i), depth, side) + leaves(
            kids[i],
            depth,
            side,
        ),
    decreases kids.len(),
{
    if i == kids.len() - 1 {
        assert(kids.remove(i) =~= kids.drop_last());
    } else {
        lemma_leaves_below_remove(kids.drop_last(), i, depth, side);
        assert(kids.remove(i).drop_last() =~= kids.drop_last().remove(i));
        assert(kids.remove(i).last() == kids.last());
    }
}

/// The number of leaves below some moves does not depend on their order.
pub proof fn lemma_leaves_below_of_permutation(
    a: Seq<Position>,
    b: Seq<Position>,
    depth: nat,
    side: Side,
)
    requires
        a.to_multiset() == b.to_multiset(),
    ensures
        leaves_below(a, depth, side) == leaves_below(b, depth, side),
    decreases a.len(),
{
    broadcast use vstd::seq_lib::to_multiset_contains;

    vstd::seq_lib::to_multiset_len(a);
    vstd::seq_lib::to_multiset_len(b);

    assert(a.len() == b.len());
    if a.len() > 0 {
        let x = a.last();
        assert(a.contains(x));
        assert(a.to_multiset().count(x) > 0);
        assert(b.contains(x));
        let k = choose|k: int| 0 <= k < b.len() && b[k] == x;
        vstd::seq_lib::to_multiset_remove(b, k);
        vstd::seq_lib::to_multiset_remove(a, a.len() - 1);
        assert(a.remove(a.len() - 1) =~= a.drop_last());
        lemma_leaves_below_of_permutation(a.drop_last(), b.remove(k), depth, side);
        lemma_leaves_below_remove(b, k, depth, side);
    }
}

/// With the widest window, alpha-beta search returns the minimax value,
/// whatever the hint.
pub proof fn lemma_alpha_beta_is_minimax(
    p: Position,
    depth: nat,
    pv: Option<Position>,
    side: Side,
    improved: bool,
)
    ensures
        alpha_beta(p, depth, i32::MIN as int, i32::MAX as int, pv, side, improved).0 == minimax(
            p,
            depth,
            side,
            improved,
        ),
{
    lemma_alpha_beta_sound(p, depth, i32::MIN as int, i32::MAX as int, pv, side, improved);
    lemma_minimax_bounds(p, depth, side, improved);
    lemma_alpha_beta_bounds(p, depth, i32::MIN as int, i32::MAX as int, pv, side, improved);
}

/// Every value that alpha-beta search returns fits in an `i32`.
pub proof fn lemma_alpha_beta_bounds(
    p: Position,
    depth: nat,
    alpha: int,
    beta: int,
    pv: Option<Position>,
    side: Side,
    improved: bool,
)
    ensures
        i32::MIN <= alpha_beta(p, depth, alpha, beta, pv, side, improved).0 <= i32::MAX,
    decreases depth, 0nat,
{
    if !is_leaf(p, depth) {
        lemma_scan_bounds(
            p.ordered_moves(side, pv),
            0,
            (depth - 1) as nat,
            alpha,
            beta,
            pv,
            side,
            improved,
            worst(side),
            0,
        );
    }
}

proof fn lemma_scan_bounds(
    kids: Seq<Position>,
    i: int,
    depth: nat,
    alpha: int,
    beta: int,
    pv: Option<Position>,
    side: Side,
    improved: bool,
    best: int,
    evals: nat,
)
    requires
        i32::MIN <= best <= i32::MAX,
    ensures
        i32::MIN <= scan(kids, i, depth, alpha, beta, pv, side, improved, best, evals).0
            <= i32::MAX,
    decreases depth, kids.len() - i + 1,
{
    if 0 <= i < kids.len() {
        lemma_alpha_beta_bounds(kids[i], depth, alpha, beta, hint_for(i, pv), side.opponent(), improved);
        let reply = alpha_beta(kids[i], depth, alpha, beta, hint_for(i, pv), side.opponent(), improved);
        let found = better(side, best, reply.0);
        let low = raised(side, alpha, found);
        let high = lowered(side, beta, found);
        if low < high {
            lemma_scan_bounds(kids, i + 1, depth, low, high, pv, side, improved, found, evals + reply.1);
        }
    }
}

} // verus!
