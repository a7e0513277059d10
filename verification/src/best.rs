use vstd::prelude::*;
use crate::alphabeta::{
    alpha_beta, at_least_as_good, lemma_alpha_beta_is_minimax, reply_value, search_ab,
};
use crate::counter::{lemma_counter_bounded, lemma_tally_adds, tally, EvalCounter};
use crate::move_list::{list_get, list_items, list_len};
use crate::moves::{lemma_moves_count, Side};
use crate::position::Position;
use crate::search::{leaves_below, reply_depth, search};

verus! {

/// Whether `a` is better for `side` than `b`.
pub open spec fn strictly_better(side: Side, a: int, b: int) -> bool {
    match side {
        Side::White => a > b,
        Side::Black => a < b,
    }
}

/// The index of the move that a side chooses when the replies are searched
/// `depth` plies deep: the first of those whose value is best for it. There
/// is none where there is no move.
pub open spec fn choice(kids: Seq<Position>, depth: nat, side: Side, improved: bool) -> Option<
    int,
>
    decreases kids.len(),
{
    if kids.len() == 0 {
        None
    } else {
        match choice(kids.drop_last(), depth, side, improved) {
            None => Some(kids.len() - 1),
            Some(i) => if strictly_better(
                side,
                reply_value(kids.last(), depth, side, improved),
                reply_value(kids[i], depth, side, improved),
            ) {
                Some(kids.len() - 1)
            } else {
                Some(i)
            },
        }
    }
}

/// The move that a side chooses, with its value.
pub open spec fn chosen_move(kids: Seq<Position>, depth: nat, side: Side, improved: bool) -> Option<
    (Position, int),
> {
    match choice(kids, depth, side, improved) {
        Some(i) => Some((kids[i], reply_value(kids[i], depth, side, improved))),
        None => None,
    }
}

/// Whether a search result is the chosen move with its value.
pub open spec fn is_chosen(
    best: Option<(Position, i32)>,
    kids: Seq<Position>,
    depth: nat,
    side: Side,
    improved: bool,
) -> bool {
    match best {
        Some((m, s)) => chosen_move(kids, depth, side, improved) == Some((m, s as int)),
        None => chosen_move(kids, depth, side, improved) is None,
    }
}

/// The hint that the searches of a round of iterative deepening get: none
/// in the first round, and then the move chosen in the round before, in
/// which the replies were searched one ply less deep.
pub open spec fn hint_of_round(kids: Seq<Position>, round: nat, side: Side, improved: bool) -> Option<
    Position,
> {
    if round == 0 {
        None
    } else {
        match choice(kids, (round - 1) as nat, side, improved) {
            Some(i) => Some(kids[i]),
            None => None,
        }
    }
}

/// The number of leaves that alpha-beta searches with the widest window
/// evaluate below the positions `kids`, each searched `depth` plies deep with
/// `hint`.
pub open spec fn round_evals(
    kids: Seq<Position>,
    depth: nat,
    hint: Option<Position>,
    side: Side,
    improved: bool,
) -> nat
    decreases kids.len(),
{
    if kids.len() == 0 {
        0
    } else {
        round_evals(kids.drop_last(), depth, hint, side, improved) + alpha_beta(
            kids.last(),
            depth,
            i32::MIN as int,
            i32::MAX as int,
            hint,
            side.opponent(),
            improved,
        ).1
    }
}

/// The number of leaves that iterative deepening evaluates in its first
/// `rounds` rounds. In round `r`, counted from 0, the replies are searched
/// `r` plies deep.
pub open spec fn deepening_evals(kids: Seq<Position>, rounds: nat, side: Side, improved: bool) -> nat
    decreases rounds,
{
    if rounds == 0 {
        0
    } else {
        let r = (rounds - 1) as nat;
        deepening_evals(kids, r, side, improved) + round_evals(
            kids,
            r,
            hint_of_round(kids, r, side, improved),
            side,
            improved,
        )
    }
}

/// Whether a side can move at all.
pub fn has_move(pos: &Position, side: Side) -> (can: bool)
    requires
        pos.moves_played < u8::MAX,
    ensures
        can == (pos.moves(side).len() > 0),
{
    let kids = pos.children(side);
    list_len(&kids) > 0
}

/// The better of a new candidate and the best so far: the new one only if
/// its score is strictly better, so that the first of equals is kept.
fn keep_best(best: Option<(Position, i32)>, child: Position, score: i32, side: Side) -> (kept: Option<
    (Position, i32),
>)
    ensures
        kept == (match best {
            None => Some((child, score)),
            Some((m, s)) => if strictly_better(side, score as int, s as int) {
                Some((child, score))
            } else {
                best
            },
        }),
{
    match best {
        None => Some((child, score)),
        Some((m, s)) => {
            let wins = match side {
                Side::White => score > s,
                Side::Black => score < s,
            };
            if wins {
                Some((child, score))
            } else {
                best
            }
        },
    }
}

/// Plain best-move search: each move of `side` is valued by a plain search of
/// the replies, one ply less deep than `depth`, and the first of the moves
/// with the best value is returned with that value. There is no result where
/// the side has no move.
pub fn best_move(pos: &Position, depth: u8, side: Side, improved: bool, counter: &mut EvalCounter) -> (best:
    Option<(Position, i32)>)
    requires
        pos.moves_played < u8::MAX,
        pos.moves_played + depth <= u8::MAX,
    ensures
        is_chosen(best, pos.moves(side), reply_depth(depth), side, improved),
        best is None <==> pos.moves(side).len() == 0,
        final(counter)@ == tally(
            old(counter)@,
            leaves_below(pos.moves(side), reply_depth(depth), side.opponent()),
        ),
{
    let kids = pos.children(side);
    let n = list_len(&kids);
    let d: u8 = depth.saturating_sub(1);
    let replier = side.other();
    let mut best: Option<(Position, i32)> = None;
    let mut i: usize = 0;
    proof {
        lemma_moves_count(*pos, side);
        lemma_counter_bounded(*old(counter));
        lemma_tally_adds(old(counter)@, 0, 0);
    }
    while i < n
        invariant
            i <= n,
            n == list_items(kids).len(),
            d == reply_depth(depth),
            pos.moves_played + 1 + d <= u8::MAX,
            replier == side.opponent(),
            old(counter)@ <= usize::MAX,
            forall|j: int|
                0 <= j < n ==> (#[trigger] list_items(kids)[j]).moves_played == pos.moves_played
                    + 1,
            is_chosen(best, list_items(kids).take(i as int), d as nat, side, improved),
            counter@ == tally(
                old(counter)@,
                leaves_below(list_items(kids).take(i as int), d as nat, replier),
            ),
        decreases n - i,
    {
        let child = list_get(&kids, i);
        let score = search(&child, d, replier, improved, counter);
        proof {
            let done = list_items(kids).take(i as int);
            let next = list_items(kids).take(i + 1);
            assert(next.drop_last() =~= done);
            assert(next.last() == child);
            lemma_choice_in_range(done, d as nat, side, improved);
            lemma_tally_adds(
                old(counter)@,
                leaves_below(done, d as nat, replier),
                crate::search::leaves(child, d as nat, replier),
            );
        }
        best = keep_best(best, child, score, side);
        i = i + 1;
    }
    proof {
        assert(list_items(kids).take(n as int) =~= list_items(kids));
        lemma_choice_in_range(pos.moves(side), d as nat, side, improved);
    }
    best
}

/// Best-move search by iterative deepening. Round after round, the replies
/// are searched one ply deeper by alpha-beta search with the widest window,
/// each with the move chosen in the round before as its hint. The result is
/// that of the last round, in which the replies are searched one ply less
/// deep than `max_depth`: the move that the plain search chooses, with the
/// same value. There is no result where the side has no move or `max_depth`
/// is 0.
pub fn best_move_ab(pos: &Position, max_depth: u8, side: Side, improved: bool, counter: &mut EvalCounter) -> (best:
    Option<(Position, i32)>)
    requires
        pos.moves_played + max_depth <= u8::MAX,
    ensures
        max_depth > 0 ==> is_chosen(best, pos.moves(side), reply_depth(max_depth), side, improved),
        best is None <==> max_depth == 0 || pos.moves(side).len() == 0,
        final(counter)@ == tally(
            old(counter)@,
            deepening_evals(pos.moves(side), max_depth as nat, side, improved),
        ),
{
    let mut best: Option<(Position, i32)> = None;
    proof {
        lemma_counter_bounded(*old(counter));
        lemma_tally_adds(old(counter)@, 0, 0);
    }
    if max_depth == 0 {
        return best;
    }
    let kids = pos.children(side);
    let n = list_len(&kids);
    let replier = side.other();
    let mut round: u8 = 0;
    proof {
        lemma_moves_count(*pos, side);
    }
    while round < max_depth
        invariant
            round <= max_depth,
            n == list_items(kids).len(),
            list_items(kids) == pos.moves(side),
            pos.moves_played + max_depth <= u8::MAX,
            replier == side.opponent(),
            old(counter)@ <= usize::MAX,
            forall|j: int|
                0 <= j < n ==> (#[trigger] list_items(kids)[j]).moves_played == pos.moves_played
                    + 1,
            round > 0 ==> is_chosen(best, list_items(kids), (round - 1) as nat, side, improved),
            round == 0 ==> best is None,
            counter@ == tally(
                old(counter)@,
                deepening_evals(list_items(kids), round as nat, side, improved),
            ),
        decreases max_depth - round,
    {
        let hint: Option<Position> = match best {
            Some((m, _)) => Some(m),
            None => None,
        };
        let ghost before = deepening_evals(list_items(kids), round as nat, side, improved);
        let mut found: Option<(Position, i32)> = None;
        let mut i: usize = 0;
        while i < n
            invariant
                i <= n,
                round < max_depth,
                n == list_items(kids).len(),
                pos.moves_played + max_depth <= u8::MAX,
                replier == side.opponent(),
                old(counter)@ <= usize::MAX,
                forall|j: int|
                    0 <= j < n ==> (#[trigger] list_items(kids)[j]).moves_played
                        == pos.moves_played + 1,
                is_chosen(found, list_items(kids).take(i as int), round as nat, side, improved),
                counter@ == tally(
                    old(counter)@,
                    before + round_evals(
                        list_items(kids).take(i as int),
                        round as nat,
                        hint,
                        side,
                        improved,
                    ),
                ),
            decreases n - i,
        {
            let child = list_get(&kids, i);
            let score = search_ab(
                &child,
                round,
                i32::MIN,
                i32::MAX,
                1,
                hint,
                replier,
                improved,
                counter,
            );
            proof {
                let done = list_items(kids).take(i as int);
                let next = list_items(kids).take(i + 1);
                assert(next.drop_last() =~= done);
                assert(next.last() == child);
                lemma_choice_in_range(done, round as nat, side, improved);
                lemma_alpha_beta_is_minimax(child, round as nat, hint, replier, improved);
                lemma_tally_adds(
                    old(counter)@,
                    before + round_evals(done, round as nat, hint, side, improved),
                    alpha_beta(
                        child,
                        round as nat,
                        i32::MIN as int,
                        i32::MAX as int,
                        hint,
                        replier,
                        improved,
                    ).1,
                );
            }
            found = keep_best(found, child, score, side);
            i = i + 1;
        }
        proof {
            assert(list_items(kids).take(n as int) =~= list_items(kids));
            if round > 0 {
                lemma_choice_in_range(list_items(kids), (round - 1) as nat, side, improved);
            }
            assert(hint == hint_of_round(list_items(kids), round as nat, side, improved));
        }
        best = found;
        round = round + 1;
    }
    proof {
        lemma_choice_in_range(pos.moves(side), reply_depth(max_depth), side, improved);
    }
    best
}

/// The chosen move is one of the moves, and there is one whenever there is a
/// move.
pub proof fn lemma_choice_in_range(kids: Seq<Position>, depth: nat, side: Side, improved: bool)
    ensures
        choice(kids, depth, side, improved) matches Some(i) ==> 0 <= i < kids.len(),
        choice(kids, depth, side, improved) is None <==> kids.len() == 0,
    decreases kids.len(),
{
    if kids.len() > 0 {
        lemma_choice_in_range(kids.drop_last(), depth, side, improved);
    }
}

/// The chosen move is the first of the best: no move has a better value for
/// the side, and every move before it has a worse one.
pub proof fn lemma_choice_is_first_best(kids: Seq<Position>, depth: nat, side: Side, improved: bool)
    requires
        kids.len() > 0,
    ensures
        choice(kids, depth, side, improved) matches Some(i) && 0 <= i < kids.len() && (forall|
            j: int,
        |
            0 <= j < kids.len() ==> at_least_as_good(
                side,
                reply_value(kids[i], depth, side, improved),
                #[trigger] reply_value(kids[j], depth, side, improved),
            )) && (forall|j: int|
            0 <= j < i ==> strictly_better(
                side,
                reply_value(kids[i], depth, side, improved),
                #[trigger] reply_value(kids[j], depth, side, improved),
            )),
    decreases kids.len(),
{
    let front = kids.drop_last();
    lemma_choice_in_range(front, depth, side, improved);
    if front.len() > 0 {
        lemma_choice_is_first_best(front, depth, side, improved);
        let i0 = choice(front, depth, side, improved).unwrap();
        let i = choice(kids, depth, side, improved).unwrap();
        assert forall|j: int| 0 <= j < kids.len() implies at_least_as_good(
            side,
            reply_value(kids[i], depth, side, improved),
            #[trigger] reply_value(kids[j], depth, side, improved),
        ) by {
            if j < front.len() {
                assert(front[j] == kids[j]);
                assert(at_least_as_good(
                    side,
                    reply_value(front[i0], depth, side, improved),
                    reply_value(front[j], depth, side, improved),
                ));
            }
        }
        assert forall|j: int| 0 <= j < i implies strictly_better(
            side,
            reply_value(kids[i], depth, side, improved),
            #[trigger] reply_value(kids[j], depth, side, improved),
        ) by {
            assert(front[j] == kids[j]);
            if j < i0 {
                assert(strictly_better(
                    side,
                    reply_value(front[i0], depth, side, improved),
                    reply_value(front[j], depth, side, improved),
                ));
            } else {
                assert(at_least_as_good(
                    side,
                    reply_value(front[i0], depth, side, improved),
                    reply_value(front[j], depth, side, improved),
                ));
            }
        }
    }
}

impl Position {
    /// The move that white chooses by plain search with the basic evaluation,
    /// and its value.
    pub fn best_white_move(pos: &Position, depth: u8, counter: &mut EvalCounter) -> (best: Option<
        (Position, i32),
    >)
        requires
            pos.moves_played < u8::MAX,
            pos.moves_played + depth <= u8::MAX,
        ensures
            is_chosen(best, pos.moves(Side::White), reply_depth(depth), Side::White, false),
            best is None <==> pos.moves(Side::White).len() == 0,
            final(counter)@ == tally(
                old(counter)@,
                leaves_below(pos.moves(Side::White), reply_depth(depth), Side::White.opponent()),
            ),
    {
        best_move(pos, depth, Side::White, false, counter)
    }

    /// The move that white chooses by plain search with the improved evaluation,
    /// and its value.
    pub fn best_white_move_improved(pos: &Position, depth: u8, counter: &mut EvalCounter) -> (best: Option<
        (Position, i32),
    >)
        requires
            pos.moves_played < u8::MAX,
            pos.moves_played + depth <= u8::MAX,
        ensures
            is_chosen(best, pos.moves(Side::White), reply_depth(depth), Side::White, true),
            best is None <==> pos.moves(Side::White).len() == 0,
            final(counter)@ == tally(
                old(counter)@,
                leaves_below(pos.moves(Side::White), reply_depth(depth), Side::White.opponent()),
            ),
    {
        best_move(pos, depth, Side::White, true, counter)
    }

    /// The move that white chooses by iterative deepening with the basic
    /// evaluation, and its value: those that the plain search gives.
    pub fn best_white_move_ab(pos: &Position, max_depth: u8, counter: &mut EvalCounter) -> (best: Option<
        (Position, i32),
    >)
        requires
            pos.moves_played + max_depth <= u8::MAX,
        ensures
            max_depth > 0 ==> is_chosen(
                best,
                pos.moves(Side::White),
                reply_depth(max_depth),
                Side::White,
                false,
            ),
            best is None <==> max_depth == 0 || pos.moves(Side::White).len() == 0,
            final(counter)@ == tally(
                old(counter)@,
                deepening_evals(pos.moves(Side::White), max_depth as nat, Side::White, false),
            ),
    {
        best_move_ab(pos, max_depth, Side::White, false, counter)
    }

    /// The move that white chooses by iterative deepening with the improved
    /// evaluation, and its value: those that the plain search gives.
    pub fn best_white_move_ab_improved(pos: &Position, max_depth: u8, counter: &mut EvalCounter) -> (best: Option<
        (Position, i32),
    >)
        requires
            pos.moves_played + max_depth <= u8::MAX,
        ensures
            max_depth > 0 ==> is_chosen(
                best,
                pos.moves(Side::White),
                reply_depth(max_depth),
                Side::White,
                true,
            ),
            best is None <==> max_depth == 0 || pos.moves(Side::White).len() == 0,
            final(counter)@ == tally(
                old(counter)@,
                deepening_evals(pos.moves(Side::White), max_depth as nat, Side::White, true),
            ),
    {
        best_move_ab(pos, max_depth, Side::White, true, counter)
    }

    /// The move that black chooses by plain search with the basic evaluation,
    /// and its value.
    pub fn best_black_move(pos: &Position, depth: u8, counter: &mut EvalCounter) -> (best: Option<
        (Position, i32),
    >)
        requires
            pos.moves_played < u8::MAX,
            pos.moves_played + depth <= u8::MAX,
        ensures
            is_chosen(best, pos.moves(Side::Black), reply_depth(depth), Side::Black, false),
            best is None <==> pos.moves(Side::Black).len() == 0,
            final(counter)@ == tally(
                old(counter)@,
                leaves_below(pos.moves(Side::Black), reply_depth(depth), Side::Black.opponent()),
            ),
    {
        best_move(pos, depth, Side::Black, false, counter)
    }

    /// The move that black chooses by plain search with the improved evaluation,
    /// and its value.
    pub fn best_black_move_improved(pos: &Position, depth: u8, counter: &mut EvalCounter) -> (best: Option<
        (Position, i32),
    >)
        requires
            pos.moves_played < u8::MAX,
            pos.moves_played + depth <= u8::MAX,
        ensures
            is_chosen(best, pos.moves(Side::Black), reply_depth(depth), Side::Black, true),
            best is None <==> pos.moves(Side::Black).len() == 0,
            final(counter)@ == tally(
                old(counter)@,
                leaves_below(pos.moves(Side::Black), reply_depth(depth), Side::Black.opponent()),
            ),
    {
        best_move(pos, depth, Side::Black, true, counter)
    }

    /// The move that black chooses by iterative deepening with the basic
    /// evaluation, and its value: those that the plain search gives.
    pub fn best_black_move_ab(pos: &Position, max_depth: u8, counter: &mut EvalCounter) -> (best: Option<
        (Position, i32),
    >)
        requires
            pos.moves_played + max_depth <= u8::MAX,
        ensures
            max_depth > 0 ==> is_chosen(
                best,
                pos.moves(Side::Black),
                reply_depth(max_depth),
                Side::Black,
                false,
            ),
            best is None <==> max_depth == 0 || pos.moves(Side::Black).len() == 0,
            final(counter)@ == tally(
                old(counter)@,
                deepening_evals(pos.moves(Side::Black), max_depth as nat, Side::Black, false),
            ),
    {
        best_move_ab(pos, max_depth, Side::Black, false, counter)
    }

    /// The move that black chooses by iterative deepening with the improved
    /// evaluation, and its value: those that the plain search gives.
    pub fn best_black_move_ab_improved(pos: &Position, max_depth: u8, counter: &mut EvalCounter) -> (best: Option<
        (Position, i32),
    >)
        requires
            pos.moves_played + max_depth <= u8::MAX,
        ensures
            max_depth > 0 ==> is_chosen(
                best,
                pos.moves(Side::Black),
                reply_depth(max_depth),
                Side::Black,
                true,
            ),
            best is None <==> max_depth == 0 || pos.moves(Side::Black).len() == 0,
            final(counter)@ == tally(
                old(counter)@,
                deepening_evals(pos.moves(Side::Black), max_depth as nat, Side::Black, true),
            ),
    {
        best_move_ab(pos, max_depth, Side::Black, true, counter)
    }
}

} // verus!
