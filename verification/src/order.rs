use vstd::prelude::*;
use crate::move_list::{
    list_get, list_insert, list_items, list_len, list_new, list_push, list_remove, MoveList,
    MOVE_LIST_CAPACITY,
};
use crate::moves::Side;
use crate::position::Position;

verus! {

/// The number of moves up to which a list is left unsorted.
pub const UNSORTED_UP_TO: usize = 2;

/// Whether `a` may stand before `b` in a sorted list: the higher static score
/// first where the score is to be made large, the lower one first where it
/// is to be made small.
pub open spec fn goes_before(a: Position, b: Position, is_max: bool) -> bool {
    if is_max {
        a.static_score() >= b.static_score()
    } else {
        a.static_score() <= b.static_score()
    }
}

/// A sorted list with one more position: it goes behind the last position
/// that may stand before it.
pub open spec fn insert_sorted(s: Seq<Position>, p: Position, is_max: bool) -> Seq<Position>
    decreases s.len(),
{
    if s.len() == 0 {
        seq![p]
    } else if goes_before(s.last(), p, is_max) {
        s.push(p)
    } else {
        insert_sorted(s.drop_last(), p, is_max).push(s.last())
    }
}

/// The positions sorted by static score, best first. Positions of equal
/// score keep their order.
pub open spec fn sorted(s: Seq<Position>, is_max: bool) -> Seq<Position>
    decreases s.len(),
{
    if s.len() == 0 {
        s
    } else {
        insert_sorted(sorted(s.drop_last(), is_max), s.last(), is_max)
    }
}

/// Whether each position of a list may stand before all that follow it.
pub open spec fn is_sorted(s: Seq<Position>, is_max: bool) -> bool {
    forall|i: int, j: int| 0 <= i < j < s.len() ==> goes_before(s[i], s[j], is_max)
}

/// Whether the hint is one of the moves.
pub open spec fn hint_applies(kids: Seq<Position>, pv: Option<Position>) -> bool {
    pv matches Some(p) && kids.contains(p)
}

/// The moves with the hinted move, if it is among them, moved to the front.
/// The others keep their order.
pub open spec fn hint_first(kids: Seq<Position>, pv: Option<Position>) -> Seq<Position> {
    if hint_applies(kids, pv) {
        let p = pv.unwrap();
        seq![p] + kids.remove(kids.index_of_first(p).unwrap())
    } else {
        kids
    }
}

/// The order in which a search visits moves: the hinted move first, if it is
/// among them; then, if there are more than two moves in all, the others
/// sorted by static score, and else the others as they came.
pub open spec fn ordered(kids: Seq<Position>, is_max: bool, pv: Option<Position>) -> Seq<
    Position,
> {
    let placed = hint_first(kids, pv);
    if placed.len() <= UNSORTED_UP_TO {
        placed
    } else if hint_applies(kids, pv) {
        seq![placed[0]] + sorted(placed.drop_first(), is_max)
    } else {
        sorted(placed, is_max)
    }
}

/// Inserting at the place behind the last position that may stand before the
/// new one is the sorted insertion.
proof fn lemma_insert_sorted_at(s: Seq<Position>, p: Position, is_max: bool, j: int)
    requires
        0 <= j <= s.len(),
        j > 0 ==> goes_before(s[j - 1], p, is_max),
        forall|k: int| j <= k < s.len() ==> !goes_before(#[trigger] s[k], p, is_max),
    ensures
        insert_sorted(s, p, is_max) == s.insert(j, p),
    decreases s.len() - j,
{
    if s.len() == 0 {
        assert(s.insert(j, p) =~= seq![p]);
    } else if j == s.len() {
        assert(s.insert(j, p) =~= s.push(p));
    } else {
        assert(!goes_before(s[s.len() - 1], p, is_max));
        let t = s.drop_last();
        assert forall|k: int| j <= k < t.len() implies !goes_before(#[trigger] t[k], p, is_max) by {
            assert(t[k] == s[k]);
        }
        lemma_insert_sorted_at(t, p, is_max, j);
        assert(t.insert(j, p).push(s.last()) =~= s.insert(j, p));
    }
}

/// A sorted insertion keeps the positions and adds the new one.
pub proof fn lemma_insert_sorted_permutes(s: Seq<Position>, p: Position, is_max: bool)
    ensures
        insert_sorted(s, p, is_max).to_multiset() == s.to_multiset().insert(p),
        insert_sorted(s, p, is_max).len() == s.len() + 1,
    decreases s.len(),
{
    broadcast use vstd::seq_lib::to_multiset_build;

    if s.len() == 0 {
        assert(seq![p] =~= s.push(p));
    } else if goes_before(s.last(), p, is_max) {
    } else {
        lemma_insert_sorted_permutes(s.drop_last(), p, is_max);
        assert(s.drop_last().push(s.last()) =~= s);
        assert(s.drop_last().to_multiset().insert(p).insert(s.last()) =~= s.drop_last().to_multiset().insert(
            s.last(),
        ).insert(p));
    }
}

/// Sorting permutes: the sorted list holds each position as often as the
/// list that was sorted.
pub proof fn lemma_sorted_permutes(s: Seq<Position>, is_max: bool)
    ensures
        sorted(s, is_max).to_multiset() == s.to_multiset(),
        sorted(s, is_max).len() == s.len(),
    decreases s.len(),
{
    broadcast use vstd::seq_lib::to_multiset_build;

    if s.len() > 0 {
        lemma_sorted_permutes(s.drop_last(), is_max);
        lemma_insert_sorted_permutes(sorted(s.drop_last(), is_max), s.last(), is_max);
        assert(s.drop_last().push(s.last()) =~= s);
    }
}

/// A sorted insertion into a sorted list gives a sorted list.
pub proof fn lemma_insert_sorted_is_sorted(s: Seq<Position>, p: Position, is_max: bool)
    requires
        is_sorted(s, is_max),
    ensures
        is_sorted(insert_sorted(s, p, is_max), is_max),
    decreases s.len(),
{
    if s.len() == 0 {
    } else if goes_before(s.last(), p, is_max) {
        let r = s.push(p);
        assert forall|i: int, j: int| 0 <= i < j < r.len() implies goes_before(
            r[i],
            r[j],
            is_max,
        ) by {
            if j == s.len() && i < s.len() - 1 {
                assert(goes_before(s[i], s[s.len() - 1], is_max));
            }
        }
    } else {
        let t = s.drop_last();
        assert(is_sorted(t, is_max)) by {
            assert forall|i: int, j: int| 0 <= i < j < t.len() implies goes_before(
                t[i],
                t[j],
                is_max,
            ) by {
                assert(goes_before(s[i], s[j], is_max));
            }
        }
        lemma_insert_sorted_is_sorted(t, p, is_max);
        lemma_insert_sorted_permutes(t, p, is_max);
        let u = insert_sorted(t, p, is_max);
        let r = u.push(s.last());
        assert forall|i: int, j: int| 0 <= i < j < r.len() implies goes_before(
            r[i],
            r[j],
            is_max,
        ) by {
            if j == u.len() {
                // u[i] is p or a position of t, and both may stand before s.last()
                broadcast use vstd::seq_lib::to_multiset_contains;

                assert(u.contains(u[i]));
                assert(u.to_multiset().count(u[i]) > 0);
                if u[i] != p {
                    assert(t.to_multiset().count(u[i]) > 0);
                    assert(t.contains(u[i]));
                    let k = choose|k: int| 0 <= k < t.len() && t[k] == u[i];
                    assert(goes_before(s[k], s[s.len() - 1], is_max));
                }
            } else {
                assert(goes_before(u[i], u[j], is_max));
            }
        }
    }
}

/// The sorted list is sorted.
pub proof fn lemma_sorted_is_sorted(s: Seq<Position>, is_max: bool)
    ensures
        is_sorted(sorted(s, is_max), is_max),
    decreases s.len(),
{
    if s.len() > 0 {
        lemma_sorted_is_sorted(s.drop_last(), is_max);
        lemma_insert_sorted_is_sorted(sorted(s.drop_last(), is_max), s.last(), is_max);
    }
}

/// The positions of a given static score.
pub open spec fn scoring(k: int) -> spec_fn(Position) -> bool {
    |p: Position| p.static_score() == k
}

/// A sorted insertion puts the new position behind those of its own score
/// and leaves the order of all others as it is.
pub proof fn lemma_insert_sorted_is_stable(s: Seq<Position>, p: Position, is_max: bool, k: int)
    ensures
        insert_sorted(s, p, is_max).filter(scoring(k)) == if p.static_score() == k {
            s.filter(scoring(k)).push(p)
        } else {
            s.filter(scoring(k))
        },
    decreases s.len(),
{
    let f = scoring(k);
    if s.len() == 0 {
        assert(seq![p] =~= s.push(p));
        s.lemma_filter_push(p, f);
    } else if goes_before(s.last(), p, is_max) {
        s.lemma_filter_push(p, f);
    } else {
        let front = s.drop_last();
        let placed = insert_sorted(front, p, is_max);
        lemma_insert_sorted_is_stable(front, p, is_max, k);
        placed.lemma_filter_push(s.last(), f);
        front.lemma_filter_push(s.last(), f);
        assert(front.push(s.last()) =~= s);
    }
}

/// Sorting is stable: the positions of any one static score stand in the
/// sorted list in the order in which they stood before.
pub proof fn lemma_sorted_is_stable(s: Seq<Position>, is_max: bool, k: int)
    ensures
        sorted(s, is_max).filter(scoring(k)) == s.filter(scoring(k)),
    decreases s.len(),
{
    if s.len() > 0 {
        let front = s.drop_last();
        lemma_sorted_is_stable(front, is_max, k);
        lemma_insert_sorted_is_stable(sorted(front, is_max), s.last(), is_max, k);
        front.lemma_filter_push(s.last(), scoring(k));
        assert(front.push(s.last()) =~= s);
    }
}

/// Moving the hinted move to the front permutes the moves.
pub proof fn lemma_hint_first_permutes(kids: Seq<Position>, pv: Option<Position>)
    ensures
        hint_first(kids, pv).to_multiset() == kids.to_multiset(),
        hint_first(kids, pv).len() == kids.len(),
        hint_applies(kids, pv) ==> hint_first(kids, pv)[0] == pv.unwrap(),
{
    if hint_applies(kids, pv) {
        let p = pv.unwrap();
        kids.index_of_first_ensures(p);
        let i = kids.index_of_first(p).unwrap();
        let rest = kids.remove(i);
        vstd::seq_lib::to_multiset_remove(kids, i);
        vstd::seq_lib::to_multiset_insert(rest, 0, p);
        assert(rest.insert(0, p) =~= seq![p] + rest);
        assert(kids.to_multiset().remove(p).insert(p) =~= kids.to_multiset()) by {
            broadcast use vstd::seq_lib::to_multiset_contains;

            assert(kids.to_multiset().count(p) > 0);
        }
    }
}

/// Ordering permutes: the ordered list holds each move as often as the list
/// that was ordered, and so it is as long.
pub proof fn lemma_ordered_permutes(kids: Seq<Position>, is_max: bool, pv: Option<Position>)
    ensures
        ordered(kids, is_max, pv).to_multiset() == kids.to_multiset(),
        ordered(kids, is_max, pv).len() == kids.len(),
{
    lemma_hint_first_permutes(kids, pv);
    let placed = hint_first(kids, pv);
    if placed.len() <= UNSORTED_UP_TO {
    } else if hint_applies(kids, pv) {
        let tail = placed.drop_first();
        lemma_sorted_permutes(tail, is_max);
        vstd::seq_lib::to_multiset_insert(sorted(tail, is_max), 0, placed[0]);
        vstd::seq_lib::to_multiset_insert(tail, 0, placed[0]);
        assert(sorted(tail, is_max).insert(0, placed[0]) =~= seq![placed[0]] + sorted(
            tail,
            is_max,
        ));
        assert(tail.insert(0, placed[0]) =~= placed);
    } else {
        lemma_sorted_permutes(placed, is_max);
    }
}

/// The hinted move comes first whenever it is one of the moves.
pub proof fn lemma_ordered_hint_first(kids: Seq<Position>, is_max: bool, pv: Option<Position>)
    requires
        hint_applies(kids, pv),
    ensures
        ordered(kids, is_max, pv).len() > 0,
        ordered(kids, is_max, pv)[0] == pv.unwrap(),
{
    lemma_hint_first_permutes(kids, pv);
}

/// Whether `a` may stand before `b` in a sorted list.
fn before(a: &Position, b: &Position, is_max: bool) -> (r: bool)
    ensures
        r == goes_before(*a, *b, is_max),
{
    if is_max {
        a.static_eval() >= b.static_eval()
    } else {
        a.static_eval() <= b.static_eval()
    }
}

/// The index of the first move that equals `p`, if there is one.
fn find_move(kids: &MoveList, p: Position) -> (found: Option<usize>)
    ensures
        found is Some <==> list_items(*kids).contains(p),
        list_items(*kids).len() <= MOVE_LIST_CAPACITY,
        found matches Some(i) ==> i < list_items(*kids).len() && list_items(*kids).index_of_first(
            p,
        ) == Some(i as int),
{
    let n = list_len(kids);
    let mut i: usize = 0;
    while i < n
        invariant
            i <= n,
            n == list_items(*kids).len(),
            n <= MOVE_LIST_CAPACITY,
            forall|j: int| 0 <= j < i ==> list_items(*kids)[j] != p,
        decreases n - i,
    {
        if list_get(kids, i) == p {
            proof {
                list_items(*kids).index_of_first_ensures(p);
            }
            return Some(i);
        }
        i = i + 1;
    }
    None
}

/// The moves from index `start` on, sorted by static score, best first.
/// Moves of equal score keep their order.
pub fn sort_moves(kids: &MoveList, start: usize, is_max: bool) -> (out: MoveList)
    requires
        start <= list_items(*kids).len(),
    ensures
        list_items(out) == sorted(list_items(*kids).skip(start as int), is_max),
{
    let n = list_len(kids);
    let mut out = list_new();
    let mut i: usize = start;
    while i < n
        invariant
            start <= i <= n,
            n == list_items(*kids).len(),
            n <= MOVE_LIST_CAPACITY,
            list_items(out) == sorted(list_items(*kids).subrange(start as int, i as int), is_max),
        decreases n - i,
    {
        let p = list_get(kids, i);
        let ghost done = list_items(*kids).subrange(start as int, i as int);
        proof {
            lemma_sorted_permutes(done, is_max);
        }
        let mut j: usize = list_len(&out);
        while j > 0 && !before(&list_get(&out, j - 1), &p, is_max)
            invariant
                j <= list_items(out).len(),
                forall|k: int|
                    j <= k < list_items(out).len() ==> !goes_before(
                        #[trigger] list_items(out)[k],
                        p,
                        is_max,
                    ),
            decreases j,
        {
            j = j - 1;
        }
        proof {
            lemma_insert_sorted_at(list_items(out), p, is_max, j as int);
            assert(list_items(*kids).subrange(start as int, i + 1).drop_last() =~= done);
        }
        list_insert(&mut out, j, p);
        i = i + 1;
    }
    assert(list_items(*kids).subrange(start as int, n as int) =~= list_items(*kids).skip(
        start as int,
    ));
    out
}

/// Puts moves in the order in which a search visits them: the hinted move
/// first, if it is among them; then, if there are more than two moves in
/// all, the others sorted by static score, best first for the side to move.
pub fn order_moves(kids: MoveList, is_max: bool, pv_move: Option<Position>) -> (out: MoveList)
    ensures
        list_items(out) == ordered(list_items(kids), is_max, pv_move),
{
    let mut kids = kids;
    let ghost given = list_items(kids);
    let mut placed = false;
    if let Some(pv) = pv_move {
        if let Some(idx) = find_move(&kids, pv) {
            let m = list_remove(&mut kids, idx);
            list_insert(&mut kids, 0, m);
            placed = true;
            proof {
                given.index_of_first_ensures(pv);
            }
            assert(list_items(kids) =~= hint_first(given, pv_move));
        }
    }
    assert(placed == hint_applies(given, pv_move));
    assert(list_items(kids) == hint_first(given, pv_move));
    if list_len(&kids) <= UNSORTED_UP_TO {
        return kids;
    }
    if placed {
        let tail = sort_moves(&kids, 1, is_max);
        let mut out = list_new();
        list_push(&mut out, list_get(&kids, 0));
        let n = list_len(&tail);
        proof {
            lemma_sorted_permutes(list_items(kids).skip(1), is_max);
        }
        let mut i: usize = 0;
        while i < n
            invariant
                i <= n,
                n == list_items(tail).len(),
                n + 1 <= MOVE_LIST_CAPACITY,
                list_items(kids).len() > 0,
                list_items(out) == seq![list_items(kids)[0]] + list_items(tail).take(i as int),
            decreases n - i,
        {
            list_push(&mut out, list_get(&tail, i));
            assert(list_items(tail).take(i + 1) =~= list_items(tail).take(i as int).push(
                list_items(tail)[i as int],
            ));
            i = i + 1;
        }
        assert(list_items(tail).take(n as int) =~= list_items(tail));
        assert(list_items(kids).skip(1) =~= list_items(kids).drop_first());
        out
    } else {
        let out = sort_moves(&kids, 0, is_max);
        assert(list_items(kids).skip(0) =~= list_items(kids));
        out
    }
}

impl Position {
    /// The moves of a side in the order in which a search visits them.
    pub open spec fn ordered_moves(self, side: Side, pv: Option<Position>) -> Seq<Position> {
        ordered(self.moves(side), side == Side::White, pv)
    }

    /// The moves of white (`is_max`) or of black, in the order in which a
    /// search visits them.
    pub fn ordered_children(&self, is_max: bool, pv_move: Option<Position>) -> (kids: MoveList)
        requires
            self.moves_played < u8::MAX,
        ensures
            list_items(kids) == self.ordered_moves(
                if is_max {
                    Side::White
                } else {
                    Side::Black
                },
                pv_move,
            ),
    {
        let kids = if is_max {
            Position::white_children(self)
        } else {
            Position::black_children(self)
        };
        order_moves(kids, is_max, pv_move)
    }
}

} // verus!
