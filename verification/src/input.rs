use vstd::prelude::*;
use crate::position::Position;

verus! {

/// The byte of the digit 0.
pub const ZERO: u8 = 48;

/// The byte of the plus sign.
pub const PLUS: u8 = 43;

/// Whether a byte is a decimal digit.
pub open spec fn is_digit(b: u8) -> bool {
    ZERO <= b <= ZERO + 9
}

/// Whether all bytes of a text are decimal digits.
pub open spec fn all_digits(s: Seq<u8>) -> bool {
    forall|i: int| 0 <= i < s.len() ==> is_digit(#[trigger] s[i])
}

/// The number that a text of decimal digits writes.
pub open spec fn number(s: Seq<u8>) -> nat
    decreases s.len(),
{
    if s.len() == 0 {
        0
    } else {
        number(s.drop_last()) * 10 + (s.last() - ZERO) as nat
    }
}

/// The starting position that a token describes: four digits, the squares
/// of white's two pawns and of black's two pawns. Any other token describes
/// none.
pub open spec fn board_of(token: Seq<u8>) -> Option<Position> {
    if token.len() == 4 && all_digits(token) {
        Some(
            Position {
                w1: (token[0] - ZERO) as u8,
                w2: (token[1] - ZERO) as u8,
                b1: (token[2] - ZERO) as u8,
                b2: (token[3] - ZERO) as u8,
                moves_played: 0,
            },
        )
    } else {
        None
    }
}

/// A text without the zeros that it begins with.
pub open spec fn without_leading_zeros(s: Seq<u8>) -> Seq<u8>
    decreases s.len(),
{
    if s.len() > 0 && s[0] == ZERO {
        without_leading_zeros(s.drop_first())
    } else {
        s
    }
}

/// A text without the plus sign that it may begin with.
pub open spec fn without_sign(s: Seq<u8>) -> Seq<u8> {
    if s.len() > 0 && s[0] == PLUS {
        s.drop_first()
    } else {
        s
    }
}

/// The search depth that a token describes: after any leading zeros and one
/// optional plus sign, at least one digit and only digits, which write a
/// number of at most 255. Any other token describes none; so does a token
/// of zeros only.
pub open spec fn depth_of(token: Seq<u8>) -> Option<u8> {
    let body = without_sign(without_leading_zeros(token));
    if body.len() > 0 && all_digits(body) && number(body) <= u8::MAX {
        Some(number(body) as u8)
    } else {
        None
    }
}

/// A longer text of digits writes no smaller number than its beginning.
proof fn lemma_number_grows(s: Seq<u8>, k: int)
    requires
        0 <= k <= s.len(),
        all_digits(s),
    ensures
        number(s.take(k)) <= number(s),
    decreases s.len() - k,
{
    if k == s.len() {
        assert(s.take(k) =~= s);
    } else {
        lemma_number_grows(s, k + 1);
        assert(s.take(k + 1).drop_last() =~= s.take(k));
        assert(is_digit(s[k]));
    }
}

/// Reads the token of a starting position.
pub fn parse_board(token: &[u8]) -> (board: Option<Position>)
    ensures
        board == board_of(token@),
{
    if token.len() != 4 {
        return None;
    }
    let mut squares: [u8; 4] = [0, 0, 0, 0];
    let mut i: usize = 0;
    while i < 4
        invariant
            i <= 4,
            token@.len() == 4,
            forall|j: int| 0 <= j < i ==> is_digit(#[trigger] token@[j]),
            forall|j: int| 0 <= j < i ==> squares@[j] == token@[j] - ZERO,
        decreases 4 - i,
    {
        let b = token[i];
        if b < ZERO || b > ZERO + 9 {
            return None;
        }
        squares[i] = b - ZERO;
        i = i + 1;
    }
    Some(Position::new(squares[0], squares[1], squares[2], squares[3]))
}

/// Reads the token of a search depth.
pub fn parse_depth(token: &[u8]) -> (depth: Option<u8>)
    ensures
        depth == depth_of(token@),
{
    let n = token.len();
    let mut i: usize = 0;
    assert(token@.skip(0) =~= token@);
    while i < n && token[i] == ZERO
        invariant
            i <= n,
            n == token@.len(),
            without_leading_zeros(token@) == without_leading_zeros(token@.skip(i as int)),
        decreases n - i,
    {
        assert(token@.skip(i as int).drop_first() =~= token@.skip(i + 1));
        i = i + 1;
    }
    if i < n && token[i] == PLUS {
        i = i + 1;
    }
    let ghost body = token@.skip(i as int);
    assert(body =~= without_sign(without_leading_zeros(token@))) by {
        let trimmed = without_leading_zeros(token@);
        if trimmed.len() > 0 && trimmed[0] == PLUS {
            assert(trimmed.drop_first() =~= body);
        }
    }
    if i == n {
        return None;
    }
    let start = i;
    let mut value: u16 = 0;
    while i < n
        invariant
            start <= i <= n,
            n == token@.len(),
            body == token@.skip(start as int),
            body == without_sign(without_leading_zeros(token@)),
            all_digits(body.take(i - start)),
            value == number(body.take(i - start)),
            value <= u8::MAX,
        decreases n - i,
    {
        let b = token[i];
        if b < ZERO || b > ZERO + 9 {
            assert(!is_digit(body[i - start]));
            return None;
        }
        proof {
            assert(body.take(i + 1 - start).drop_last() =~= body.take(i - start));
            assert(body.take(i + 1 - start).last() == b);
        }
        value = value * 10 + (b - ZERO) as u16;
        if value > 255 {
            proof {
                if all_digits(body) {
                    lemma_number_grows(body, i + 1 - start);
                }
            }
            return None;
        }
        i = i + 1;
    }
    assert(body.take(n - start) =~= body);
    Some(value as u8)
}

} // verus!
