use vstd::prelude::*;
use vstd::string::StringExecFns;
use crate::position::Position;

verus! {

/// The character of a decimal digit.
pub open spec fn digit_char(d: u8) -> char {
    ((48 + d) as u8) as char
}

/// The decimal numeral of a number, without leading zeros.
pub open spec fn decimal(n: u8) -> Seq<char> {
    if n < 10 {
        seq![digit_char(n)]
    } else if n < 100 {
        seq![digit_char(n / 10), digit_char(n % 10)]
    } else {
        seq![digit_char(n / 100), digit_char((n / 10) % 10), digit_char(n % 10)]
    }
}

/// The text of a position: the squares of white's two pawns and of black's
/// two pawns, in that order, as decimal numerals with one space between them.
pub open spec fn position_text(p: Position) -> Seq<char> {
    decimal(p.w1) + seq![' '] + decimal(p.w2) + seq![' '] + decimal(p.b1) + seq![' '] + decimal(
        p.b2,
    )
}

/// The numeral of one digit.
fn digit_str(d: u8) -> (s: &'static str)
    requires
        d < 10,
    ensures
        s@ == seq![digit_char(d)],
{
    proof {
        reveal_strlit("0");
        reveal_strlit("1");
        reveal_strlit("2");
        reveal_strlit("3");
        reveal_strlit("4");
        reveal_strlit("5");
        reveal_strlit("6");
        reveal_strlit("7");
        reveal_strlit("8");
        reveal_strlit("9");
    }
    let s = match d {
        0 => "0",
        1 => "1",
        2 => "2",
        3 => "3",
        4 => "4",
        5 => "5",
        6 => "6",
        7 => "7",
        8 => "8",
        _ => "9",
    };
    assert(s@ =~= seq![digit_char(d)]);
    s
}

/// Appends the decimal numeral of a number to a text.
fn push_decimal(text: &mut String, n: u8)
    ensures
        final(text)@ == old(text)@ + decimal(n),
{
    if n >= 100 {
        text.append(digit_str(n / 100));
    }
    if n >= 10 {
        text.append(digit_str((n / 10) % 10));
    }
    text.append(digit_str(n % 10));
    assert(text@ =~= old(text)@ + decimal(n));
}

impl Position {
    /// The position as text: the four squares, white's pawns first, with one
    /// space between them.
    pub fn to_text(&self) -> (text: String)
        ensures
            text@ == position_text(*self),
    {
        proof {
            reveal_strlit(" ");
        }
        let mut text = String::new();
        push_decimal(&mut text, self.w1);
        text.append(" ");
        push_decimal(&mut text, self.w2);
        text.append(" ");
        push_decimal(&mut text, self.b1);
        text.append(" ");
        push_decimal(&mut text, self.b2);
        assert(text@ =~= position_text(*self));
        text
    }
}

} // verus!
