//! Whole numbers as decimal text, and columns of text.

use vstd::prelude::*;

use crate::chars::chars_of;

verus! {

/// The digit of a number below ten.
pub open spec fn digit(n: int) -> char {
    ((n + 48) as u8) as char
}

/// The decimal digits of `n`, without leading zeros.
pub open spec fn decimal(n: nat) -> Seq<char>
    decreases n,
{
    if n < 10 {
        seq![digit(n as int)]
    } else {
        decimal(n / 10).push(digit((n % 10) as int))
    }
}

/// What a run of digits is worth.
pub open spec fn worth(digits: Seq<char>) -> int
    decreases digits.len(),
{
    if digits.len() == 0 {
        0
    } else {
        worth(digits.drop_last()) * 10 + (digits.last() as int - 48)
    }
}

/// `n` times the character `c`.
pub open spec fn run_of(c: char, n: nat) -> Seq<char> {
    Seq::new(n, |i: int| c)
}

/// How many characters are missing to a width.
pub open spec fn missing(text: Seq<char>, width: nat) -> nat {
    if text.len() < width {
        (width - text.len()) as nat
    } else {
        0
    }
}

/// The text with spaces behind it, up to a width.
pub open spec fn flush_left(text: Seq<char>, width: nat) -> Seq<char> {
    text + run_of(' ', missing(text, width))
}

/// The text with spaces before it, up to a width.
pub open spec fn flush_right(text: Seq<char>, width: nat) -> Seq<char> {
    run_of(' ', missing(text, width)) + text
}

/// `n` in decimal.
pub fn decimal_text(n: u64) -> (s: String)
    ensures
        s@ == decimal(n as nat),
    decreases n,
{
    let d: char = ((n % 10) as u8 + 48) as char;
    assert(d == digit((n % 10) as int));
    if n < 10 {
        let mut s: String = String::new();
        s.push(d);
        s
    } else {
        let mut s: String = decimal_text(n / 10);
        s.push(d);
        s
    }
}

/// `n` times `c`.
pub fn repeat(c: char, n: usize) -> (s: String)
    ensures
        s@ == run_of(c, n as nat),
{
    let mut s: String = String::new();
    let mut i: usize = 0;
    while i < n
        invariant
            i <= n,
            s@ == run_of(c, i as nat),
        decreases n - i,
    {
        s.push(c);
        assert(run_of(c, i as nat).push(c) == run_of(c, (i + 1) as nat));
        i += 1;
    }
    s
}

/// The text padded on the right to `width` characters.
pub fn pad_right(text: &str, width: usize) -> (s: String)
    ensures
        s@ == flush_left(text@, width as nat),
{
    let len: usize = chars_of(text).len();
    let gap: usize = if len < width {
        width - len
    } else {
        0
    };
    let mut s: String = text.to_owned();
    s.append(repeat(' ', gap).as_str());
    s
}

/// The text padded on the left to `width` characters.
pub fn pad_left(text: &str, width: usize) -> (s: String)
    ensures
        s@ == flush_right(text@, width as nat),
{
    let len: usize = chars_of(text).len();
    let gap: usize = if len < width {
        width - len
    } else {
        0
    };
    let mut s: String = repeat(' ', gap);
    s.append(text);
    s
}

/// The decimal digits of a number are worth that number.
pub proof fn law_decimal_is_worth_the_number(n: nat)
    ensures
        worth(decimal(n)) == n,
        decimal(n).len() > 0,
        n > 0 ==> decimal(n)[0] != '0',
    decreases n,
{
    reveal_with_fuel(worth, 2);
    let d = decimal(n);
    if n >= 10 {
        law_decimal_is_worth_the_number(n / 10);
        assert(d.drop_last() == decimal(n / 10));
        assert(d.last() == digit((n % 10) as int));
        assert(d[0] == decimal(n / 10)[0]);
    } else {
        assert(d.drop_last() == Seq::<char>::empty());
        assert(d.last() == digit(n as int));
    }
}

/// Padding reaches the width and cuts nothing off.
pub proof fn law_padding_reaches_the_width(text: Seq<char>, width: nat)
    ensures
        flush_left(text, width).len() == if text.len() < width {
            width
        } else {
            text.len()
        },
        flush_right(text, width).len() == flush_left(text, width).len(),
        flush_left(text, width).take(text.len() as int) == text,
        flush_right(text, width).skip(missing(text, width) as int) == text,
{
}

/// Decimal text is made of the ten digits.
pub proof fn law_decimal_is_digits(n: nat)
    ensures
        forall|i: int| 0 <= i < decimal(n).len() ==> '0' <= #[trigger] decimal(n)[i] <= '9',
        n < 10 ==> decimal(n).len() == 1,
        n >= 10 ==> decimal(n).len() == decimal(n / 10).len() + 1,
    decreases n,
{
    if n >= 10 {
        law_decimal_is_digits(n / 10);
        let d = decimal(n);
        assert(d == decimal(n / 10).push(digit((n % 10) as int)));
        assert forall|i: int| 0 <= i < d.len() implies '0' <= #[trigger] d[i] <= '9' by {
            if i < d.len() - 1 {
                assert(d[i] == decimal(n / 10)[i]);
            }
        }
    }
}

/// Padding is spaces and nothing else, on the one side or on the other.
pub proof fn law_padding_is_spaces(text: Seq<char>, width: nat, i: int)
    ensures
        text.len() <= i < flush_left(text, width).len() ==> flush_left(text, width)[i] == ' ',
        0 <= i < width - text.len() ==> flush_right(text, width)[i] == ' ',
        0 <= i < text.len() ==> flush_left(text, width)[i] == text[i],
        text.len() < width ==> flush_right(text, width) == flush_right(seq![], (width
            - text.len()) as nat) + text,
        text.len() >= width ==> flush_right(text, width) == text && flush_left(text, width)
            == text,
{
    assert(flush_right(text, width) =~= run_of(' ', missing(text, width)) + text);
    assert(flush_right(seq![], missing(text, width)) =~= run_of(' ', missing(text, width)));
    assert(text.len() >= width ==> flush_right(text, width) =~= text && flush_left(text, width)
        =~= text);
}

/// A run of a character is that character, as often as was asked for.
pub proof fn law_a_run_is_one_character(c: char, n: nat, i: int)
    ensures
        run_of(c, n).len() == n,
        0 <= i < n ==> run_of(c, n)[i] == c,
{
}

} // verus!
