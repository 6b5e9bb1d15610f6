use vstd::prelude::*;

verus! {

/// Whether `c` is one of the decimal digits `0` to `9`.
pub open spec fn is_digit(c: char) -> bool {
    '0' <= c <= '9'
}

/// The number that the decimal digit `c` stands for.
pub open spec fn digit_value(c: char) -> nat
    recommends
        is_digit(c),
{
    (c as u32 - '0' as u32) as nat
}

/// The character that a single decimal digit is written with.
pub open spec fn digit_char(digit: nat) -> char
    recommends
        digit <= 9,
{
    ('0' as u32 + digit as u32) as char
}

/// Whether every character of `text` is a decimal digit. The empty text
/// qualifies.
pub open spec fn all_digits(text: Seq<char>) -> bool {
    forall|i: int| 0 <= i < text.len() ==> is_digit(#[trigger] text[i])
}

/// A decimal digit, written out and read again, is the same digit.
pub proof fn lemma_digit_char(digit: nat)
    requires
        digit <= 9,
    ensures
        is_digit(digit_char(digit)),
        digit_value(digit_char(digit)) == digit,
{
}

/// Tells whether `c` is a decimal digit.
pub fn is_decimal_digit(c: char) -> (answer: bool)
    ensures
        answer == is_digit(c),
{
    '0' <= c && c <= '9'
}

/// Reads `c` as a decimal digit: its number where it is one, and nothing
/// otherwise.
pub fn parse_digit(c: char) -> (digit: Option<u32>)
    ensures
        is_digit(c) ==> digit == Some(digit_value(c) as u32),
        !is_digit(c) ==> digit is None,
        digit is Some ==> digit->0 <= 9,
{
    if is_decimal_digit(c) {
        Some(c as u32 - '0' as u32)
    } else {
        None
    }
}

/// Tells whether `text` is made of decimal digits alone.
pub fn is_all_digits(text: &str) -> (answer: bool)
    ensures
        answer == all_digits(text@),
{
    let mut answer = true;
    for c in it: text.chars()
        invariant
            it.seq() == text@,
            answer == all_digits(text@.take(it.index() as int)),
    {
        proof {
            let seen = text@.take(it.index() as int);
            let next = text@.take(it.index() + 1);
            assert(next == seen.push(c));
            assert(forall|i: int| 0 <= i < seen.len() ==> seen[i] == next[i]);
            assert(next[seen.len() as int] == c);
        }
        if !is_decimal_digit(c) {
            answer = false;
        }
    }
    proof {
        assert(text@.take(text@.len() as int) == text@);
    }
    answer
}

/// The text of one decimal digit.
pub fn digit_text(digit: u32) -> (text: &'static str)
    requires
        digit <= 9,
    ensures
        text@ == seq![digit_char(digit as nat)],
{
    proof {
        reveal_strlit("0");
        reveal_strlit("1");
        reveal_strlit("2");
        reveal_strlit("3");
        reveal_strlit("4");
        reveal_strlit("5");
        reveal_strlit("6");
        reveal_strlit("7");
        reveal_strlit("8");
        reveal_strlit("9");
    }
    let text = match digit {
        0 => "0",
        1 => "1",
        2 => "2",
        3 => "3",
        4 => "4",
        5 => "5",
        6 => "6",
        7 => "7",
        8 => "8",
        _ => "9",
    };
    assert(text@ =~= seq![digit_char(digit as nat)]);
    text
}

} // verus!
