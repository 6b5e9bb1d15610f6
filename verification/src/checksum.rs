use crate::digits::{digit_value, is_digit};
use crate::tokenizer::FILLER;
use vstd::prelude::*;

verus! {

/// The value of a character in a check digit computation: a digit counts as
/// itself, a letter of either case as 10 plus its place in the alphabet
/// (`A` is 10, `Z` is 35), and every other character, the filler among them,
/// as 0.
pub open spec fn char_value(c: char) -> nat {
    if is_digit(c) {
        digit_value(c)
    } else if 'A' <= c <= 'Z' {
        (c as u32 - 'A' as u32 + 10) as nat
    } else if 'a' <= c <= 'z' {
        (c as u32 - 'a' as u32 + 10) as nat
    } else {
        0
    }
}

/// The weight of the character at `position`, counted from 1: the weights
/// 7, 3, 1 repeat along the text.
pub open spec fn weight(position: int) -> nat {
    if position % 3 == 1 {
        7
    } else if position % 3 == 2 {
        3
    } else {
        1
    }
}

/// The sum over all characters of `text` of weight times value.
pub open spec fn weighted_sum(text: Seq<char>) -> nat
    decreases text.len(),
{
    if text.len() == 0 {
        0
    } else {
        weighted_sum(text.drop_last()) + weight(text.len() as int) * char_value(text.last())
    }
}

/// The check digit of `text`: its weighted sum modulo 10.
pub open spec fn check_digit(text: Seq<char>) -> nat {
    weighted_sum(text) % 10
}

/// Changing one character changes the weighted sum by that character's own
/// term and by nothing else.
pub proof fn lemma_weighted_sum_update(text: Seq<char>, index: int, c: char)
    requires
        0 <= index < text.len(),
    ensures
        weighted_sum(text.update(index, c)) + weight(index + 1) * char_value(text[index])
            == weighted_sum(text) + weight(index + 1) * char_value(c),
    decreases text.len(),
{
    let changed = text.update(index, c);
    if index == text.len() - 1 {
        assert(changed.drop_last() == text.drop_last());
    } else {
        lemma_weighted_sum_update(text.drop_last(), index, c);
        assert(changed.drop_last() == text.drop_last().update(index, c));
    }
}

/// A filler adds nothing to the weighted sum, wherever it stands: with a
/// filler in place of a character, the sum is the old sum less that
/// character's term.
pub proof fn lemma_filler_adds_nothing(text: Seq<char>, index: int)
    requires
        0 <= index < text.len(),
    ensures
        char_value(FILLER) == 0,
        weighted_sum(text.update(index, FILLER)) == weighted_sum(text) - weight(index + 1)
            * char_value(text[index]),
        char_value(text[index]) == 0 ==> check_digit(text.update(index, FILLER)) == check_digit(
            text,
        ),
{
    lemma_weighted_sum_update(text, index, FILLER);
    assert(weight(index + 1) * char_value(FILLER) == 0);
    if char_value(text[index]) == 0 {
        assert(weight(index + 1) * char_value(text[index]) == 0);
    }
}

/// Fillers that pad a text on the right leave its check digit as it is.
pub proof fn lemma_filler_padding(text: Seq<char>, fillers: Seq<char>)
    requires
        forall|i: int| 0 <= i < fillers.len() ==> fillers[i] == FILLER,
    ensures
        weighted_sum(text + fillers) == weighted_sum(text),
        check_digit(text + fillers) == check_digit(text),
    decreases fillers.len(),
{
    if fillers.len() == 0 {
        assert(text + fillers == text);
    } else {
        lemma_filler_padding(text, fillers.drop_last());
        assert((text + fillers).drop_last() == text + fillers.drop_last());
        assert(weight((text + fillers).len() as int) * char_value(FILLER) == 0);
    }
}

/// The value of one character, as `char_value` defines it.
pub fn value_of(c: char) -> (value: u32)
    ensures
        value == char_value(c),
        value <= 35,
{
    if '0' <= c && c <= '9' {
        c as u32 - '0' as u32
    } else if 'A' <= c && c <= 'Z' {
        c as u32 - 'A' as u32 + 10
    } else if 'a' <= c && c <= 'z' {
        c as u32 - 'a' as u32 + 10
    } else {
        0
    }
}

/// The term of one character, weight by weight.
proof fn lemma_term(position: int, c: char)
    ensures
        position % 3 == 1 ==> weight(position) * char_value(c) == 7 * char_value(c),
        position % 3 == 2 ==> weight(position) * char_value(c) == 3 * char_value(c),
        position % 3 == 0 ==> weight(position) * char_value(c) == char_value(c),
{
}

/// Computes the check digit of `data` by the 7-3-1 rule. The result depends on
/// the characters of `data` alone.
pub fn compute_checksum(data: &str) -> (digit: u32)
    ensures
        digit == check_digit(data@),
        digit <= 9,
{
    let mut sum: u32 = 0;
    let mut phase: u32 = 1;
    for c in it: data.chars()
        invariant
            it.seq() == data@,
            sum == weighted_sum(data@.take(it.index() as int)) % 10,
            phase == (it.index() + 1) % 3,
    {
        let value = value_of(c);
        let term: u32 = if phase == 1 {
            7 * value
        } else if phase == 2 {
            3 * value
        } else {
            value
        };
        proof {
            let seen = data@.take(it.index() as int);
            let next = data@.take(it.index() + 1);
            assert(next.drop_last() == seen);
            assert(next.last() == c);
            lemma_term(next.len() as int, c);
            assert(weighted_sum(next) == weighted_sum(seen) + term);
        }
        sum = (sum + term) % 10;
        phase = (phase + 1) % 3;
    }
    proof {
        assert(data@.take(data@.len() as int) == data@);
    }
    sum
}

} // verus!
