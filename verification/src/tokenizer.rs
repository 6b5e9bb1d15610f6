use crate::join::{joined, lemma_joined_push};
use vstd::prelude::*;

verus! {

/// The filler character of a machine-readable zone. It pads fields to their
/// width and separates the tokens of the zone.
pub const FILLER: char = '<';

/// The parts of `text` between the occurrences of `separator`, read from left
/// to right: every separator closes the current part and opens a new, empty
/// one; every other character extends the current part. An empty text is one
/// empty part, and two separators in a row enclose an empty part.
pub open spec fn split(text: Seq<char>, separator: char) -> Seq<Seq<char>>
    decreases text.len(),
{
    if text.len() == 0 {
        seq![Seq::empty()]
    } else {
        let before = split(text.drop_last(), separator);
        if text.last() == separator {
            before.push(Seq::empty())
        } else {
            before.update(before.len() - 1, before.last().push(text.last()))
        }
    }
}

/// The tokens of a machine-readable zone: its parts between the fillers.
pub open spec fn tokens_of(text: Seq<char>) -> Seq<Seq<char>> {
    split(text, FILLER)
}

/// How often `c` occurs in `text`.
pub open spec fn occurrences(text: Seq<char>, c: char) -> nat
    decreases text.len(),
{
    if text.len() == 0 {
        0
    } else if text.last() == c {
        occurrences(text.drop_last(), c) + 1
    } else {
        occurrences(text.drop_last(), c)
    }
}

/// Whether `c` occurs nowhere in `text`.
pub open spec fn free_of(text: Seq<char>, c: char) -> bool {
    forall|i: int| 0 <= i < text.len() ==> #[trigger] text[i] != c
}

/// Whether `c` occurs in none of `parts`.
pub open spec fn all_free_of(parts: Seq<Seq<char>>, c: char) -> bool {
    forall|i: int| 0 <= i < parts.len() ==> free_of(#[trigger] parts[i], c)
}

/// A text has one part more than it has separators: at least one.
pub proof fn lemma_split_len(text: Seq<char>, separator: char)
    ensures
        split(text, separator).len() == occurrences(text, separator) + 1,
    decreases text.len(),
{
    if text.len() > 0 {
        lemma_split_len(text.drop_last(), separator);
    }
}

/// No part holds the separator.
pub proof fn lemma_split_parts_free(text: Seq<char>, separator: char)
    ensures
        all_free_of(split(text, separator), separator),
    decreases text.len(),
{
    if text.len() > 0 {
        lemma_split_parts_free(text.drop_last(), separator);
        lemma_split_len(text.drop_last(), separator);
    }
}

/// Nothing is lost in splitting: the parts, joined by the separator, are the
/// text again.
pub proof fn lemma_join_of_split(text: Seq<char>, separator: char)
    ensures
        joined(split(text, separator), seq![separator]) == text,
    decreases text.len(),
{
    if text.len() > 0 {
        let shorter = text.drop_last();
        let before = split(shorter, separator);
        lemma_join_of_split(shorter, separator);
        lemma_split_len(shorter, separator);
        assert(shorter.push(text.last()) == text);
        if text.last() == separator {
            lemma_joined_push(before, Seq::empty(), seq![separator]);
            assert(shorter + seq![separator] + Seq::<char>::empty() == text);
        } else {
            let after = before.update(before.len() - 1, before.last().push(text.last()));
            if before.len() == 1 {
                assert(before[0] == shorter);
            } else {
                assert(after.drop_last() == before.drop_last());
                let head = joined(before.drop_last(), seq![separator]);
                assert(head + seq![separator] + before.last().push(text.last()) == (head
                    + seq![separator] + before.last()).push(text.last()));
            }
        }
    }
}

/// A text without separator, put behind another text, extends that text's
/// last part.
pub proof fn lemma_split_extended(text: Seq<char>, tail: Seq<char>, separator: char)
    requires
        free_of(tail, separator),
    ensures
        split(text + tail, separator).len() == split(text, separator).len(),
        split(text + tail, separator) == split(text, separator).update(
            split(text, separator).len() - 1,
            split(text, separator).last() + tail,
        ),
    decreases tail.len(),
{
    let parts = split(text, separator);
    lemma_split_len(text, separator);
    if tail.len() == 0 {
        assert(text + tail == text);
        assert(parts.last() + tail == parts.last());
        assert(parts.update(parts.len() - 1, parts.last()) == parts);
    } else {
        let shorter = tail.drop_last();
        lemma_split_extended(text, shorter, separator);
        assert((text + tail).drop_last() == text + shorter);
        assert((text + tail).last() == tail.last());
        assert((parts.last() + shorter).push(tail.last()) == parts.last() + tail);
        let middle = parts.update(parts.len() - 1, parts.last() + shorter);
        assert(middle.update(middle.len() - 1, middle.last().push(tail.last())) == parts.update(
            parts.len() - 1,
            parts.last() + tail,
        ));
    }
}

/// A separator between two texts keeps their parts apart: the parts of the
/// whole are the parts of the first text and then those of the second.
pub proof fn lemma_split_around(left: Seq<char>, right: Seq<char>, separator: char)
    ensures
        split(left + seq![separator] + right, separator) == split(left, separator) + split(
            right,
            separator,
        ),
    decreases right.len(),
{
    let head = left + seq![separator];
    let first = split(left, separator);
    if right.len() == 0 {
        assert(head + right == head);
        assert(head.drop_last() == left);
        assert(first.push(Seq::empty()) == first + seq![Seq::<char>::empty()]);
    } else {
        let shorter = right.drop_last();
        let second = split(shorter, separator);
        lemma_split_around(left, shorter, separator);
        lemma_split_len(shorter, separator);
        assert((head + right).drop_last() == head + shorter);
        assert((head + right).last() == right.last());
        if right.last() == separator {
            assert((first + second).push(Seq::empty()) == first + second.push(Seq::empty()));
        } else {
            let longer = second.last().push(right.last());
            assert((first + second).last() == second.last());
            assert((first + second).update((first + second).len() - 1, longer) == first
                + second.update(second.len() - 1, longer));
        }
    }
}

/// A text without separator, put before another text, extends that text's
/// first part.
pub proof fn lemma_split_prefixed(prefix: Seq<char>, text: Seq<char>, separator: char)
    requires
        free_of(prefix, separator),
    ensures
        split(prefix + text, separator) == split(text, separator).update(
            0,
            prefix + split(text, separator)[0],
        ),
    decreases text.len(),
{
    let parts = split(text, separator);
    if text.len() == 0 {
        lemma_split_extended(Seq::empty(), prefix, separator);
        assert(Seq::<char>::empty() + prefix == prefix);
        assert(prefix + text == prefix);
        assert(prefix + Seq::<char>::empty() == prefix);
        assert(seq![Seq::<char>::empty()].update(0, prefix) == parts.update(0, prefix));
    } else {
        let shorter = text.drop_last();
        let before = split(shorter, separator);
        lemma_split_prefixed(prefix, shorter, separator);
        lemma_split_len(shorter, separator);
        assert((prefix + text).drop_last() == prefix + shorter);
        assert((prefix + text).last() == text.last());
        let changed = before.update(0, prefix + before[0]);
        if text.last() == separator {
            assert(changed.push(Seq::empty()) == before.push(Seq::empty()).update(
                0,
                prefix + before[0],
            ));
        } else {
            if before.len() == 1 {
                assert((prefix + before[0]).push(text.last()) == prefix + before[0].push(
                    text.last(),
                ));
            }
            assert(changed.update(changed.len() - 1, changed.last().push(text.last()))
                == parts.update(0, prefix + parts[0]));
        }
    }
}

/// Splitting undoes joining: parts that hold no separator, joined by it and
/// split again, are the same parts in the same order.
pub proof fn lemma_split_of_join(parts: Seq<Seq<char>>, separator: char)
    requires
        parts.len() >= 1,
        all_free_of(parts, separator),
    ensures
        split(joined(parts, seq![separator]), separator) == parts,
    decreases parts.len(),
{
    let last = parts.last();
    assert(free_of(last, separator));
    if parts.len() == 1 {
        lemma_split_extended(Seq::empty(), last, separator);
        assert(Seq::<char>::empty() + last == last);
        assert(seq![Seq::<char>::empty()].update(0, Seq::<char>::empty() + last) == parts);
    } else {
        let front = parts.drop_last();
        assert(all_free_of(front, separator)) by {
            assert(forall|i: int| 0 <= i < front.len() ==> front[i] == parts[i]);
        }
        lemma_split_of_join(front, separator);
        let head = joined(front, seq![separator]) + seq![separator];
        assert(head.drop_last() == joined(front, seq![separator]));
        assert(split(head, separator) == front.push(Seq::empty()));
        lemma_split_extended(head, last, separator);
        assert(front.push(Seq::empty()).update(front.len() as int, Seq::<char>::empty() + last)
            == parts);
    }
}

/// Splits `mrz` on every filler. Empty tokens are kept, and nothing is trimmed
/// or folded.
pub fn tokenize<'a>(mrz: &'a str) -> (parts: Vec<&'a str>)
    ensures
        parts.deep_view() == tokens_of(mrz@),
{
    let n: usize = mrz.unicode_len();
    let mut parts: Vec<&'a str> = Vec::new();
    let mut start: usize = 0;
    let mut i: usize = 0;
    proof {
        assert(mrz@.take(0) == Seq::<char>::empty());
        assert(mrz@.subrange(0, 0) == Seq::<char>::empty());
        assert(parts.deep_view().push(Seq::<char>::empty()) == seq![Seq::<char>::empty()]);
    }
    for c in it: mrz.chars()
        invariant
            it.seq() == mrz@,
            n == mrz@.len(),
            i == it.index(),
            start <= i <= n,
            tokens_of(mrz@.take(i as int)) == parts.deep_view().push(
                mrz@.subrange(start as int, i as int),
            ),
    {
        proof {
            lemma_split_len(mrz@.take(i as int), FILLER);
            assert(mrz@.take(i + 1).drop_last() == mrz@.take(i as int));
            assert(mrz@.subrange(start as int, i as int).push(c) == mrz@.subrange(
                start as int,
                i + 1,
            ));
        }
        if c == FILLER {
            let token = mrz.substring_char(start, i);
            let ghost before = parts.deep_view();
            parts.push(token);
            start = i + 1;
            assert(parts.deep_view() == before.push(token@));
            assert(mrz@.subrange(start as int, i + 1) == Seq::<char>::empty());
        }
        i = i + 1;
    }
    let token = mrz.substring_char(start, n);
    let ghost before = parts.deep_view();
    parts.push(token);
    assert(parts.deep_view() == before.push(token@));
    assert(mrz@.take(n as int) == mrz@);
    parts
}

} // verus!
