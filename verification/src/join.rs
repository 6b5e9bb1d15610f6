use vstd::prelude::*;

verus! {

/// The texts of `parts` in order, with `separator` between each two
/// neighbours: nothing before the first and nothing after the last.
pub open spec fn joined(parts: Seq<Seq<char>>, separator: Seq<char>) -> Seq<char>
    decreases parts.len(),
{
    if parts.len() == 0 {
        Seq::empty()
    } else if parts.len() == 1 {
        parts[0]
    } else {
        joined(parts.drop_last(), separator) + separator + parts.last()
    }
}

/// A further text is joined on behind the separator.
pub proof fn lemma_joined_push(parts: Seq<Seq<char>>, part: Seq<char>, separator: Seq<char>)
    requires
        parts.len() >= 1,
    ensures
        joined(parts.push(part), separator) == joined(parts, separator) + separator + part,
{
    assert(parts.push(part).drop_last() == parts);
}

/// Joining two runs of texts one after the other is joining each and putting
/// the separator between the two.
pub proof fn lemma_joined_concat(front: Seq<Seq<char>>, back: Seq<Seq<char>>, separator: Seq<char>)
    requires
        front.len() >= 1,
        back.len() >= 1,
    ensures
        joined(front + back, separator) == joined(front, separator) + separator + joined(
            back,
            separator,
        ),
    decreases back.len(),
{
    if back.len() == 1 {
        assert(front + back == front.push(back[0]));
        lemma_joined_push(front, back[0], separator);
    } else {
        let shorter = back.drop_last();
        lemma_joined_concat(front, shorter, separator);
        assert((front + back).drop_last() == front + shorter);
        assert((front + back).last() == back.last());
        assert(joined(front, separator) + separator + joined(shorter, separator) + separator
            + back.last() == joined(front, separator) + separator + (joined(shorter, separator)
            + separator + back.last()));
    }
}

} // verus!
