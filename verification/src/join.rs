//! Joining texts with a separator between each two neighbours.

use vstd::prelude::*;
use vstd::string::*;
use crate::escape::push_char;

verus! {

/// The parts in order with one separator between each two neighbours: none in
/// front, none at the end, and the empty text for no parts.
pub open spec fn joined(parts: Seq<Seq<char>>, separator: char) -> Seq<char>
    decreases parts.len(),
{
    if parts.len() == 0 {
        Seq::empty()
    } else if parts.len() == 1 {
        parts[0]
    } else {
        joined(parts.drop_last(), separator).push(separator) + parts.last()
    }
}

/// The characters of each string of a sequence.
pub open spec fn texts(parts: Seq<String>) -> Seq<Seq<char>> {
    parts.map_values(|part: String| part@)
}

/// Joins `parts` with `separator`.
pub fn join(parts: &Vec<String>, separator: char) -> (out: String)
    ensures
        out@ == joined(texts(parts@), separator),
{
    let mut out = String::new();
    let mut i: usize = 0;
    while i < parts.len()
        invariant
            i <= parts.len(),
            out@ == joined(texts(parts@).take(i as int), separator),
        decreases parts.len() - i,
    {
        proof {
            let all = texts(parts@);
            assert(all.take(i + 1).drop_last() == all.take(i as int));
            assert(all.take(i + 1).last() == parts[i as int]@);
            if i == 0 {
                assert(all.take(1)[0] == parts[0]@);
            }
        }
        if i > 0 {
            push_char(&mut out, separator);
        }
        out.append(parts[i].as_str());
        i += 1;
    }
    proof {
        assert(texts(parts@).take(parts.len() as int) == texts(parts@));
    }
    out
}

/// How often `c` occurs in `text`.
pub open spec fn occurrences(text: Seq<char>, c: char) -> nat
    decreases text.len(),
{
    if text.len() == 0 {
        0
    } else {
        occurrences(text.drop_last(), c) + if text.last() == c {
            1nat
        } else {
            0nat
        }
    }
}

/// The occurrences in a text of two parts are those of the parts together.
pub proof fn lemma_occurrences_concat(a: Seq<char>, b: Seq<char>, c: char)
    ensures
        occurrences(a + b, c) == occurrences(a, c) + occurrences(b, c),
    decreases b.len(),
{
    if b.len() == 0 {
        assert(a + b == a);
    } else {
        lemma_occurrences_concat(a, b.drop_last(), c);
        assert((a + b).drop_last() == a + b.drop_last());
        assert((a + b).last() == b.last());
    }
}

/// A character that a text does not hold occurs in it zero times.
pub proof fn lemma_occurrences_absent(text: Seq<char>, c: char)
    requires
        !text.contains(c),
    ensures
        occurrences(text, c) == 0,
    decreases text.len(),
{
    if text.len() > 0 {
        assert(text[text.len() - 1] != c);
        assert forall|i: int| 0 <= i < text.drop_last().len() implies text.drop_last()[i]
            != c by {
            assert(text[i] == text.drop_last()[i]);
        }
        lemma_occurrences_absent(text.drop_last(), c);
    }
}

/// A text of one character holds that character once and no other.
pub proof fn lemma_occurrences_single(x: char, c: char)
    ensures
        occurrences(seq![x], c) == (if x == c {
            1nat
        } else {
            0nat
        }),
{
    assert(seq![x].drop_last() =~= Seq::<char>::empty());
    assert(occurrences(seq![x].drop_last(), c) == 0);
}

/// Where each of one or more parts holds `c` equally often, the joined text
/// holds it that often for each part, and once more for each separator where
/// `c` is the separator.
pub proof fn lemma_joined_count(parts: Seq<Seq<char>>, separator: char, c: char, each: nat)
    requires
        parts.len() >= 1,
        forall|k: int| 0 <= k < parts.len() ==> occurrences(#[trigger] parts[k], c) == each,
    ensures
        occurrences(joined(parts, separator), c) == each * parts.len() + (if c == separator {
            parts.len() - 1
        } else {
            0
        }),
    decreases parts.len(),
{
    if parts.len() == 1 {
        assert(each * 1 == each) by (nonlinear_arith);
    } else {
        let front = parts.drop_last();
        assert forall|k: int| 0 <= k < front.len() implies occurrences(
            #[trigger] front[k],
            c,
        ) == each by {
            assert(front[k] == parts[k]);
        }
        lemma_joined_count(front, separator, c, each);
        let head = joined(front, separator);
        assert(head.push(separator).drop_last() == head);
        lemma_occurrences_concat(head.push(separator), parts.last(), c);
        let n = parts.len() as int;
        assert(each * (n - 1) + each == each * n) by (nonlinear_arith);
        assert(front.len() == n - 1);
    }
}

/// Where no part holds the separator, the joined text of one or more parts
/// holds it exactly once less than there are parts.
pub proof fn lemma_joined_separators(parts: Seq<Seq<char>>, separator: char)
    requires
        parts.len() >= 1,
        forall|k: int| 0 <= k < parts.len() ==> !(#[trigger] parts[k]).contains(separator),
    ensures
        occurrences(joined(parts, separator), separator) == parts.len() - 1,
    decreases parts.len(),
{
    if parts.len() == 1 {
        lemma_occurrences_absent(parts[0], separator);
    } else {
        let front = parts.drop_last();
        assert forall|k: int| 0 <= k < front.len() implies !(#[trigger] front[k]).contains(
            separator,
        ) by {
            assert(front[k] == parts[k]);
        }
        lemma_joined_separators(front, separator);
        let head = joined(front, separator);
        assert(head.push(separator).drop_last() == head);
        lemma_occurrences_absent(parts.last(), separator);
        lemma_occurrences_concat(head.push(separator), parts.last(), separator);
    }
}

/// The joined text of one or more parts ends as its last part does, where
/// that part is not empty.
pub proof fn lemma_joined_ends_with_last(parts: Seq<Seq<char>>, separator: char)
    requires
        parts.len() >= 1,
        parts.last().len() > 0,
    ensures
        joined(parts, separator).len() > 0,
        joined(parts, separator).last() == parts.last().last(),
{
}

/// Whether `part` stands in `text` as one piece, character after character.
pub open spec fn has_part(text: Seq<char>, part: Seq<char>) -> bool {
    exists|before: Seq<char>, after: Seq<char>| text == #[trigger] (before + part + after)
}

/// A text holds itself as one piece.
pub proof fn lemma_has_part_whole(text: Seq<char>)
    ensures
        has_part(text, text),
{
    let e = Seq::<char>::empty();
    assert(text == e + text + e);
}

/// What stands in a text as one piece stands so in every text around it.
pub proof fn lemma_has_part_within(
    front: Seq<char>,
    text: Seq<char>,
    back: Seq<char>,
    part: Seq<char>,
)
    requires
        has_part(text, part),
    ensures
        has_part(front + text + back, part),
{
    let (before, after) = choose|before: Seq<char>, after: Seq<char>|
        text == #[trigger] (before + part + after);
    assert(front + text + back == (front + before) + part + (after + back));
}

/// Each part stands in the joined text as one piece.
pub proof fn lemma_joined_has_part(parts: Seq<Seq<char>>, separator: char, k: int)
    requires
        0 <= k < parts.len(),
    ensures
        has_part(joined(parts, separator), parts[k]),
    decreases parts.len(),
{
    let e = Seq::<char>::empty();
    if parts.len() == 1 {
        lemma_has_part_whole(parts[0]);
    } else if k == parts.len() - 1 {
        let head = joined(parts.drop_last(), separator).push(separator);
        assert(joined(parts, separator) == head + parts.last() + e);
    } else {
        let front = parts.drop_last();
        lemma_joined_has_part(front, separator, k);
        assert(front[k] == parts[k]);
        let rest = seq![separator] + parts.last();
        lemma_has_part_within(e, joined(front, separator), rest, parts[k]);
        assert(joined(parts, separator) == e + joined(front, separator) + rest);
    }
}

} // verus!
