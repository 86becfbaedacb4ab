//! The escaping grammars of the line protocol.
//!
//! Each grammar has a fixed set of ASCII characters that are written with a
//! backslash in front; every other character is written as it is. Escaping is
//! one pass over the characters of the input, so a backslash that escaping
//! wrote is never looked at again.

use vstd::prelude::*;
use crate::join::{
    lemma_occurrences_absent,
    lemma_occurrences_concat,
    lemma_occurrences_single,
    occurrences,
};

verus! {

/// The positions of a line whose text is escaped, each with its own set of
/// characters that take a backslash.
#[derive(Clone, Copy, Debug)]
pub enum Grammar {
    /// A measurement name: comma and space.
    MeasurementName,
    /// A tag key, a tag value or a field key: comma, equals sign and space.
    Identifier,
    /// The text of a string field: backslash and double quote.
    StringField,
}

/// Whether `c` is written with a backslash in front under `grammar`.
pub open spec fn is_special(grammar: Grammar, c: char) -> bool {
    match grammar {
        Grammar::MeasurementName => c == ',' || c == ' ',
        Grammar::Identifier => c == ',' || c == '=' || c == ' ',
        Grammar::StringField => c == '\\' || c == '"',
    }
}

/// What one character becomes: itself, with a backslash in front if it is special.
pub open spec fn escaped_char(grammar: Grammar, c: char) -> Seq<char> {
    if is_special(grammar, c) {
        seq!['\\', c]
    } else {
        seq![c]
    }
}

/// What a text becomes: the concatenation of what its characters become, in order.
pub open spec fn escaped(grammar: Grammar, text: Seq<char>) -> Seq<char>
    decreases text.len(),
{
    if text.len() == 0 {
        Seq::empty()
    } else {
        escaped(grammar, text.drop_last()) + escaped_char(grammar, text.last())
    }
}

/// `String::push`: the string afterwards is the string before with `c` at its end.
#[verifier::external_body]
pub(crate) fn push_char(text: &mut String, c: char)
    ensures
        final(text)@ == old(text)@.push(c),
{
    text.push(c)
}

fn needs_backslash(grammar: Grammar, c: char) -> (b: bool)
    ensures
        b == is_special(grammar, c),
{
    match grammar {
        Grammar::MeasurementName => c == ',' || c == ' ',
        Grammar::Identifier => c == ',' || c == '=' || c == ' ',
        Grammar::StringField => c == '\\' || c == '"',
    }
}

/// Escapes `text` under `grammar` in a single pass over its characters.
pub fn escape(grammar: Grammar, text: &str) -> (out: String)
    ensures
        out@ == escaped(grammar, text@),
{
    let mut out = String::new();
    for c in it: text.chars()
        invariant
            it.seq() == text@,
            out@ == escaped(grammar, text@.take(it.index() as int)),
    {
        proof {
            let i = it.index() as int;
            assert(text@.take(i + 1).drop_last() == text@.take(i));
            assert(text@.take(i + 1).last() == c);
        }
        if needs_backslash(grammar, c) {
            push_char(&mut out, '\\');
        }
        push_char(&mut out, c);
    }
    proof {
        assert(text@.take(text@.len() as int) == text@);
    }
    out
}

/// Escapes a tag key, a tag value or a field key: comma, equals sign and space
/// each take a backslash.
pub fn escape_comma_equals_space(tag_key: &str) -> (out: String)
    ensures
        out@ == escaped(Grammar::Identifier, tag_key@),
{
    escape(Grammar::Identifier, tag_key)
}

/// Escapes the text of a string field: backslash and double quote each take a
/// backslash. The surrounding quotes are not added here.
pub fn escape_field_value(field_value: &str) -> (out: String)
    ensures
        out@ == escaped(Grammar::StringField, field_value@),
{
    escape(Grammar::StringField, field_value)
}

/// Escapes a measurement name: comma and space each take a backslash, the
/// equals sign does not.
pub fn escape_measurement_name(name: &str) -> (out: String)
    ensures
        out@ == escaped(Grammar::MeasurementName, name@),
{
    escape(Grammar::MeasurementName, name)
}

/// Escaping goes character by character: a text in two parts is escaped part by part.
pub proof fn lemma_escaped_concat(grammar: Grammar, a: Seq<char>, b: Seq<char>)
    ensures
        escaped(grammar, a + b) == escaped(grammar, a) + escaped(grammar, b),
    decreases b.len(),
{
    if b.len() == 0 {
        assert(a + b == a);
    } else {
        lemma_escaped_concat(grammar, a, b.drop_last());
        assert((a + b).drop_last() == a + b.drop_last());
        assert((a + b).last() == b.last());
    }
}

/// A text without any special character of the grammar is its own escaped form.
pub proof fn lemma_escaped_plain(grammar: Grammar, text: Seq<char>)
    requires
        forall|i: int| 0 <= i < text.len() ==> !is_special(grammar, #[trigger] text[i]),
    ensures
        escaped(grammar, text) == text,
    decreases text.len(),
{
    if text.len() > 0 {
        lemma_escaped_plain(grammar, text.drop_last());
        assert(text.drop_last().push(text.last()) == text);
    }
}

/// Every special character is ASCII, so text made of characters beyond ASCII
/// passes through unchanged wherever it stands in the input.
pub proof fn lemma_non_ascii_passes_through(
    grammar: Grammar,
    before: Seq<char>,
    text: Seq<char>,
    after: Seq<char>,
)
    requires
        forall|i: int| 0 <= i < text.len() ==> (#[trigger] text[i]) as int >= 128,
    ensures
        escaped(grammar, text) == text,
        escaped(grammar, before + text + after) == escaped(grammar, before) + text + escaped(
            grammar,
            after,
        ),
{
    assert forall|i: int| 0 <= i < text.len() implies !is_special(
        grammar,
        #[trigger] text[i],
    ) by {
        assert(text[i] as int >= 128);
    }
    lemma_escaped_plain(grammar, text);
    lemma_escaped_concat(grammar, before, text);
    lemma_escaped_concat(grammar, before + text, after);
}

/// Escaping adds backslashes and nothing else: every other character occurs
/// in the escaped text as often as in the text.
pub proof fn lemma_escaped_occurrences(grammar: Grammar, text: Seq<char>, c: char)
    requires
        c != '\\',
    ensures
        occurrences(escaped(grammar, text), c) == occurrences(text, c),
    decreases text.len(),
{
    if text.len() > 0 {
        let x = text.last();
        lemma_escaped_occurrences(grammar, text.drop_last(), c);
        lemma_occurrences_single(x, c);
        lemma_occurrences_single('\\', c);
        assert(seq!['\\', x] =~= seq!['\\'] + seq![x]);
        lemma_occurrences_concat(seq!['\\'], seq![x], c);
        lemma_occurrences_concat(escaped(grammar, text.drop_last()), escaped_char(grammar, x), c);
    }
}

/// Whether `c` is one of the characters that part a line: comma, equals
/// sign and space.
pub open spec fn is_delimiter(c: char) -> bool {
    c == ',' || c == '=' || c == ' '
}

/// Whether `text` holds no character that parts a line.
pub open spec fn free_of_delimiters(text: Seq<char>) -> bool {
    forall|i: int| 0 <= i < text.len() ==> !is_delimiter(#[trigger] text[i])
}

/// A text that is free of delimiters holds each of them zero times.
pub proof fn lemma_free_count(text: Seq<char>, c: char)
    requires
        free_of_delimiters(text),
        is_delimiter(c),
    ensures
        occurrences(text, c) == 0,
{
    lemma_occurrences_absent(text, c);
}

/// How many backslashes stand at the end of `text`, one behind the other.
pub open spec fn trailing_backslashes(text: Seq<char>) -> nat
    decreases text.len(),
{
    if text.len() == 0 || text.last() != '\\' {
        0
    } else {
        1 + trailing_backslashes(text.drop_last())
    }
}

/// Escaping the text of a string field doubles each run of backslashes:
/// where a text ends in a run of backslashes, its escaped form ends in a run
/// twice as long, and so in an even number of them.
pub proof fn lemma_escaped_backslash_run(text: Seq<char>)
    ensures
        trailing_backslashes(escaped(Grammar::StringField, text)) == 2 * trailing_backslashes(
            text,
        ),
    decreases text.len(),
{
    if text.len() > 0 {
        let front = text.drop_last();
        let x = text.last();
        lemma_escaped_backslash_run(front);
        let e = escaped(Grammar::StringField, front);
        if x == '\\' {
            let out = e + seq!['\\', '\\'];
            assert(out.last() == '\\');
            assert(out.drop_last() =~= e.push('\\'));
            assert(e.push('\\').drop_last() =~= e);
            assert(trailing_backslashes(e.push('\\')) == 1 + trailing_backslashes(e));
            assert(trailing_backslashes(out) == 1 + trailing_backslashes(out.drop_last()));
        } else if x == '"' {
            assert((e + seq!['\\', '"']).last() == '"');
        } else {
            assert((e + seq![x]).last() == x);
        }
    }
}

/// A double quote in the text of a string field comes out behind its own
/// backslash, and that backslash ends a run of odd length: one more than
/// twice the backslashes that stood before the quote in the text. So the
/// backslash is escaped first, and the quote after it.
pub proof fn lemma_quote_after_odd_backslashes(text: Seq<char>, i: int)
    requires
        0 <= i < text.len(),
        text[i] == '"',
    ensures
        escaped(Grammar::StringField, text) == escaped(Grammar::StringField, text.take(i)).push(
            '\\',
        ).push('"') + escaped(Grammar::StringField, text.skip(i + 1)),
        trailing_backslashes(escaped(Grammar::StringField, text.take(i)).push('\\')) == 2
            * trailing_backslashes(text.take(i)) + 1,
{
    let a = text.take(i);
    let q = seq!['"'];
    let b = text.skip(i + 1);
    assert(text == a + q + b);
    lemma_escaped_concat(Grammar::StringField, a, q);
    lemma_escaped_concat(Grammar::StringField, a + q, b);
    assert(q.drop_last() =~= Seq::<char>::empty());
    assert(escaped(Grammar::StringField, q.drop_last()) =~= Seq::<char>::empty());
    assert(escaped(Grammar::StringField, q) =~= seq!['\\', '"']);
    lemma_escaped_backslash_run(a);
    let e = escaped(Grammar::StringField, a);
    assert(e.push('\\').drop_last() =~= e);
    assert(e + seq!['\\', '"'] =~= e.push('\\').push('"'));
}

} // verus!
