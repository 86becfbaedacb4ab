//! The typed value of one field and its text on the line.

use vstd::prelude::*;
use vstd::string::*;
use crate::decimal::{decimal, push_decimal, push_signed_decimal, signed_decimal};
use crate::decimal::{lemma_decimal_count, lemma_decimal_digits};
use crate::escape::{
    escape_field_value,
    escaped,
    free_of_delimiters,
    is_delimiter,
    lemma_escaped_occurrences,
    lemma_free_count,
    push_char,
    Grammar,
};
use crate::join::{lemma_occurrences_concat, lemma_occurrences_single, occurrences};
use crate::float_text::{is_float_text, FloatText};

verus! {

/// The value of one field. Exactly one variant is active, and no variant is
/// ever converted into another.
pub enum FieldValue {
    /// A double-precision number, held as its decimal text. The text is
    /// written to the line as it stands, without a type suffix.
    Float(FloatText),
    /// A 64-bit signed integer.
    Integer(i64),
    /// A 64-bit unsigned integer.
    UInteger(u64),
    /// A text.
    String(String),
    /// A truth value.
    Boolean(bool),
}

impl FieldValue {
    /// The text of the value on the line: a float as its decimal text, an
    /// integer as its digits and `i`, an unsigned integer as its digits and
    /// `u`, a text escaped and in double quotes, a truth value as `t` or `f`.
    pub open spec fn rendered(self) -> Seq<char> {
        match self {
            FieldValue::Float(text) => text@,
            FieldValue::Integer(i) => signed_decimal(i as int).push('i'),
            FieldValue::UInteger(u) => decimal(u as nat).push('u'),
            FieldValue::String(text) => seq!['"'] + escaped(Grammar::StringField, text@) + seq![
                '"',
            ],
            FieldValue::Boolean(b) => if b {
                seq!['t']
            } else {
                seq!['f']
            },
        }
    }

    /// Whether the value is one that can be made: a float's text is that of
    /// a double-precision number. It holds of every value.
    pub open spec fn well_formed(self) -> bool {
        match self {
            FieldValue::Float(text) => is_float_text(text@),
            _ => true,
        }
    }

    /// Whether two values are of the same variant.
    pub open spec fn same_variant(self, other: FieldValue) -> bool {
        match self {
            FieldValue::Float(_) => other is Float,
            FieldValue::Integer(_) => other is Integer,
            FieldValue::UInteger(_) => other is UInteger,
            FieldValue::String(_) => other is String,
            FieldValue::Boolean(_) => other is Boolean,
        }
    }

    /// Renders the value. Rendering is total: every value has a text.
    pub fn to_string(&self) -> (out: String)
        ensures
            out@ == self.rendered(),
            self.well_formed(),
    {
        let mut out = String::new();
        match self {
            FieldValue::Float(text) => {
                out.append(text.as_str());
            },
            FieldValue::Integer(i) => {
                push_signed_decimal(&mut out, *i);
                push_char(&mut out, 'i');
            },
            FieldValue::UInteger(u) => {
                push_decimal(&mut out, *u as u128);
                push_char(&mut out, 'u');
            },
            FieldValue::String(text) => {
                push_char(&mut out, '"');
                let inner = escape_field_value(text.as_str());
                out.append(inner.as_str());
                push_char(&mut out, '"');
            },
            FieldValue::Boolean(b) => {
                if *b {
                    push_char(&mut out, 't');
                } else {
                    push_char(&mut out, 'f');
                }
            },
        }
        out
    }
}

/// The text of a value shows its variant: only an integer's ends in `i`,
/// only an unsigned integer's ends in `u`, only a text's stands in double
/// quotes, and only a truth value's is `t` or `f`.
pub proof fn lemma_rendered_shape(v: FieldValue)
    requires
        v.well_formed(),
    ensures
        v.rendered().len() > 0,
        v.rendered().last() == 'i' <==> v is Integer,
        v.rendered().last() == 'u' <==> v is UInteger,
        (v.rendered().len() >= 2 && v.rendered().first() == '"' && v.rendered().last() == '"')
            <==> v is String,
        (v.rendered() =~= seq!['t'] || v.rendered() =~= seq!['f']) <==> v is Boolean,
{
    match v {
        FieldValue::Float(_) => {},
        FieldValue::Integer(i) => {
            if i < 0 {
                lemma_decimal_digits((-i) as nat);
            } else {
                lemma_decimal_digits(i as nat);
            }
        },
        FieldValue::UInteger(u) => {
            lemma_decimal_digits(u as nat);
        },
        FieldValue::String(_) => {},
        FieldValue::Boolean(_) => {},
    }
}

/// Values of different variants never have the same text: no value is read
/// as one of another type.
pub proof fn lemma_variants_render_apart(a: FieldValue, b: FieldValue)
    requires
        a.well_formed(),
        b.well_formed(),
        !a.same_variant(b),
    ensures
        a.rendered() != b.rendered(),
{
    lemma_rendered_shape(a);
    lemma_rendered_shape(b);
}

/// The text of a value holds no comma, equals sign or space, but for those
/// that stand in the text of a string field.
pub proof fn lemma_rendered_count(v: FieldValue, c: char)
    requires
        v.well_formed(),
        is_delimiter(c),
        v matches FieldValue::String(text) ==> free_of_delimiters(text@),
    ensures
        occurrences(v.rendered(), c) == 0,
{
    match v {
        FieldValue::Float(text) => {
            let s = text@;
            assert forall|i: int| 0 <= i < s.len() implies !is_delimiter(#[trigger] s[i]) by {
                if s =~= seq!['N', 'a', 'N'] {
                } else if s =~= seq!['i', 'n', 'f'] {
                } else if s =~= seq!['-', 'i', 'n', 'f'] {
                } else {
                }
            }
            lemma_free_count(s, c);
        },
        FieldValue::Integer(i) => {
            let d = signed_decimal(i as int);
            if i < 0 {
                lemma_decimal_count((-i) as nat, c);
                lemma_occurrences_single('-', c);
                lemma_occurrences_concat(seq!['-'], decimal((-i) as nat), c);
            } else {
                lemma_decimal_count(i as nat, c);
            }
            assert(d.push('i').drop_last() == d);
        },
        FieldValue::UInteger(u) => {
            let d = decimal(u as nat);
            lemma_decimal_count(u as nat, c);
            assert(d.push('u').drop_last() == d);
        },
        FieldValue::String(text) => {
            let inner = escaped(Grammar::StringField, text@);
            lemma_free_count(text@, c);
            lemma_escaped_occurrences(Grammar::StringField, text@, c);
            lemma_occurrences_single('"', c);
            lemma_occurrences_concat(seq!['"'], inner, c);
            lemma_occurrences_concat(seq!['"'] + inner, seq!['"'], c);
        },
        FieldValue::Boolean(_) => {
            lemma_occurrences_single('t', c);
            lemma_occurrences_single('f', c);
        },
    }
}

} // verus!
