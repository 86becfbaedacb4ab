//! The decimal text of a double-precision number.
//!
//! The library holds such a number as the text that stands for it on the
//! line. The text is checked when it is taken in, so that a float can never
//! be mistaken for a value of another type, nor break the line apart.

use vstd::prelude::*;

verus! {

/// Whether `c` is one of the ten decimal digits.
pub open spec fn is_digit(c: char) -> bool {
    '0' <= c && c <= '9'
}

/// Whether `s` is a decimal number: an optional minus sign, then digits with
/// at most one point among them, which stands neither first nor last.
pub open spec fn is_decimal_text(s: Seq<char>) -> bool {
    let start: int = if s.len() > 0 && s[0] == '-' {
        1
    } else {
        0
    };
    &&& s.len() > start
    &&& is_digit(s[start])
    &&& is_digit(s.last())
    &&& forall|i: int| start <= i < s.len() ==> is_digit(#[trigger] s[i]) || s[i] == '.'
    &&& forall|i: int, j: int|
        #![trigger s[i], s[j]]
        start <= i < j < s.len() ==> !(s[i] == '.' && s[j] == '.')
}

/// Whether `s` is the text of a double-precision number: a decimal number,
/// or one of `NaN`, `inf` and `-inf`.
pub open spec fn is_float_text(s: Seq<char>) -> bool {
    ||| s =~= seq!['N', 'a', 'N']
    ||| s =~= seq!['i', 'n', 'f']
    ||| s =~= seq!['-', 'i', 'n', 'f']
    ||| is_decimal_text(s)
}

fn is_decimal_digit(c: char) -> (b: bool)
    ensures
        b == is_digit(c),
{
    '0' <= c && c <= '9'
}

fn chars_of(text: &str) -> (chars: Vec<char>)
    ensures
        chars@ == text@,
{
    let mut chars: Vec<char> = Vec::new();
    for c in it: text.chars()
        invariant
            it.seq() == text@,
            chars@ == text@.take(it.index() as int),
    {
        proof {
            let i = it.index() as int;
            assert(text@.take(i + 1) == text@.take(i).push(c));
        }
        chars.push(c);
    }
    proof {
        assert(text@.take(text@.len() as int) == text@);
    }
    chars
}

/// Whether `text` is the text of a double-precision number.
pub fn check_float_text(text: &str) -> (b: bool)
    ensures
        b == is_float_text(text@),
{
    let v = chars_of(text);
    let n = v.len();
    if n == 3 && v[0] == 'N' && v[1] == 'a' && v[2] == 'N' {
        return true;
    }
    if n == 3 && v[0] == 'i' && v[1] == 'n' && v[2] == 'f' {
        return true;
    }
    if n == 4 && v[0] == '-' && v[1] == 'i' && v[2] == 'n' && v[3] == 'f' {
        return true;
    }
    let start: usize = if n > 0 && v[0] == '-' {
        1
    } else {
        0
    };
    if n <= start {
        return false;
    }
    if !is_decimal_digit(v[start]) || !is_decimal_digit(v[n - 1]) {
        return false;
    }
    let mut i: usize = start;
    let mut seen_point = false;
    let ghost mut point_at: int = 0;
    while i < n
        invariant
            start <= i <= n,
            n == v@.len(),
            v@ == text@,
            start as int == (if v@.len() > 0 && v@[0] == '-' {
                1int
            } else {
                0int
            }),
            !(v@ =~= seq!['N', 'a', 'N']),
            !(v@ =~= seq!['i', 'n', 'f']),
            !(v@ =~= seq!['-', 'i', 'n', 'f']),
            is_digit(v@[start as int]),
            is_digit(v@.last()),
            forall|k: int| start <= k < i ==> is_digit(#[trigger] v@[k]) || v@[k] == '.',
            forall|k: int| start <= k < i && #[trigger] v@[k] == '.' ==> seen_point && k == point_at,
            seen_point ==> start <= point_at < i && v@[point_at] == '.',
        decreases n - i,
    {
        let c = v[i];
        if c == '.' {
            if seen_point {
                assert(v@[point_at] == '.' && v@[i as int] == '.');
                return false;
            }
            seen_point = true;
            proof {
                point_at = i as int;
            }
        } else if !is_decimal_digit(c) {
            assert(!(is_digit(v@[i as int]) || v@[i as int] == '.'));
            return false;
        }
        i += 1;
    }
    true
}

/// The text of a double-precision number. Every value of this type holds
/// such a text.
pub struct FloatText {
    text: String,
}

impl View for FloatText {
    type V = Seq<char>;

    closed spec fn view(&self) -> Seq<char> {
        self.text@
    }
}

impl FloatText {
    #[verifier::type_invariant]
    spec fn valid(self) -> bool {
        is_float_text(self.text@)
    }

    /// Takes `text` in where it is the text of a double-precision number,
    /// and refuses it where it is not.
    pub fn new(text: String) -> (r: Option<FloatText>)
        ensures
            match r {
                Some(float) => float@ == text@ && is_float_text(text@),
                None => !is_float_text(text@),
            },
    {
        if check_float_text(text.as_str()) {
            Some(FloatText { text })
        } else {
            None
        }
    }

    /// The text, which is that of a double-precision number.
    pub fn as_str(&self) -> (text: &str)
        ensures
            text@ == self@,
            is_float_text(self@),
    {
        proof {
            use_type_invariant(self);
        }
        self.text.as_str()
    }
}

} // verus!
