//! Floating-point values, held as the exact text of their literal.
//!
//! The library never computes with binary floating point. A [`Float`] is
//! either one of the three special values or a decimal literal, kept in a
//! canonical spelling: no leading `+`, and the special values in lower case.

use vstd::prelude::*;
use crate::text::{
    chars_of, check_digit, is_digit, lower, lower_of, push_all, same_chars, slice_of, string_of,
};

verus! {

/// The end of the run of decimal digits that starts at `pos`.
pub open spec fn digits_end(s: Seq<char>, pos: int) -> int
    decreases s.len() - pos,
{
    if 0 <= pos < s.len() && is_digit(s[pos]) {
        digits_end(s, pos + 1)
    } else {
        pos
    }
}

/// Where the mantissa that starts at `pos` ends, or -1 where there is none. A
/// mantissa is a run of digits, optionally followed by `.` and more digits,
/// or `.` followed by digits; it holds at least one digit.
pub open spec fn mantissa_end(s: Seq<char>, pos: int) -> int {
    let a = digits_end(s, pos);
    if a < s.len() && s[a] == '.' {
        let b = digits_end(s, a + 1);
        if a > pos || b > a + 1 {
            b
        } else {
            -1
        }
    } else if a > pos {
        a
    } else {
        -1
    }
}

/// Whether the mantissa that starts at `pos` holds a decimal point.
pub open spec fn mantissa_has_point(s: Seq<char>, pos: int) -> bool {
    let a = digits_end(s, pos);
    a < s.len() && s[a] == '.'
}

/// Where the exponent that starts at `pos` ends, or -1 where it is malformed.
/// An exponent is `e` or `E`, an optional sign and at least one digit.
pub open spec fn exponent_end(s: Seq<char>, pos: int) -> int {
    let d = if pos + 1 < s.len() && (s[pos + 1] == '+' || s[pos + 1] == '-') {
        pos + 2
    } else {
        pos + 1
    };
    let e = digits_end(s, d);
    if e > d {
        e
    } else {
        -1
    }
}

/// Whether `s` is an unsigned decimal literal of a float: a mantissa with a
/// decimal point, an exponent, or both, and nothing else.
pub open spec fn is_decimal(s: Seq<char>) -> bool {
    let m = mantissa_end(s, 0);
    if m < 0 {
        false
    } else if m < s.len() && (s[m] == 'e' || s[m] == 'E') {
        exponent_end(s, m) == s.len()
    } else {
        m == s.len() && mantissa_has_point(s, 0)
    }
}

/// Whether `s` spells `word` when ASCII case is ignored.
pub open spec fn spells(s: Seq<char>, word: Seq<char>) -> bool {
    s.len() == word.len() && forall|i: int| 0 <= i < s.len() ==> lower(#[trigger] s[i]) == word[i]
}

/// The canonical text of the float that a token denotes, if it denotes one.
/// A token is an optional sign followed by `inf`, `nan` (in any case) or an
/// unsigned decimal literal. The sign of `nan` is dropped, as is a `+`.
pub open spec fn float_of_token(token: Seq<char>) -> Option<Seq<char>> {
    let signed = token.len() > 0 && (token[0] == '+' || token[0] == '-');
    let negative = token.len() > 0 && token[0] == '-';
    let body = if signed {
        token.skip(1)
    } else {
        token
    };
    if spells(body, seq!['i', 'n', 'f']) {
        Some(
            if negative {
                seq!['-', 'i', 'n', 'f']
            } else {
                seq!['i', 'n', 'f']
            },
        )
    } else if spells(body, seq!['n', 'a', 'n']) {
        Some(seq!['n', 'a', 'n'])
    } else if is_decimal(body) {
        Some(
            if negative {
                seq!['-'] + body
            } else {
                body
            },
        )
    } else {
        None
    }
}

/// Whether `text` is the canonical text of some float.
pub open spec fn is_canonical_float(text: Seq<char>) -> bool {
    float_of_token(text) == Some(text)
}

/// A floating-point value as the exact, canonical text of its literal.
#[derive(Debug, PartialEq, Eq)]
pub struct Float {
    text: String,
}

impl View for Float {
    type V = Seq<char>;

    closed spec fn view(&self) -> Seq<char> {
        self.text@
    }
}

impl Clone for Float {
    fn clone(&self) -> (r: Float)
        ensures
            r@ == self@,
    {
        Float { text: self.text.clone() }
    }
}

/// The end of the run of decimal digits that starts at `pos`.
pub fn scan_digits(s: &Vec<char>, pos: usize) -> (r: usize)
    requires
        pos <= s.len(),
    ensures
        r == digits_end(s@, pos as int),
        pos <= r <= s.len(),
{
    let mut i: usize = pos;
    while i < s.len() && check_digit(s[i])
        invariant
            pos <= i <= s.len(),
            digits_end(s@, pos as int) == digits_end(s@, i as int),
        decreases s.len() - i,
    {
        i += 1;
    }
    i
}

/// Whether `s` spells the lower-case `word` when ASCII case is ignored.
pub fn check_spells(s: &Vec<char>, word: &Vec<char>) -> (r: bool)
    ensures
        r == spells(s@, word@),
{
    if s.len() != word.len() {
        return false;
    }
    let mut i: usize = 0;
    while i < s.len()
        invariant
            i <= s.len(),
            s.len() == word.len(),
            forall|j: int| 0 <= j < i ==> lower(#[trigger] s@[j]) == word@[j],
        decreases s.len() - i,
    {
        if lower_of(s[i]) != word[i] {
            return false;
        }
        i += 1;
    }
    true
}

/// Whether `s` is an unsigned decimal literal of a float.
#[verifier::rlimit(50)]
pub fn check_decimal(s: &Vec<char>) -> (r: bool)
    ensures
        r == is_decimal(s@),
{
    let a = scan_digits(s, 0);
    let has_point = a < s.len() && s[a] == '.';
    let m: usize;
    if has_point {
        let b = scan_digits(s, a + 1);
        if a > 0 || b > a + 1 {
            m = b;
        } else {
            return false;
        }
    } else if a > 0 {
        m = a;
    } else {
        return false;
    }
    if m < s.len() && (s[m] == 'e' || s[m] == 'E') {
        let d: usize = if m + 1 < s.len() && (s[m + 1] == '+' || s[m + 1] == '-') {
            m + 2
        } else {
            m + 1
        };
        let e = scan_digits(s, d);
        e > d && e == s.len()
    } else {
        m == s.len() && has_point
    }
}

impl Float {
    /// Whether the text held is canonical. Every `Float` that this library
    /// hands out is well formed.
    pub open spec fn wf(&self) -> bool {
        is_canonical_float(self@)
    }

    /// The float that a token denotes: `Some` exactly for the tokens that
    /// denote one, holding the canonical text.
    #[verifier::rlimit(50)]
    pub fn from_chars(token: &Vec<char>) -> (r: Option<Float>)
        ensures
            match r {
                Some(f) => float_of_token(token@) == Some(f@) && f.wf(),
                None => float_of_token(token@).is_none(),
            },
    {
        let signed = token.len() > 0 && (token[0] == '+' || token[0] == '-');
        let negative = token.len() > 0 && token[0] == '-';
        let body = if signed {
            slice_of(token, 1, token.len())
        } else {
            slice_of(token, 0, token.len())
        };
        assert(token@.subrange(0, token@.len() as int) =~= token@);
        let inf: Vec<char> = vec!['i', 'n', 'f'];
        let nan: Vec<char> = vec!['n', 'a', 'n'];
        assert(inf@ =~= seq!['i', 'n', 'f']);
        assert(nan@ =~= seq!['n', 'a', 'n']);
        let canonical: Vec<char>;
        if check_spells(&body, &inf) {
            if negative {
                canonical = vec!['-', 'i', 'n', 'f'];
                assert(canonical@ =~= seq!['-', 'i', 'n', 'f']);
            } else {
                canonical = inf;
            }
        } else if check_spells(&body, &nan) {
            canonical = nan;
        } else if check_decimal(&body) {
            if negative {
                let mut c: Vec<char> = vec!['-'];
                assert(c@ =~= seq!['-']);
                push_all(&mut c, &body);
                canonical = c;
            } else {
                canonical = body;
            }
        } else {
            return None;
        }
        proof {
            lemma_canonical(token@);
        }
        Some(Float { text: string_of(&canonical) })
    }

    /// The float that a piece of text denotes, if it denotes one.
    pub fn from_text(text: &str) -> (r: Option<Float>)
        ensures
            match r {
                Some(f) => float_of_token(text@) == Some(f@) && f.wf(),
                None => float_of_token(text@).is_none(),
            },
    {
        let chars = chars_of(text);
        Float::from_chars(&chars)
    }

    /// Not-a-number.
    pub fn nan() -> (r: Float)
        ensures
            r@ == seq!['n', 'a', 'n'],
            r.wf(),
    {
        let chars: Vec<char> = vec!['n', 'a', 'n'];
        assert(chars@ =~= seq!['n', 'a', 'n']);
        proof {
            lemma_special_canonical();
        }
        Float { text: string_of(&chars) }
    }

    /// Positive infinity.
    pub fn infinity() -> (r: Float)
        ensures
            r@ == seq!['i', 'n', 'f'],
            r.wf(),
    {
        let chars: Vec<char> = vec!['i', 'n', 'f'];
        assert(chars@ =~= seq!['i', 'n', 'f']);
        proof {
            lemma_special_canonical();
        }
        Float { text: string_of(&chars) }
    }

    /// Negative infinity.
    pub fn neg_infinity() -> (r: Float)
        ensures
            r@ == seq!['-', 'i', 'n', 'f'],
            r.wf(),
    {
        let chars: Vec<char> = vec!['-', 'i', 'n', 'f'];
        assert(chars@ =~= seq!['-', 'i', 'n', 'f']);
        proof {
            lemma_special_canonical();
        }
        Float { text: string_of(&chars) }
    }

    /// The canonical text.
    pub fn as_str(&self) -> (r: &str)
        ensures
            r@ == self@,
    {
        self.text.as_str()
    }

    /// Whether this is not-a-number.
    pub fn is_nan(&self) -> (r: bool)
        ensures
            r == (self@ == seq!['n', 'a', 'n']),
    {
        let chars = chars_of(self.text.as_str());
        let nan: Vec<char> = vec!['n', 'a', 'n'];
        assert(nan@ =~= seq!['n', 'a', 'n']);
        same_chars(&chars, &nan)
    }

    /// Whether this is positive or negative infinity.
    pub fn is_infinite(&self) -> (r: bool)
        ensures
            r == (self@ == seq!['i', 'n', 'f'] || self@ == seq!['-', 'i', 'n', 'f']),
    {
        let chars = chars_of(self.text.as_str());
        let inf: Vec<char> = vec!['i', 'n', 'f'];
        let neg: Vec<char> = vec!['-', 'i', 'n', 'f'];
        assert(inf@ =~= seq!['i', 'n', 'f']);
        assert(neg@ =~= seq!['-', 'i', 'n', 'f']);
        same_chars(&chars, &inf) || same_chars(&chars, &neg)
    }

    /// Whether the text carries a minus sign.
    pub fn is_sign_negative(&self) -> (r: bool)
        ensures
            r == (self@.len() > 0 && self@[0] == '-'),
    {
        let chars = chars_of(self.text.as_str());
        chars.len() > 0 && chars[0] == '-'
    }
}

/// The three special values are canonical.
pub proof fn lemma_special_canonical()
    ensures
        is_canonical_float(seq!['n', 'a', 'n']),
        is_canonical_float(seq!['i', 'n', 'f']),
        is_canonical_float(seq!['-', 'i', 'n', 'f']),
{
    let nan = seq!['n', 'a', 'n'];
    let inf = seq!['i', 'n', 'f'];
    let neg = seq!['-', 'i', 'n', 'f'];
    assert(spells(nan, nan));
    assert(!spells(nan, inf)) by {
        assert(lower(nan[0]) != inf[0]);
    }
    assert(spells(inf, inf));
    assert(neg.skip(1) =~= inf);
}

/// No decimal literal starts with a sign or spells a special value.
pub proof fn lemma_decimal_shape(s: Seq<char>)
    requires
        is_decimal(s),
    ensures
        s.len() > 0,
        is_digit(s[0]) || s[0] == '.',
        !spells(s, seq!['i', 'n', 'f']),
        !spells(s, seq!['n', 'a', 'n']),
{
    reveal_with_fuel(digits_end, 2);
    if spells(s, seq!['i', 'n', 'f']) {
        assert(lower(s[0]) == 'i');
    }
    if spells(s, seq!['n', 'a', 'n']) {
        assert(lower(s[0]) == 'n');
    }
}

/// What a token denotes is canonical: reading it again changes nothing.
#[verifier::rlimit(50)]
pub proof fn lemma_canonical(token: Seq<char>)
    ensures
        float_of_token(token) matches Some(text) ==> is_canonical_float(text),
{
    let signed = token.len() > 0 && (token[0] == '+' || token[0] == '-');
    let negative = token.len() > 0 && token[0] == '-';
    let body = if signed {
        token.skip(1)
    } else {
        token
    };
    lemma_special_canonical();
    if spells(body, seq!['i', 'n', 'f']) {
    } else if spells(body, seq!['n', 'a', 'n']) {
    } else if is_decimal(body) {
        lemma_decimal_shape(body);
        if negative {
            let text = seq!['-'] + body;
            assert(text.skip(1) =~= body);
            assert(text[0] == '-');
        } else {
            assert(!(body[0] == '+' || body[0] == '-'));
        }
    }
}

} // verus!
