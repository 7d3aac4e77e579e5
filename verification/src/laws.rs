//! What holds of reading and writing together: a value that was written
//! reads back as itself.

use vstd::prelude::*;
use crate::error::ErrorModel;
use crate::float::{
    digits_end, float_of_token, is_canonical_float, is_decimal, mantissa_end, spells,
};
use crate::lexer::{
    digits_of, has_hex4, hex4_value, hex_bytes, hex_decoded, hex_run_end, integer_of_token,
    is_digit_run, is_signed, quote_end, radix_of, run_value, simple_escape, string_rest,
    unicode_at, unsigned_part,
};
use crate::formatter::options::{BinaryEncoding, OptionsModel};
use crate::formatter::{
    child_text, children, comma_after, description_of, key_text, layout, quote_of, render,
    scalar_text, width, Layout,
};
use crate::lexer::base64_decoded;
use crate::parser::{
    is_base64_prefix, is_hex_prefix, is_literal_prefix, is_space, is_timestamp_prefix,
    is_token_char, key_at, scalar_of_token, skip_trivia, token_end, value_at, word_end,
};
use crate::scalar::{base64_encoded, binary_literal, timestamp_text, unquotable};
use crate::text::is_alpha;
use crate::timestamp::{checked_timestamp, rfc3339_parsed};
use crate::parser::{document, list_rest, map_rest};
use crate::text::seq_less;
use crate::value::{has_key, keys_increase, lemma_with_entry_last, with_entry, ValueModel};
use crate::scalar::{
    escaped, escaped_char, float_literal, hex4, hex_text, int_literal, is_control, nat_text,
    string_literal, unicode_escape,
};
use crate::text::{digit_value, hex_char, is_digit, is_hex_digit, is_radix_digit, lower};

verus! {

/// Whether `text` stands in `s` at `pos`.
pub open spec fn has_at(s: Seq<char>, pos: int, text: Seq<char>) -> bool {
    0 <= pos && pos + text.len() <= s.len() && s.subrange(pos, pos + text.len()) == text
}

/// A text made of two parts stands where the first part stands and the
/// second follows it.
#[verifier::rlimit(50)]
pub proof fn lemma_has_at_concat(s: Seq<char>, pos: int, a: Seq<char>, b: Seq<char>)
    ensures
        has_at(s, pos, a + b) <==> has_at(s, pos, a) && has_at(s, pos + a.len(), b),
{
    if 0 <= pos && pos + a.len() + b.len() <= s.len() {
        let whole = s.subrange(pos, pos + a.len() + b.len());
        if has_at(s, pos, a + b) {
            assert(s.subrange(pos, pos + a.len()) =~= (a + b).subrange(0, a.len() as int));
            assert((a + b).subrange(0, a.len() as int) =~= a);
            assert(s.subrange(pos + a.len(), pos + a.len() + b.len()) =~= (a + b).subrange(
                a.len() as int,
                (a + b).len() as int,
            ));
            assert((a + b).subrange(a.len() as int, (a + b).len() as int) =~= b);
        }
        if has_at(s, pos, a) && has_at(s, pos + a.len(), b) {
            assert(whole =~= s.subrange(pos, pos + a.len()) + s.subrange(
                pos + a.len(),
                pos + a.len() + b.len(),
            ));
        }
    }
}

/// The characters of a text that stands in `s` are characters of `s`.
pub proof fn lemma_has_at_index(s: Seq<char>, pos: int, text: Seq<char>, i: int)
    requires
        has_at(s, pos, text),
        0 <= i < text.len(),
    ensures
        s[pos + i] == text[i],
{
    assert(s.subrange(pos, pos + text.len())[i] == s[pos + i]);
}

/// Whether the character at `pos`, if there is one, cannot continue a bare
/// token.
pub open spec fn stops_at(s: Seq<char>, pos: int) -> bool {
    pos >= s.len() || !is_token_char(s[pos])
}

/// A run of token characters that stands in `s`, followed by none, is a
/// whole token.
pub proof fn lemma_token_end(s: Seq<char>, pos: int, text: Seq<char>, from: int)
    requires
        has_at(s, pos, text),
        forall|i: int| 0 <= i < text.len() ==> is_token_char(#[trigger] text[i]),
        stops_at(s, pos + text.len()),
        0 <= from <= text.len(),
    ensures
        token_end(s, pos + from) == pos + text.len(),
    decreases text.len() - from,
{
    if from < text.len() {
        lemma_has_at_index(s, pos, text, from);
        lemma_token_end(s, pos, text, from + 1);
    }
}

/// The digit characters: each is the digit of its value.
pub proof fn lemma_hex_char(n: int)
    requires
        0 <= n < 16,
    ensures
        is_hex_digit(hex_char(n)),
        digit_value(hex_char(n)) == n,
        n < 10 ==> is_digit(hex_char(n)),
        is_token_char(hex_char(n)),
        hex_char(n) != '"',
        hex_char(n) != '\\',
        hex_char(n) != '_',
{
}

/// The decimal text of a natural number is a run of decimal digits whose
/// value is the number.
#[verifier::rlimit(50)]
pub proof fn lemma_nat_text(n: nat)
    ensures
        nat_text(n).len() > 0,
        forall|i: int| 0 <= i < nat_text(n).len() ==> is_digit(#[trigger] nat_text(n)[i]),
        run_value(nat_text(n), 10) == n,
    decreases n,
{
    lemma_hex_char((n % 10) as int);
    if n >= 10 {
        lemma_nat_text(n / 10);
        let t = nat_text(n);
        let head = nat_text(n / 10);
        assert(t.drop_last() =~= head);
        assert(t.last() == hex_char((n % 10) as int));
        assert forall|i: int| 0 <= i < t.len() implies is_digit(#[trigger] t[i]) by {
            if i < head.len() {
                assert(t[i] == head[i]);
            }
        }
    } else {
        let t = nat_text(n);
        assert(t.drop_last() =~= Seq::<char>::empty());
        assert(run_value(t.drop_last(), 10) == 0);
    }
}

/// The decimal text of a natural number is a digit run of radix ten.
#[verifier::rlimit(50)]
pub proof fn lemma_nat_text_run(n: nat)
    ensures
        is_digit_run(nat_text(n), 10),
        radix_of(nat_text(n)) == 10,
{
    lemma_nat_text(n);
    let t = nat_text(n);
    assert forall|i: int| 0 <= i < t.len() implies is_radix_digit(#[trigger] t[i], 10) by {
        assert(is_digit(t[i]));
    }
    assert(is_radix_digit(t[0], 10));
    assert(is_radix_digit(t.last(), 10));
    if t.len() >= 2 {
        assert(is_digit(t[1]));
    }
}

/// An integer that was written reads back as itself.
#[verifier::rlimit(50)]
pub proof fn lemma_integer_round_trip(i: int, leading_plus: bool)
    requires
        i64::MIN <= i <= i64::MAX,
    ensures
        integer_of_token(int_literal(i, leading_plus)) == Some(Ok::<int, ErrorModel>(i)),
        forall|k: int|
            0 <= k < int_literal(i, leading_plus).len() ==> is_token_char(
                #[trigger] int_literal(i, leading_plus)[k],
            ),
        int_literal(i, leading_plus).len() > 0,
        is_digit(int_literal(i, leading_plus)[0]) || int_literal(i, leading_plus)[0] == '+'
            || int_literal(i, leading_plus)[0] == '-',
{
    let token = int_literal(i, leading_plus);
    let magnitude: nat = if i < 0 {
        (-i) as nat
    } else {
        i as nat
    };
    let digits = nat_text(magnitude);
    lemma_nat_text(magnitude);
    lemma_nat_text_run(magnitude);
    assert(is_digit(digits[0]));
    if i < 0 {
        assert(token =~= seq!['-'] + digits);
        assert(token.skip(1) =~= digits);
    } else if leading_plus {
        assert(token =~= seq!['+'] + digits);
        assert(token.skip(1) =~= digits);
    } else {
        assert(token =~= digits);
    }
    assert(unsigned_part(token) == digits);
    assert forall|k: int| 0 <= k < token.len() implies is_token_char(#[trigger] token[k]) by {
        if i < 0 || leading_plus {
            if k > 0 {
                assert(token[k] == digits[k - 1]);
                assert(is_digit(digits[k - 1]));
            }
        } else {
            assert(is_digit(digits[k]));
        }
    }
}

/// Four hexadecimal digits that were written read back as their number.
#[verifier::rlimit(50)]
pub proof fn lemma_hex4(s: Seq<char>, pos: int, code: int)
    requires
        0 <= code < 0x10000,
        has_at(s, pos, hex4(code)),
    ensures
        has_hex4(s, pos),
        hex4_value(s, pos) == code,
{
    let t = hex4(code);
    lemma_has_at_index(s, pos, t, 0);
    lemma_has_at_index(s, pos, t, 1);
    lemma_has_at_index(s, pos, t, 2);
    lemma_has_at_index(s, pos, t, 3);
    lemma_hex_char(code / 4096);
    lemma_hex_char((code / 256) % 16);
    lemma_hex_char((code / 16) % 16);
    lemma_hex_char(code % 16);
}

/// A `\uXXXX` escape that stands in `s` has its parts in their places.
pub proof fn lemma_unicode_escape_at(s: Seq<char>, pos: int, code: int)
    requires
        0 <= code < 0x10000,
        has_at(s, pos, unicode_escape(code)),
    ensures
        pos + 6 <= s.len(),
        s[pos] == '\\',
        s[pos + 1] == 'u',
        has_hex4(s, pos + 2),
        hex4_value(s, pos + 2) == code,
{
    let t = unicode_escape(code);
    assert(t.len() == 6);
    lemma_has_at_index(s, pos, t, 0);
    lemma_has_at_index(s, pos, t, 1);
    lemma_has_at_concat(s, pos, seq!['\\', 'u'], hex4(code));
    lemma_hex4(s, pos + 2, code);
}

/// Writing a string is writing its parts one after the other.
#[verifier::rlimit(50)]
pub proof fn lemma_escaped_concat(a: Seq<char>, b: Seq<char>, quote: char, escape_unicode: bool)
    ensures
        escaped(a + b, quote, escape_unicode) == escaped(a, quote, escape_unicode) + escaped(
            b,
            quote,
            escape_unicode,
        ),
    decreases b.len(),
{
    if b.len() == 0 {
        assert(a + b =~= a);
        assert(escaped(a, quote, escape_unicode) + escaped(b, quote, escape_unicode) =~= escaped(
            a,
            quote,
            escape_unicode,
        ));
    } else {
        lemma_escaped_concat(a, b.drop_last(), quote, escape_unicode);
        assert((a + b).drop_last() =~= a + b.drop_last());
        assert((a + b).last() == b.last());
        assert(escaped(a, quote, escape_unicode) + (escaped(b.drop_last(), quote, escape_unicode)
            + escaped_char(b.last(), quote, escape_unicode)) =~= (escaped(
            a,
            quote,
            escape_unicode,
        ) + escaped(b.drop_last(), quote, escape_unicode)) + escaped_char(
            b.last(),
            quote,
            escape_unicode,
        ));
    }
}

/// Writing a string starts with writing its first character.
#[verifier::rlimit(50)]
pub proof fn lemma_escaped_first(text: Seq<char>, quote: char, escape_unicode: bool)
    requires
        text.len() > 0,
    ensures
        escaped(text, quote, escape_unicode) == escaped_char(text[0], quote, escape_unicode)
            + escaped(text.drop_first(), quote, escape_unicode),
{
    let head = seq![text[0]];
    assert(text =~= head + text.drop_first());
    lemma_escaped_concat(head, text.drop_first(), quote, escape_unicode);
    assert(head.drop_last() =~= Seq::<char>::empty());
    assert(head.last() == text[0]);
    assert(escaped(Seq::<char>::empty(), quote, escape_unicode) =~= Seq::<char>::empty());
    assert(escaped(head, quote, escape_unicode) == escaped(
        head.drop_last(),
        quote,
        escape_unicode,
    ) + escaped_char(head.last(), quote, escape_unicode));
    assert(escaped(head, quote, escape_unicode) =~= escaped_char(text[0], quote, escape_unicode));
}

/// Reading steps over a character that was written as a one-letter escape.
proof fn lemma_step_simple(s: Seq<char>, pos: int, c: char, letter: char, quote: char, acc: Seq<char>)
    requires
        has_at(s, pos, seq!['\\', letter]),
        simple_escape(letter) == Some(c),
        quote == '"' || quote == '\'',
    ensures
        string_rest(s, pos, quote, acc) == string_rest(s, pos + 2, quote, acc.push(c)),
{
    let e = seq!['\\', letter];
    lemma_has_at_index(s, pos, e, 0);
    lemma_has_at_index(s, pos, e, 1);
}

/// Reading steps over a character that was written as one `\uXXXX`.
proof fn lemma_step_unicode(s: Seq<char>, pos: int, c: char, quote: char, acc: Seq<char>)
    requires
        has_at(s, pos, unicode_escape(c as u32 as int)),
        (c as u32) <= 0xFFFF,
        quote == '"' || quote == '\'',
    ensures
        string_rest(s, pos, quote, acc) == string_rest(s, pos + 6, quote, acc.push(c)),
{
    let code = c as u32 as int;
    lemma_unicode_escape_at(s, pos, code);
    assert(unicode_at(s, pos + 2) == Ok::<(char, int), ErrorModel>((c, pos + 6)));
}

/// Reading steps over a character that was written as a surrogate pair.
#[verifier::rlimit(50)]
proof fn lemma_step_pair(s: Seq<char>, pos: int, c: char, quote: char, acc: Seq<char>)
    requires
        (c as u32) > 0xFFFF,
        has_at(
            s,
            pos,
            unicode_escape(0xD800 + (c as u32 as int - 0x10000) / 1024) + unicode_escape(
                0xDC00 + (c as u32 as int - 0x10000) % 1024,
            ),
        ),
        quote == '"' || quote == '\'',
    ensures
        string_rest(s, pos, quote, acc) == string_rest(s, pos + 12, quote, acc.push(c)),
{
    let code = c as u32 as int;
    let high = 0xD800 + (code - 0x10000) / 1024;
    let low = 0xDC00 + (code - 0x10000) % 1024;
    lemma_has_at_concat(s, pos, unicode_escape(high), unicode_escape(low));
    assert(unicode_escape(high).len() == 6);
    lemma_unicode_escape_at(s, pos, high);
    lemma_unicode_escape_at(s, pos + 6, low);
    assert(0x10000 + (high - 0xD800) * 1024 + (low - 0xDC00) == code);
    assert(unicode_at(s, pos + 2) == Ok::<(char, int), ErrorModel>((c, pos + 12)));
}

/// Reading steps over one written character and finds that character.
#[verifier::rlimit(50)]
pub proof fn lemma_escaped_char_step(
    s: Seq<char>,
    pos: int,
    c: char,
    quote: char,
    escape_unicode: bool,
    acc: Seq<char>,
)
    requires
        quote == '"' || quote == '\'',
        has_at(s, pos, escaped_char(c, quote, escape_unicode)),
        pos + escaped_char(c, quote, escape_unicode).len() < s.len(),
    ensures
        escaped_char(c, quote, escape_unicode).len() > 0,
        string_rest(s, pos, quote, acc) == string_rest(
            s,
            pos + escaped_char(c, quote, escape_unicode).len(),
            quote,
            acc.push(c),
        ),
{
    let e = escaped_char(c, quote, escape_unicode);
    let code = c as u32 as int;
    if c == '"' && quote == '"' {
        assert(e == seq!['\\', '"']);
        lemma_step_simple(s, pos, c, '"', quote, acc);
    } else if c == '\'' && quote == '\'' {
        assert(e == seq!['\\', '\'']);
        lemma_step_simple(s, pos, c, '\'', quote, acc);
    } else if c == '\\' {
        assert(e == seq!['\\', '\\']);
        lemma_step_simple(s, pos, c, '\\', quote, acc);
    } else if c == '/' {
        assert(e == seq!['\\', '/']);
        lemma_step_simple(s, pos, c, '/', quote, acc);
    } else if c == '\n' {
        assert(e == seq!['\\', 'n']);
        lemma_step_simple(s, pos, c, 'n', quote, acc);
    } else if c == '\t' {
        assert(e == seq!['\\', 't']);
        lemma_step_simple(s, pos, c, 't', quote, acc);
    } else if c == '\r' {
        assert(e == seq!['\\', 'r']);
        lemma_step_simple(s, pos, c, 'r', quote, acc);
    } else if code == 8 {
        assert(e == seq!['\\', 'b']);
        lemma_step_simple(s, pos, c, 'b', quote, acc);
    } else if code == 12 {
        assert(e == seq!['\\', 'f']);
        lemma_step_simple(s, pos, c, 'f', quote, acc);
    } else {
        lemma_escaped_other_step(s, pos, c, quote, escape_unicode, acc);
    }
}

/// Reading steps over a written character that has no one-letter escape.
#[verifier::rlimit(50)]
proof fn lemma_escaped_other_step(
    s: Seq<char>,
    pos: int,
    c: char,
    quote: char,
    escape_unicode: bool,
    acc: Seq<char>,
)
    requires
        quote == '"' || quote == '\'',
        !(c == '"' && quote == '"'),
        !(c == '\'' && quote == '\''),
        c != '\\',
        c != '/',
        c != '\n',
        c != '\t',
        c != '\r',
        c as u32 != 8,
        c as u32 != 12,
        has_at(s, pos, escaped_char(c, quote, escape_unicode)),
        pos + escaped_char(c, quote, escape_unicode).len() < s.len(),
    ensures
        escaped_char(c, quote, escape_unicode).len() > 0,
        string_rest(s, pos, quote, acc) == string_rest(
            s,
            pos + escaped_char(c, quote, escape_unicode).len(),
            quote,
            acc.push(c),
        ),
{
    let e = escaped_char(c, quote, escape_unicode);
    let code = c as u32 as int;
    if is_control(c) {
        assert(e == unicode_escape(code));
        lemma_step_unicode(s, pos, c, quote, acc);
    } else if escape_unicode && code > 0x7f {
        if code <= 0xFFFF {
            assert(e == unicode_escape(code));
            lemma_step_unicode(s, pos, c, quote, acc);
        } else {
            lemma_step_pair(s, pos, c, quote, acc);
            assert(e.len() == 12);
        }
    } else {
        assert(e == seq![c]);
        lemma_has_at_index(s, pos, e, 0);
    }
}

/// A string literal that was written reads back as the string: reading
/// from behind the opening quote yields the content and ends behind the
/// closing quote.
#[verifier::rlimit(50)]
pub proof fn lemma_string_rest(
    s: Seq<char>,
    pos: int,
    text: Seq<char>,
    quote: char,
    escape_unicode: bool,
    acc: Seq<char>,
)
    requires
        quote == '"' || quote == '\'',
        has_at(s, pos, escaped(text, quote, escape_unicode) + seq![quote]),
    ensures
        string_rest(s, pos, quote, acc) == Ok::<(Seq<char>, int), ErrorModel>(
            (acc + text, pos + escaped(text, quote, escape_unicode).len() + 1),
        ),
    decreases text.len(),
{
    let whole = escaped(text, quote, escape_unicode);
    lemma_has_at_concat(s, pos, whole, seq![quote]);
    if text.len() == 0 {
        lemma_has_at_index(s, pos, seq![quote], 0);
        assert(acc + text =~= acc);
    } else {
        let c = text[0];
        let rest = text.drop_first();
        let first = escaped_char(c, quote, escape_unicode);
        let tail = escaped(rest, quote, escape_unicode);
        lemma_escaped_first(text, quote, escape_unicode);
        lemma_has_at_concat(s, pos, first, tail);
        lemma_has_at_concat(s, pos + first.len(), tail, seq![quote]);
        lemma_escaped_char_step(s, pos, c, quote, escape_unicode, acc);
        lemma_string_rest(s, pos + first.len(), rest, quote, escape_unicode, acc.push(c));
        assert(acc.push(c) + rest =~= acc + text);
    }
}

/// A string that was written reads back as itself.
pub proof fn lemma_string_round_trip(
    s: Seq<char>,
    pos: int,
    text: Seq<char>,
    quote: char,
    escape_unicode: bool,
)
    requires
        quote == '"' || quote == '\'',
        has_at(s, pos, string_literal(text, quote, escape_unicode)),
    ensures
        s[pos] == quote,
        string_rest(s, pos + 1, quote, Seq::empty()) == Ok::<(Seq<char>, int), ErrorModel>(
            (text, pos + string_literal(text, quote, escape_unicode).len()),
        ),
{
    let body = escaped(text, quote, escape_unicode);
    assert(string_literal(text, quote, escape_unicode) =~= seq![quote] + (body + seq![quote]));
    lemma_has_at_concat(s, pos, seq![quote], body + seq![quote]);
    lemma_has_at_index(s, pos, seq![quote], 0);
    lemma_string_rest(s, pos + 1, text, quote, escape_unicode, Seq::empty());
    assert(Seq::<char>::empty() + text =~= text);
}

/// The hexadecimal text of a byte string is two digits for each byte.
#[verifier::rlimit(50)]
pub proof fn lemma_hex_text(bytes: Seq<u8>)
    ensures
        hex_text(bytes).len() == 2 * bytes.len(),
        forall|i: int| 0 <= i < hex_text(bytes).len() ==> is_hex_digit(#[trigger] hex_text(bytes)[i]),
        forall|i: int| 0 <= i < hex_text(bytes).len() ==> (#[trigger] hex_text(bytes)[i]) != '"',
        hex_bytes(hex_text(bytes)) == bytes,
    decreases bytes.len(),
{
    if bytes.len() > 0 {
        let t = hex_text(bytes);
        let b = bytes.last() as int;
        let head = hex_text(bytes.drop_last());
        lemma_hex_text(bytes.drop_last());
        lemma_hex_char(b / 16);
        lemma_hex_char(b % 16);
        assert(t.len() == head.len() + 2);
        assert(t.take(t.len() - 2) =~= head);
        assert(t[t.len() - 2] == hex_char(b / 16));
        assert(t[t.len() - 1] == hex_char(b % 16));
        assert forall|i: int| 0 <= i < t.len() implies is_hex_digit(#[trigger] t[i]) && t[i]
            != '"' by {
            if i < head.len() {
                assert(t[i] == head[i]);
            }
        }
        assert(((b / 16) * 16 + b % 16) as u8 == bytes.last());
        assert(hex_bytes(t) =~= bytes);
    } else {
        assert(hex_bytes(hex_text(bytes)) =~= bytes);
    }
}

/// A run of hexadecimal digits runs to the end.
pub proof fn lemma_hex_run(t: Seq<char>, from: int)
    requires
        0 <= from <= t.len(),
        forall|i: int| 0 <= i < t.len() ==> is_hex_digit(#[trigger] t[i]),
    ensures
        hex_run_end(t, from) == t.len(),
    decreases t.len() - from,
{
    if from < t.len() {
        lemma_hex_run(t, from + 1);
    }
}

/// Hexadecimal text that was written reads back as the bytes.
pub proof fn lemma_hex_round_trip(bytes: Seq<u8>)
    ensures
        hex_decoded(hex_text(bytes)) == Ok::<Seq<u8>, ErrorModel>(bytes),
{
    lemma_hex_text(bytes);
    lemma_hex_run(hex_text(bytes), 0);
}

/// Text without a `"` that stands before a `"` is the content of a
/// prefixed literal.
#[verifier::rlimit(50)]
pub proof fn lemma_quote_end(s: Seq<char>, pos: int, text: Seq<char>, from: int)
    requires
        has_at(s, pos, text + seq!['"']),
        forall|i: int| 0 <= i < text.len() ==> (#[trigger] text[i]) != '"',
        0 <= from <= text.len(),
    ensures
        quote_end(s, pos + from) == pos + text.len(),
        pos + text.len() < s.len(),
        s.subrange(pos, pos + text.len()) == text,
    decreases text.len() - from,
{
    lemma_has_at_concat(s, pos, text, seq!['"']);
    if from < text.len() {
        lemma_has_at_index(s, pos, text, from);
        lemma_quote_end(s, pos, text, from + 1);
    } else {
        lemma_has_at_index(s, pos + text.len(), seq!['"'], 0);
    }
}

/// The characters before the end of a run of digits are digits.
pub proof fn lemma_digits_end(s: Seq<char>, pos: int)
    requires
        0 <= pos <= s.len(),
    ensures
        pos <= digits_end(s, pos) <= s.len(),
        forall|i: int| pos <= i < digits_end(s, pos) ==> is_digit(#[trigger] s[i]),
        digits_end(s, pos) < s.len() ==> !is_digit(s[digits_end(s, pos)]),
    decreases s.len() - pos,
{
    if pos < s.len() && is_digit(s[pos]) {
        lemma_digits_end(s, pos + 1);
    }
}

/// What a decimal literal is made of: token characters only, a digit or a
/// point first, and a point or an exponent letter somewhere.
#[verifier::rlimit(50)]
pub proof fn lemma_decimal_chars(d: Seq<char>)
    requires
        is_decimal(d),
    ensures
        d.len() >= 2,
        is_digit(d[0]) || d[0] == '.',
        forall|i: int| 0 <= i < d.len() ==> is_token_char(#[trigger] d[i]),
        is_digit(d[1]) || d[1] == '.' || d[1] == 'e' || d[1] == 'E',
        exists|i: int| 0 <= i < d.len() && (#[trigger] d[i] == '.' || d[i] == 'e' || d[i] == 'E'),
{
    let a = digits_end(d, 0);
    lemma_digits_end(d, 0);
    let m = mantissa_end(d, 0);
    if a < d.len() && d[a] == '.' {
        lemma_digits_end(d, a + 1);
    }
    if m < d.len() && (d[m] == 'e' || d[m] == 'E') {
        let start = if m + 1 < d.len() && (d[m + 1] == '+' || d[m + 1] == '-') {
            m + 2
        } else {
            m + 1
        };
        lemma_digits_end(d, start);
        assert(d[m] == '.' || d[m] == 'e' || d[m] == 'E');
    } else {
        assert(d[a] == '.' || d[a] == 'e' || d[a] == 'E');
    }
}

/// A decimal literal is no integer.
pub proof fn lemma_decimal_is_no_integer(d: Seq<char>)
    requires
        is_decimal(d),
    ensures
        radix_of(d) == 10,
        !is_digit_run(d, 10),
{
    lemma_decimal_chars(d);
    let i = choose|i: int| 0 <= i < d.len() && (#[trigger] d[i] == '.' || d[i] == 'e' || d[i] == 'E');
    assert(!(is_radix_digit(d[i], 10) || d[i] == '_'));
}

/// A float that was written, with or without a leading plus, reads back as
/// itself, and is neither an integer nor a word.
#[verifier::rlimit(50)]
pub proof fn lemma_float_round_trip(text: Seq<char>, leading_plus: bool)
    requires
        is_canonical_float(text),
    ensures
        float_of_token(float_literal(text, leading_plus)) == Some(text),
        integer_of_token(float_literal(text, leading_plus)).is_none(),
        float_literal(text, leading_plus).len() >= 2,
        forall|i: int|
            0 <= i < float_literal(text, leading_plus).len() ==> is_token_char(
                #[trigger] float_literal(text, leading_plus)[i],
            ),
        ({
            let c = float_literal(text, leading_plus)[0];
            is_digit(c) || c == '.' || c == '+' || c == '-' || c == 'i' || (c == 'n'
                && float_literal(text, leading_plus)[1] == 'a')
        }),
{
    let inf = seq!['i', 'n', 'f'];
    let nan = seq!['n', 'a', 'n'];
    let token = float_literal(text, leading_plus);
    let body = unsigned_part(text);
    // the shape of a canonical text
    if spells(body, inf) {
        assert(lower(body[0]) == 'i' && lower(body[1]) == 'n' && lower(body[2]) == 'f');
        if text.len() > 0 && text[0] == '-' {
            assert(text == seq!['-', 'i', 'n', 'f']);
        } else {
            assert(text == inf);
        }
    } else if spells(body, nan) {
        assert(text == nan);
    } else {
        assert(is_decimal(body));
        lemma_decimal_chars(body);
        lemma_decimal_is_no_integer(body);
        if text.len() > 0 && text[0] == '-' {
            assert(text == seq!['-'] + body);
        } else {
            assert(!is_signed(text)) by {
                if is_signed(text) {
                    assert(text[0] == '+');
                    assert(float_of_token(text)->Some_0[0] != '+');
                }
            }
            assert(text == body);
        }
    }
    // the token is the text, or a plus and the text
    let plus = leading_plus && text != nan && !(text.len() > 0 && text[0] == '-');
    if plus {
        assert(token =~= seq!['+'] + text);
        assert(token.skip(1) =~= text);
        assert(is_signed(token));
        assert(!is_signed(text));
        assert(unsigned_part(token) == body);
    } else {
        assert(token == text);
    }
    let token_body = unsigned_part(token);
    assert(token_body == body);
    assert forall|i: int| 0 <= i < token.len() implies is_token_char(#[trigger] token[i]) by {
        if is_signed(token) {
            if i > 0 {
                assert(token[i] == body[i - 1]);
                if spells(body, inf) || spells(body, nan) {
                    assert(lower(body[i - 1]) == inf[i - 1] || lower(body[i - 1]) == nan[i - 1]);
                }
            }
        } else {
            assert(token[i] == body[i]);
            if spells(body, inf) || spells(body, nan) {
                assert(lower(body[i]) == inf[i] || lower(body[i]) == nan[i]);
            }
        }
    }
    // no integer
    if spells(body, inf) || spells(body, nan) {
        assert(body == inf || body == nan);
        assert(radix_of(body) == 10);
        assert(!is_radix_digit(body[0], 10));
    }
    assert(digits_of(body) == body);
}

/// Whether the leaf, as the options write it, is read back by the outside
/// crates that read it: base64 text by the base64 crate, timestamp text by
/// the `time` crate. Every other leaf is read by this library alone.
pub open spec fn leaf_rereads(v: ValueModel, o: OptionsModel) -> bool {
    match v {
        ValueModel::Binary(bytes) => o.binary_encoding == BinaryEncoding::Base64 ==> {
            &&& !base64_encoded(bytes).contains('"')
            &&& base64_decoded(base64_encoded(bytes)) == Some(bytes)
        },
        ValueModel::Timestamp(t) => {
            let text = timestamp_text(t, description_of(o.timestamp_precision), o.use_zulu);
            &&& !text.contains('"')
            &&& checked_timestamp(rfc3339_parsed(text)) == Ok::<
                crate::timestamp::TimestampModel,
                Seq<char>,
            >(t)
        },
        _ => true,
    }
}

/// Whether a character can start a value: it is no white space, starts no
/// comment and closes or separates nothing.
pub open spec fn is_value_start(c: char) -> bool {
    !is_space(c) && c != '/' && c != ']' && c != '}' && c != ',' && c != ':'
}

/// A prefixed literal that was written reads back as its content.
#[verifier::rlimit(50)]
proof fn lemma_prefixed(s: Seq<char>, pos: int, prefix: Seq<char>, content: Seq<char>)
    requires
        is_literal_prefix(prefix),
        has_at(s, pos, binary_literal(prefix, content)),
        !content.contains('"'),
    ensures
        token_end(s, pos) == pos + prefix.len(),
        pos + prefix.len() < s.len(),
        s[pos + prefix.len()] == '"',
        s.subrange(pos, pos + prefix.len()) == prefix,
        quote_end(s, pos + prefix.len() + 1) == pos + prefix.len() + 1 + content.len(),
        quote_end(s, pos + prefix.len() + 1) < s.len(),
        s.subrange(pos + prefix.len() + 1, pos + prefix.len() + 1 + content.len()) == content,
        binary_literal(prefix, content).len() == prefix.len() + content.len() + 2,
        s[pos] == prefix[0],
{
    let text = binary_literal(prefix, content);
    assert(text =~= prefix + (seq!['"'] + (content + seq!['"'])));
    lemma_has_at_concat(s, pos, prefix, seq!['"'] + (content + seq!['"']));
    lemma_has_at_concat(s, pos + prefix.len(), seq!['"'], content + seq!['"']);
    lemma_has_at_index(s, pos + prefix.len(), seq!['"'], 0);
    assert forall|i: int| 0 <= i < content.len() implies (#[trigger] content[i]) != '"' by {
        assert(content.contains(content[i]));
    }
    lemma_quote_end(s, pos + prefix.len() + 1, content, 0);
    assert forall|i: int| 0 <= i < prefix.len() implies is_token_char(#[trigger] prefix[i]) by {}
    assert(stops_at(s, pos + prefix.len()));
    lemma_token_end(s, pos, prefix, 0);
    lemma_has_at_index(s, pos, prefix, 0);
}

/// What it is for a leaf to read back as itself from `pos`.
pub open spec fn leaf_reads_back(
    s: Seq<char>,
    pos: int,
    v: ValueModel,
    o: OptionsModel,
    hex_prefix: Seq<char>,
) -> bool {
    &&& scalar_text(v, o, hex_prefix).len() > 0
    &&& is_value_start(scalar_text(v, o, hex_prefix)[0])
    &&& value_at(s, pos) == Ok::<(ValueModel, int), ErrorModel>(
        (v, pos + scalar_text(v, o, hex_prefix).len()),
    )
}

/// A bare token that stands in `s`, followed by no token character, is
/// read as a scalar.
#[verifier::rlimit(50)]
proof fn lemma_bare_token(s: Seq<char>, pos: int, token: Seq<char>)
    requires
        has_at(s, pos, token),
        token.len() > 0,
        forall|i: int| 0 <= i < token.len() ==> is_token_char(#[trigger] token[i]),
        stops_at(s, pos + token.len()),
        !is_literal_prefix(token),
    ensures
        value_at(s, pos) == (match scalar_of_token(token, pos) {
            Ok(v) => Ok::<(ValueModel, int), ErrorModel>((v, pos + token.len())),
            Err(e) => Err::<(ValueModel, int), ErrorModel>(e),
        }),
{
    lemma_has_at_index(s, pos, token, 0);
    lemma_token_end(s, pos, token, 0);
    assert(is_token_char(s[pos]));
    assert(s.subrange(pos, pos + token.len()) == token);
}

#[verifier::rlimit(50)]
proof fn lemma_word_tokens()
    ensures
        scalar_of_token(seq!['n', 'u', 'l', 'l'], 0) == Ok::<ValueModel, ErrorModel>(
            ValueModel::Null,
        ),
        scalar_of_token(seq!['t', 'r', 'u', 'e'], 0) == Ok::<ValueModel, ErrorModel>(
            ValueModel::Bool(true),
        ),
        scalar_of_token(seq!['f', 'a', 'l', 's', 'e'], 0) == Ok::<ValueModel, ErrorModel>(
            ValueModel::Bool(false),
        ),
        !is_literal_prefix(seq!['n', 'u', 'l', 'l']),
        !is_literal_prefix(seq!['t', 'r', 'u', 'e']),
        !is_literal_prefix(seq!['f', 'a', 'l', 's', 'e']),
{
    let null = seq!['n', 'u', 'l', 'l'];
    let yes = seq!['t', 'r', 'u', 'e'];
    let no = seq!['f', 'a', 'l', 's', 'e'];
    assert(null[0] == 'n' && yes[0] == 't' && no[0] == 'f');
    assert(yes != null);
    assert(no != null);
    assert(no != yes);
    assert(seq!['b', '6', '4'][0] == 'b');
    assert(seq!['h'][0] == 'h');
    assert(seq!['h', 'e', 'x'][0] == 'h');
    assert(seq!['t', 's'].len() == 2);
}

proof fn lemma_leaf_word(s: Seq<char>, pos: int, v: ValueModel, o: OptionsModel, hex_prefix: Seq<char>)
    requires
        v is Null || v is Bool,
        has_at(s, pos, scalar_text(v, o, hex_prefix)),
        stops_at(s, pos + scalar_text(v, o, hex_prefix).len()),
    ensures
        leaf_reads_back(s, pos, v, o, hex_prefix),
{
    let text = scalar_text(v, o, hex_prefix);
    lemma_word_tokens();
    assert(text.len() > 0);
    assert(text[0] == 'n' || text[0] == 't' || text[0] == 'f');
    assert forall|i: int| 0 <= i < text.len() implies is_token_char(#[trigger] text[i]) by {}
    lemma_bare_token(s, pos, text);
}

proof fn lemma_leaf_int(s: Seq<char>, pos: int, v: ValueModel, o: OptionsModel, hex_prefix: Seq<char>)
    requires
        v is Int,
        v.wf(),
        has_at(s, pos, scalar_text(v, o, hex_prefix)),
        stops_at(s, pos + scalar_text(v, o, hex_prefix).len()),
    ensures
        leaf_reads_back(s, pos, v, o, hex_prefix),
{
    let text = scalar_text(v, o, hex_prefix);
    lemma_integer_round_trip(v->Int_0, o.leading_plus);
    assert(text[0] != 'n' && text[0] != 't' && text[0] != 'f' && text[0] != 'b' && text[0] != 'h');
    assert(!is_literal_prefix(text));
    lemma_bare_token(s, pos, text);
    assert(scalar_of_token(text, pos) == Ok::<ValueModel, ErrorModel>(v));
}

#[verifier::rlimit(50)]
proof fn lemma_leaf_float(s: Seq<char>, pos: int, v: ValueModel, o: OptionsModel, hex_prefix: Seq<char>)
    requires
        v is Float,
        v.wf(),
        has_at(s, pos, scalar_text(v, o, hex_prefix)),
        stops_at(s, pos + scalar_text(v, o, hex_prefix).len()),
    ensures
        leaf_reads_back(s, pos, v, o, hex_prefix),
{
    let text = scalar_text(v, o, hex_prefix);
    lemma_float_round_trip(v->Float_0, o.leading_plus);
    assert(text[0] != 't' && text[0] != 'f' && text[0] != 'b' && text[0] != 'h');
    assert(text != seq!['n', 'u', 'l', 'l']) by {
        if text[0] == 'n' {
            assert(text[1] == 'a');
            assert(seq!['n', 'u', 'l', 'l'][1] == 'u');
        } else {
            assert(seq!['n', 'u', 'l', 'l'][0] == 'n');
        }
    }
    assert(!is_literal_prefix(text));
    lemma_bare_token(s, pos, text);
    assert(scalar_of_token(text, pos) == Ok::<ValueModel, ErrorModel>(v));
}

proof fn lemma_leaf_string(s: Seq<char>, pos: int, v: ValueModel, o: OptionsModel, hex_prefix: Seq<char>)
    requires
        v is String,
        has_at(s, pos, scalar_text(v, o, hex_prefix)),
    ensures
        leaf_reads_back(s, pos, v, o, hex_prefix),
{
    let t = v->String_0;
    let quote = quote_of(o.quote_style, t);
    lemma_string_round_trip(s, pos, t, quote, o.escape_unicode);
    lemma_has_at_index(s, pos, scalar_text(v, o, hex_prefix), 0);
}

#[verifier::rlimit(50)]
proof fn lemma_leaf_binary(s: Seq<char>, pos: int, v: ValueModel, o: OptionsModel, hex_prefix: Seq<char>)
    requires
        v is Binary,
        v.wf(),
        leaf_rereads(v, o),
        is_hex_prefix(hex_prefix),
        has_at(s, pos, scalar_text(v, o, hex_prefix)),
    ensures
        leaf_reads_back(s, pos, v, o, hex_prefix),
{
    let bytes = v->Binary_0;
    reveal_strlit("b64");
    match o.binary_encoding {
        BinaryEncoding::Base64 => {
            let prefix = "b64"@;
            assert(prefix =~= seq!['b', '6', '4']);
            lemma_prefixed(s, pos, prefix, base64_encoded(bytes));
            assert(!is_timestamp_prefix(prefix));
        },
        BinaryEncoding::Hex => {
            lemma_hex_text(bytes);
            lemma_hex_round_trip(bytes);
            assert(!hex_text(bytes).contains('"'));
            lemma_prefixed(s, pos, hex_prefix, hex_text(bytes));
            assert(!is_base64_prefix(hex_prefix));
            assert(!is_timestamp_prefix(hex_prefix));
        },
    }
}

#[verifier::rlimit(50)]
proof fn lemma_leaf_timestamp(s: Seq<char>, pos: int, v: ValueModel, o: OptionsModel, hex_prefix: Seq<char>)
    requires
        v is Timestamp,
        leaf_rereads(v, o),
        has_at(s, pos, scalar_text(v, o, hex_prefix)),
    ensures
        leaf_reads_back(s, pos, v, o, hex_prefix),
{
    let t = v->Timestamp_0;
    let text = scalar_text(v, o, hex_prefix);
    let shown = timestamp_text(t, description_of(o.timestamp_precision), o.use_zulu);
    let prefix = seq!['t', 's'];
    assert(text =~= binary_literal(prefix, shown));
    lemma_prefixed(s, pos, prefix, shown);
    assert(is_timestamp_prefix(prefix));
}

/// A leaf that was written reads back as itself, where no token character
/// follows it.
#[verifier::rlimit(50)]
pub proof fn lemma_leaf_round_trip(
    s: Seq<char>,
    pos: int,
    v: ValueModel,
    o: OptionsModel,
    hex_prefix: Seq<char>,
)
    requires
        v.wf(),
        !(v is List),
        !(v is Mapping),
        leaf_rereads(v, o),
        is_hex_prefix(hex_prefix),
        has_at(s, pos, scalar_text(v, o, hex_prefix)),
        stops_at(s, pos + scalar_text(v, o, hex_prefix).len()),
    ensures
        leaf_reads_back(s, pos, v, o, hex_prefix),
{
    match v {
        ValueModel::Null => lemma_leaf_word(s, pos, v, o, hex_prefix),
        ValueModel::Bool(_) => lemma_leaf_word(s, pos, v, o, hex_prefix),
        ValueModel::Int(_) => lemma_leaf_int(s, pos, v, o, hex_prefix),
        ValueModel::Float(_) => lemma_leaf_float(s, pos, v, o, hex_prefix),
        ValueModel::String(_) => lemma_leaf_string(s, pos, v, o, hex_prefix),
        ValueModel::Binary(_) => lemma_leaf_binary(s, pos, v, o, hex_prefix),
        ValueModel::Timestamp(_) => lemma_leaf_timestamp(s, pos, v, o, hex_prefix),
        _ => {},
    }
}

/// Whether a text is white space only.
pub open spec fn is_blank(t: Seq<char>) -> bool {
    forall|i: int| 0 <= i < t.len() ==> is_space(#[trigger] t[i])
}

/// Nothing is skipped where neither white space nor a comment starts.
pub proof fn lemma_skip_none(s: Seq<char>, pos: int)
    requires
        0 <= pos,
        pos < s.len() ==> !is_space(s[pos]) && s[pos] != '/',
    ensures
        skip_trivia(s, pos) == Ok::<int, ErrorModel>(pos),
{
}

/// White space that stands before something else is skipped, and nothing
/// more.
pub proof fn lemma_skip_blank(s: Seq<char>, pos: int, blank: Seq<char>, from: int)
    requires
        has_at(s, pos, blank),
        is_blank(blank),
        pos + blank.len() < s.len() ==> !is_space(s[pos + blank.len()]) && s[pos + blank.len()]
            != '/',
        0 <= from <= blank.len(),
    ensures
        skip_trivia(s, pos + from) == Ok::<int, ErrorModel>(pos + blank.len()),
    decreases blank.len() - from,
{
    if from < blank.len() {
        lemma_has_at_index(s, pos, blank, from);
        lemma_skip_blank(s, pos, blank, from + 1);
    }
}

/// The `k`-th line of children, counted from one.
pub open spec fn line_text(v: ValueModel, o: OptionsModel, l: Layout, k: nat) -> Seq<char> {
    l.deeper + child_text(v, o, l, k) + comma_after(v, l, k) + l.newline
}

/// The children up to the `k`-th are those before it and its line.
pub proof fn lemma_children_split(v: ValueModel, o: OptionsModel, l: Layout, k: nat)
    requires
        0 < k < width(v),
    ensures
        children(v, o, l, k) == children(v, o, l, (k - 1) as nat) + line_text(v, o, l, k),
{
    let before = children(v, o, l, (k - 1) as nat);
    assert(before + l.deeper + child_text(v, o, l, k) + comma_after(v, l, k) + l.newline =~= before
        + line_text(v, o, l, k));
}

/// Where the children stand, each line of them stands in its place.
pub proof fn lemma_children_at(
    s: Seq<char>,
    base: int,
    v: ValueModel,
    o: OptionsModel,
    l: Layout,
    n: nat,
    k: nat,
)
    requires
        n + 1 == width(v),
        k <= n,
        has_at(s, base, children(v, o, l, n)),
    ensures
        has_at(s, base, children(v, o, l, k)),
        children(v, o, l, k).len() <= children(v, o, l, n).len(),
        k < n ==> has_at(s, base + children(v, o, l, k).len(), line_text(v, o, l, k + 1)),
    decreases n - k,
{
    if k < n {
        lemma_children_at(s, base, v, o, l, n, k + 1);
        lemma_children_split(v, o, l, k + 1);
        lemma_has_at_concat(s, base, children(v, o, l, k), line_text(v, o, l, k + 1));
    }
}

/// A word that stands in `s`, followed by no word character, runs to its
/// end.
proof fn lemma_word_end(s: Seq<char>, pos: int, text: Seq<char>, from: int)
    requires
        has_at(s, pos, text),
        forall|i: int|
            0 <= i < text.len() ==> is_alpha(#[trigger] text[i]) || is_digit(text[i]) || text[i]
                == '_',
        pos + text.len() < s.len(),
        s[pos + text.len()] == ':',
        0 <= from <= text.len(),
    ensures
        word_end(s, pos + from) == pos + text.len(),
    decreases text.len() - from,
{
    if from < text.len() {
        lemma_has_at_index(s, pos, text, from);
        lemma_word_end(s, pos, text, from + 1);
    }
}

/// A key that was written, followed by a colon, reads back as itself.
#[verifier::rlimit(50)]
pub proof fn lemma_key_round_trip(s: Seq<char>, pos: int, key: Seq<char>, o: OptionsModel)
    requires
        has_at(s, pos, key_text(key, o)),
        pos + key_text(key, o).len() < s.len(),
        s[pos + key_text(key, o).len()] == ':',
    ensures
        key_text(key, o).len() > 0,
        is_value_start(s[pos]),
        key_at(s, pos) == Ok::<(Seq<char>, int), ErrorModel>((key, pos + key_text(key, o).len())),
{
    let text = key_text(key, o);
    let quote = quote_of(o.quote_style, key);
    if o.unquoted_keys && unquotable(key) {
        assert(text == key);
        lemma_has_at_index(s, pos, key, 0);
        assert forall|i: int| 0 <= i < key.len() implies is_alpha(#[trigger] key[i]) || is_digit(
            key[i],
        ) || key[i] == '_' by {}
        lemma_word_end(s, pos, key, 1);
        assert(s.subrange(pos, pos + key.len()) == key);
    } else {
        lemma_string_round_trip(s, pos, key, quote, o.escape_unicode);
    }
}

/// What a value is written as starts like a value.
#[verifier::rlimit(50)]
pub proof fn lemma_render_start(v: ValueModel, o: OptionsModel, prefix: Seq<char>)
    requires
        v.wf(),
    ensures
        render(v, o, prefix).len() > 0,
        is_value_start(render(v, o, prefix)[0]),
{
    let text = render(v, o, prefix);
    match v {
        ValueModel::Null => {},
        ValueModel::Bool(b) => {},
        ValueModel::Int(i) => {
            lemma_integer_round_trip(i, o.leading_plus);
        },
        ValueModel::Float(t) => {
            lemma_float_round_trip(t, o.leading_plus);
        },
        ValueModel::String(t) => {},
        ValueModel::Binary(bytes) => {
            reveal_strlit("b64");
            reveal_strlit("h");
        },
        ValueModel::Timestamp(t) => {},
        ValueModel::List(items) => {},
        ValueModel::Mapping(entries) => {},
    }
}

/// Whether every leaf of the value, as the options write it, is read back
/// by the outside crates that read it; see [`leaf_rereads`].
pub open spec fn rereads(v: ValueModel, o: OptionsModel) -> bool
    decreases v,
{
    match v {
        ValueModel::List(items) => forall|i: int|
            0 <= i < items.len() ==> rereads(#[trigger] items[i], o),
        ValueModel::Mapping(entries) => forall|i: int|
            0 <= i < entries.len() ==> rereads((#[trigger] entries[i]).1, o),
        _ => leaf_rereads(v, o),
    }
}

/// The bracket that opens a list or map.
pub open spec fn opening(v: ValueModel) -> char {
    if v is List {
        '['
    } else {
        '{'
    }
}

/// The bracket that closes a list or map.
pub open spec fn closing(v: ValueModel) -> char {
    if v is List {
        ']'
    } else {
        '}'
    }
}

/// Where the children of a list or map that stands at `pos` start.
pub open spec fn children_base(pos: int, l: Layout) -> int {
    pos + 1 + l.open.len()
}

/// A list or map that is not empty is written as its brackets around its
/// children.
#[verifier::rlimit(50)]
pub proof fn lemma_frame(s: Seq<char>, pos: int, v: ValueModel, o: OptionsModel, prefix: Seq<char>)
    requires
        v is List || v is Mapping,
        width(v) > 1,
        has_at(s, pos, render(v, o, prefix)),
    ensures
        ({
            let l = layout(o, prefix);
            let n = (width(v) - 1) as nat;
            let base = children_base(pos, l);
            let all = children(v, o, l, n);
            &&& s[pos] == opening(v)
            &&& has_at(s, pos + 1, l.open)
            &&& has_at(s, base, all)
            &&& has_at(s, base + all.len(), l.close)
            &&& render(v, o, prefix).len() == 2 + l.open.len() + all.len() + l.close.len()
            &&& s[pos + render(v, o, prefix).len() - 1] == closing(v)
            &&& l.open == l.newline
            &&& pos + render(v, o, prefix).len() <= s.len()
        }),
{
    let l = layout(o, prefix);
    let n = (width(v) - 1) as nat;
    let all = children(v, o, l, n);
    let text = render(v, o, prefix);
    let open = seq![opening(v)];
    let close = seq![closing(v)];
    assert(text == open + l.open + all + l.close + close);
    lemma_has_at_concat(s, pos, open + l.open + all + l.close, close);
    lemma_has_at_concat(s, pos, open + l.open + all, l.close);
    lemma_has_at_concat(s, pos, open + l.open, all);
    lemma_has_at_concat(s, pos, open, l.open);
    lemma_has_at_index(s, pos, open, 0);
    lemma_has_at_index(s, pos + text.len() - 1, close, 0);
}

/// What stands around the child at index `k` of a list or map that was
/// written at `pos`: the white space before it is skipped, the child
/// stands in its place, and after it comes a comma or, after the last
/// child, the closing bracket.
#[verifier::rlimit(50)]
pub proof fn lemma_gap(
    s: Seq<char>,
    pos: int,
    v: ValueModel,
    o: OptionsModel,
    prefix: Seq<char>,
    k: nat,
)
    requires
        v is List || v is Mapping,
        k + 1 < width(v),
        has_at(s, pos, render(v, o, prefix)),
        is_blank(prefix),
        is_blank(o.indent),
        child_text(v, o, layout(o, prefix), k + 1).len() > 0,
        !is_space(child_text(v, o, layout(o, prefix), k + 1)[0]),
        child_text(v, o, layout(o, prefix), k + 1)[0] != '/',
    ensures
        ({
            let l = layout(o, prefix);
            let n = (width(v) - 1) as nat;
            let base = children_base(pos, l);
            let enter = base + children(v, o, l, k).len() - l.newline.len();
            let a = base + children(v, o, l, k).len() + l.deeper.len();
            let q = a + child_text(v, o, l, k + 1).len();
            let end = pos + render(v, o, prefix).len();
            &&& pos < enter
            &&& skip_trivia(s, enter) == Ok::<int, ErrorModel>(a)
            &&& has_at(s, a, child_text(v, o, l, k + 1))
            &&& a < q < end <= s.len()
            &&& !is_token_char(s[q])
            &&& s[end - 1] == closing(v)
            &&& comma_after(v, l, k + 1).len() > 0 ==> s[q] == ',' && q + 1 == base + children(
                v,
                o,
                l,
                k + 1,
            ).len() - l.newline.len()
            &&& comma_after(v, l, k + 1).len() == 0 ==> k + 1 == n && skip_trivia(s, q) == Ok::<
                int,
                ErrorModel,
            >(end - 1)
            &&& (k + 1 == n && comma_after(v, l, k + 1).len() > 0) ==> skip_trivia(s, q + 1)
                == Ok::<int, ErrorModel>(end - 1)
        }),
{
    let l = layout(o, prefix);
    let n = (width(v) - 1) as nat;
    let base = children_base(pos, l);
    let done = children(v, o, l, k);
    let e = base + done.len();
    let enter = e - l.newline.len();
    let a = e + l.deeper.len();
    let child = child_text(v, o, l, k + 1);
    let comma = comma_after(v, l, k + 1);
    let q = a + child.len();
    let end = pos + render(v, o, prefix).len();
    lemma_frame(s, pos, v, o, prefix);
    lemma_children_at(s, base, v, o, l, n, k);
    // the line of the child
    let line = line_text(v, o, l, k + 1);
    lemma_has_at_concat(s, e, l.deeper + child + comma, l.newline);
    lemma_has_at_concat(s, e, l.deeper + child, comma);
    lemma_has_at_concat(s, e, l.deeper, child);
    lemma_has_at_index(s, a, child, 0);
    lemma_children_split(v, o, l, k + 1);
    assert(children(v, o, l, k + 1).len() == done.len() + line.len());
    lemma_children_at(s, base, v, o, l, n, k + 1);
    // the white space before the child
    if k == 0 {
        assert(done.len() == 0);
        assert(has_at(s, enter, l.newline));
    } else {
        lemma_children_at(s, base, v, o, l, n, (k - 1) as nat);
        lemma_children_split(v, o, l, k);
        let before = children(v, o, l, (k - 1) as nat);
        let previous = line_text(v, o, l, k);
        lemma_has_at_concat(
            s,
            base + before.len(),
            l.deeper + child_text(v, o, l, k) + comma_after(v, l, k),
            l.newline,
        );
        assert(has_at(s, enter, l.newline));
    }
    assert(is_blank(l.newline + l.deeper)) by {
        assert forall|i: int| 0 <= i < (l.newline + l.deeper).len() implies is_space(
            #[trigger] (l.newline + l.deeper)[i],
        ) by {
            if i >= l.newline.len() {
                let j = i - l.newline.len();
                assert((l.newline + l.deeper)[i] == l.deeper[j]);
                if o.indent.len() != 0 {
                    if j < prefix.len() {
                        assert(l.deeper[j] == prefix[j]);
                    } else {
                        assert(l.deeper[j] == o.indent[j - prefix.len()]);
                    }
                }
            }
        }
    }
    lemma_has_at_concat(s, enter, l.newline, l.deeper);
    lemma_skip_blank(s, enter, l.newline + l.deeper, 0);
    // what follows the child
    let tail = l.newline + l.close;
    assert(is_blank(tail)) by {
        assert forall|i: int| 0 <= i < tail.len() implies is_space(#[trigger] tail[i]) by {
            if i >= l.newline.len() {
                assert(tail[i] == l.close[i - l.newline.len()]);
                if o.indent.len() != 0 {
                    assert(l.close[i - l.newline.len()] == prefix[i - l.newline.len()]);
                }
            }
        }
    }
    if comma.len() > 0 {
        lemma_has_at_index(s, q, comma, 0);
    }
    if k + 1 == n {
        let after = q + comma.len();
        assert(after + l.newline.len() == base + children(v, o, l, n).len());
        lemma_has_at_concat(s, after, l.newline, l.close);
        assert(end - 1 == after + tail.len());
        lemma_skip_blank(s, after, tail, 0);
        if comma.len() == 0 {
            if tail.len() > 0 {
                lemma_has_at_index(s, q, tail, 0);
            }
        }
    } else {
        assert(comma.len() > 0);
    }
}

/// One step of reading a list: an item, then a comma or the closing
/// bracket.
#[verifier::rlimit(50)]
proof fn lemma_list_step(
    s: Seq<char>,
    enter: int,
    acc: Seq<ValueModel>,
    a: int,
    item: ValueModel,
    q: int,
    r: int,
)
    requires
        skip_trivia(s, enter) == Ok::<int, ErrorModel>(a),
        0 <= enter <= a < s.len(),
        s[a] != ']',
        value_at(s, a) == Ok::<(ValueModel, int), ErrorModel>((item, q)),
        a < q,
        skip_trivia(s, q) == Ok::<int, ErrorModel>(r),
        q <= r < s.len(),
    ensures
        list_rest(s, enter, acc) == (if s[r] == ',' {
            list_rest(s, r + 1, acc.push(item))
        } else if s[r] == ']' {
            Ok::<(ValueModel, int), ErrorModel>((ValueModel::List(acc.push(item)), r + 1))
        } else {
            Err::<(ValueModel, int), ErrorModel>(ErrorModel::Syntax(r))
        }),
{
}

/// The end of reading a list: the closing bracket.
#[verifier::rlimit(50)]
proof fn lemma_list_close(s: Seq<char>, enter: int, acc: Seq<ValueModel>, a: int)
    requires
        skip_trivia(s, enter) == Ok::<int, ErrorModel>(a),
        0 <= enter <= a < s.len(),
        s[a] == ']',
    ensures
        list_rest(s, enter, acc) == Ok::<(ValueModel, int), ErrorModel>(
            (ValueModel::List(acc), a + 1),
        ),
{
}

/// One step of reading a map: a key, a colon, a value, then a comma or the
/// closing brace.
#[verifier::rlimit(50)]
proof fn lemma_map_step(
    s: Seq<char>,
    enter: int,
    acc: Seq<(Seq<char>, ValueModel)>,
    a: int,
    key: Seq<char>,
    b: int,
    d: int,
    value: ValueModel,
    q: int,
    r: int,
)
    requires
        skip_trivia(s, enter) == Ok::<int, ErrorModel>(a),
        0 <= enter <= a < s.len(),
        s[a] != '}',
        key_at(s, a) == Ok::<(Seq<char>, int), ErrorModel>((key, b)),
        !has_key(acc, key),
        skip_trivia(s, b) == Ok::<int, ErrorModel>(b),
        0 <= b < s.len(),
        s[b] == ':',
        skip_trivia(s, b + 1) == Ok::<int, ErrorModel>(d),
        a < d <= s.len(),
        value_at(s, d) == Ok::<(ValueModel, int), ErrorModel>((value, q)),
        d < q,
        skip_trivia(s, q) == Ok::<int, ErrorModel>(r),
        q <= r < s.len(),
    ensures
        map_rest(s, enter, acc) == (if s[r] == ',' {
            map_rest(s, r + 1, with_entry(acc, key, value))
        } else if s[r] == '}' {
            Ok::<(ValueModel, int), ErrorModel>(
                (ValueModel::Mapping(with_entry(acc, key, value)), r + 1),
            )
        } else {
            Err::<(ValueModel, int), ErrorModel>(ErrorModel::Syntax(r))
        }),
{
}

/// The end of reading a map: the closing brace.
#[verifier::rlimit(50)]
proof fn lemma_map_close(s: Seq<char>, enter: int, acc: Seq<(Seq<char>, ValueModel)>, a: int)
    requires
        skip_trivia(s, enter) == Ok::<int, ErrorModel>(a),
        0 <= enter <= a < s.len(),
        s[a] == '}',
    ensures
        map_rest(s, enter, acc) == Ok::<(ValueModel, int), ErrorModel>(
            (ValueModel::Mapping(acc), a + 1),
        ),
{
}

/// The white space of a layout is white space.
#[verifier::rlimit(50)]
proof fn lemma_layout_blank(o: OptionsModel, prefix: Seq<char>)
    requires
        is_blank(prefix),
        is_blank(o.indent),
    ensures
        is_blank(layout(o, prefix).deeper),
        is_blank(layout(o, prefix).colon.skip(1)),
        layout(o, prefix).colon.len() >= 1,
        layout(o, prefix).colon[0] == ':',
{
    let l = layout(o, prefix);
    assert forall|i: int| 0 <= i < l.deeper.len() implies is_space(#[trigger] l.deeper[i]) by {
        if o.indent.len() != 0 {
            if i < prefix.len() {
                assert(l.deeper[i] == prefix[i]);
            } else {
                assert(l.deeper[i] == o.indent[i - prefix.len()]);
            }
        }
    }
}

/// A key as it is written starts like a value.
proof fn lemma_key_start(key: Seq<char>, o: OptionsModel)
    ensures
        key_text(key, o).len() > 0,
        !is_space(key_text(key, o)[0]),
        key_text(key, o)[0] != '/',
{
}

/// What it is for a value to read back as itself from `pos`, where it was
/// written as `text`.
pub open spec fn reads_back(s: Seq<char>, pos: int, v: ValueModel, text: Seq<char>) -> bool {
    value_at(s, pos) == Ok::<(ValueModel, int), ErrorModel>((v, pos + text.len()))
}

/// A value that was written into a text reads back as itself from the
/// place where it stands, where no token character follows it.
#[verifier::rlimit(50)]
pub proof fn lemma_value_round_trip(
    s: Seq<char>,
    pos: int,
    v: ValueModel,
    o: OptionsModel,
    prefix: Seq<char>,
)
    requires
        v.wf(),
        rereads(v, o),
        is_blank(o.indent),
        is_blank(prefix),
        has_at(s, pos, render(v, o, prefix)),
        stops_at(s, pos + render(v, o, prefix).len()),
    ensures
        reads_back(s, pos, v, render(v, o, prefix)),
    decreases v, width(v) + 2,
{
    let text = render(v, o, prefix);
    match v {
        ValueModel::List(items) => {
            if items.len() == 0 {
                lemma_has_at_index(s, pos, text, 0);
                lemma_has_at_index(s, pos, text, 1);
                lemma_skip_none(s, pos + 1);
                lemma_list_close(s, pos + 1, Seq::empty(), pos + 1);
                assert(items =~= Seq::<ValueModel>::empty());
            } else {
                lemma_frame(s, pos, v, o, prefix);
                lemma_items(s, pos, v, o, prefix, 0);
                assert(items.take(0) =~= Seq::<ValueModel>::empty());
            }
        },
        ValueModel::Mapping(entries) => {
            if entries.len() == 0 {
                lemma_has_at_index(s, pos, text, 0);
                lemma_has_at_index(s, pos, text, 1);
                lemma_skip_none(s, pos + 1);
                lemma_map_close(s, pos + 1, Seq::empty(), pos + 1);
                assert(entries =~= Seq::<(Seq<char>, ValueModel)>::empty());
            } else {
                lemma_frame(s, pos, v, o, prefix);
                lemma_entries(s, pos, v, o, prefix, 0);
                assert(entries.take(0) =~= Seq::<(Seq<char>, ValueModel)>::empty());
            }
        },
        _ => {
            reveal_strlit("h");
            assert(is_hex_prefix("h"@)) by {
                assert("h"@ =~= seq!['h']);
            }
            lemma_leaf_round_trip(s, pos, v, o, "h"@);
        },
    }
}

/// The items of a list that was written read back from the item at index
/// `k` on, given those before it.
#[verifier::rlimit(50)]
proof fn lemma_items(
    s: Seq<char>,
    pos: int,
    v: ValueModel,
    o: OptionsModel,
    prefix: Seq<char>,
    k: nat,
)
    requires
        v is List,
        v.wf(),
        rereads(v, o),
        is_blank(o.indent),
        is_blank(prefix),
        has_at(s, pos, render(v, o, prefix)),
        k + 1 < width(v),
    ensures
        list_rest(
            s,
            children_base(pos, layout(o, prefix)) + children(v, o, layout(o, prefix), k).len()
                - layout(o, prefix).newline.len(),
            v->List_0.take(k as int),
        ) == Ok::<(ValueModel, int), ErrorModel>((v, pos + render(v, o, prefix).len())),
    decreases v, width(v) - k,
{
    let items = v->List_0;
    let l = layout(o, prefix);
    let n = items.len();
    let base = children_base(pos, l);
    let enter = base + children(v, o, l, k).len() - l.newline.len();
    let a = base + children(v, o, l, k).len() + l.deeper.len();
    let item = items[k as int];
    let child = child_text(v, o, l, k + 1);
    let q = a + child.len();
    let end = pos + render(v, o, prefix).len();
    let acc = items.take(k as int);
    assert(child == render(item, o, l.deeper));
    assert(item.wf());
    assert(rereads(item, o));
    lemma_render_start(item, o, l.deeper);
    lemma_layout_blank(o, prefix);
    lemma_gap(s, pos, v, o, prefix, k);
    lemma_value_round_trip(s, a, item, o, l.deeper);
    lemma_has_at_index(s, a, child, 0);
    assert(acc.push(item) =~= items.take(k as int + 1));
    if comma_after(v, l, k + 1).len() > 0 {
        lemma_skip_none(s, q);
        lemma_list_step(s, enter, acc, a, item, q, q);
        if k + 1 < n {
            lemma_items(s, pos, v, o, prefix, k + 1);
        } else {
            lemma_list_close(s, q + 1, items.take(k as int + 1), end - 1);
            assert(items.take(k as int + 1) =~= items);
        }
    } else {
        lemma_list_step(s, enter, acc, a, item, q, end - 1);
        assert(items.take(k as int + 1) =~= items);
    }
}

/// The entries of a map that was written read back from the entry at
/// index `k` on, given those before it.
#[verifier::rlimit(50)]
proof fn lemma_entries(
    s: Seq<char>,
    pos: int,
    v: ValueModel,
    o: OptionsModel,
    prefix: Seq<char>,
    k: nat,
)
    requires
        v is Mapping,
        v.wf(),
        rereads(v, o),
        is_blank(o.indent),
        is_blank(prefix),
        has_at(s, pos, render(v, o, prefix)),
        k + 1 < width(v),
    ensures
        map_rest(
            s,
            children_base(pos, layout(o, prefix)) + children(v, o, layout(o, prefix), k).len()
                - layout(o, prefix).newline.len(),
            v->Mapping_0.take(k as int),
        ) == Ok::<(ValueModel, int), ErrorModel>((v, pos + render(v, o, prefix).len())),
    decreases v, width(v) - k,
{
    let entries = v->Mapping_0;
    let l = layout(o, prefix);
    let n = entries.len();
    let base = children_base(pos, l);
    let enter = base + children(v, o, l, k).len() - l.newline.len();
    let a = base + children(v, o, l, k).len() + l.deeper.len();
    let key = entries[k as int].0;
    let value = entries[k as int].1;
    let keyed = key_text(key, o);
    let shown = render(value, o, l.deeper);
    let child = child_text(v, o, l, k + 1);
    let b = a + keyed.len();
    let d = b + l.colon.len();
    let q = a + child.len();
    let end = pos + render(v, o, prefix).len();
    let acc = entries.take(k as int);
    assert(child == keyed + l.colon + shown);
    assert(value.wf());
    assert(rereads(value, o));
    lemma_key_start(key, o);
    lemma_render_start(value, o, l.deeper);
    lemma_layout_blank(o, prefix);
    assert(child[0] == keyed[0]);
    lemma_gap(s, pos, v, o, prefix, k);
    // the parts of the entry
    lemma_has_at_concat(s, a, keyed + l.colon, shown);
    lemma_has_at_concat(s, a, keyed, l.colon);
    lemma_has_at_index(s, b, l.colon, 0);
    lemma_has_at_index(s, d, shown, 0);
    lemma_key_round_trip(s, a, key, o);
    lemma_skip_none(s, b);
    assert(l.colon =~= seq![':'] + l.colon.skip(1));
    lemma_has_at_concat(s, b, seq![':'], l.colon.skip(1));
    lemma_skip_blank(s, b + 1, l.colon.skip(1), 0);
    lemma_value_round_trip(s, d, value, o, l.deeper);
    // the key is new, and the entry goes to the end
    assert(keys_increase(acc)) by {
        assert forall|i: int, j: int| 0 <= i < j < acc.len() implies seq_less(
            #[trigger] acc[i].0,
            #[trigger] acc[j].0,
        ) by {
            assert(acc[i] == entries[i] && acc[j] == entries[j]);
        }
    }
    assert forall|j: int| 0 <= j < acc.len() implies seq_less(#[trigger] acc[j].0, key) by {
        assert(acc[j] == entries[j]);
    }
    lemma_with_entry_last(acc, key, value);
    assert(acc.push((key, value)) =~= entries.take(k as int + 1));
    if comma_after(v, l, k + 1).len() > 0 {
        lemma_skip_none(s, q);
        lemma_map_step(s, enter, acc, a, key, b, d, value, q, q);
        if k + 1 < n {
            lemma_entries(s, pos, v, o, prefix, k + 1);
        } else {
            lemma_map_close(s, q + 1, entries.take(k as int + 1), end - 1);
            assert(entries.take(k as int + 1) =~= entries);
        }
    } else {
        lemma_map_step(s, enter, acc, a, key, b, d, value, q, end - 1);
        assert(entries.take(k as int + 1) =~= entries);
    }
}

/// Round trip: a well-formed value that was written as JASN under any
/// options whose indent string is white space reads back as itself, given
/// that its base64 and timestamp leaves are read back by the crates that
/// read them.
pub proof fn lemma_round_trip(v: ValueModel, o: OptionsModel)
    requires
        v.wf(),
        rereads(v, o),
        is_blank(o.indent),
    ensures
        document(render(v, o, Seq::empty())) == Ok::<ValueModel, ErrorModel>(v),
{
    let text = render(v, o, Seq::empty());
    lemma_render_start(v, o, Seq::empty());
    assert(text.subrange(0, text.len() as int) =~= text);
    lemma_value_round_trip(text, 0, v, o, Seq::empty());
    lemma_skip_none(text, 0);
    lemma_skip_none(text, text.len() as int);
}

/// Idempotence of formatting: writing a value, reading the text and
/// writing what was read gives the same text again.
pub proof fn lemma_format_idempotent(v: ValueModel, o: OptionsModel)
    requires
        v.wf(),
        rereads(v, o),
        is_blank(o.indent),
    ensures
        document(render(v, o, Seq::empty())) matches Ok(w) && render(w, o, Seq::empty())
            == render(v, o, Seq::empty()),
{
    lemma_round_trip(v, o);
}

} // verus!
