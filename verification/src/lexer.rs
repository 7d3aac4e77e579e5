//! The literal lexer: from the text of a scalar token to its value.

use vstd::prelude::*;
use crate::binary::Binary;
use crate::error::{Error, ErrorModel};
use crate::text::{
    check_hex_digit, check_radix_digit, digit_value, is_hex_digit, is_radix_digit, slice_of,
    string_of, value_of_digit,
};
use crate::timestamp::{checked_timestamp, rfc3339_parsed, Timestamp, TimestampModel};
use crate::value::binary_limit;

verus! {

/// What the base64 crate's standard engine, with padding required, decodes
/// the text to; `None` where it rejects the text.
pub uninterp spec fn base64_decoded(text: Seq<char>) -> Option<Seq<u8>>;

/// The error of the base64 crate's decoder, carried through unread.
#[verifier::external_type_specification]
#[verifier::external_body]
pub struct ExDecodeError(base64::DecodeError);

/// Calls `decode` of the base64 crate's `STANDARD` engine: the standard
/// alphabet, canonical `=` padding required, no stray trailing bits.
#[verifier::external_body]
fn decode_base64(text: &str) -> (r: Result<Vec<u8>, base64::DecodeError>)
    ensures
        match r {
            Ok(bytes) => base64_decoded(text@) == Some(bytes@),
            Err(_) => base64_decoded(text@).is_none(),
        },
{
    base64::Engine::decode(&base64::engine::general_purpose::STANDARD, text)
}

/// Whether `t` is a run of digits of the radix with single underscores
/// strictly between digits.
pub open spec fn is_digit_run(t: Seq<char>, radix: int) -> bool {
    &&& t.len() > 0
    &&& is_radix_digit(t[0], radix)
    &&& is_radix_digit(t.last(), radix)
    &&& forall|i: int| 0 <= i < t.len() ==> is_radix_digit(#[trigger] t[i], radix) || t[i] == '_'
    &&& forall|i: int| 0 <= i < t.len() - 1 ==> !(#[trigger] t[i] == '_' && t[i + 1] == '_')
}

/// The number that a digit run denotes in the radix; underscores do not
/// count.
pub open spec fn run_value(t: Seq<char>, radix: int) -> int
    decreases t.len(),
{
    if t.len() == 0 {
        0
    } else if t.last() == '_' {
        run_value(t.drop_last(), radix)
    } else {
        run_value(t.drop_last(), radix) * radix + digit_value(t.last())
    }
}

/// Whether a token carries a sign.
pub open spec fn is_signed(token: Seq<char>) -> bool {
    token.len() > 0 && (token[0] == '+' || token[0] == '-')
}

/// The token without its sign.
pub open spec fn unsigned_part(token: Seq<char>) -> Seq<char> {
    if is_signed(token) {
        token.skip(1)
    } else {
        token
    }
}

/// The radix that the prefix of an unsigned integer token selects.
pub open spec fn radix_of(body: Seq<char>) -> int {
    if body.len() >= 2 && body[0] == '0' && (body[1] == 'x' || body[1] == 'X') {
        16
    } else if body.len() >= 2 && body[0] == '0' && (body[1] == 'b' || body[1] == 'B') {
        2
    } else if body.len() >= 2 && body[0] == '0' && (body[1] == 'o' || body[1] == 'O') {
        8
    } else {
        10
    }
}

/// The digits of an unsigned integer token, after its radix prefix.
pub open spec fn digits_of(body: Seq<char>) -> Seq<char> {
    if radix_of(body) == 10 {
        body
    } else {
        body.skip(2)
    }
}

/// The integer that a token denotes: `None` where the token is not shaped
/// like an integer, an overflow error where the number lies outside the
/// 64-bit signed range, else the number.
///
/// An integer is an optional sign, an optional radix prefix (`0x`, `0b`,
/// `0o`, either case) and a digit run of that radix.
pub open spec fn integer_of_token(token: Seq<char>) -> Option<Result<int, ErrorModel>> {
    let body = unsigned_part(token);
    let radix = radix_of(body);
    let digits = digits_of(body);
    if !is_digit_run(digits, radix) {
        None
    } else {
        let magnitude = run_value(digits, radix);
        let value = if token[0] == '-' {
            -magnitude
        } else {
            magnitude
        };
        if -0x8000_0000_0000_0000 <= value <= 0x7fff_ffff_ffff_ffff {
            Some(Ok(value))
        } else {
            Some(Err(ErrorModel::IntegerOverflow))
        }
    }
}

/// The value of a run never shrinks as the run grows.
#[verifier::rlimit(50)]
pub proof fn lemma_run_value_grows(t: Seq<char>, radix: int, k: int)
    requires
        0 <= k <= t.len(),
        radix >= 2,
    ensures
        0 <= run_value(t.take(k), radix) <= run_value(t, radix),
    decreases t.len(),
{
    if k == t.len() {
        assert(t.take(k) =~= t);
        if t.len() > 0 {
            lemma_run_value_grows(t.drop_last(), radix, k - 1);
            assert(t.drop_last().take(k - 1) =~= t.drop_last());
            assert(run_value(t.drop_last(), radix) * radix >= 0) by (nonlinear_arith)
                requires
                    run_value(t.drop_last(), radix) >= 0,
                    radix >= 2,
            ;
        }
    } else {
        lemma_run_value_grows(t.drop_last(), radix, k);
        assert(t.drop_last().take(k) =~= t.take(k));
        lemma_run_value_grows(t.drop_last(), radix, t.len() - 1);
        assert(t.drop_last().take(t.len() - 1) =~= t.drop_last());
        let m = run_value(t.drop_last(), radix);
        assert(m * radix >= m) by (nonlinear_arith)
            requires
                m >= 0,
                radix >= 2,
        ;
    }
}

/// Whether `t` is a digit run of the radix.
#[verifier::rlimit(50)]
fn check_digit_run(t: &Vec<char>, radix: u32) -> (r: bool)
    ensures
        r == is_digit_run(t@, radix as int),
{
    if t.len() == 0 {
        return false;
    }
    if !check_radix_digit(t[0], radix) || !check_radix_digit(t[t.len() - 1], radix) {
        return false;
    }
    let mut i: usize = 0;
    while i < t.len()
        invariant
            i <= t.len(),
            t.len() > 0,
            forall|j: int|
                0 <= j < i ==> is_radix_digit(#[trigger] t@[j], radix as int) || t@[j] == '_',
            forall|j: int| 0 <= j < i && j < t.len() - 1 ==> !(#[trigger] t@[j] == '_' && t@[j + 1] == '_'),
        decreases t.len() - i,
    {
        let c = t[i];
        if !(check_radix_digit(c, radix) || c == '_') {
            return false;
        }
        if c == '_' && i + 1 < t.len() && t[i + 1] == '_' {
            return false;
        }
        i += 1;
    }
    true
}

/// The view of the outcome of lexing an integer.
pub open spec fn integer_result(r: Option<Result<i64, Error>>) -> Option<Result<int, ErrorModel>> {
    match r {
        None => None,
        Some(Ok(v)) => Some(Ok(v as int)),
        Some(Err(e)) => Some(Err(e@)),
    }
}

/// The integer that a token denotes; see [`integer_of_token`].
#[verifier::rlimit(50)]
pub fn lex_integer(token: &Vec<char>) -> (r: Option<Result<i64, Error>>)
    ensures
        integer_result(r) == integer_of_token(token@),
        r matches Some(Err(e)) ==> !(e is Syntax),
{
    let signed = token.len() > 0 && (token[0] == '+' || token[0] == '-');
    let negative = token.len() > 0 && token[0] == '-';
    let start: usize = if signed {
        1
    } else {
        0
    };
    let body = slice_of(token, start, token.len());
    assert(body@ =~= unsigned_part(token@));
    let mut radix: u32 = 10;
    assert(is_signed(token@) ==> token@.len() > 0);
    if body.len() >= 2 && body[0] == '0' {
        let p = body[1];
        if p == 'x' || p == 'X' {
            radix = 16;
        } else if p == 'b' || p == 'B' {
            radix = 2;
        } else if p == 'o' || p == 'O' {
            radix = 8;
        }
    }
    let digits = if radix == 10 {
        slice_of(&body, 0, body.len())
    } else {
        slice_of(&body, 2, body.len())
    };
    assert(digits@ =~= digits_of(body@));
    if !check_digit_run(&digits, radix) {
        return None;
    }
    let limit: u128 = if negative {
        0x8000_0000_0000_0000
    } else {
        0x7fff_ffff_ffff_ffff
    };
    let mut m: u128 = 0;
    let mut i: usize = 0;
    assert(digits@.take(0) =~= Seq::<char>::empty());
    while i < digits.len()
        invariant
            i <= digits.len(),
            2 <= radix <= 16,
            is_digit_run(digits@, radix as int),
            m == run_value(digits@.take(i as int), radix as int),
            m <= limit,
            limit == (if negative {
                0x8000_0000_0000_0000u128
            } else {
                0x7fff_ffff_ffff_ffffu128
            }),
            negative == (token@.len() > 0 && token@[0] == '-'),
            digits@ == digits_of(unsigned_part(token@)),
            radix == radix_of(unsigned_part(token@)),
        decreases digits.len() - i,
    {
        let c = digits[i];
        proof {
            let next = digits@.take(i as int + 1);
            assert(next.drop_last() =~= digits@.take(i as int));
            assert(next.last() == c);
        }
        if c != '_' {
            let d = value_of_digit(c);
            assert(m * (radix as u128) <= 0x8000_0000_0000_0000 * 16) by (nonlinear_arith)
                requires
                    m <= 0x8000_0000_0000_0000,
                    radix <= 16,
            ;
            let next: u128 = m * (radix as u128) + (d as u128);
            if next > limit {
                proof {
                    lemma_run_value_grows(digits@, radix as int, i as int + 1);
                    assert(run_value(digits@.take(i as int + 1), radix as int) == next);
                    assert(run_value(digits@, radix as int) > limit);
                }
                return Some(Err(Error::IntegerOverflow));
            }
            m = next;
        }
        i += 1;
    }
    assert(digits@.take(digits.len() as int) =~= digits@);
    let wide: i128 = if negative {
        -(m as i128)
    } else {
        m as i128
    };
    Some(Ok(wide as i64))
}

/// The number that the four hexadecimal digits at `pos` denote.
pub open spec fn hex4_value(s: Seq<char>, pos: int) -> int {
    digit_value(s[pos]) * 4096 + digit_value(s[pos + 1]) * 256 + digit_value(s[pos + 2]) * 16
        + digit_value(s[pos + 3])
}

/// Whether four hexadecimal digits stand at `pos`.
pub open spec fn has_hex4(s: Seq<char>, pos: int) -> bool {
    0 <= pos && pos + 4 <= s.len() && is_hex_digit(s[pos]) && is_hex_digit(s[pos + 1])
        && is_hex_digit(s[pos + 2]) && is_hex_digit(s[pos + 3])
}

/// The rest of `s` from `pos`, at most four characters of it.
pub open spec fn up_to_four(s: Seq<char>, pos: int) -> Seq<char> {
    if pos + 4 <= s.len() {
        s.subrange(pos, pos + 4)
    } else {
        s.subrange(pos, s.len() as int)
    }
}

/// The character that a `\u` escape denotes, with the position after it,
/// where `pos` is the position after the `u`.
///
/// Four hexadecimal digits are required. A high surrogate must be followed
/// at once by a `\u` escape of a low surrogate, and the two denote one
/// character. A surrogate without its partner is an error.
pub open spec fn unicode_at(s: Seq<char>, pos: int) -> Result<(char, int), ErrorModel> {
    if !has_hex4(s, pos) {
        Err(ErrorModel::InvalidUnicodeEscape(up_to_four(s, pos)))
    } else {
        let code = hex4_value(s, pos);
        if 0xD800 <= code <= 0xDBFF {
            if pos + 6 <= s.len() && s[pos + 4] == '\\' && s[pos + 5] == 'u' && has_hex4(
                s,
                pos + 6,
            ) && 0xDC00 <= hex4_value(s, pos + 6) <= 0xDFFF {
                Ok(
                    (
                        (0x10000 + (code - 0xD800) * 1024 + (hex4_value(s, pos + 6) - 0xDC00)) as u32 as char,
                        pos + 10,
                    ),
                )
            } else {
                Err(ErrorModel::InvalidUnicodeCodepoint(code))
            }
        } else if 0xDC00 <= code <= 0xDFFF {
            Err(ErrorModel::InvalidUnicodeCodepoint(code))
        } else {
            Ok((code as u32 as char, pos + 4))
        }
    }
}

/// The character that a one-letter escape denotes, if the letter names one.
pub open spec fn simple_escape(e: char) -> Option<char> {
    if e == '"' || e == '\'' || e == '\\' || e == '/' {
        Some(e)
    } else if e == 'n' {
        Some('\n')
    } else if e == 't' {
        Some('\t')
    } else if e == 'r' {
        Some('\r')
    } else if e == 'b' {
        Some(8u32 as char)
    } else if e == 'f' {
        Some(12u32 as char)
    } else {
        None
    }
}

/// The content of a string literal and the position after its closing
/// quote, where `pos` stands after the opening quote and `acc` holds the
/// content read so far.
///
/// The content runs to the first quote of kind `quote` that is not
/// escaped. A backslash starts an escape. A string that the text ends in
/// is a syntax error at the end of the text.
pub open spec fn string_rest(s: Seq<char>, pos: int, quote: char, acc: Seq<char>) -> Result<
    (Seq<char>, int),
    ErrorModel,
>
    decreases s.len() - pos,
{
    if pos < 0 || pos >= s.len() {
        Err(ErrorModel::Syntax(s.len() as int))
    } else if s[pos] == quote {
        Ok((acc, pos + 1))
    } else if s[pos] == '\\' {
        if pos + 1 >= s.len() {
            Err(ErrorModel::Syntax(s.len() as int))
        } else if s[pos + 1] == 'u' {
            match unicode_at(s, pos + 2) {
                Err(e) => Err(e),
                Ok((c, next)) => if next > pos {
                    string_rest(s, next, quote, acc.push(c))
                } else {
                    Err(ErrorModel::Syntax(pos))
                },
            }
        } else {
            match simple_escape(s[pos + 1]) {
                Some(c) => string_rest(s, pos + 2, quote, acc.push(c)),
                None => Err(ErrorModel::InvalidEscapeChar(s[pos + 1])),
            }
        }
    } else {
        string_rest(s, pos + 1, quote, acc.push(s[pos]))
    }
}

fn check_hex4(s: &Vec<char>, pos: usize) -> (r: bool)
    ensures
        r == has_hex4(s@, pos as int),
{
    pos <= s.len() && s.len() - pos >= 4 && check_hex_digit(s[pos]) && check_hex_digit(s[pos + 1])
        && check_hex_digit(s[pos + 2]) && check_hex_digit(s[pos + 3])
}

fn read_hex4(s: &Vec<char>, pos: usize) -> (r: u32)
    requires
        has_hex4(s@, pos as int),
    ensures
        r == hex4_value(s@, pos as int),
        r < 0x10000,
{
    assert(pos + 4 <= s.len());
    value_of_digit(s[pos]) * 4096 + value_of_digit(s[pos + 1]) * 256 + value_of_digit(s[pos + 2])
        * 16 + value_of_digit(s[pos + 3])
}

/// The view of the outcome of reading a `\u` escape.
pub open spec fn unicode_result(r: Result<(char, usize), Error>) -> Result<(char, int), ErrorModel> {
    match r {
        Ok((c, next)) => Ok((c, next as int)),
        Err(e) => Err(e@),
    }
}

#[verifier::rlimit(50)]
fn lex_unicode(s: &Vec<char>, pos: usize) -> (r: Result<(char, usize), Error>)
    requires
        pos <= s.len(),
    ensures
        unicode_result(r) == unicode_at(s@, pos as int),
        r matches Ok((_, next)) ==> pos < next <= s.len(),
        r matches Err(e) ==> e.within(s.len()),
{
    if !check_hex4(s, pos) {
        let end: usize = if s.len() - pos >= 4 {
            pos + 4
        } else {
            s.len()
        };
        return Err(Error::InvalidUnicodeEscape(string_of(&slice_of(s, pos, end))));
    }
    let code = read_hex4(s, pos);
    if 0xD800 <= code && code <= 0xDBFF {
        if s.len() - pos >= 6 && s[pos + 4] == '\\' && s[pos + 5] == 'u' && check_hex4(s, pos + 6) {
            let low = read_hex4(s, pos + 6);
            if 0xDC00 <= low && low <= 0xDFFF {
                let joined: u32 = 0x10000 + (code - 0xD800) * 1024 + (low - 0xDC00);
                match char::from_u32(joined) {
                    Some(c) => {
                        return Ok((c, pos + 10));
                    },
                    None => {
                        return Err(Error::InvalidUnicodeCodepoint(code));
                    },
                }
            }
        }
        Err(Error::InvalidUnicodeCodepoint(code))
    } else if 0xDC00 <= code && code <= 0xDFFF {
        Err(Error::InvalidUnicodeCodepoint(code))
    } else {
        match char::from_u32(code) {
            Some(c) => Ok((c, pos + 4)),
            None => Err(Error::InvalidUnicodeCodepoint(code)),
        }
    }
}

fn lex_simple_escape(e: char) -> (r: Option<char>)
    ensures
        r == simple_escape(e),
{
    if e == '"' || e == '\'' || e == '\\' || e == '/' {
        Some(e)
    } else if e == 'n' {
        Some('\n')
    } else if e == 't' {
        Some('\t')
    } else if e == 'r' {
        Some('\r')
    } else if e == 'b' {
        char::from_u32(8)
    } else if e == 'f' {
        char::from_u32(12)
    } else {
        None
    }
}

/// The view of the outcome of lexing a piece of text.
pub open spec fn text_result(r: Result<(Vec<char>, usize), Error>) -> Result<
    (Seq<char>, int),
    ErrorModel,
> {
    match r {
        Ok((chars, next)) => Ok((chars@, next as int)),
        Err(e) => Err(e@),
    }
}

/// Reads a string literal whose opening quote, of kind `quote`, stands just
/// before `pos`: its content with the escapes resolved, and the position
/// after the closing quote.
#[verifier::rlimit(50)]
pub fn lex_string(s: &Vec<char>, pos: usize, quote: char) -> (r: Result<(Vec<char>, usize), Error>)
    requires
        pos <= s.len(),
    ensures
        text_result(r) == string_rest(s@, pos as int, quote, Seq::empty()),
        r matches Ok((_, next)) ==> pos < next <= s.len(),
        r matches Err(e) ==> e.within(s.len()),
{
    let mut acc: Vec<char> = Vec::new();
    let mut i: usize = pos;
    loop
        invariant
            pos <= i <= s.len(),
            string_rest(s@, pos as int, quote, Seq::empty()) == string_rest(
                s@,
                i as int,
                quote,
                acc@,
            ),
        decreases s.len() - i,
    {
        if i >= s.len() {
            return Err(Error::Syntax(s.len()));
        }
        let c = s[i];
        if c == quote {
            return Ok((acc, i + 1));
        }
        if c == '\\' {
            if i + 1 >= s.len() {
                return Err(Error::Syntax(s.len()));
            }
            let e = s[i + 1];
            if e == 'u' {
                match lex_unicode(s, i + 2) {
                    Err(err) => {
                        return Err(err);
                    },
                    Ok((ch, next)) => {
                        acc.push(ch);
                        i = next;
                    },
                }
            } else {
                match lex_simple_escape(e) {
                    Some(ch) => {
                        acc.push(ch);
                        i = i + 2;
                    },
                    None => {
                        return Err(Error::InvalidEscapeChar(e));
                    },
                }
            }
        } else {
            acc.push(c);
            i = i + 1;
        }
    }
}

/// The position of the first `"` at or after `pos`, or the length of the
/// text where there is none.
pub open spec fn quote_end(s: Seq<char>, pos: int) -> int
    decreases s.len() - pos,
{
    if 0 <= pos < s.len() && s[pos] != '"' {
        quote_end(s, pos + 1)
    } else {
        pos
    }
}

/// The position of the first `"` at or after `pos`, or the length of the
/// text.
pub fn find_quote(s: &Vec<char>, pos: usize) -> (r: usize)
    requires
        pos <= s.len(),
    ensures
        r == quote_end(s@, pos as int),
        pos <= r <= s.len(),
{
    let mut i: usize = pos;
    while i < s.len() && s[i] != '"'
        invariant
            pos <= i <= s.len(),
            quote_end(s@, pos as int) == quote_end(s@, i as int),
        decreases s.len() - i,
    {
        i += 1;
    }
    i
}

/// The position of the first character of `t` that is no hexadecimal digit,
/// or the length of `t`.
pub open spec fn hex_run_end(t: Seq<char>, pos: int) -> int
    decreases t.len() - pos,
{
    if 0 <= pos < t.len() && is_hex_digit(t[pos]) {
        hex_run_end(t, pos + 1)
    } else {
        pos
    }
}

/// The bytes that pairs of hexadecimal digits denote.
pub open spec fn hex_bytes(t: Seq<char>) -> Seq<u8>
    decreases t.len(),
{
    if t.len() < 2 {
        Seq::empty()
    } else {
        hex_bytes(t.take(t.len() - 2)).push(
            (digit_value(t[t.len() - 2]) * 16 + digit_value(t[t.len() - 1])) as u8,
        )
    }
}

/// The bytes that the content of a hex literal denotes: an error for an odd
/// number of characters, an error naming the first character that is no
/// hexadecimal digit, else one byte for each pair of digits.
pub open spec fn hex_decoded(t: Seq<char>) -> Result<Seq<u8>, ErrorModel> {
    if t.len() % 2 != 0 {
        Err(ErrorModel::OddHexDigits)
    } else if hex_run_end(t, 0) < t.len() {
        Err(ErrorModel::InvalidHexDigit(t[hex_run_end(t, 0)]))
    } else {
        Ok(hex_bytes(t))
    }
}

/// The bytes that the content of a base64 literal denotes.
pub open spec fn base64_content(t: Seq<char>) -> Result<Seq<u8>, ErrorModel> {
    match base64_decoded(t) {
        Some(bytes) => if bytes.len() <= binary_limit() {
            Ok(bytes)
        } else {
            Err(ErrorModel::InvalidBase64)
        },
        None => Err(ErrorModel::InvalidBase64),
    }
}

/// The timestamp that the content of a timestamp literal denotes.
pub open spec fn timestamp_content(t: Seq<char>) -> Result<TimestampModel, ErrorModel> {
    match checked_timestamp(rfc3339_parsed(t)) {
        Ok(ts) => Ok(ts),
        Err(reason) => Err(ErrorModel::InvalidTimestamp(t, reason)),
    }
}

/// The view of the outcome of decoding binary content.
pub open spec fn bytes_result(r: Result<Binary, Error>) -> Result<Seq<u8>, ErrorModel> {
    match r {
        Ok(b) => Ok(b@),
        Err(e) => Err(e@),
    }
}

/// Decodes the content of a hex literal; see [`hex_decoded`].
#[verifier::rlimit(50)]
pub fn lex_hex(t: &Vec<char>) -> (r: Result<Binary, Error>)
    ensures
        bytes_result(r) == hex_decoded(t@),
        r matches Ok(b) ==> b@.len() <= binary_limit(),
        r matches Err(e) ==> !(e is Syntax),
{
    if t.len() % 2 != 0 {
        return Err(Error::OddHexDigits);
    }
    let mut i: usize = 0;
    while i < t.len()
        invariant
            i <= t.len(),
            t.len() % 2 == 0,
            hex_run_end(t@, 0) == hex_run_end(t@, i as int),
            forall|j: int| 0 <= j < i ==> is_hex_digit(#[trigger] t@[j]),
        decreases t.len() - i,
    {
        if !check_hex_digit(t[i]) {
            assert(hex_run_end(t@, i as int) == i);
            return Err(Error::InvalidHexDigit(t[i]));
        }
        i += 1;
    }
    assert(hex_run_end(t@, t.len() as int) == t.len());
    let mut bytes: Vec<u8> = Vec::new();
    let mut k: usize = 0;
    assert(t@.take(0) =~= Seq::<char>::empty());
    while k < t.len()
        invariant
            k <= t.len(),
            k % 2 == 0,
            t.len() % 2 == 0,
            hex_run_end(t@, 0) == t.len(),
            forall|j: int| 0 <= j < t.len() ==> is_hex_digit(#[trigger] t@[j]),
            bytes@ == hex_bytes(t@.take(k as int)),
            bytes@.len() * 2 == k,
        decreases t.len() - k,
    {
        let high = value_of_digit(t[k]);
        let low = value_of_digit(t[k + 1]);
        bytes.push((high * 16 + low) as u8);
        proof {
            let next = t@.take(k as int + 2);
            assert(next.take(next.len() - 2) =~= t@.take(k as int));
        }
        k += 2;
    }
    assert(t@.take(t.len() as int) =~= t@);
    Ok(Binary(bytes))
}

/// Decodes the content of a base64 literal; see [`base64_content`].
pub fn lex_base64(t: &Vec<char>) -> (r: Result<Binary, Error>)
    ensures
        bytes_result(r) == base64_content(t@),
        r matches Ok(b) ==> b@.len() <= binary_limit(),
        r matches Err(e) ==> !(e is Syntax),
{
    let text = string_of(t);
    match decode_base64(text.as_str()) {
        Ok(bytes) => {
            if bytes.len() <= (usize::MAX / 4) * 3 {
                Ok(Binary(bytes))
            } else {
                Err(Error::InvalidBase64)
            }
        },
        Err(_) => Err(Error::InvalidBase64),
    }
}

/// The view of the outcome of reading timestamp content.
pub open spec fn instant_result(r: Result<Timestamp, Error>) -> Result<TimestampModel, ErrorModel> {
    match r {
        Ok(t) => Ok(t@),
        Err(e) => Err(e@),
    }
}

/// Reads the content of a timestamp literal; see [`timestamp_content`].
pub fn lex_timestamp(t: &Vec<char>) -> (r: Result<Timestamp, Error>)
    ensures
        instant_result(r) == timestamp_content(t@),
        r matches Ok(ts) ==> ts.wf(),
        r matches Err(e) ==> !(e is Syntax),
{
    let text = string_of(t);
    match Timestamp::parse(text.as_str()) {
        Ok(ts) => Ok(ts),
        Err(reason) => Err(Error::InvalidTimestamp(text, reason)),
    }
}

} // verus!
