//! How the leaves of a value are written: integers, floats, strings, keys,
//! binary data and timestamps. Both syntaxes write their leaves alike.

use vstd::prelude::*;
use crate::text::{
    chars_of, check_alpha, check_digit, has_char, hex_char, hex_char_of, is_alpha, is_digit,
    push_all, push_str, same_chars,
};
use crate::timestamp::{described_text, rfc3339_text, Timestamp, TimestampModel};
use crate::value::binary_limit;

verus! {

/// The text that the base64 crate's standard engine, with padding, encodes
/// the bytes to.
pub uninterp spec fn base64_encoded(bytes: Seq<u8>) -> Seq<char>;

/// Calls `encode` of the base64 crate's `STANDARD` engine (the standard
/// alphabet, with `=` padding), which panics only where the length of the
/// encoding overflows.
#[verifier::external_body]
fn encode_base64(bytes: &[u8]) -> (r: String)
    requires
        bytes@.len() <= binary_limit(),
    ensures
        r@ == base64_encoded(bytes@),
{
    base64::Engine::encode(&base64::engine::general_purpose::STANDARD, bytes)
}

/// The decimal digits of a natural number, most significant first.
pub open spec fn nat_text(n: nat) -> Seq<char>
    decreases n,
{
    if n < 10 {
        seq![hex_char(n as int)]
    } else {
        nat_text(n / 10).push(hex_char((n % 10) as int))
    }
}

/// The decimal text of an integer: a minus sign for negative numbers, then
/// the digits of the magnitude.
pub open spec fn int_text(i: int) -> Seq<char> {
    if i < 0 {
        seq!['-'] + nat_text((-i) as nat)
    } else {
        nat_text(i as nat)
    }
}

/// An integer as it is written: its decimal text, with a `+` in front of
/// non-negative numbers where asked for.
pub open spec fn int_literal(i: int, leading_plus: bool) -> Seq<char> {
    if leading_plus && i >= 0 {
        seq!['+'] + int_text(i)
    } else {
        int_text(i)
    }
}

/// A float as it is written: its canonical text, with a `+` in front where
/// asked for, unless it is `nan` or negative.
pub open spec fn float_literal(text: Seq<char>, leading_plus: bool) -> Seq<char> {
    if leading_plus && text != seq!['n', 'a', 'n'] && !(text.len() > 0 && text[0] == '-') {
        seq!['+'] + text
    } else {
        text
    }
}

/// Four lower-case hexadecimal digits for a number below 0x10000.
pub open spec fn hex4(code: int) -> Seq<char> {
    seq![
        hex_char(code / 4096),
        hex_char((code / 256) % 16),
        hex_char((code / 16) % 16),
        hex_char(code % 16),
    ]
}

/// A `\uXXXX` escape for a number below 0x10000.
pub open spec fn unicode_escape(code: int) -> Seq<char> {
    seq!['\\', 'u'] + hex4(code)
}

/// Unicode control characters: U+0000..=U+001F and U+007F..=U+009F.
pub open spec fn is_control(c: char) -> bool {
    (c as u32) <= 0x1f || (0x7f <= (c as u32) && (c as u32) <= 0x9f)
}

/// How one character of a string is written between quotes of kind `quote`.
pub open spec fn escaped_char(c: char, quote: char, escape_unicode: bool) -> Seq<char> {
    let code = c as u32 as int;
    if c == '"' && quote == '"' {
        seq!['\\', '"']
    } else if c == '\'' && quote == '\'' {
        seq!['\\', '\'']
    } else if c == '\\' {
        seq!['\\', '\\']
    } else if c == '/' {
        seq!['\\', '/']
    } else if c == '\n' {
        seq!['\\', 'n']
    } else if c == '\t' {
        seq!['\\', 't']
    } else if c == '\r' {
        seq!['\\', 'r']
    } else if code == 8 {
        seq!['\\', 'b']
    } else if code == 12 {
        seq!['\\', 'f']
    } else if is_control(c) {
        unicode_escape(code)
    } else if escape_unicode && code > 0x7f {
        if code <= 0xFFFF {
            unicode_escape(code)
        } else {
            unicode_escape(0xD800 + (code - 0x10000) / 1024) + unicode_escape(
                0xDC00 + (code - 0x10000) % 1024,
            )
        }
    } else {
        seq![c]
    }
}

/// How the characters of a string are written between quotes.
pub open spec fn escaped(s: Seq<char>, quote: char, escape_unicode: bool) -> Seq<char>
    decreases s.len(),
{
    if s.len() == 0 {
        Seq::empty()
    } else {
        escaped(s.drop_last(), quote, escape_unicode) + escaped_char(
            s.last(),
            quote,
            escape_unicode,
        )
    }
}

/// A string as it is written: the quote, the escaped characters, the quote.
pub open spec fn string_literal(s: Seq<char>, quote: char, escape_unicode: bool) -> Seq<char> {
    seq![quote] + escaped(s, quote, escape_unicode) + seq![quote]
}

/// The quote that "prefer double" picks: single only where that saves
/// escaping, that is, where the string holds `"` and no `'`.
pub open spec fn preferred_quote(s: Seq<char>) -> char {
    if s.contains('"') && !s.contains('\'') {
        '\''
    } else {
        '"'
    }
}

/// Two lower-case hexadecimal digits for each byte.
pub open spec fn hex_text(bytes: Seq<u8>) -> Seq<char>
    decreases bytes.len(),
{
    if bytes.len() == 0 {
        Seq::empty()
    } else {
        hex_text(bytes.drop_last()).push(hex_char(bytes.last() as int / 16)).push(
            hex_char(bytes.last() as int % 16),
        )
    }
}

/// A binary literal: the prefix, a `"`, the encoded bytes, a `"`.
pub open spec fn binary_literal(prefix: Seq<char>, encoded: Seq<char>) -> Seq<char> {
    prefix + seq!['"'] + encoded + seq!['"']
}

/// Whether `text` ends with `tail`.
pub open spec fn ends_with(text: Seq<char>, tail: Seq<char>) -> bool {
    text.len() >= tail.len() && text.skip(text.len() - tail.len()) == tail
}

/// The RFC 3339 text with its UTC designator as asked for: a final `Z`
/// becomes `+00:00` where Zulu notation is not wanted.
pub open spec fn zulu_to_offset(text: Seq<char>, use_zulu: bool) -> Seq<char> {
    if !use_zulu && ends_with(text, seq!['Z']) {
        text.drop_last() + seq!['+', '0', '0', ':', '0', '0']
    } else {
        text
    }
}

/// Text with a numeric offset, with its UTC designator as asked for: a
/// final `+00:00` becomes `Z` where Zulu notation is wanted.
pub open spec fn offset_to_zulu(text: Seq<char>, use_zulu: bool) -> Seq<char> {
    if use_zulu && ends_with(text, seq!['+', '0', '0', ':', '0', '0']) {
        text.take(text.len() - 6) + seq!['Z']
    } else {
        text
    }
}

/// A timestamp literal around the given date-time text.
pub open spec fn timestamp_literal(text: Seq<char>) -> Seq<char> {
    seq!['t', 's', '"'] + text + seq!['"']
}

/// The text of a timestamp at a precision: with `None` the RFC 3339 text
/// with the digits the instant needs, else the text under the description.
pub open spec fn timestamp_text(
    t: TimestampModel,
    description: Option<Seq<char>>,
    use_zulu: bool,
) -> Seq<char> {
    match description {
        None => zulu_to_offset(rfc3339_text(t.unix_nanos, t.offset_seconds), use_zulu),
        Some(d) => offset_to_zulu(described_text(t.unix_nanos, t.offset_seconds, d), use_zulu),
    }
}

/// Whether a key is shaped like an identifier: a letter or `_`, then
/// letters, digits and `_`.
pub open spec fn is_identifier(key: Seq<char>) -> bool {
    key.len() > 0 && (is_alpha(key[0]) || key[0] == '_') && forall|i: int|
        0 < i < key.len() ==> is_alpha(#[trigger] key[i]) || is_digit(key[i]) || key[i] == '_'
}

/// The words that stand for values and so cannot be bare keys.
pub open spec fn is_reserved(key: Seq<char>) -> bool {
    key == seq!['n', 'u', 'l', 'l'] || key == seq!['t', 'r', 'u', 'e'] || key == seq![
        'f',
        'a',
        'l',
        's',
        'e',
    ] || key == seq!['i', 'n', 'f'] || key == seq!['n', 'a', 'n']
}

/// Whether a key may be written without quotes.
pub open spec fn unquotable(key: Seq<char>) -> bool {
    is_identifier(key) && !is_reserved(key)
}

/// A key as it is written: bare where that is allowed and asked for, else
/// as a string between the given quotes.
pub open spec fn key_literal(
    key: Seq<char>,
    unquoted_keys: bool,
    quote: char,
    escape_unicode: bool,
) -> Seq<char> {
    if unquoted_keys && unquotable(key) {
        key
    } else {
        string_literal(key, quote, escape_unicode)
    }
}

fn push_nat(out: &mut Vec<char>, n: u64)
    ensures
        final(out)@ == old(out)@ + nat_text(n as nat),
    decreases n,
{
    if n < 10 {
        out.push(hex_char_of(n as u8));
        assert(out@ =~= old(out)@ + nat_text(n as nat));
    } else {
        push_nat(out, n / 10);
        out.push(hex_char_of((n % 10) as u8));
        assert(out@ =~= old(out)@ + nat_text(n as nat));
    }
}

/// Appends an integer as it is written.
pub fn push_int(out: &mut Vec<char>, i: i64, leading_plus: bool)
    ensures
        final(out)@ == old(out)@ + int_literal(i as int, leading_plus),
{
    if i < 0 {
        out.push('-');
        let magnitude: u64 = ((-(i + 1)) as u64) + 1;
        push_nat(out, magnitude);
        assert(out@ =~= old(out)@ + int_literal(i as int, leading_plus));
    } else {
        if leading_plus {
            out.push('+');
        }
        push_nat(out, i as u64);
        assert(out@ =~= old(out)@ + int_literal(i as int, leading_plus));
    }
}

/// Appends a float as it is written.
pub fn push_float(out: &mut Vec<char>, text: &Vec<char>, leading_plus: bool)
    ensures
        final(out)@ == old(out)@ + float_literal(text@, leading_plus),
{
    let nan: Vec<char> = vec!['n', 'a', 'n'];
    assert(nan@ =~= seq!['n', 'a', 'n']);
    if leading_plus && !same_chars(text, &nan) && !(text.len() > 0 && text[0] == '-') {
        out.push('+');
        push_all(out, text);
        assert(out@ =~= old(out)@ + float_literal(text@, leading_plus));
    } else {
        push_all(out, text);
    }
}

fn push_hex4(out: &mut Vec<char>, code: u32)
    requires
        code < 0x10000,
    ensures
        final(out)@ == old(out)@ + unicode_escape(code as int),
{
    out.push('\\');
    out.push('u');
    out.push(hex_char_of((code / 4096) as u8));
    out.push(hex_char_of(((code / 256) % 16) as u8));
    out.push(hex_char_of(((code / 16) % 16) as u8));
    out.push(hex_char_of((code % 16) as u8));
    assert(out@ =~= old(out)@ + unicode_escape(code as int));
}

fn push_pair(out: &mut Vec<char>, a: char, b: char)
    ensures
        final(out)@ == old(out)@ + seq![a, b],
{
    out.push(a);
    out.push(b);
    assert(out@ =~= old(out)@ + seq![a, b]);
}

#[verifier::rlimit(50)]
fn push_escaped_char(out: &mut Vec<char>, c: char, quote: char, escape_unicode: bool)
    ensures
        final(out)@ == old(out)@ + escaped_char(c, quote, escape_unicode),
{
    let code: u32 = c as u32;
    if c == '"' && quote == '"' {
        push_pair(out, '\\', '"');
    } else if c == '\'' && quote == '\'' {
        push_pair(out, '\\', '\'');
    } else if c == '\\' {
        push_pair(out, '\\', '\\');
    } else if c == '/' {
        push_pair(out, '\\', '/');
    } else if c == '\n' {
        push_pair(out, '\\', 'n');
    } else if c == '\t' {
        push_pair(out, '\\', 't');
    } else if c == '\r' {
        push_pair(out, '\\', 'r');
    } else if code == 8 {
        push_pair(out, '\\', 'b');
    } else if code == 12 {
        push_pair(out, '\\', 'f');
    } else if code <= 0x1f || (0x7f <= code && code <= 0x9f) {
        push_hex4(out, code);
    } else if escape_unicode && code > 0x7f {
        if code <= 0xFFFF {
            push_hex4(out, code);
        } else {
            let adjusted: u32 = code - 0x10000;
            let ghost mid = out@;
            push_hex4(out, 0xD800 + adjusted / 1024);
            push_hex4(out, 0xDC00 + adjusted % 1024);
            assert(out@ =~= old(out)@ + escaped_char(c, quote, escape_unicode));
        }
    } else {
        out.push(c);
        assert(out@ =~= old(out)@ + seq![c]);
    }
}

/// Appends a string as it is written between quotes of kind `quote`.
#[verifier::rlimit(50)]
pub fn push_string(out: &mut Vec<char>, s: &Vec<char>, quote: char, escape_unicode: bool)
    ensures
        final(out)@ == old(out)@ + string_literal(s@, quote, escape_unicode),
{
    out.push(quote);
    let mut i: usize = 0;
    assert(s@.take(0) =~= Seq::<char>::empty());
    while i < s.len()
        invariant
            i <= s.len(),
            out@ == old(out)@ + seq![quote] + escaped(s@.take(i as int), quote, escape_unicode),
        decreases s.len() - i,
    {
        push_escaped_char(out, s[i], quote, escape_unicode);
        proof {
            let next = s@.take(i as int + 1);
            assert(next.drop_last() =~= s@.take(i as int));
            assert(next.last() == s@[i as int]);
            assert(out@ =~= old(out)@ + seq![quote] + escaped(next, quote, escape_unicode));
        }
        i += 1;
    }
    assert(s@.take(s.len() as int) =~= s@);
    out.push(quote);
    assert(out@ =~= old(out)@ + string_literal(s@, quote, escape_unicode));
}

/// The string as it is written between quotes of kind `quote`.
pub fn format_string(s: &str, quote: char, escape_unicode: bool) -> (r: String)
    ensures
        r@ == string_literal(s@, quote, escape_unicode),
{
    let chars = chars_of(s);
    let mut out: Vec<char> = Vec::new();
    push_string(&mut out, &chars, quote, escape_unicode);
    assert(out@ =~= string_literal(s@, quote, escape_unicode));
    crate::text::string_of(&out)
}

/// The quote that "prefer double" picks for a string.
pub fn pick_quote(s: &Vec<char>) -> (r: char)
    ensures
        r == preferred_quote(s@),
{
    if has_char(s, '"') && !has_char(s, '\'') {
        '\''
    } else {
        '"'
    }
}

/// Appends two hexadecimal digits for each byte.
#[verifier::rlimit(50)]
pub fn push_hex(out: &mut Vec<char>, bytes: &[u8])
    ensures
        final(out)@ == old(out)@ + hex_text(bytes@),
{
    let mut i: usize = 0;
    assert(bytes@.take(0) =~= Seq::<u8>::empty());
    while i < bytes.len()
        invariant
            i <= bytes.len(),
            out@ == old(out)@ + hex_text(bytes@.take(i as int)),
        decreases bytes.len() - i,
    {
        let b: u8 = bytes[i];
        out.push(hex_char_of(b / 16));
        out.push(hex_char_of(b % 16));
        proof {
            let next = bytes@.take(i as int + 1);
            assert(next.drop_last() =~= bytes@.take(i as int));
            assert(next.last() == bytes@[i as int]);
            assert(out@ =~= old(out)@ + hex_text(next));
        }
        i += 1;
    }
    assert(bytes@.take(bytes.len() as int) =~= bytes@);
}

/// Appends a binary literal with base64 content.
pub fn push_base64_literal(out: &mut Vec<char>, prefix: &str, bytes: &[u8])
    requires
        bytes@.len() <= binary_limit(),
    ensures
        final(out)@ == old(out)@ + binary_literal(prefix@, base64_encoded(bytes@)),
{
    push_str(out, prefix);
    out.push('"');
    let encoded = encode_base64(bytes);
    push_str(out, encoded.as_str());
    out.push('"');
    assert(out@ =~= old(out)@ + binary_literal(prefix@, base64_encoded(bytes@)));
}

/// Appends a binary literal with hexadecimal content.
pub fn push_hex_literal(out: &mut Vec<char>, prefix: &str, bytes: &[u8])
    ensures
        final(out)@ == old(out)@ + binary_literal(prefix@, hex_text(bytes@)),
{
    push_str(out, prefix);
    out.push('"');
    push_hex(out, bytes);
    out.push('"');
    assert(out@ =~= old(out)@ + binary_literal(prefix@, hex_text(bytes@)));
}

/// Whether `text` ends with `tail`.
pub fn check_ends_with(text: &Vec<char>, tail: &Vec<char>) -> (r: bool)
    ensures
        r == ends_with(text@, tail@),
{
    if text.len() < tail.len() {
        return false;
    }
    let end = crate::text::slice_of(text, text.len() - tail.len(), text.len());
    assert(text@.skip(text@.len() - tail@.len()) =~= end@);
    same_chars(&end, tail)
}

/// Appends a timestamp literal. With no description the text is RFC 3339
/// with as many fractional digits as the instant needs; with one, the text
/// that the description gives. A UTC offset is written `Z` or `+00:00` as
/// asked for.
#[verifier::rlimit(50)]
pub fn push_timestamp(
    out: &mut Vec<char>,
    t: &Timestamp,
    description: Option<&str>,
    use_zulu: bool,
)
    requires
        t.wf(),
    ensures
        final(out)@ == old(out)@ + timestamp_literal(
            timestamp_text(
                t@,
                match description {
                    Some(d) => Some(d@),
                    None => None,
                },
                use_zulu,
            ),
        ),
{
    let numeric: Vec<char> = vec!['+', '0', '0', ':', '0', '0'];
    assert(numeric@ =~= seq!['+', '0', '0', ':', '0', '0']);
    let zulu: Vec<char> = vec!['Z'];
    assert(zulu@ =~= seq!['Z']);
    let text: Vec<char>;
    match description {
        None => {
            let raw = chars_of(t.to_rfc3339().as_str());
            if !use_zulu && check_ends_with(&raw, &zulu) {
                let mut shown = crate::text::slice_of(&raw, 0, raw.len() - 1);
                assert(shown@ =~= raw@.drop_last());
                push_all(&mut shown, &numeric);
                text = shown;
            } else {
                text = raw;
            }
        },
        Some(d) => {
            let raw = chars_of(t.to_described(d).as_str());
            if use_zulu && check_ends_with(&raw, &numeric) {
                let mut shown = crate::text::slice_of(&raw, 0, raw.len() - 6);
                assert(shown@ =~= raw@.take(raw@.len() - 6));
                push_all(&mut shown, &zulu);
                text = shown;
            } else {
                text = raw;
            }
        },
    }
    out.push('t');
    out.push('s');
    out.push('"');
    push_all(out, &text);
    out.push('"');
    assert(out@ =~= old(out)@ + timestamp_literal(text@));
}

/// Whether the key is shaped like an identifier.
pub fn check_identifier(key: &Vec<char>) -> (r: bool)
    ensures
        r == is_identifier(key@),
{
    if key.len() == 0 {
        return false;
    }
    if !(check_alpha(key[0]) || key[0] == '_') {
        return false;
    }
    let mut i: usize = 1;
    while i < key.len()
        invariant
            1 <= i <= key.len(),
            forall|j: int|
                0 < j < i ==> is_alpha(#[trigger] key@[j]) || is_digit(key@[j]) || key@[j] == '_',
        decreases key.len() - i,
    {
        if !(check_alpha(key[i]) || check_digit(key[i]) || key[i] == '_') {
            return false;
        }
        i += 1;
    }
    true
}

/// Whether the key is one of the words that stand for values.
pub fn check_reserved(key: &Vec<char>) -> (r: bool)
    ensures
        r == is_reserved(key@),
{
    let null: Vec<char> = vec!['n', 'u', 'l', 'l'];
    let yes: Vec<char> = vec!['t', 'r', 'u', 'e'];
    let no: Vec<char> = vec!['f', 'a', 'l', 's', 'e'];
    let inf: Vec<char> = vec!['i', 'n', 'f'];
    let nan: Vec<char> = vec!['n', 'a', 'n'];
    assert(null@ =~= seq!['n', 'u', 'l', 'l']);
    assert(yes@ =~= seq!['t', 'r', 'u', 'e']);
    assert(no@ =~= seq!['f', 'a', 'l', 's', 'e']);
    assert(inf@ =~= seq!['i', 'n', 'f']);
    assert(nan@ =~= seq!['n', 'a', 'n']);
    same_chars(key, &null) || same_chars(key, &yes) || same_chars(key, &no) || same_chars(
        key,
        &inf,
    ) || same_chars(key, &nan)
}

/// Whether a key may be written without quotes: it is shaped like an
/// identifier and is none of `null`, `true`, `false`, `inf`, `nan`.
pub fn can_be_unquoted(key: &str) -> (r: bool)
    ensures
        r == unquotable(key@),
{
    let chars = chars_of(key);
    check_identifier(&chars) && !check_reserved(&chars)
}

/// Appends a key as it is written.
pub fn push_key(
    out: &mut Vec<char>,
    key: &Vec<char>,
    unquoted_keys: bool,
    quote: char,
    escape_unicode: bool,
)
    ensures
        final(out)@ == old(out)@ + key_literal(key@, unquoted_keys, quote, escape_unicode),
{
    if unquoted_keys && check_identifier(key) && !check_reserved(key) {
        push_all(out, key);
    } else {
        push_string(out, key, quote, escape_unicode);
    }
}

} // verus!
