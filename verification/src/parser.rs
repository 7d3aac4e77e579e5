//! Reading JASN, the bracketed syntax.

use vstd::prelude::*;
use crate::error::ErrorModel;
pub use crate::error::Error;
use crate::float::{float_of_token, Float};
use crate::lexer::{
    base64_content, find_quote, hex_decoded, integer_of_token, lex_base64, lex_hex, lex_integer,
    lex_string, lex_timestamp, quote_end, string_rest, timestamp_content,
};
use crate::scalar::{check_reserved, is_reserved};
use crate::text::{
    chars_of, check_alpha, check_digit, is_alpha, is_digit, same_chars, slice_of, string_of,
};
use crate::value::{has_key, with_entry, Entries, Value, ValueModel};

verus! {

/// White space between tokens.
pub open spec fn is_space(c: char) -> bool {
    c == ' ' || c == '\t' || c == '\n' || c == '\r'
}

/// The position of the first line feed at or after `pos`, or the length of
/// the text.
pub open spec fn line_end(s: Seq<char>, pos: int) -> int
    decreases s.len() - pos,
{
    if 0 <= pos < s.len() && s[pos] != '\n' {
        line_end(s, pos + 1)
    } else {
        pos
    }
}

/// The position after the first `*/` that starts at or after `pos`, or -1
/// where there is none.
pub open spec fn comment_end(s: Seq<char>, pos: int) -> int
    decreases s.len() - pos,
{
    if pos < 0 || pos + 1 >= s.len() {
        -1
    } else if s[pos] == '*' && s[pos + 1] == '/' {
        pos + 2
    } else {
        comment_end(s, pos + 1)
    }
}

/// The position of the first character at or after `pos` that is neither
/// white space nor part of a comment. A block comment that is not closed
/// is a syntax error at its start.
pub open spec fn skip_trivia(s: Seq<char>, pos: int) -> Result<int, ErrorModel>
    decreases s.len() - pos,
{
    if pos < 0 || pos >= s.len() {
        Ok(pos)
    } else if is_space(s[pos]) {
        skip_trivia(s, pos + 1)
    } else if pos + 1 < s.len() && s[pos] == '/' && s[pos + 1] == '/' {
        let e = line_end(s, pos + 2);
        if pos < e <= s.len() {
            skip_trivia(s, e)
        } else {
            Ok(pos)
        }
    } else if pos + 1 < s.len() && s[pos] == '/' && s[pos + 1] == '*' {
        let e = comment_end(s, pos + 2);
        if pos < e <= s.len() {
            skip_trivia(s, e)
        } else {
            Err(ErrorModel::Syntax(pos))
        }
    } else {
        Ok(pos)
    }
}

/// The characters that bare tokens are made of.
pub open spec fn is_token_char(c: char) -> bool {
    is_alpha(c) || is_digit(c) || c == '_' || c == '+' || c == '-' || c == '.'
}

/// The end of the run of token characters that starts at `pos`.
pub open spec fn token_end(s: Seq<char>, pos: int) -> int
    decreases s.len() - pos,
{
    if 0 <= pos < s.len() && is_token_char(s[pos]) {
        token_end(s, pos + 1)
    } else {
        pos
    }
}

/// The end of the run of letters, digits and `_` that starts at `pos`.
pub open spec fn word_end(s: Seq<char>, pos: int) -> int
    decreases s.len() - pos,
{
    if 0 <= pos < s.len() && (is_alpha(s[pos]) || is_digit(s[pos]) || s[pos] == '_') {
        word_end(s, pos + 1)
    } else {
        pos
    }
}

/// The end of the identifier that starts at `pos`; `pos` itself where none
/// starts there.
pub open spec fn ident_end(s: Seq<char>, pos: int) -> int {
    if 0 <= pos < s.len() && (is_alpha(s[pos]) || s[pos] == '_') {
        word_end(s, pos + 1)
    } else {
        pos
    }
}

/// The value of a bare token that starts at `pos`.
///
/// `null`, `true` and `false` are themselves. A token shaped like an
/// integer is that integer, or an overflow error. A token that denotes a
/// float is that float. Any other token is an error: an invalid number
/// where it starts like one, else a syntax error at `pos`.
pub open spec fn scalar_of_token(token: Seq<char>, pos: int) -> Result<ValueModel, ErrorModel> {
    if token == seq!['n', 'u', 'l', 'l'] {
        Ok(ValueModel::Null)
    } else if token == seq!['t', 'r', 'u', 'e'] {
        Ok(ValueModel::Bool(true))
    } else if token == seq!['f', 'a', 'l', 's', 'e'] {
        Ok(ValueModel::Bool(false))
    } else {
        match integer_of_token(token) {
            Some(Ok(i)) => Ok(ValueModel::Int(i)),
            Some(Err(e)) => Err(e),
            None => match float_of_token(token) {
                Some(text) => Ok(ValueModel::Float(text)),
                None => if token.len() > 0 && (is_digit(token[0]) || token[0] == '+' || token[0]
                    == '-' || token[0] == '.') {
                    Err(ErrorModel::InvalidFloat)
                } else {
                    Err(ErrorModel::Syntax(pos))
                },
            },
        }
    }
}

/// The prefix of a base64 binary literal.
pub open spec fn is_base64_prefix(token: Seq<char>) -> bool {
    token == seq!['b', '6', '4']
}

/// The prefixes of a hexadecimal binary literal.
pub open spec fn is_hex_prefix(token: Seq<char>) -> bool {
    token == seq!['h'] || token == seq!['h', 'e', 'x']
}

/// The prefix of a timestamp literal.
pub open spec fn is_timestamp_prefix(token: Seq<char>) -> bool {
    token == seq!['t', 's']
}

/// The words that, before a `"`, start a literal.
pub open spec fn is_literal_prefix(token: Seq<char>) -> bool {
    is_base64_prefix(token) || is_hex_prefix(token) || is_timestamp_prefix(token)
}

/// The value of a prefixed literal whose content starts at `pos`, just
/// after the `"`, with the position after the closing `"`. The content
/// runs to the next `"`; a literal that the text ends in is a syntax error
/// at the end of the text.
pub open spec fn prefixed_literal(s: Seq<char>, token: Seq<char>, pos: int) -> Result<
    (ValueModel, int),
    ErrorModel,
> {
    let q = quote_end(s, pos);
    let content = s.subrange(pos, q);
    if q >= s.len() {
        Err(ErrorModel::Syntax(s.len() as int))
    } else if is_timestamp_prefix(token) {
        match timestamp_content(content) {
            Ok(t) => Ok((ValueModel::Timestamp(t), q + 1)),
            Err(e) => Err(e),
        }
    } else if is_base64_prefix(token) {
        match base64_content(content) {
            Ok(b) => Ok((ValueModel::Binary(b), q + 1)),
            Err(e) => Err(e),
        }
    } else {
        match hex_decoded(content) {
            Ok(b) => Ok((ValueModel::Binary(b), q + 1)),
            Err(e) => Err(e),
        }
    }
}

/// The key that starts at `pos`, with the position after it: a string
/// literal, or an identifier that is no reserved word.
pub open spec fn key_at(s: Seq<char>, pos: int) -> Result<(Seq<char>, int), ErrorModel> {
    if pos < 0 || pos >= s.len() {
        Err(ErrorModel::Syntax(pos))
    } else if s[pos] == '"' || s[pos] == '\'' {
        string_rest(s, pos + 1, s[pos], Seq::empty())
    } else {
        let e = ident_end(s, pos);
        let key = s.subrange(pos, e);
        if e == pos || is_reserved(key) {
            Err(ErrorModel::Syntax(pos))
        } else {
            Ok((key, e))
        }
    }
}

/// The value that starts at `pos`, with the position after it.
pub open spec fn value_at(s: Seq<char>, pos: int) -> Result<(ValueModel, int), ErrorModel>
    decreases s.len() - pos, 0int,
{
    if pos < 0 || pos >= s.len() {
        Err(ErrorModel::Syntax(pos))
    } else if s[pos] == '[' {
        list_rest(s, pos + 1, Seq::empty())
    } else if s[pos] == '{' {
        map_rest(s, pos + 1, Seq::empty())
    } else if s[pos] == '"' || s[pos] == '\'' {
        match string_rest(s, pos + 1, s[pos], Seq::empty()) {
            Ok((text, next)) => Ok((ValueModel::String(text), next)),
            Err(e) => Err(e),
        }
    } else {
        let e = token_end(s, pos);
        let token = s.subrange(pos, e);
        if e <= pos {
            Err(ErrorModel::Syntax(pos))
        } else if e < s.len() && s[e] == '"' && is_literal_prefix(token) {
            prefixed_literal(s, token, e + 1)
        } else {
            match scalar_of_token(token, pos) {
                Ok(v) => Ok((v, e)),
                Err(err) => Err(err),
            }
        }
    }
}

/// The list whose items before `pos` are `acc`, with the position after its
/// closing bracket. `pos` stands after the opening bracket or after a
/// comma, so a closing bracket may follow at once.
pub open spec fn list_rest(s: Seq<char>, pos: int, acc: Seq<ValueModel>) -> Result<
    (ValueModel, int),
    ErrorModel,
>
    decreases s.len() - pos, 1int,
{
    match skip_trivia(s, pos) {
        Err(e) => Err(e),
        Ok(a) => if a < pos || a < 0 || a >= s.len() {
            Err(ErrorModel::Syntax(a))
        } else if s[a] == ']' {
            Ok((ValueModel::List(acc), a + 1))
        } else {
            match value_at(s, a) {
                Err(e) => Err(e),
                Ok((v, q)) => if q <= a {
                    Err(ErrorModel::Syntax(a))
                } else {
                    match skip_trivia(s, q) {
                        Err(e) => Err(e),
                        Ok(r) => if r < q || r >= s.len() {
                            Err(ErrorModel::Syntax(r))
                        } else if s[r] == ',' {
                            list_rest(s, r + 1, acc.push(v))
                        } else if s[r] == ']' {
                            Ok((ValueModel::List(acc.push(v)), r + 1))
                        } else {
                            Err(ErrorModel::Syntax(r))
                        },
                    }
                },
            }
        },
    }
}

/// The map whose entries before `pos` are `acc`, with the position after
/// its closing brace. A key that `acc` holds already is an error.
pub open spec fn map_rest(s: Seq<char>, pos: int, acc: Seq<(Seq<char>, ValueModel)>) -> Result<
    (ValueModel, int),
    ErrorModel,
>
    decreases s.len() - pos, 1int,
{
    match skip_trivia(s, pos) {
        Err(e) => Err(e),
        Ok(a) => if a < pos || a < 0 || a >= s.len() {
            Err(ErrorModel::Syntax(a))
        } else if s[a] == '}' {
            Ok((ValueModel::Mapping(acc), a + 1))
        } else {
            match key_at(s, a) {
                Err(e) => Err(e),
                Ok((key, b)) => if has_key(acc, key) {
                    Err(ErrorModel::DuplicateKey(key))
                } else {
                    match skip_trivia(s, b) {
                        Err(e) => Err(e),
                        Ok(c) => if c < 0 || c >= s.len() || s[c] != ':' {
                            Err(ErrorModel::Syntax(c))
                        } else {
                            match skip_trivia(s, c + 1) {
                                Err(e) => Err(e),
                                Ok(d) => if d <= a || d > s.len() {
                                    Err(ErrorModel::Syntax(a))
                                } else {
                                    match value_at(s, d) {
                                        Err(e) => Err(e),
                                        Ok((v, q)) => if q <= d {
                                            Err(ErrorModel::Syntax(d))
                                        } else {
                                            match skip_trivia(s, q) {
                                                Err(e) => Err(e),
                                                Ok(r) => if r < q || r >= s.len() {
                                                    Err(ErrorModel::Syntax(r))
                                                } else if s[r] == ',' {
                                                    map_rest(s, r + 1, with_entry(acc, key, v))
                                                } else if s[r] == '}' {
                                                    Ok(
                                                        (
                                                            ValueModel::Mapping(
                                                                with_entry(acc, key, v),
                                                            ),
                                                            r + 1,
                                                        ),
                                                    )
                                                } else {
                                                    Err(ErrorModel::Syntax(r))
                                                },
                                            }
                                        },
                                    }
                                },
                            }
                        },
                    }
                },
            }
        },
    }
}

/// The value of a whole JASN document: one value, with nothing but white
/// space and comments around it. Anything after the value is a syntax
/// error at its position.
pub open spec fn document(s: Seq<char>) -> Result<ValueModel, ErrorModel> {
    match skip_trivia(s, 0) {
        Err(e) => Err(e),
        Ok(a) => match value_at(s, a) {
            Err(e) => Err(e),
            Ok((v, q)) => match skip_trivia(s, q) {
                Err(e) => Err(e),
                Ok(r) => if r < s.len() {
                    Err(ErrorModel::Syntax(r))
                } else {
                    Ok(v)
                },
            },
        },
    }
}

/// The view of the outcome of reading a position.
pub open spec fn position_result(r: Result<usize, Error>) -> Result<int, ErrorModel> {
    match r {
        Ok(p) => Ok(p as int),
        Err(e) => Err(e@),
    }
}

/// The view of the outcome of reading a value and a position.
pub open spec fn value_result(r: Result<(Value, usize), Error>) -> Result<
    (ValueModel, int),
    ErrorModel,
> {
    match r {
        Ok((v, next)) => Ok((v@, next as int)),
        Err(e) => Err(e@),
    }
}

/// The view of the outcome of reading a document.
pub open spec fn document_result(r: Result<Value, Error>) -> Result<ValueModel, ErrorModel> {
    match r {
        Ok(v) => Ok(v@),
        Err(e) => Err(e@),
    }
}

/// The views of a sequence of values.
pub open spec fn views(items: Seq<Value>) -> Seq<ValueModel> {
    Seq::new(items.len(), |i: int| items[i]@)
}

/// The position of the first line feed at or after `pos`.
pub fn scan_line(s: &Vec<char>, pos: usize) -> (r: usize)
    requires
        pos <= s.len(),
    ensures
        r == line_end(s@, pos as int),
        pos <= r <= s.len(),
{
    let mut i: usize = pos;
    while i < s.len() && s[i] != '\n'
        invariant
            pos <= i <= s.len(),
            line_end(s@, pos as int) == line_end(s@, i as int),
        decreases s.len() - i,
    {
        i += 1;
    }
    i
}

fn scan_comment(s: &Vec<char>, pos: usize) -> (r: Option<usize>)
    requires
        pos <= s.len(),
    ensures
        match r {
            Some(e) => comment_end(s@, pos as int) == e && pos + 2 <= e <= s.len(),
            None => comment_end(s@, pos as int) == -1,
        },
{
    let mut i: usize = pos;
    loop
        invariant
            pos <= i <= s.len(),
            comment_end(s@, pos as int) == comment_end(s@, i as int),
        decreases s.len() - i,
    {
        if s.len() - i < 2 {
            return None;
        }
        if s[i] == '*' && s[i + 1] == '/' {
            return Some(i + 2);
        }
        i += 1;
    }
}

/// Skips white space and comments from `pos` on.
#[verifier::rlimit(50)]
pub fn skip(s: &Vec<char>, pos: usize) -> (r: Result<usize, Error>)
    requires
        pos <= s.len(),
    ensures
        position_result(r) == skip_trivia(s@, pos as int),
        r matches Ok(p) ==> pos <= p <= s.len(),
        r matches Err(e) ==> e.within(s.len()),
{
    let mut i: usize = pos;
    loop
        invariant
            pos <= i <= s.len(),
            skip_trivia(s@, pos as int) == skip_trivia(s@, i as int),
        decreases s.len() - i,
    {
        if i >= s.len() {
            return Ok(i);
        }
        let c = s[i];
        if c == ' ' || c == '\t' || c == '\n' || c == '\r' {
            i += 1;
        } else if s.len() - i >= 2 && c == '/' && s[i + 1] == '/' {
            i = scan_line(s, i + 2);
        } else if s.len() - i >= 2 && c == '/' && s[i + 1] == '*' {
            match scan_comment(s, i + 2) {
                Some(e) => {
                    i = e;
                },
                None => {
                    return Err(Error::Syntax(i));
                },
            }
        } else {
            return Ok(i);
        }
    }
}

fn check_token_char(c: char) -> (r: bool)
    ensures
        r == is_token_char(c),
{
    check_alpha(c) || check_digit(c) || c == '_' || c == '+' || c == '-' || c == '.'
}

fn scan_token(s: &Vec<char>, pos: usize) -> (r: usize)
    requires
        pos <= s.len(),
    ensures
        r == token_end(s@, pos as int),
        pos <= r <= s.len(),
{
    let mut i: usize = pos;
    while i < s.len() && check_token_char(s[i])
        invariant
            pos <= i <= s.len(),
            token_end(s@, pos as int) == token_end(s@, i as int),
        decreases s.len() - i,
    {
        i += 1;
    }
    i
}

fn scan_word(s: &Vec<char>, pos: usize) -> (r: usize)
    requires
        pos <= s.len(),
    ensures
        r == word_end(s@, pos as int),
        pos <= r <= s.len(),
{
    let mut i: usize = pos;
    while i < s.len() && (check_alpha(s[i]) || check_digit(s[i]) || s[i] == '_')
        invariant
            pos <= i <= s.len(),
            word_end(s@, pos as int) == word_end(s@, i as int),
        decreases s.len() - i,
    {
        i += 1;
    }
    i
}

/// The view of the outcome of reading a scalar.
pub open spec fn scalar_result(r: Result<Value, Error>) -> Result<ValueModel, ErrorModel> {
    match r {
        Ok(v) => Ok(v@),
        Err(e) => Err(e@),
    }
}

/// The value of a bare token; see [`scalar_of_token`].
#[verifier::rlimit(50)]
pub fn parse_scalar(token: &Vec<char>, pos: usize) -> (r: Result<Value, Error>)
    ensures
        scalar_result(r) == scalar_of_token(token@, pos as int),
        r matches Ok(v) ==> v.wf(),
        r matches Err(e) ==> (e matches Error::Syntax(p) ==> p == pos),
{
    let null: Vec<char> = vec!['n', 'u', 'l', 'l'];
    let yes: Vec<char> = vec!['t', 'r', 'u', 'e'];
    let no: Vec<char> = vec!['f', 'a', 'l', 's', 'e'];
    assert(null@ =~= seq!['n', 'u', 'l', 'l']);
    assert(yes@ =~= seq!['t', 'r', 'u', 'e']);
    assert(no@ =~= seq!['f', 'a', 'l', 's', 'e']);
    if same_chars(token, &null) {
        return Ok(Value::Null);
    }
    if same_chars(token, &yes) {
        return Ok(Value::Bool(true));
    }
    if same_chars(token, &no) {
        return Ok(Value::Bool(false));
    }
    match lex_integer(token) {
        Some(Ok(i)) => Ok(Value::Int(i)),
        Some(Err(e)) => Err(e),
        None => match Float::from_chars(token) {
            Some(f) => Ok(Value::Float(f)),
            None => {
                if token.len() > 0 && (check_digit(token[0]) || token[0] == '+' || token[0] == '-'
                    || token[0] == '.') {
                    Err(Error::InvalidFloat)
                } else {
                    Err(Error::Syntax(pos))
                }
            },
        },
    }
}

/// Which kind of literal a prefix selects: 1 for a timestamp, 2 for
/// base64, 3 for hex, 0 for none.
fn prefix_kind(token: &Vec<char>) -> (r: u8)
    ensures
        r == 1 <==> is_timestamp_prefix(token@),
        r == 2 <==> is_base64_prefix(token@),
        r == 3 <==> is_hex_prefix(token@),
        r <= 3,
{
    let ts: Vec<char> = vec!['t', 's'];
    let b64: Vec<char> = vec!['b', '6', '4'];
    let h: Vec<char> = vec!['h'];
    let hex: Vec<char> = vec!['h', 'e', 'x'];
    assert(ts@ =~= seq!['t', 's']);
    assert(b64@ =~= seq!['b', '6', '4']);
    assert(h@ =~= seq!['h']);
    assert(hex@ =~= seq!['h', 'e', 'x']);
    if same_chars(token, &ts) {
        1
    } else if same_chars(token, &b64) {
        assert(token@[0] == 'b');
        2
    } else if same_chars(token, &h) || same_chars(token, &hex) {
        assert(token@[0] == 'h');
        3
    } else {
        0
    }
}

#[verifier::rlimit(50)]
fn parse_prefixed(s: &Vec<char>, kind: u8, pos: usize, Ghost(token): Ghost<Seq<char>>) -> (r:
    Result<(Value, usize), Error>)
    requires
        pos <= s.len(),
        1 <= kind <= 3,
        kind == 1 <==> is_timestamp_prefix(token),
        kind == 2 <==> is_base64_prefix(token),
    ensures
        value_result(r) == prefixed_literal(s@, token, pos as int),
        r matches Ok((v, next)) ==> v.wf() && pos < next <= s.len(),
        r matches Err(e) ==> e.within(s.len()),
{
    let q = find_quote(s, pos);
    if q >= s.len() {
        return Err(Error::Syntax(s.len()));
    }
    let content = slice_of(s, pos, q);
    if kind == 1 {
        match lex_timestamp(&content) {
            Ok(t) => Ok((Value::Timestamp(t), q + 1)),
            Err(e) => Err(e),
        }
    } else if kind == 2 {
        match lex_base64(&content) {
            Ok(b) => Ok((Value::Binary(b), q + 1)),
            Err(e) => Err(e),
        }
    } else {
        match lex_hex(&content) {
            Ok(b) => Ok((Value::Binary(b), q + 1)),
            Err(e) => Err(e),
        }
    }
}

/// The view of the outcome of reading a key.
pub open spec fn key_result(r: Result<(Vec<char>, usize), Error>) -> Result<
    (Seq<char>, int),
    ErrorModel,
> {
    match r {
        Ok((k, next)) => Ok((k@, next as int)),
        Err(e) => Err(e@),
    }
}

/// Reads the key that starts at `pos`; see [`key_at`].
#[verifier::rlimit(50)]
pub fn parse_key(s: &Vec<char>, pos: usize) -> (r: Result<(Vec<char>, usize), Error>)
    requires
        pos <= s.len(),
    ensures
        key_result(r) == key_at(s@, pos as int),
        r matches Ok((_, next)) ==> pos < next <= s.len(),
        r matches Err(e) ==> e.within(s.len()),
{
    if pos >= s.len() {
        return Err(Error::Syntax(pos));
    }
    let c = s[pos];
    if c == '"' || c == '\'' {
        return lex_string(s, pos + 1, c);
    }
    let e: usize = if check_alpha(c) || c == '_' {
        scan_word(s, pos + 1)
    } else {
        pos
    };
    let key = slice_of(s, pos, e);
    if e == pos || check_reserved(&key) {
        Err(Error::Syntax(pos))
    } else {
        Ok((key, e))
    }
}

/// Reads the value that starts at `pos` and returns it with the position
/// after it; see [`value_at`].
#[verifier::rlimit(50)]
pub fn parse_value(s: &Vec<char>, pos: usize) -> (r: Result<(Value, usize), Error>)
    requires
        pos <= s.len(),
    ensures
        value_result(r) == value_at(s@, pos as int),
        r matches Ok((v, next)) ==> v.wf() && pos < next <= s.len(),
        r matches Err(e) ==> e.within(s.len()),
    decreases s.len() - pos,
{
    if pos >= s.len() {
        return Err(Error::Syntax(pos));
    }
    let c = s[pos];
    if c == '[' {
        let mut items: Vec<Value> = Vec::new();
        let mut p: usize = pos + 1;
        assert(views(items@) =~= Seq::<ValueModel>::empty());
        loop
            invariant
                pos < p <= s.len(),
                value_at(s@, pos as int) == list_rest(s@, p as int, views(items@)),
                forall|j: int| 0 <= j < items@.len() ==> (#[trigger] items@[j]).wf(),
            decreases s.len() - p,
        {
            let a = match skip(s, p) {
                Ok(a) => a,
                Err(e) => {
                    return Err(e);
                },
            };
            if a >= s.len() {
                return Err(Error::Syntax(a));
            }
            if s[a] == ']' {
                let list = Value::List(items);
                assert(list@->List_0 =~= views(items@));
                return Ok((list, a + 1));
            }
            let (v, q) = match parse_value(s, a) {
                Ok(pair) => pair,
                Err(e) => {
                    return Err(e);
                },
            };
            let r = match skip(s, q) {
                Ok(r) => r,
                Err(e) => {
                    return Err(e);
                },
            };
            if r >= s.len() {
                return Err(Error::Syntax(r));
            }
            let ghost before = views(items@);
            items.push(v);
            assert(views(items@) =~= before.push(v@));
            if s[r] == ',' {
                p = r + 1;
            } else if s[r] == ']' {
                let list = Value::List(items);
                assert(list@->List_0 =~= views(items@));
                return Ok((list, r + 1));
            } else {
                return Err(Error::Syntax(r));
            }
        }
    } else if c == '{' {
        let mut entries = Entries::new();
        let mut p: usize = pos + 1;
        loop
            invariant
                pos < p <= s.len(),
                value_at(s@, pos as int) == map_rest(s@, p as int, entries@),
                entries.wf(),
            decreases s.len() - p,
        {
            let a = match skip(s, p) {
                Ok(a) => a,
                Err(e) => {
                    return Err(e);
                },
            };
            if a >= s.len() {
                return Err(Error::Syntax(a));
            }
            if s[a] == '}' {
                return Ok((Value::Mapping(entries), a + 1));
            }
            let (key, b) = match parse_key(s, a) {
                Ok(pair) => pair,
                Err(e) => {
                    return Err(e);
                },
            };
            let name = string_of(&key);
            if entries.contains_key(name.as_str()) {
                return Err(Error::DuplicateKey(name));
            }
            let c2 = match skip(s, b) {
                Ok(c2) => c2,
                Err(e) => {
                    return Err(e);
                },
            };
            if c2 >= s.len() || s[c2] != ':' {
                return Err(Error::Syntax(c2));
            }
            let d = match skip(s, c2 + 1) {
                Ok(d) => d,
                Err(e) => {
                    return Err(e);
                },
            };
            let (v, q) = match parse_value(s, d) {
                Ok(pair) => pair,
                Err(e) => {
                    return Err(e);
                },
            };
            let r = match skip(s, q) {
                Ok(r) => r,
                Err(e) => {
                    return Err(e);
                },
            };
            if r >= s.len() {
                return Err(Error::Syntax(r));
            }
            if s[r] == ',' {
                entries.insert(name, v);
                p = r + 1;
            } else if s[r] == '}' {
                entries.insert(name, v);
                return Ok((Value::Mapping(entries), r + 1));
            } else {
                return Err(Error::Syntax(r));
            }
        }
    } else if c == '"' || c == '\'' {
        match lex_string(s, pos + 1, c) {
            Ok((text, next)) => Ok((Value::String(string_of(&text)), next)),
            Err(e) => Err(e),
        }
    } else {
        let e = scan_token(s, pos);
        if e <= pos {
            return Err(Error::Syntax(pos));
        }
        let token = slice_of(s, pos, e);
        let kind = prefix_kind(&token);
        if e < s.len() && s[e] == '"' && kind != 0 {
            parse_prefixed(s, kind, e + 1, Ghost(token@))
        } else {
            match parse_scalar(&token, pos) {
                Ok(v) => Ok((v, e)),
                Err(err) => Err(err),
            }
        }
    }
}

/// Reads the characters of a JASN document; see [`document`].
pub fn parse_chars(s: &Vec<char>) -> (r: Result<Value, Error>)
    ensures
        document_result(r) == document(s@),
        r matches Ok(v) ==> v.wf(),
{
    let a = match skip(s, 0) {
        Ok(a) => a,
        Err(e) => {
            return Err(e);
        },
    };
    let (v, q) = match parse_value(s, a) {
        Ok(pair) => pair,
        Err(e) => {
            return Err(e);
        },
    };
    let r = match skip(s, q) {
        Ok(r) => r,
        Err(e) => {
            return Err(e);
        },
    };
    if r < s.len() {
        Err(Error::Syntax(r))
    } else {
        Ok(v)
    }
}

/// Reads a JASN document.
///
/// The document is one value: `null`, a boolean, an integer, a float, a
/// string, a binary or timestamp literal, a list in `[ ]` or a map in
/// `{ }`, with commas between the items and an optional one after the
/// last. White space and comments may stand between tokens. The result is
/// exactly what [`document`] says of the characters of the text: the value,
/// or the first error.
pub fn parse(input: &str) -> (r: Result<Value, Error>)
    ensures
        document_result(r) == document(input@),
        r matches Ok(v) ==> v.wf(),
{
    let chars = chars_of(input);
    parse_chars(&chars)
}

/// The JASN reader as a type.
#[derive(Debug, Clone, Copy)]
pub struct JasnParser;

impl JasnParser {
    /// Reads a JASN document; the same as [`parse`].
    pub fn parse(input: &str) -> (r: Result<Value, Error>)
        ensures
            document_result(r) == document(input@),
            r matches Ok(v) ==> v.wf(),
    {
        parse(input)
    }
}

} // verus!
