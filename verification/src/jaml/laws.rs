//! What holds of reading and writing JAML together: a value that was
//! written reads back as itself.

use vstd::prelude::*;
use crate::error::ErrorModel;
use crate::formatter::options::BinaryEncoding;
use crate::formatter::{description_of, key_text, quote_of, width};
use crate::jaml::formatter::options::Options;
use crate::jaml::formatter::{
    block, block_children, child_of, is_collection, leaf_options, leaf_text, line_head, line_of,
    line_value, nested,
};
use crate::jaml::parser::indent::{established, measured, Style};
use crate::jaml::parser::{
    blank_end, block_at, child_value, document, entry_key, indent_end, inline_value, is_blank_char,
    is_indent_char, is_item, lines_from, lines_of, list_block, map_block, trailing_ok, LineModel,
};
use crate::laws::{
    has_at, leaf_rereads, lemma_float_round_trip, lemma_has_at_concat, lemma_has_at_index,
    lemma_hex_text, lemma_integer_round_trip, lemma_key_round_trip, lemma_leaf_round_trip,
};
use crate::laws::lemma_string_round_trip;
use crate::parser::{is_hex_prefix, word_end};
use crate::scalar::is_reserved;
use crate::text::seq_less;
use crate::value::{has_key, keys_increase, lemma_with_entry_last, with_entry};
use crate::parser::{is_token_char, line_end};
use crate::scalar::{
    base64_encoded, binary_literal, escaped, escaped_char, hex_text, is_control, string_literal,
    timestamp_text, unicode_escape, unquotable,
};
use crate::text::{hex_char, is_alpha, is_digit};
use crate::value::ValueModel;

verus! {

/// So many spaces.
pub open spec fn spaces(n: nat) -> Seq<char> {
    Seq::new(n, |i: int| ' ')
}

/// Whether a character can stand inside a line and is no `"`: it is no
/// line feed.
pub open spec fn on_line(t: Seq<char>) -> bool {
    forall|i: int| 0 <= i < t.len() ==> (#[trigger] t[i]) != '\n'
}

/// Whether the leaf, as the options write it, is read back by the outside
/// crates that read it, and stands on one line.
pub open spec fn leaf_fits(v: ValueModel, o: Options) -> bool {
    &&& leaf_rereads(v, leaf_options(o))
    &&& match v {
        ValueModel::Binary(bytes) => leaf_options(o).binary_encoding == BinaryEncoding::Base64
            ==> on_line(base64_encoded(bytes)),
        ValueModel::Timestamp(t) => on_line(
            timestamp_text(
                t,
                description_of(leaf_options(o).timestamp_precision),
                leaf_options(o).use_zulu,
            ),
        ),
        _ => true,
    }
}

/// Whether the value can be written as JAML and read back: every leaf fits
/// on its line and no list or map in it is empty.
pub open spec fn fits(v: ValueModel, o: Options) -> bool
    decreases v,
{
    match v {
        ValueModel::List(items) => items.len() > 0 && forall|i: int|
            0 <= i < items.len() ==> fits(#[trigger] items[i], o),
        ValueModel::Mapping(entries) => entries.len() > 0 && forall|i: int|
            0 <= i < entries.len() ==> fits((#[trigger] entries[i]).1, o),
        _ => leaf_fits(v, o),
    }
}

/// No digit character is a line feed.
proof fn lemma_hex_char_on_line(n: int)
    requires
        0 <= n < 16,
    ensures
        hex_char(n) != '\n',
        hex_char(n) != '#',
        !is_blank_char(hex_char(n)),
{
}

/// A written character holds no line feed.
#[verifier::rlimit(50)]
proof fn lemma_escaped_char_on_line(c: char, quote: char, escape_unicode: bool)
    requires
        quote == '"' || quote == '\'',
    ensures
        on_line(escaped_char(c, quote, escape_unicode)),
{
    let code = c as u32 as int;
    let e = escaped_char(c, quote, escape_unicode);
    assert forall|n: int| 0 <= n < 0x10000 implies on_line(#[trigger] unicode_escape(n)) by {
        lemma_hex_char_on_line(n / 4096);
        lemma_hex_char_on_line((n / 256) % 16);
        lemma_hex_char_on_line((n / 16) % 16);
        lemma_hex_char_on_line(n % 16);
        let u = unicode_escape(n);
        assert forall|i: int| 0 <= i < u.len() implies (#[trigger] u[i]) != '\n' by {}
    }
    if escape_unicode && code > 0xFFFF {
        let high = 0xD800 + (code - 0x10000) / 1024;
        let low = 0xDC00 + (code - 0x10000) % 1024;
        assert(on_line(unicode_escape(high)));
        assert(on_line(unicode_escape(low)));
        if !is_control(c) {
            assert forall|i: int| 0 <= i < e.len() implies (#[trigger] e[i]) != '\n' by {
                if i < 6 {
                    assert(e[i] == unicode_escape(high)[i]);
                } else {
                    assert(e[i] == unicode_escape(low)[i - 6]);
                }
            }
        }
    }
}

/// A written string holds no line feed.
#[verifier::rlimit(50)]
proof fn lemma_escaped_on_line(text: Seq<char>, quote: char, escape_unicode: bool)
    requires
        quote == '"' || quote == '\'',
    ensures
        on_line(escaped(text, quote, escape_unicode)),
    decreases text.len(),
{
    if text.len() > 0 {
        lemma_escaped_on_line(text.drop_last(), quote, escape_unicode);
        lemma_escaped_char_on_line(text.last(), quote, escape_unicode);
        let a = escaped(text.drop_last(), quote, escape_unicode);
        let b = escaped_char(text.last(), quote, escape_unicode);
        assert forall|i: int| 0 <= i < (a + b).len() implies (#[trigger] (a + b)[i]) != '\n' by {
            if i < a.len() {
                assert((a + b)[i] == a[i]);
            } else {
                assert((a + b)[i] == b[i - a.len()]);
            }
        }
    }
}

/// A string literal holds no line feed and starts with its quote.
#[verifier::rlimit(50)]
proof fn lemma_string_on_line(text: Seq<char>, quote: char, escape_unicode: bool)
    requires
        quote == '"' || quote == '\'',
    ensures
        on_line(string_literal(text, quote, escape_unicode)),
        string_literal(text, quote, escape_unicode).len() >= 2,
        string_literal(text, quote, escape_unicode)[0] == quote,
{
    lemma_escaped_on_line(text, quote, escape_unicode);
    let body = escaped(text, quote, escape_unicode);
    let lit = string_literal(text, quote, escape_unicode);
    assert forall|i: int| 0 <= i < lit.len() implies (#[trigger] lit[i]) != '\n' by {
        if 0 < i <= body.len() {
            assert(lit[i] == body[i - 1]);
        }
    }
}

/// Two texts on a line are a text on a line.
#[verifier::rlimit(50)]
proof fn lemma_on_line_concat(a: Seq<char>, b: Seq<char>)
    requires
        on_line(a),
        on_line(b),
    ensures
        on_line(a + b),
{
    assert forall|i: int| 0 <= i < (a + b).len() implies (#[trigger] (a + b)[i]) != '\n' by {
        if i < a.len() {
            assert((a + b)[i] == a[i]);
        } else {
            assert((a + b)[i] == b[i - a.len()]);
        }
    }
}

/// Whether a character can start a line's content: it is no white space
/// and starts no comment.
pub open spec fn starts_content(c: char) -> bool {
    !is_blank_char(c) && c != '#' && c != '\n'
}

/// A key as it is written stands on a line and starts its content.
#[verifier::rlimit(50)]
proof fn lemma_key_on_line(key: Seq<char>, o: Options)
    ensures
        on_line(key_text(key, leaf_options(o))),
        key_text(key, leaf_options(o)).len() > 0,
        starts_content(key_text(key, leaf_options(o))[0]),
        key_text(key, leaf_options(o))[0] != '-',
{
    let lo = leaf_options(o);
    let quote = quote_of(lo.quote_style, key);
    if lo.unquoted_keys && unquotable(key) {
        assert forall|i: int| 0 <= i < key.len() implies (#[trigger] key[i]) != '\n' by {
            if i > 0 {
                assert(is_alpha(key[i]) || is_digit(key[i]) || key[i] == '_');
            }
        }
    } else {
        lemma_string_on_line(key, quote, lo.escape_unicode);
    }
}

/// A leaf as it is written stands on a line and starts its content.
#[verifier::rlimit(50)]
proof fn lemma_leaf_on_line(v: ValueModel, o: Options)
    requires
        v.wf(),
        !is_collection(v),
        leaf_fits(v, o),
    ensures
        on_line(leaf_text(v, o)),
        leaf_text(v, o).len() > 0,
        starts_content(leaf_text(v, o)[0]),
{
    let lo = leaf_options(o);
    let text = leaf_text(v, o);
    match v {
        ValueModel::Null => {
            assert forall|i: int| 0 <= i < text.len() implies (#[trigger] text[i]) != '\n' by {}
        },
        ValueModel::Bool(b) => {
            assert forall|i: int| 0 <= i < text.len() implies (#[trigger] text[i]) != '\n' by {}
        },
        ValueModel::Int(i) => {
            lemma_integer_round_trip(i, lo.leading_plus);
            assert forall|k: int| 0 <= k < text.len() implies (#[trigger] text[k]) != '\n' by {
                assert(is_token_char(text[k]));
            }
        },
        ValueModel::Float(t) => {
            lemma_float_round_trip(t, lo.leading_plus);
            assert forall|k: int| 0 <= k < text.len() implies (#[trigger] text[k]) != '\n' by {
                assert(is_token_char(text[k]));
            }
        },
        ValueModel::String(t) => {
            lemma_string_on_line(t, quote_of(lo.quote_style, t), lo.escape_unicode);
        },
        ValueModel::Binary(bytes) => {
            reveal_strlit("b64");
            reveal_strlit("hex");
            let content = match lo.binary_encoding {
                BinaryEncoding::Base64 => base64_encoded(bytes),
                BinaryEncoding::Hex => hex_text(bytes),
            };
            let prefix = match lo.binary_encoding {
                BinaryEncoding::Base64 => "b64"@,
                BinaryEncoding::Hex => "hex"@,
            };
            lemma_hex_text(bytes);
            assert(on_line(content)) by {
                if lo.binary_encoding == BinaryEncoding::Hex {
                    assert forall|i: int| 0 <= i < content.len() implies (#[trigger] content[i])
                        != '\n' by {
                        assert(crate::text::is_hex_digit(content[i]));
                    }
                }
            }
            assert(on_line(prefix));
            assert(text == prefix + seq!['"'] + content + seq!['"']);
            lemma_on_line_concat(prefix, seq!['"']);
            lemma_on_line_concat(prefix + seq!['"'], content);
            lemma_on_line_concat(prefix + seq!['"'] + content, seq!['"']);
            assert(text[0] == prefix[0]);
        },
        ValueModel::Timestamp(t) => {
            let shown = timestamp_text(t, description_of(lo.timestamp_precision), lo.use_zulu);
            let head = seq!['t', 's', '"'];
            assert(text == head + shown + seq!['"']);
            lemma_on_line_concat(head, shown);
            lemma_on_line_concat(head + shown, seq!['"']);
            assert(text[0] == 't');
        },
        _ => {},
    }
}

/// The line of a child stands on a line and starts its content.
#[verifier::rlimit(50)]
proof fn lemma_line_on_line(v: ValueModel, o: Options, n: nat)
    requires
        v.wf(),
        is_collection(v),
        fits(v, o),
        0 < n < width(v),
    ensures
        on_line(line_of(v, o, n)),
        line_of(v, o, n).len() > 0,
        starts_content(line_of(v, o, n)[0]),
        child_of(v, n).wf(),
        fits(child_of(v, n), o),
{
    let child = child_of(v, n);
    let head = line_head(v, o, n);
    let value = line_value(v, o, n);
    if v is Mapping {
        assert(fits(v->Mapping_0[n - 1].1, o));
        assert(v->Mapping_0[n - 1].1.wf());
    } else {
        assert(fits(v->List_0[n - 1], o));
        assert(v->List_0[n - 1].wf());
    }
    assert(fits(child, o));
    if v is Mapping {
        let key = v->Mapping_0[n - 1].0;
        lemma_key_on_line(key, o);
        lemma_on_line_concat(key_text(key, leaf_options(o)), seq![':']);
        assert(head[0] == key_text(key, leaf_options(o))[0]);
    } else {
        assert(on_line(head));
    }
    if !is_collection(child) {
        lemma_leaf_on_line(child, o);
        if v is Mapping {
            lemma_on_line_concat(seq![' '], leaf_text(child, o));
        }
    } else {
        assert(on_line(value));
    }
    lemma_on_line_concat(head, value);
    assert(line_of(v, o, n)[0] == head[0]);
}

/// A line's text that is followed by a line feed ends there.
#[verifier::rlimit(50)]
proof fn lemma_line_end(s: Seq<char>, pos: int, text: Seq<char>, from: int)
    requires
        has_at(s, pos, text + seq!['\n']),
        on_line(text),
        0 <= from <= text.len(),
    ensures
        line_end(s, pos + from) == pos + text.len(),
        pos + text.len() < s.len(),
    decreases text.len() - from,
{
    lemma_has_at_concat(s, pos, text, seq!['\n']);
    if from < text.len() {
        lemma_has_at_index(s, pos, text, from);
        lemma_line_end(s, pos, text, from + 1);
    } else {
        lemma_has_at_index(s, pos + text.len(), seq!['\n'], 0);
    }
}

/// Spaces that are followed by something else are the indentation.
proof fn lemma_indent_end(s: Seq<char>, pos: int, n: nat, from: int)
    requires
        has_at(s, pos, spaces(n)),
        pos + n < s.len(),
        !is_indent_char(s[pos + n]),
        0 <= from <= n,
    ensures
        indent_end(s, pos + from) == pos + n,
    decreases n - from,
{
    if from < n {
        lemma_has_at_index(s, pos, spaces(n), from);
        lemma_indent_end(s, pos, n, from + 1);
    }
}

/// Whether the indentation unit established so far agrees with lines that
/// are indented by two spaces per level, the next of them at `depth`.
pub open spec fn style_agrees(style: Option<Style>, depth: nat) -> bool {
    style == Some(Style::Spaces(2)) || (style.is_none() && depth <= 1)
}

/// The indentation unit after a line at `depth` was measured.
pub open spec fn style_after(style: Option<Style>, depth: nat) -> Option<Style> {
    if depth >= 1 {
        Some(Style::Spaces(2))
    } else {
        style
    }
}

/// Two spaces per level measure as the level.
#[verifier::rlimit(50)]
proof fn lemma_measured(style: Option<Style>, depth: nat)
    requires
        style_agrees(style, depth),
    ensures
        measured(style, spaces(2 * depth)) == Ok::<int, ErrorModel>(depth as int),
        established(style, spaces(2 * depth)) == style_after(style, depth),
{
    let indent = spaces(2 * depth);
    assert(!indent.contains('\t'));
    if depth > 0 {
        assert(indent[0] == ' ');
        assert(indent.contains(' '));
    }
    assert(indent.len() == 2 * depth);
    assert((2 * depth) % 2 == 0);
    assert((2 * depth) as int / 2 == depth);
}

/// One written line is read as one line.
#[verifier::rlimit(50)]
proof fn lemma_one_line(
    s: Seq<char>,
    pos: int,
    depth: nat,
    text: Seq<char>,
    newlines: int,
    style: Option<Style>,
    acc: Seq<LineModel>,
)
    requires
        has_at(s, pos, spaces(2 * depth) + text + seq!['\n']),
        text.len() > 0,
        starts_content(text[0]),
        on_line(text),
        style_agrees(style, depth),
    ensures
        lines_from(s, pos, newlines, style, acc) == lines_from(
            s,
            pos + 2 * depth + text.len() + 1,
            newlines + 1,
            style_after(style, depth),
            acc.push(
                LineModel {
                    number: newlines + 1,
                    level: depth as int,
                    start: pos + 2 * depth,
                    text: text,
                },
            ),
        ),
        pos + 2 * depth + text.len() + 1 <= s.len(),
{
    let indent = spaces(2 * depth);
    let whole = indent + text;
    lemma_has_at_concat(s, pos, whole, seq!['\n']);
    lemma_has_at_concat(s, pos, indent, text);
    lemma_has_at_index(s, pos + 2 * depth, text, 0);
    assert(on_line(indent));
    lemma_on_line_concat(indent, text);
    lemma_line_end(s, pos, whole, 0);
    lemma_indent_end(s, pos, 2 * depth, 0);
    lemma_measured(style, depth);
    let e = pos + whole.len();
    let i = pos + 2 * depth;
    assert(s.subrange(i, e) == text);
    assert(s.subrange(pos, i) == indent);
    assert(blank_end(text, 0) == 0);
    assert(!trailing_ok(text, 0));
    let next = e + 1;
    if next >= s.len() {
        assert(lines_from(
            s,
            next,
            newlines + 1,
            style_after(style, depth),
            acc.push(
                LineModel {
                    number: newlines + 1,
                    level: depth as int,
                    start: pos + 2 * depth,
                    text: text,
                },
            ),
        ) == Ok::<Seq<LineModel>, ErrorModel>(
            acc.push(
                LineModel {
                    number: newlines + 1,
                    level: depth as int,
                    start: pos + 2 * depth,
                    text: text,
                },
            ),
        ));
    }
}

/// The level and the text of each line that a value is written as, at a
/// nesting of `depth` levels.
pub open spec fn shape(v: ValueModel, o: Options, depth: nat) -> Seq<(int, Seq<char>)>
    decreases v, width(v) + 1,
{
    if is_collection(v) {
        shape_children(v, o, depth, (width(v) - 1) as nat)
    } else {
        seq![(depth as int, leaf_text(v, o))]
    }
}

/// The lines below the line of the `n`-th child.
pub open spec fn shape_nested(v: ValueModel, o: Options, depth: nat, n: nat) -> Seq<
    (int, Seq<char>),
>
    decreases v, 0nat,
{
    if 0 < n < width(v) && is_collection(child_of(v, n)) {
        shape(child_of(v, n), o, depth + 1)
    } else {
        Seq::empty()
    }
}

/// The lines of the first `n` children.
pub open spec fn shape_children(v: ValueModel, o: Options, depth: nat, n: nat) -> Seq<
    (int, Seq<char>),
>
    decreases v, n + 1,
{
    if n == 0 || n >= width(v) {
        Seq::empty()
    } else {
        shape_children(v, o, depth, (n - 1) as nat) + seq![(depth as int, line_of(v, o, n))]
            + shape_nested(v, o, depth, n)
    }
}

/// The level and the text of each of the lines.
pub open spec fn shapes(lines: Seq<LineModel>) -> Seq<(int, Seq<char>)> {
    Seq::new(lines.len(), |i: int| (lines[i].level, lines[i].text))
}

/// The shapes of lines put together are their shapes put together.
proof fn lemma_shapes_concat(a: Seq<LineModel>, b: Seq<LineModel>)
    ensures
        shapes(a + b) == shapes(a) + shapes(b),
{
    assert(shapes(a + b) =~= shapes(a) + shapes(b));
}

/// So many spaces and two more.
proof fn lemma_spaces_deeper(depth: nat)
    ensures
        spaces(2 * depth) + seq![' ', ' '] == spaces(2 * (depth + 1)),
{
    assert(spaces(2 * depth) + seq![' ', ' '] =~= spaces(2 * (depth + 1)));
}

/// The lines of the first `n` children of a list or map that was written
/// are read as lines of their shape.
#[verifier::rlimit(50)]
proof fn lemma_children_lines(
    s: Seq<char>,
    pos: int,
    v: ValueModel,
    o: Options,
    depth: nat,
    newlines: int,
    style: Option<Style>,
    acc: Seq<LineModel>,
    n: nat,
) -> (r: (Seq<LineModel>, Option<Style>))
    requires
        is_collection(v),
        v.wf(),
        fits(v, o),
        n < width(v),
        has_at(s, pos, block_children(v, o, spaces(2 * depth), n)),
        style_agrees(style, depth),
    ensures
        lines_from(s, pos, newlines, style, acc) == lines_from(
            s,
            pos + block_children(v, o, spaces(2 * depth), n).len(),
            newlines + r.0.len(),
            r.1,
            acc + r.0,
        ),
        shapes(r.0) == shape_children(v, o, depth, n),
        r.1 == Some(Style::Spaces(2)) || (r.1 == style && (depth == 0 || n == 0)),
        pos + block_children(v, o, spaces(2 * depth), n).len() <= s.len(),
    decreases v, n,
{
    let prefix = spaces(2 * depth);
    if n == 0 {
        assert(acc + Seq::<LineModel>::empty() =~= acc);
        assert(shapes(Seq::<LineModel>::empty()) =~= shape_children(v, o, depth, 0));
        (Seq::empty(), style)
    } else {
        let before = block_children(v, o, prefix, (n - 1) as nat);
        let line = line_of(v, o, n);
        let below = nested(v, o, prefix, n);
        let child = child_of(v, n);
        assert(block_children(v, o, prefix, n) == before + prefix + line + seq!['\n'] + below);
        lemma_has_at_concat(s, pos, before + prefix + line + seq!['\n'], below);
        lemma_has_at_concat(s, pos, before, prefix + line + seq!['\n']);
        assert(before + prefix + line + seq!['\n'] =~= before + (prefix + line + seq!['\n']));
        let (a1, s1) = lemma_children_lines(
            s,
            pos,
            v,
            o,
            depth,
            newlines,
            style,
            acc,
            (n - 1) as nat,
        );
        let line_start = pos + before.len();
        let nl1 = newlines + a1.len();
        lemma_line_on_line(v, o, n);
        lemma_one_line(s, line_start, depth, line, nl1, s1, acc + a1);
        let read = LineModel {
            number: nl1 + 1,
            level: depth as int,
            start: line_start + 2 * depth,
            text: line,
        };
        let below_start = line_start + 2 * depth + line.len() + 1;
        let s2 = style_after(s1, depth);
        let a2 = a1.push(read);
        assert((acc + a1).push(read) =~= acc + a2);
        lemma_shapes_concat(a1, seq![read]);
        assert(a1.push(read) =~= a1 + seq![read]);
        assert(shapes(seq![read]) =~= seq![(depth as int, line)]);
        assert(shapes(a2) == shape_children(v, o, depth, (n - 1) as nat) + seq![
            (depth as int, line),
        ]);
        if is_collection(child) {
            lemma_spaces_deeper(depth);
            let (a3, s3) = lemma_block_lines(s, below_start, child, o, depth + 1, nl1 + 1, s2, acc + a2);
            assert((acc + a2) + a3 =~= acc + (a2 + a3));
            lemma_shapes_concat(a2, a3);
            assert(shape_nested(v, o, depth, n) == shape(child, o, depth + 1));
            assert(shapes(a2 + a3) =~= shape_children(v, o, depth, n));
            (a2 + a3, s3)
        } else {
            assert(below.len() == 0);
            assert(shape_nested(v, o, depth, n) =~= Seq::<(int, Seq<char>)>::empty());
            assert(shapes(a2) =~= shape_children(v, o, depth, n));
            (a2, s2)
        }
    }
}

/// A list or map that was written is read as lines of its shape.
proof fn lemma_block_lines(
    s: Seq<char>,
    pos: int,
    v: ValueModel,
    o: Options,
    depth: nat,
    newlines: int,
    style: Option<Style>,
    acc: Seq<LineModel>,
) -> (r: (Seq<LineModel>, Option<Style>))
    requires
        is_collection(v),
        v.wf(),
        fits(v, o),
        has_at(s, pos, block(v, o, spaces(2 * depth))),
        style_agrees(style, depth),
    ensures
        lines_from(s, pos, newlines, style, acc) == lines_from(
            s,
            pos + block(v, o, spaces(2 * depth)).len(),
            newlines + r.0.len(),
            r.1,
            acc + r.0,
        ),
        shapes(r.0) == shape(v, o, depth),
        r.1 == Some(Style::Spaces(2)) || (r.1 == style && depth == 0),
        pos + block(v, o, spaces(2 * depth)).len() <= s.len(),
    decreases v, width(v) + 1,
{
    assert(width(v) > 1);
    lemma_children_lines(s, pos, v, o, depth, newlines, style, acc, (width(v) - 1) as nat)
}

/// Whether the lines from `idx` on have the given levels and texts.
pub open spec fn shaped_at(lines: Seq<LineModel>, idx: int, part: Seq<(int, Seq<char>)>) -> bool {
    0 <= idx && idx + part.len() <= lines.len() && shapes(lines).subrange(idx, idx + part.len())
        == part
}

/// Lines have the shape of two parts where they have the shape of the
/// first and, after it, that of the second.
#[verifier::rlimit(50)]
proof fn lemma_shaped_concat(
    lines: Seq<LineModel>,
    idx: int,
    a: Seq<(int, Seq<char>)>,
    b: Seq<(int, Seq<char>)>,
)
    ensures
        shaped_at(lines, idx, a + b) <==> shaped_at(lines, idx, a) && shaped_at(
            lines,
            idx + a.len(),
            b,
        ),
{
    let all = shapes(lines);
    if 0 <= idx && idx + a.len() + b.len() <= lines.len() {
        if shaped_at(lines, idx, a + b) {
            assert(all.subrange(idx, idx + a.len()) =~= (a + b).subrange(0, a.len() as int));
            assert((a + b).subrange(0, a.len() as int) =~= a);
            assert(all.subrange(idx + a.len(), idx + a.len() + b.len()) =~= (a + b).subrange(
                a.len() as int,
                (a + b).len() as int,
            ));
            assert((a + b).subrange(a.len() as int, (a + b).len() as int) =~= b);
        }
        if shaped_at(lines, idx, a) && shaped_at(lines, idx + a.len(), b) {
            assert(all.subrange(idx, idx + a.len() + b.len()) =~= all.subrange(idx, idx + a.len())
                + all.subrange(idx + a.len(), idx + a.len() + b.len()));
        }
    }
}

/// A line of shaped lines has its level and its text.
proof fn lemma_shaped_index(
    lines: Seq<LineModel>,
    idx: int,
    part: Seq<(int, Seq<char>)>,
    i: int,
)
    requires
        shaped_at(lines, idx, part),
        0 <= i < part.len(),
    ensures
        lines[idx + i].level == part[i].0,
        lines[idx + i].text == part[i].1,
{
    assert(shapes(lines).subrange(idx, idx + part.len())[i] == shapes(lines)[idx + i]);
}

/// The lines of the first children start at the depth of their list or map.
#[verifier::rlimit(50)]
proof fn lemma_shape_children_first(v: ValueModel, o: Options, depth: nat, n: nat)
    requires
        0 < n < width(v),
    ensures
        shape_children(v, o, depth, n).len() > 0,
        shape_children(v, o, depth, n)[0].0 == depth,
    decreases n,
{
    let before = shape_children(v, o, depth, (n - 1) as nat);
    let line = seq![(depth as int, line_of(v, o, n))];
    let below = shape_nested(v, o, depth, n);
    assert(shape_children(v, o, depth, n) == before + line + below);
    if n > 1 {
        lemma_shape_children_first(v, o, depth, (n - 1) as nat);
        assert((before + line + below)[0] == before[0]);
    } else {
        assert(before.len() == 0);
        assert((before + line + below)[0] == line[0]);
    }
}

/// What a list or map that is not empty is written as starts at its depth.
proof fn lemma_shape_first(v: ValueModel, o: Options, depth: nat)
    requires
        fits(v, o),
    ensures
        shape(v, o, depth).len() > 0,
        shape(v, o, depth)[0].0 == depth,
{
    if is_collection(v) {
        lemma_shape_children_first(v, o, depth, (width(v) - 1) as nat);
    }
}

/// Where the lines of all children stand, the line of each child stands in
/// its place, and below it the child's own lines.
#[verifier::rlimit(50)]
proof fn lemma_children_shaped(
    lines: Seq<LineModel>,
    idx: int,
    v: ValueModel,
    o: Options,
    depth: nat,
    n: nat,
    k: nat,
)
    requires
        n + 1 == width(v),
        k <= n,
        shaped_at(lines, idx, shape_children(v, o, depth, n)),
    ensures
        shaped_at(lines, idx, shape_children(v, o, depth, k)),
        shape_children(v, o, depth, k).len() <= shape_children(v, o, depth, n).len(),
        k < n ==> {
            let at = idx + shape_children(v, o, depth, k).len();
            &&& at < lines.len()
            &&& lines[at].level == depth
            &&& lines[at].text == line_of(v, o, k + 1)
            &&& shaped_at(lines, at + 1, shape_nested(v, o, depth, k + 1))
            &&& shape_children(v, o, depth, k + 1).len() == shape_children(v, o, depth, k).len()
                + 1 + shape_nested(v, o, depth, k + 1).len()
        },
    decreases n - k,
{
    if k < n {
        lemma_children_shaped(lines, idx, v, o, depth, n, k + 1);
        let before = shape_children(v, o, depth, k);
        let line = seq![(depth as int, line_of(v, o, k + 1))];
        let below = shape_nested(v, o, depth, k + 1);
        assert(shape_children(v, o, depth, k + 1) == before + line + below);
        lemma_shaped_concat(lines, idx, before + line, below);
        lemma_shaped_concat(lines, idx, before, line);
        lemma_shaped_index(lines, idx + before.len(), line, 0);
    }
}

/// Whether the lines end at `end` or go on at a lower level than `depth`.
pub open spec fn ends_block(lines: Seq<LineModel>, end: int, depth: nat) -> bool {
    end >= lines.len() || lines[end].level < depth
}

/// A leaf that was written on a line, after white space, is read from it.
#[verifier::rlimit(50)]
proof fn lemma_inline_leaf(line: LineModel, from: int, leaf: ValueModel, o: Options)
    requires
        leaf.wf(),
        !is_collection(leaf),
        leaf_fits(leaf, o),
        0 <= from,
        blank_end(line.text, from) + leaf_text(leaf, o).len() == line.text.len(),
        has_at(line.text, blank_end(line.text, from), leaf_text(leaf, o)),
    ensures
        !trailing_ok(line.text, from),
        inline_value(line, from) == Ok::<ValueModel, ErrorModel>(leaf),
{
    let text = line.text;
    let p = blank_end(text, from);
    let shown = leaf_text(leaf, o);
    reveal_strlit("hex");
    assert(is_hex_prefix("hex"@)) by {
        assert("hex"@ =~= seq!['h', 'e', 'x']);
    }
    lemma_leaf_on_line(leaf, o);
    lemma_has_at_index(text, p, shown, 0);
    lemma_leaf_round_trip(text, p, leaf, leaf_options(o), "hex"@);
    assert(blank_end(text, text.len() as int) == text.len());
}

/// One step of reading a list: an item's line and its value.
#[verifier::rlimit(50)]
proof fn lemma_list_block_step(
    lines: Seq<LineModel>,
    idx: int,
    level: int,
    acc: Seq<ValueModel>,
    child: ValueModel,
    next: int,
)
    requires
        0 <= idx < lines.len(),
        is_item(lines[idx].text),
        child_value(lines, idx, level, 1) == Ok::<(ValueModel, int), ErrorModel>((child, next)),
        idx < next <= lines.len(),
    ensures
        list_block(lines, idx, level, acc) == (if next >= lines.len() || lines[next].level
            < level {
            Ok::<(ValueModel, int), ErrorModel>((ValueModel::List(acc.push(child)), next))
        } else if lines[next].level > level {
            Err::<(ValueModel, int), ErrorModel>(
                ErrorModel::UnexpectedIndent(level, lines[next].level),
            )
        } else {
            list_block(lines, next, level, acc.push(child))
        }),
{
}

/// One step of reading a map: an entry's line and its value.
#[verifier::rlimit(50)]
proof fn lemma_map_block_step(
    lines: Seq<LineModel>,
    idx: int,
    level: int,
    acc: Seq<(Seq<char>, ValueModel)>,
    key: Seq<char>,
    from: int,
    child: ValueModel,
    next: int,
)
    requires
        0 <= idx < lines.len(),
        entry_key(lines[idx].text) == Some((key, from)),
        !has_key(acc, key),
        child_value(lines, idx, level, from) == Ok::<(ValueModel, int), ErrorModel>(
            (child, next),
        ),
        idx < next <= lines.len(),
    ensures
        map_block(lines, idx, level, acc) == (if next >= lines.len() || lines[next].level < level {
            Ok::<(ValueModel, int), ErrorModel>(
                (ValueModel::Mapping(with_entry(acc, key, child)), next),
            )
        } else if lines[next].level > level {
            Err::<(ValueModel, int), ErrorModel>(
                ErrorModel::UnexpectedIndent(level, lines[next].level),
            )
        } else {
            map_block(lines, next, level, with_entry(acc, key, child))
        }),
{
}

/// Where the value of the child at index `k` starts on its line: after the
/// dash in a list, after the colon in a map.
pub open spec fn value_from(v: ValueModel, o: Options, k: nat) -> int {
    if v is Mapping {
        line_head(v, o, k + 1).len() as int
    } else {
        1
    }
}

/// Where the line of the child at index `k` stands among the lines of a
/// list or map that was written, and what stands below and after it.
#[verifier::rlimit(50)]
proof fn lemma_child_place(
    lines: Seq<LineModel>,
    idx: int,
    v: ValueModel,
    o: Options,
    depth: nat,
    k: nat,
)
    requires
        is_collection(v),
        shaped_at(lines, idx, shape(v, o, depth)),
        ends_block(lines, idx + shape(v, o, depth).len(), depth),
        k + 1 < width(v),
    ensures
        0 <= idx + shape_children(v, o, depth, k).len() < lines.len(),
        lines[idx + shape_children(v, o, depth, k).len()].text == line_of(v, o, k + 1),
        shaped_at(
            lines,
            idx + shape_children(v, o, depth, k).len() + 1,
            shape_nested(v, o, depth, k + 1),
        ),
        shape_children(v, o, depth, k + 1).len() == shape_children(v, o, depth, k).len() + 1
            + shape_nested(v, o, depth, k + 1).len(),
        idx + shape_children(v, o, depth, k + 1).len() <= idx + shape(v, o, depth).len(),
        k + 2 < width(v) ==> idx + shape_children(v, o, depth, k + 1).len() < lines.len()
            && lines[idx + shape_children(v, o, depth, k + 1).len()].level == depth,
        k + 2 == width(v) ==> shape_children(v, o, depth, k + 1) == shape(v, o, depth),
        ends_block(lines, idx + shape_children(v, o, depth, k + 1).len(), depth + 1),
{
    let n = (width(v) - 1) as nat;
    lemma_children_shaped(lines, idx, v, o, depth, n, k);
    lemma_children_shaped(lines, idx, v, o, depth, n, k + 1);
}

/// A leaf child that was written on the line of its list or map is read
/// from that line.
#[verifier::rlimit(50)]
proof fn lemma_leaf_child(
    lines: Seq<LineModel>,
    at: int,
    v: ValueModel,
    o: Options,
    depth: nat,
    k: nat,
)
    requires
        is_collection(v),
        v.wf(),
        fits(v, o),
        k + 1 < width(v),
        !is_collection(child_of(v, k + 1)),
        0 <= at < lines.len(),
        lines[at].text == line_of(v, o, k + 1),
    ensures
        child_value(lines, at, depth as int, value_from(v, o, k)) == Ok::<
            (ValueModel, int),
            ErrorModel,
        >((child_of(v, k + 1), at + 1)),
{
    let child = child_of(v, k + 1);
    let text = line_of(v, o, k + 1);
    let head = line_head(v, o, k + 1);
    let from = value_from(v, o, k);
    let shown = leaf_text(child, o);
    lemma_line_on_line(v, o, k + 1);
    lemma_leaf_on_line(child, o);
    if v is Mapping {
        assert(text =~= head + (seq![' '] + shown));
        assert(text[from] == ' ');
        assert(text[from + 1] == shown[0]);
        assert(blank_end(text, from + 1) == from + 1);
        assert(blank_end(text, from) == from + 1);
        assert(text.subrange(from + 1, text.len() as int) =~= shown);
    } else {
        assert(text =~= seq!['-', ' '] + shown);
        assert(text[1] == ' ');
        assert(text[2] == shown[0]);
        assert(blank_end(text, 2) == 2);
        assert(blank_end(text, 1) == 2);
        assert(text.subrange(2, text.len() as int) =~= shown);
    }
    lemma_inline_leaf(lines[at], from, child, o);
}

/// Nothing but white space follows the dash or the colon on the line of a
/// child that is a list or map.
#[verifier::rlimit(50)]
proof fn lemma_nested_head(v: ValueModel, o: Options, k: nat)
    requires
        is_collection(v),
        k + 1 < width(v),
        is_collection(child_of(v, k + 1)),
    ensures
        trailing_ok(line_of(v, o, k + 1), value_from(v, o, k)),
{
    let text = line_of(v, o, k + 1);
    let head = line_head(v, o, k + 1);
    let from = value_from(v, o, k);
    assert(text =~= head);
    if v is Mapping {
        assert(blank_end(text, from) == from);
    } else {
        assert(text == seq!['-', ' ']);
        assert(blank_end(text, 2) == 2);
        assert(blank_end(text, 1) == 2);
    }
}

/// A child that is a list or map and was written below the line of its
/// list or map is read from the lines below that line.
#[verifier::rlimit(50)]
proof fn lemma_nested_child(
    lines: Seq<LineModel>,
    at: int,
    v: ValueModel,
    o: Options,
    depth: nat,
    k: nat,
)
    requires
        is_collection(v),
        v.wf(),
        fits(v, o),
        k + 1 < width(v),
        is_collection(child_of(v, k + 1)),
        0 <= at < lines.len(),
        lines[at].text == line_of(v, o, k + 1),
        shaped_at(lines, at + 1, shape(child_of(v, k + 1), o, depth + 1)),
        ends_block(lines, at + 1 + shape(child_of(v, k + 1), o, depth + 1).len(), depth + 1),
    ensures
        child_value(lines, at, depth as int, value_from(v, o, k)) == Ok::<
            (ValueModel, int),
            ErrorModel,
        >((child_of(v, k + 1), at + 1 + shape(child_of(v, k + 1), o, depth + 1).len())),
    decreases v, 0nat,
{
    let child = child_of(v, k + 1);
    lemma_line_on_line(v, o, k + 1);
    lemma_nested_head(v, o, k);
    lemma_shape_first(child, o, depth + 1);
    lemma_shaped_index(lines, at + 1, shape(child, o, depth + 1), 0);
    lemma_block(lines, at + 1, child, o, depth + 1);
}

/// The child at index `k` of a list or map that was written is read from
/// its line, or from the lines below it, as itself.
#[verifier::rlimit(50)]
proof fn lemma_child_value(
    lines: Seq<LineModel>,
    idx: int,
    v: ValueModel,
    o: Options,
    depth: nat,
    k: nat,
)
    requires
        is_collection(v),
        v.wf(),
        fits(v, o),
        shaped_at(lines, idx, shape(v, o, depth)),
        ends_block(lines, idx + shape(v, o, depth).len(), depth),
        k + 1 < width(v),
    ensures
        child_value(
            lines,
            idx + shape_children(v, o, depth, k).len(),
            depth as int,
            value_from(v, o, k),
        ) == Ok::<(ValueModel, int), ErrorModel>(
            (child_of(v, k + 1), idx + shape_children(v, o, depth, k + 1).len()),
        ),
    decreases v, 1nat,
{
    let at = idx + shape_children(v, o, depth, k).len();
    lemma_child_place(lines, idx, v, o, depth, k);
    if is_collection(child_of(v, k + 1)) {
        lemma_nested_child(lines, at, v, o, depth, k);
    } else {
        assert(shape_nested(v, o, depth, k + 1).len() == 0);
        lemma_leaf_child(lines, at, v, o, depth, k);
    }
}

/// The line of a list item starts with a dash and a space.
proof fn lemma_item_line(v: ValueModel, o: Options, k: nat)
    requires
        v is List,
    ensures
        is_item(line_of(v, o, k + 1)),
{
    let text = line_of(v, o, k + 1);
    assert(text[0] == '-');
    assert(text[1] == ' ');
}

/// The items of a list that was written are read from the item at index
/// `k` on, given those before it.
#[verifier::rlimit(50)]
proof fn lemma_list_lines(
    lines: Seq<LineModel>,
    idx: int,
    v: ValueModel,
    o: Options,
    depth: nat,
    k: nat,
)
    requires
        v is List,
        v.wf(),
        fits(v, o),
        shaped_at(lines, idx, shape(v, o, depth)),
        ends_block(lines, idx + shape(v, o, depth).len(), depth),
        k + 1 < width(v),
    ensures
        list_block(
            lines,
            idx + shape_children(v, o, depth, k).len(),
            depth as int,
            v->List_0.take(k as int),
        ) == Ok::<(ValueModel, int), ErrorModel>((v, idx + shape(v, o, depth).len())),
    decreases v, width(v) - k + 1,
{
    let items = v->List_0;
    let at = idx + shape_children(v, o, depth, k).len();
    let next = idx + shape_children(v, o, depth, k + 1).len();
    let acc = items.take(k as int);
    lemma_child_place(lines, idx, v, o, depth, k);
    lemma_child_value(lines, idx, v, o, depth, k);
    lemma_item_line(v, o, k);
    assert(child_of(v, k + 1) == items[k as int]);
    lemma_list_block_step(lines, at, depth as int, acc, items[k as int], next);
    assert(acc.push(items[k as int]) =~= items.take(k as int + 1));
    if k + 2 < width(v) {
        lemma_list_lines(lines, idx, v, o, depth, k + 1);
    } else {
        assert(items.take(k as int + 1) =~= items);
    }
}

/// The line of a map entry starts with its key and a colon, and is no list
/// item.
#[verifier::rlimit(50)]
proof fn lemma_entry_line(v: ValueModel, o: Options, k: nat)
    requires
        v is Mapping,
        k + 1 < width(v),
    ensures
        entry_key(line_of(v, o, k + 1)) == Some(
            (v->Mapping_0[k as int].0, value_from(v, o, k)),
        ),
        !is_item(line_of(v, o, k + 1)),
{
    let key = v->Mapping_0[k as int].0;
    let text = line_of(v, o, k + 1);
    let keyed = key_text(key, leaf_options(o));
    lemma_key_on_line(key, o);
    assert(text =~= keyed + (seq![':'] + line_value(v, o, k + 1)));
    lemma_has_at_concat(text, 0, keyed, seq![':'] + line_value(v, o, k + 1));
    assert(text.subrange(0, text.len() as int) =~= text);
    assert(text[keyed.len() as int] == ':');
    lemma_key_round_trip(text, 0, key, leaf_options(o));
    assert(blank_end(text, keyed.len() as int) == keyed.len());
    assert(text[0] == keyed[0]);
}

/// A key of entries whose keys increase is new to the entries before it,
/// and goes to their end.
#[verifier::rlimit(50)]
proof fn lemma_next_entry(entries: Seq<(Seq<char>, ValueModel)>, k: int)
    requires
        keys_increase(entries),
        0 <= k < entries.len(),
    ensures
        !has_key(entries.take(k), entries[k].0),
        with_entry(entries.take(k), entries[k].0, entries[k].1) == entries.take(k + 1),
{
    let acc = entries.take(k);
    let key = entries[k].0;
    let value = entries[k].1;
    assert(keys_increase(acc)) by {
        assert forall|i: int, j: int| 0 <= i < j < acc.len() implies seq_less(
            #[trigger] acc[i].0,
            #[trigger] acc[j].0,
        ) by {
            assert(acc[i] == entries[i] && acc[j] == entries[j]);
        }
    }
    assert forall|j: int| 0 <= j < acc.len() implies seq_less(#[trigger] acc[j].0, key) by {
        assert(acc[j] == entries[j]);
    }
    lemma_with_entry_last(acc, key, value);
    assert(acc.push((key, value)) =~= entries.take(k + 1));
}

/// The entries of a map that was written are read from the entry at
/// index `k` on, given those before it.
#[verifier::rlimit(50)]
proof fn lemma_map_lines(
    lines: Seq<LineModel>,
    idx: int,
    v: ValueModel,
    o: Options,
    depth: nat,
    k: nat,
)
    requires
        v is Mapping,
        v.wf(),
        fits(v, o),
        shaped_at(lines, idx, shape(v, o, depth)),
        ends_block(lines, idx + shape(v, o, depth).len(), depth),
        k + 1 < width(v),
    ensures
        map_block(
            lines,
            idx + shape_children(v, o, depth, k).len(),
            depth as int,
            v->Mapping_0.take(k as int),
        ) == Ok::<(ValueModel, int), ErrorModel>((v, idx + shape(v, o, depth).len())),
    decreases v, width(v) - k + 1,
{
    let entries = v->Mapping_0;
    let at = idx + shape_children(v, o, depth, k).len();
    let next = idx + shape_children(v, o, depth, k + 1).len();
    let acc = entries.take(k as int);
    let key = entries[k as int].0;
    let value = entries[k as int].1;
    lemma_child_place(lines, idx, v, o, depth, k);
    lemma_child_value(lines, idx, v, o, depth, k);
    assert(child_of(v, k + 1) == value);
    lemma_entry_line(v, o, k);
    lemma_next_entry(entries, k as int);
    lemma_map_block_step(lines, at, depth as int, acc, key, value_from(v, o, k), value, next);
    if k + 2 < width(v) {
        lemma_map_lines(lines, idx, v, o, depth, k + 1);
    } else {
        assert(entries.take(k as int + 1) =~= entries);
    }
}

/// A list or map that was written is read from its lines as itself.
#[verifier::rlimit(50)]
proof fn lemma_block(lines: Seq<LineModel>, idx: int, v: ValueModel, o: Options, depth: nat)
    requires
        is_collection(v),
        v.wf(),
        fits(v, o),
        shaped_at(lines, idx, shape(v, o, depth)),
        ends_block(lines, idx + shape(v, o, depth).len(), depth),
    ensures
        block_at(lines, idx, depth as int) == Ok::<(ValueModel, int), ErrorModel>(
            (v, idx + shape(v, o, depth).len()),
        ),
    decreases v, width(v) + 2,
{
    let n = (width(v) - 1) as nat;
    lemma_children_shaped(lines, idx, v, o, depth, n, 0);
    assert(shape_children(v, o, depth, 0).len() == 0);
    if v is List {
        lemma_list_lines(lines, idx, v, o, depth, 0);
        assert(v->List_0.take(0) =~= Seq::<ValueModel>::empty());
        lemma_item_line(v, o, 0);
    } else {
        lemma_map_lines(lines, idx, v, o, depth, 0);
        assert(v->Mapping_0.take(0) =~= Seq::<(Seq<char>, ValueModel)>::empty());
        lemma_entry_line(v, o, 0);
    }
}

/// A run of letters, digits and `_` that reaches the end of the text, or a
/// character that is none of them, ends there.
proof fn lemma_word_run(t: Seq<char>, from: int, end: int)
    requires
        0 <= from <= end <= t.len(),
        forall|i: int|
            from <= i < end ==> is_alpha(#[trigger] t[i]) || is_digit(t[i]) || t[i] == '_',
        end < t.len() ==> !(is_alpha(t[end]) || is_digit(t[end]) || t[end] == '_'),
    ensures
        word_end(t, from) == end,
    decreases end - from,
{
    if from < end {
        lemma_word_run(t, from + 1, end);
    }
}

/// A leaf that was written is no list item.
#[verifier::rlimit(50)]
proof fn lemma_leaf_is_no_item(v: ValueModel, o: Options)
    requires
        v.wf(),
        !is_collection(v),
    ensures
        !is_item(leaf_text(v, o)),
{
    let lo = leaf_options(o);
    let text = leaf_text(v, o);
    match v {
        ValueModel::Int(i) => {
            lemma_integer_round_trip(i, lo.leading_plus);
            if text[0] == '-' {
                crate::laws::lemma_nat_text((-i) as nat);
                assert(text.len() >= 2);
                assert(is_token_char(text[1]));
            }
        },
        ValueModel::Float(t) => {
            lemma_float_round_trip(t, lo.leading_plus);
            assert(is_token_char(text[1]));
        },
        ValueModel::Binary(bytes) => {
            reveal_strlit("b64");
            reveal_strlit("hex");
        },
        _ => {},
    }
}

/// A word that stands for a value is no map entry.
proof fn lemma_word_is_no_entry(text: Seq<char>)
    requires
        is_reserved(text),
    ensures
        entry_key(text).is_none(),
{
    assert(text.len() >= 3);
    assert(is_alpha(text[0]));
    assert forall|i: int| 0 <= i < text.len() implies is_alpha(#[trigger] text[i]) by {}
    lemma_word_run(text, 1, text.len() as int);
    assert(text.subrange(0, text.len() as int) =~= text);
}

/// A text that starts like a number is no map entry.
#[verifier::rlimit(50)]
proof fn lemma_number_is_no_entry(text: Seq<char>)
    requires
        text.len() > 0,
        is_digit(text[0]) || text[0] == '+' || text[0] == '-' || text[0] == '.',
    ensures
        entry_key(text).is_none(),
{
}

/// A string literal is no map entry.
proof fn lemma_string_is_no_entry(t: Seq<char>, quote: char, escape_unicode: bool)
    requires
        quote == '"' || quote == '\'',
    ensures
        entry_key(string_literal(t, quote, escape_unicode)).is_none(),
{
    let text = string_literal(t, quote, escape_unicode);
    assert(text.subrange(0, text.len() as int) =~= text);
    lemma_string_round_trip(text, 0, t, quote, escape_unicode);
    assert(blank_end(text, text.len() as int) == text.len());
}

/// A prefixed literal is no map entry.
#[verifier::rlimit(50)]
proof fn lemma_prefixed_is_no_entry(prefix: Seq<char>, content: Seq<char>)
    requires
        prefix == seq!['b', '6', '4'] || prefix == seq!['h', 'e', 'x'] || prefix == seq!['t', 's'],
    ensures
        entry_key(binary_literal(prefix, content)).is_none(),
{
    let text = binary_literal(prefix, content);
    let n = prefix.len() as int;
    assert(text =~= prefix + (seq!['"'] + content + seq!['"']));
    assert forall|i: int| 0 <= i < n implies text[i] == prefix[i] && (is_alpha(#[trigger] text[i])
        || is_digit(text[i])) by {}
    assert(text[n] == '"');
    lemma_word_run(text, 1, n);
    assert(text.subrange(0, n) =~= prefix);
    assert(!is_reserved(prefix)) by {
        assert(prefix[0] == 'b' || prefix[0] == 'h' || prefix.len() == 2);
    }
    assert(blank_end(text, n) == n);
}

/// A float that starts with a letter is one of the words.
#[verifier::rlimit(50)]
proof fn lemma_float_word(t: Seq<char>, leading_plus: bool)
    requires
        crate::float::is_canonical_float(t),
        crate::scalar::float_literal(t, leading_plus)[0] == 'i' || crate::scalar::float_literal(
            t,
            leading_plus,
        )[0] == 'n',
    ensures
        crate::scalar::float_literal(t, leading_plus) == t,
        is_reserved(t),
{
    let text = crate::scalar::float_literal(t, leading_plus);
    lemma_float_round_trip(t, leading_plus);
    if leading_plus && t != seq!['n', 'a', 'n'] && !(t.len() > 0 && t[0] == '-') {
        assert(text[0] == '+');
    }
    assert(text == t);
    if crate::float::is_decimal(t) {
        crate::float::lemma_decimal_shape(t);
    }
    assert(crate::float::float_of_token(t) == Some(t));
}

/// A leaf that was written is no map entry.
#[verifier::rlimit(50)]
proof fn lemma_leaf_is_no_entry(v: ValueModel, o: Options)
    requires
        v.wf(),
        !is_collection(v),
    ensures
        entry_key(leaf_text(v, o)).is_none(),
{
    let lo = leaf_options(o);
    let text = leaf_text(v, o);
    match v {
        ValueModel::Null => {
            lemma_word_is_no_entry(text);
        },
        ValueModel::Bool(b) => {
            lemma_word_is_no_entry(text);
        },
        ValueModel::Int(i) => {
            lemma_integer_round_trip(i, lo.leading_plus);
            lemma_number_is_no_entry(text);
        },
        ValueModel::Float(t) => {
            lemma_float_round_trip(t, lo.leading_plus);
            if text[0] == 'i' || text[0] == 'n' {
                lemma_float_word(t, lo.leading_plus);
                lemma_word_is_no_entry(text);
            } else {
                lemma_number_is_no_entry(text);
            }
        },
        ValueModel::String(t) => {
            lemma_string_is_no_entry(t, quote_of(lo.quote_style, t), lo.escape_unicode);
        },
        ValueModel::Binary(bytes) => {
            reveal_strlit("b64");
            reveal_strlit("hex");
            let prefix = match lo.binary_encoding {
                BinaryEncoding::Base64 => "b64"@,
                BinaryEncoding::Hex => "hex"@,
            };
            let content = match lo.binary_encoding {
                BinaryEncoding::Base64 => base64_encoded(bytes),
                BinaryEncoding::Hex => hex_text(bytes),
            };
            assert(prefix =~= seq!['b', '6', '4'] || prefix =~= seq!['h', 'e', 'x']);
            lemma_prefixed_is_no_entry(prefix, content);
        },
        ValueModel::Timestamp(t) => {
            let shown = timestamp_text(t, description_of(lo.timestamp_precision), lo.use_zulu);
            assert(text =~= binary_literal(seq!['t', 's'], shown));
            lemma_prefixed_is_no_entry(seq!['t', 's'], shown);
        },
        _ => {},
    }
}

/// A leaf that was written as a whole document reads back as itself.
#[verifier::rlimit(50)]
proof fn lemma_leaf_document(v: ValueModel, o: Options)
    requires
        v.wf(),
        !is_collection(v),
        leaf_fits(v, o),
    ensures
        document(block(v, o, Seq::empty())) == Ok::<ValueModel, ErrorModel>(v),
{
    let text = leaf_text(v, o);
    lemma_leaf_on_line(v, o);
    // the text is one line
    assert(line_end(text, 0) == text.len()) by {
        lemma_no_line_end(text, 0);
    }
    assert(indent_end(text, 0) == 0);
    assert(text.subrange(0, text.len() as int) =~= text);
    assert(blank_end(text, 0) == 0);
    assert(!trailing_ok(text, 0));
    let indent = text.subrange(0, 0);
    assert(indent =~= Seq::<char>::empty());
    assert(measured(None, indent) == Ok::<int, ErrorModel>(0));
    let line = LineModel { number: 1, level: 0, start: 0, text: text };
    let lines = seq![line];
    assert(Seq::<LineModel>::empty().push(line) =~= lines);
    assert(lines_of(text) == Ok::<Seq<LineModel>, ErrorModel>(lines));
    // the line is the leaf
    lemma_leaf_is_no_item(v, o);
    lemma_leaf_is_no_entry(v, o);
    assert(has_at(text, 0, text));
    lemma_inline_leaf(line, 0, v, o);
}

/// A text without a line feed is one line.
proof fn lemma_no_line_end(t: Seq<char>, from: int)
    requires
        on_line(t),
        0 <= from <= t.len(),
    ensures
        line_end(t, from) == t.len(),
    decreases t.len() - from,
{
    if from < t.len() {
        lemma_no_line_end(t, from + 1);
    }
}

/// Round trip: a well-formed value that was written as JAML reads back as
/// itself, given that no list or map in it is empty and that its base64
/// and timestamp leaves stand on one line and are read back by the crates
/// that read them.
#[verifier::rlimit(50)]
pub proof fn lemma_round_trip(v: ValueModel, o: Options)
    requires
        v.wf(),
        fits(v, o),
    ensures
        document(block(v, o, Seq::empty())) == Ok::<ValueModel, ErrorModel>(v),
{
    if !is_collection(v) {
        lemma_leaf_document(v, o);
    } else {
        let text = block(v, o, Seq::empty());
        assert(spaces(0) =~= Seq::<char>::empty());
        assert(text.subrange(0, text.len() as int) =~= text);
        let (lines, style) = lemma_block_lines(text, 0, v, o, 0, 0, None, Seq::empty());
        assert(Seq::<LineModel>::empty() + lines =~= lines);
        assert(lines_of(text) == Ok::<Seq<LineModel>, ErrorModel>(lines));
        lemma_shape_first(v, o, 0);
        assert(shapes(lines).subrange(0, lines.len() as int) =~= shapes(lines));
        assert(shapes(lines).len() == lines.len());
        lemma_shaped_index(lines, 0, shape(v, o, 0), 0);
        lemma_block(lines, 0, v, o, 0);
    }
}

/// Idempotence of formatting: writing a value as JAML, reading the text
/// and writing what was read gives the same text again.
pub proof fn lemma_format_idempotent(v: ValueModel, o: Options)
    requires
        v.wf(),
        fits(v, o),
    ensures
        document(block(v, o, Seq::empty())) matches Ok(w) && block(w, o, Seq::empty()) == block(
            v,
            o,
            Seq::empty(),
        ),
{
    lemma_round_trip(v, o);
}

} // verus!
