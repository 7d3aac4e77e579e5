//! Writing a value as JASN text.

use vstd::prelude::*;
use crate::formatter::options::{
    BinaryEncoding, Options, OptionsModel, QuoteStyle, TimestampPrecision,
};
use crate::scalar::{
    base64_encoded, binary_literal, float_literal, hex_text, int_literal, key_literal,
    pick_quote, preferred_quote, push_base64_literal, push_float, push_hex_literal, push_int,
    push_key, push_string, push_timestamp, string_literal, timestamp_literal, timestamp_text,
};
use crate::text::{chars_of, push_all, string_of};
use crate::value::{Value, ValueModel};

pub mod options;

verus! {

/// The quote that a style picks for a string.
pub open spec fn quote_of(style: QuoteStyle, s: Seq<char>) -> char {
    match style {
        QuoteStyle::Double => '"',
        QuoteStyle::Single => '\'',
        QuoteStyle::PreferDouble => preferred_quote(s),
    }
}

/// The format description, in the `time` crate's syntax, for a fixed number
/// of fractional digits; none for [`TimestampPrecision::Auto`].
pub open spec fn description_of(precision: TimestampPrecision) -> Option<Seq<char>> {
    match precision {
        TimestampPrecision::Auto => None,
        TimestampPrecision::Seconds => Some(
            "[year]-[month]-[day]T[hour]:[minute]:[second][offset_hour sign:mandatory]:[offset_minute]"@,
        ),
        TimestampPrecision::Milliseconds => Some(
            "[year]-[month]-[day]T[hour]:[minute]:[second].[subsecond digits:3][offset_hour sign:mandatory]:[offset_minute]"@,
        ),
        TimestampPrecision::Microseconds => Some(
            "[year]-[month]-[day]T[hour]:[minute]:[second].[subsecond digits:6][offset_hour sign:mandatory]:[offset_minute]"@,
        ),
        TimestampPrecision::Nanoseconds => Some(
            "[year]-[month]-[day]T[hour]:[minute]:[second].[subsecond digits:9][offset_hour sign:mandatory]:[offset_minute]"@,
        ),
    }
}

/// How a value that is no list and no map is written in JASN.
pub open spec fn leaf_text(v: ValueModel, o: OptionsModel) -> Seq<char> {
    scalar_text(v, o, "h"@)
}

/// How a value that is no list and no map is written, with the given
/// prefix for hexadecimal binary literals.
pub open spec fn scalar_text(v: ValueModel, o: OptionsModel, hex_prefix: Seq<char>) -> Seq<char> {
    match v {
        ValueModel::Null => seq!['n', 'u', 'l', 'l'],
        ValueModel::Bool(b) => if b {
            seq!['t', 'r', 'u', 'e']
        } else {
            seq!['f', 'a', 'l', 's', 'e']
        },
        ValueModel::Int(i) => int_literal(i, o.leading_plus),
        ValueModel::Float(text) => float_literal(text, o.leading_plus),
        ValueModel::String(s) => string_literal(s, quote_of(o.quote_style, s), o.escape_unicode),
        ValueModel::Binary(bytes) => match o.binary_encoding {
            BinaryEncoding::Base64 => binary_literal("b64"@, base64_encoded(bytes)),
            BinaryEncoding::Hex => binary_literal(hex_prefix, hex_text(bytes)),
        },
        ValueModel::Timestamp(t) => timestamp_literal(
            timestamp_text(t, description_of(o.timestamp_precision), o.use_zulu),
        ),
        _ => Seq::empty(),
    }
}

/// How a key is written.
pub open spec fn key_text(key: Seq<char>, o: OptionsModel) -> Seq<char> {
    key_literal(key, o.unquoted_keys, quote_of(o.quote_style, key), o.escape_unicode)
}

/// The number of children of a list or map, plus one.
pub open spec fn width(v: ValueModel) -> nat {
    match v {
        ValueModel::List(items) => items.len() + 1,
        ValueModel::Mapping(entries) => entries.len() + 1,
        _ => 0,
    }
}

/// How the children of a list or map are laid out: what follows the
/// opening bracket, what stands before each child, what separates a key
/// from its value, what ends each child's line, whether the last child is
/// followed by a comma, and what stands before the closing bracket.
pub struct Layout {
    pub open: Seq<char>,
    pub deeper: Seq<char>,
    pub colon: Seq<char>,
    pub newline: Seq<char>,
    pub trailing: bool,
    pub close: Seq<char>,
}

/// The layout under the options at a nesting whose indentation is `prefix`.
/// With an empty indent string everything stands on one line without white
/// space. Otherwise each child stands on a line of its own, one level
/// deeper than `prefix`, and the closing bracket stands after `prefix`.
pub open spec fn layout(o: OptionsModel, prefix: Seq<char>) -> Layout {
    if o.indent.len() == 0 {
        Layout {
            open: Seq::empty(),
            deeper: Seq::empty(),
            colon: seq![':'],
            newline: Seq::empty(),
            trailing: false,
            close: Seq::empty(),
        }
    } else {
        Layout {
            open: seq!['\n'],
            deeper: prefix + o.indent,
            colon: seq![':', ' '],
            newline: seq!['\n'],
            trailing: o.trailing_commas,
            close: prefix,
        }
    }
}

/// The JASN text of a value under the options, at a nesting whose
/// indentation is `prefix`.
///
/// Leaves are written by [`leaf_text`]. An empty list or map is `[]` or
/// `{}`. Any other is its opening bracket, its children as the layout
/// places them, with a comma after each but the last (after the last too,
/// with trailing commas on and an indent string), and its closing bracket.
pub open spec fn render(v: ValueModel, o: OptionsModel, prefix: Seq<char>) -> Seq<char>
    decreases v, width(v) + 1,
{
    let l = layout(o, prefix);
    match v {
        ValueModel::List(items) => if items.len() == 0 {
            seq!['[', ']']
        } else {
            seq!['['] + l.open + children(v, o, l, items.len()) + l.close + seq![']']
        },
        ValueModel::Mapping(entries) => if entries.len() == 0 {
            seq!['{', '}']
        } else {
            seq!['{'] + l.open + children(v, o, l, entries.len()) + l.close + seq!['}']
        },
        _ => leaf_text(v, o),
    }
}

/// The `n`-th child of a list or map as it is written, counted from one: a
/// list item is its value, a map entry its key, the colon and its value.
pub open spec fn child_text(v: ValueModel, o: OptionsModel, l: Layout, n: nat) -> Seq<char>
    decreases v, 0nat,
{
    if n == 0 || n >= width(v) {
        Seq::empty()
    } else {
        match v {
            ValueModel::List(items) => render(items[n - 1], o, l.deeper),
            ValueModel::Mapping(entries) => key_text(entries[n - 1].0, o) + l.colon + render(
                entries[n - 1].1,
                o,
                l.deeper,
            ),
            _ => Seq::empty(),
        }
    }
}

/// The comma after the `n`-th child, counted from one.
pub open spec fn comma_after(v: ValueModel, l: Layout, n: nat) -> Seq<char> {
    if n + 1 < width(v) || l.trailing {
        seq![',']
    } else {
        Seq::empty()
    }
}

/// The first `n` children of a list or map as the layout places them.
pub open spec fn children(v: ValueModel, o: OptionsModel, l: Layout, n: nat) -> Seq<char>
    decreases v, n + 1,
{
    if n == 0 || n >= width(v) {
        Seq::empty()
    } else {
        children(v, o, l, (n - 1) as nat) + l.deeper + child_text(v, o, l, n) + comma_after(
            v,
            l,
            n,
        ) + l.newline
    }
}

/// The quote that the options pick for a string.
fn quote_for(opts: &Options, s: &Vec<char>) -> (r: char)
    ensures
        r == quote_of(opts@.quote_style, s@),
{
    match opts.quote_style {
        QuoteStyle::Double => '"',
        QuoteStyle::Single => '\'',
        QuoteStyle::PreferDouble => pick_quote(s),
    }
}

/// The format description for a precision.
fn description_for(precision: TimestampPrecision) -> (r: Option<&'static str>)
    ensures
        match r {
            Some(d) => description_of(precision) == Some(d@),
            None => description_of(precision).is_none(),
        },
{
    match precision {
        TimestampPrecision::Auto => None,
        TimestampPrecision::Seconds => Some(
            "[year]-[month]-[day]T[hour]:[minute]:[second][offset_hour sign:mandatory]:[offset_minute]",
        ),
        TimestampPrecision::Milliseconds => Some(
            "[year]-[month]-[day]T[hour]:[minute]:[second].[subsecond digits:3][offset_hour sign:mandatory]:[offset_minute]",
        ),
        TimestampPrecision::Microseconds => Some(
            "[year]-[month]-[day]T[hour]:[minute]:[second].[subsecond digits:6][offset_hour sign:mandatory]:[offset_minute]",
        ),
        TimestampPrecision::Nanoseconds => Some(
            "[year]-[month]-[day]T[hour]:[minute]:[second].[subsecond digits:9][offset_hour sign:mandatory]:[offset_minute]",
        ),
    }
}

/// An integer as the options write it.
pub fn format_int(i: i64, opts: &Options) -> (r: String)
    ensures
        r@ == int_literal(i as int, opts@.leading_plus),
{
    let mut out: Vec<char> = Vec::new();
    push_int(&mut out, i, opts.leading_plus);
    assert(out@ =~= int_literal(i as int, opts@.leading_plus));
    string_of(&out)
}

/// Appends a key as the options write it.
pub fn push_key_text(out: &mut Vec<char>, key: &str, opts: &Options)
    ensures
        final(out)@ == old(out)@ + key_text(key@, opts@),
{
    let chars = chars_of(key);
    let quote = quote_for(opts, &chars);
    push_key(out, &chars, opts.unquoted_keys, quote, opts.escape_unicode);
}

/// Appends a value that is no list and no map.
#[verifier::rlimit(50)]
pub fn push_leaf(out: &mut Vec<char>, value: &Value, opts: &Options, hex_prefix: &str)
    requires
        value.wf(),
        !(value@ is List),
        !(value@ is Mapping),
    ensures
        final(out)@ == old(out)@ + scalar_text(value@, opts@, hex_prefix@),
{
    match value {
        Value::Null => {
            out.push('n');
            out.push('u');
            out.push('l');
            out.push('l');
            assert(out@ =~= old(out)@ + seq!['n', 'u', 'l', 'l']);
        },
        Value::Bool(b) => {
            if *b {
                out.push('t');
                out.push('r');
                out.push('u');
                out.push('e');
                assert(out@ =~= old(out)@ + seq!['t', 'r', 'u', 'e']);
            } else {
                out.push('f');
                out.push('a');
                out.push('l');
                out.push('s');
                out.push('e');
                assert(out@ =~= old(out)@ + seq!['f', 'a', 'l', 's', 'e']);
            }
        },
        Value::Int(i) => push_int(out, *i, opts.leading_plus),
        Value::Float(f) => {
            let text = chars_of(f.as_str());
            push_float(out, &text, opts.leading_plus);
        },
        Value::String(s) => {
            let chars = chars_of(s.as_str());
            let quote = quote_for(opts, &chars);
            push_string(out, &chars, quote, opts.escape_unicode);
        },
        Value::Binary(b) => match opts.binary_encoding {
            BinaryEncoding::Base64 => push_base64_literal(out, "b64", b.as_slice()),
            BinaryEncoding::Hex => push_hex_literal(out, hex_prefix, b.as_slice()),
        },
        Value::Timestamp(t) => {
            push_timestamp(out, t, description_for(opts.timestamp_precision), opts.use_zulu);
        },
        _ => {},
    }
}

/// Appends what ends a child: a comma and a line feed, each where wanted.
fn push_line_end(out: &mut Vec<char>, comma: bool, newline: bool)
    ensures
        final(out)@ == old(out)@ + (if comma {
            seq![',']
        } else {
            Seq::<char>::empty()
        }) + (if newline {
            seq!['\n']
        } else {
            Seq::<char>::empty()
        }),
{
    if comma {
        out.push(',');
    }
    if newline {
        out.push('\n');
    }
    assert(out@ =~= old(out)@ + (if comma {
        seq![',']
    } else {
        Seq::<char>::empty()
    }) + (if newline {
        seq!['\n']
    } else {
        Seq::<char>::empty()
    }));
}

/// Appends a key and the colon after it, with a space where the output is
/// not compact.
fn push_entry_key(out: &mut Vec<char>, key: &str, opts: &Options, compact: bool)
    ensures
        final(out)@ == old(out)@ + (key_text(key@, opts@) + (if compact {
            seq![':']
        } else {
            seq![':', ' ']
        })),
{
    push_key_text(out, key, opts);
    out.push(':');
    if !compact {
        out.push(' ');
    }
    assert(out@ =~= old(out)@ + (key_text(key@, opts@) + (if compact {
        seq![':']
    } else {
        seq![':', ' ']
    })));
}

/// Appends the child at index `i` of a list or map as the layout places
/// it: the indentation, the child, the comma and the end of the line.
#[verifier::rlimit(50)]
fn push_child(
    out: &mut Vec<char>,
    value: &Value,
    i: usize,
    opts: &Options,
    indent: &Vec<char>,
    deeper: &Vec<char>,
    Ghost(l): Ghost<Layout>,
)
    requires
        value.wf(),
        value@ is List || value@ is Mapping,
        i + 1 < width(value@),
        indent@ == opts@.indent,
        exists|prefix: Seq<char>| l == layout(opts@, prefix),
        deeper@ == l.deeper,
    ensures
        final(out)@ == old(out)@ + (l.deeper + child_text(value@, opts@, l, (i + 1) as nat)
            + comma_after(value@, l, (i + 1) as nat) + l.newline),
    decreases value@, 0nat,
{
    let compact = indent.len() == 0;
    push_all(out, deeper);
    let ghost indented = out@;
    let last: bool;
    match value {
        Value::List(items) => {
            assert(value@->List_0.len() == items.len());
            assert(value@->List_0[i as int] == items@[i as int]@);
            assert(value@->List_0[i as int].wf());
            push_value(out, &items[i], opts, indent, deeper);
            last = i + 1 >= items.len();
        },
        Value::Mapping(entries) => {
            assert(i < entries@.len());
            push_entry_key(out, entries.key_at(i).as_str(), opts, compact);
            let ghost keyed = out@;
            assert(value@->Mapping_0[i as int].1.wf());
            assert(decreases_to!(value@ => value@->Mapping_0[i as int].1));
            push_value(out, entries.value_at(i), opts, indent, deeper);
            assert(out@ =~= indented + child_text(value@, opts@, l, (i + 1) as nat));
            let count = entries.len();
            last = i + 1 >= count;
        },
        _ => {
            last = true;
        },
    }
    assert(out@ == indented + child_text(value@, opts@, l, (i + 1) as nat));
    push_line_end(out, !last || (!compact && opts.trailing_commas), !compact);
    assert(out@ =~= old(out)@ + (l.deeper + child_text(value@, opts@, l, (i + 1) as nat)
        + comma_after(value@, l, (i + 1) as nat) + l.newline));
}

/// Appends the JASN text of a value.
#[verifier::rlimit(50)]
fn push_value(
    out: &mut Vec<char>,
    value: &Value,
    opts: &Options,
    indent: &Vec<char>,
    prefix: &Vec<char>,
)
    requires
        value.wf(),
        indent@ == opts@.indent,
    ensures
        final(out)@ == old(out)@ + render(value@, opts@, prefix@),
    decreases value@, 1nat,
{
    let compact = indent.len() == 0;
    let ghost l = layout(opts@, prefix@);
    let n: usize = match value {
        Value::List(items) => {
            assert(value@->List_0.len() == items.len());
            items.len()
        },
        Value::Mapping(entries) => entries.len(),
        _ => {
            push_leaf(out, value, opts, "h");
            return ;
        },
    };
    let is_list = value.is_list();
    if n == 0 {
        if is_list {
            out.push('[');
            out.push(']');
            assert(out@ =~= old(out)@ + seq!['[', ']']);
        } else {
            out.push('{');
            out.push('}');
            assert(out@ =~= old(out)@ + seq!['{', '}']);
        }
        return ;
    }
    let mut deeper: Vec<char> = Vec::new();
    if !compact {
        push_all(&mut deeper, prefix);
        push_all(&mut deeper, indent);
    }
    assert(deeper@ =~= l.deeper);
    out.push(if is_list {
        '['
    } else {
        '{'
    });
    if !compact {
        out.push('\n');
    }
    let ghost bracket = if is_list {
        seq!['[']
    } else {
        seq!['{']
    };
    let ghost start = out@;
    assert(start =~= old(out)@ + (bracket + l.open));
    let mut i: usize = 0;
    assert(out@ =~= start + children(value@, opts@, l, 0));
    while i < n
        invariant
            i <= n,
            n + 1 == width(value@),
            value@ is List || value@ is Mapping,
            value.wf(),
            indent@ == opts@.indent,
            l == layout(opts@, prefix@),
            deeper@ == l.deeper,
            out@ == start + children(value@, opts@, l, i as nat),
        decreases n - i,
    {
        let ghost done = children(value@, opts@, l, i as nat);
        push_child(out, value, i, opts, indent, &deeper, Ghost(l));
        i += 1;
        assert(children(value@, opts@, l, i as nat) == done + l.deeper + child_text(
            value@,
            opts@,
            l,
            i as nat,
        ) + comma_after(value@, l, i as nat) + l.newline);
        assert(out@ =~= start + children(value@, opts@, l, i as nat));
    }
    if !compact {
        push_all(out, prefix);
    }
    out.push(if is_list {
        ']'
    } else {
        '}'
    });
    let ghost closing = if is_list {
        seq![']']
    } else {
        seq!['}']
    };
    assert(out@ =~= old(out)@ + (bracket + l.open + children(value@, opts@, l, n as nat) + l.close
        + closing));
}

/// The JASN text of a value under the given options.
pub fn to_string_opts(value: &Value, opts: &Options) -> (r: String)
    requires
        value.wf(),
    ensures
        r@ == render(value@, opts@, Seq::empty()),
{
    let mut out: Vec<char> = Vec::new();
    let indent = chars_of(opts.indent.as_str());
    let prefix: Vec<char> = Vec::new();
    push_value(&mut out, value, opts, &indent, &prefix);
    assert(out@ =~= render(value@, opts@, Seq::empty()));
    string_of(&out)
}

/// The compact JASN text of a value: no white space at all.
pub fn to_string(value: &Value) -> (r: String)
    requires
        value.wf(),
    ensures
        r@ == render(value@, crate::formatter::options::compact_model(), Seq::empty()),
{
    to_string_opts(value, &Options::compact())
}

/// The pretty JASN text of a value: one child per line, two spaces per
/// level, trailing commas.
pub fn to_string_pretty(value: &Value) -> (r: String)
    requires
        value.wf(),
    ensures
        r@ == render(value@, crate::formatter::options::pretty_model(), Seq::empty()),
{
    to_string_opts(value, &Options::pretty())
}

} // verus!
