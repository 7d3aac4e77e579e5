//! Writing a value as JAML text.

use vstd::prelude::*;
use crate::formatter::options::OptionsModel;
use crate::formatter::{key_text, push_key_text, push_leaf, scalar_text, width};
use crate::jaml::formatter::options::{BinaryEncoding, Options, QuoteStyle, TimestampPrecision};
use crate::text::{push_all, string_of};
use crate::value::{Value, ValueModel};

pub mod options;

verus! {

/// The options under which a leaf is written in JAML as it is in JASN.
pub open spec fn leaf_options(o: Options) -> OptionsModel {
    OptionsModel {
        indent: seq![' ', ' '],
        trailing_commas: false,
        quote_style: match o.quote_style {
            QuoteStyle::Double => crate::formatter::options::QuoteStyle::Double,
            QuoteStyle::Single => crate::formatter::options::QuoteStyle::Single,
            QuoteStyle::PreferDouble => crate::formatter::options::QuoteStyle::PreferDouble,
        },
        binary_encoding: match o.binary_encoding {
            BinaryEncoding::Base64 => crate::formatter::options::BinaryEncoding::Base64,
            BinaryEncoding::Hex => crate::formatter::options::BinaryEncoding::Hex,
        },
        unquoted_keys: o.unquoted_keys,
        leading_plus: o.leading_plus,
        sort_keys: o.sort_keys,
        escape_unicode: o.escape_unicode,
        use_zulu: o.use_zulu,
        timestamp_precision: match o.timestamp_precision {
            TimestampPrecision::Auto => crate::formatter::options::TimestampPrecision::Auto,
            TimestampPrecision::Seconds => crate::formatter::options::TimestampPrecision::Seconds,
            TimestampPrecision::Milliseconds => crate::formatter::options::TimestampPrecision::Milliseconds,
            TimestampPrecision::Microseconds => crate::formatter::options::TimestampPrecision::Microseconds,
            TimestampPrecision::Nanoseconds => crate::formatter::options::TimestampPrecision::Nanoseconds,
        },
    }
}

/// How a value that is no list and no map is written in JAML: as in JASN,
/// but hexadecimal binary literals start with `hex`.
pub open spec fn leaf_text(v: ValueModel, o: Options) -> Seq<char> {
    scalar_text(v, leaf_options(o), "hex"@)
}

/// Whether a value is a list or a map.
pub open spec fn is_collection(v: ValueModel) -> bool {
    v is List || v is Mapping
}

/// The child of a list or map that its `n`-th line starts, counted from
/// one.
pub open spec fn child_of(v: ValueModel, n: nat) -> ValueModel {
    match v {
        ValueModel::List(items) => if 0 < n <= items.len() {
            items[n - 1]
        } else {
            ValueModel::Null
        },
        ValueModel::Mapping(entries) => if 0 < n <= entries.len() {
            entries[n - 1].1
        } else {
            ValueModel::Null
        },
        _ => ValueModel::Null,
    }
}

/// What the line of the `n`-th child starts with: `- ` in a list, the key
/// and a colon in a map.
pub open spec fn line_head(v: ValueModel, o: Options, n: nat) -> Seq<char> {
    match v {
        ValueModel::Mapping(entries) => if 0 < n <= entries.len() {
            key_text(entries[n - 1].0, leaf_options(o)) + seq![':']
        } else {
            Seq::empty()
        },
        _ => seq!['-', ' '],
    }
}

/// What follows the head on the line of the `n`-th child: nothing where
/// the child is a list or map, else the child itself, after a space in a
/// map.
pub open spec fn line_value(v: ValueModel, o: Options, n: nat) -> Seq<char> {
    let child = child_of(v, n);
    if is_collection(child) {
        Seq::empty()
    } else if v is Mapping {
        seq![' '] + leaf_text(child, o)
    } else {
        leaf_text(child, o)
    }
}

/// The line of the `n`-th child of a list or map, without its indentation
/// and its line feed.
pub open spec fn line_of(v: ValueModel, o: Options, n: nat) -> Seq<char> {
    line_head(v, o, n) + line_value(v, o, n)
}

/// The JAML text of a value at a nesting whose indentation is `prefix`.
///
/// A leaf is written as it stands. A list is one line per item: the
/// prefix, `- ` and the item. A map is one line per entry: the prefix, the
/// key, `:` and the value. A leaf child follows on the same line (after a
/// space, in a map); a list or map child starts on the next line, two
/// spaces deeper. An empty list or map is the empty text.
pub open spec fn block(v: ValueModel, o: Options, prefix: Seq<char>) -> Seq<char>
    decreases v, width(v) + 1,
{
    match v {
        ValueModel::List(items) => block_children(v, o, prefix, items.len()),
        ValueModel::Mapping(entries) => block_children(v, o, prefix, entries.len()),
        _ => leaf_text(v, o),
    }
}

/// The lines below the line of the `n`-th child: the child's own lines
/// where it is a list or map, else none.
pub open spec fn nested(v: ValueModel, o: Options, prefix: Seq<char>, n: nat) -> Seq<char>
    decreases v, 0nat,
{
    if 0 < n < width(v) && is_collection(child_of(v, n)) {
        block(child_of(v, n), o, prefix + seq![' ', ' '])
    } else {
        Seq::empty()
    }
}

/// The lines of the first `n` children of a list or map.
pub open spec fn block_children(v: ValueModel, o: Options, prefix: Seq<char>, n: nat) -> Seq<char>
    decreases v, n + 1,
{
    if n == 0 || n >= width(v) {
        Seq::empty()
    } else {
        block_children(v, o, prefix, (n - 1) as nat) + prefix + line_of(v, o, n) + seq!['\n']
            + nested(v, o, prefix, n)
    }
}

/// The JASN options under which the leaves are written.
fn leaf_options_of(opts: &Options) -> (r: crate::formatter::options::Options)
    ensures
        r@ == leaf_options(*opts),
{
    let two: Vec<char> = vec![' ', ' '];
    assert(two@ =~= seq![' ', ' ']);
    crate::formatter::options::Options {
        indent: string_of(&two),
        trailing_commas: false,
        quote_style: match opts.quote_style {
            QuoteStyle::Double => crate::formatter::options::QuoteStyle::Double,
            QuoteStyle::Single => crate::formatter::options::QuoteStyle::Single,
            QuoteStyle::PreferDouble => crate::formatter::options::QuoteStyle::PreferDouble,
        },
        binary_encoding: match opts.binary_encoding {
            BinaryEncoding::Base64 => crate::formatter::options::BinaryEncoding::Base64,
            BinaryEncoding::Hex => crate::formatter::options::BinaryEncoding::Hex,
        },
        unquoted_keys: opts.unquoted_keys,
        leading_plus: opts.leading_plus,
        sort_keys: opts.sort_keys,
        escape_unicode: opts.escape_unicode,
        use_zulu: opts.use_zulu,
        timestamp_precision: match opts.timestamp_precision {
            TimestampPrecision::Auto => crate::formatter::options::TimestampPrecision::Auto,
            TimestampPrecision::Seconds => crate::formatter::options::TimestampPrecision::Seconds,
            TimestampPrecision::Milliseconds => crate::formatter::options::TimestampPrecision::Milliseconds,
            TimestampPrecision::Microseconds => crate::formatter::options::TimestampPrecision::Microseconds,
            TimestampPrecision::Nanoseconds => crate::formatter::options::TimestampPrecision::Nanoseconds,
        },
    }
}

fn check_collection(value: &Value) -> (r: bool)
    ensures
        r == is_collection(value@),
{
    match value {
        Value::List(_) => true,
        Value::Mapping(_) => true,
        _ => false,
    }
}

/// Appends the line of the child at index `i` of a list or map and the
/// lines below it.
#[verifier::rlimit(50)]
fn push_child(
    out: &mut Vec<char>,
    value: &Value,
    i: usize,
    opts: &Options,
    leaf_opts: &crate::formatter::options::Options,
    prefix: &Vec<char>,
    deeper: &Vec<char>,
)
    requires
        value.wf(),
        value@ is List || value@ is Mapping,
        i + 1 < width(value@),
        leaf_opts@ == leaf_options(*opts),
        deeper@ == prefix@ + seq![' ', ' '],
    ensures
        final(out)@ == old(out)@ + (prefix@ + line_of(value@, *opts, (i + 1) as nat) + seq!['\n']
            + nested(value@, *opts, prefix@, (i + 1) as nat)),
    decreases value@, 0nat,
{
    push_all(out, prefix);
    let ghost indented = out@;
    let child: &Value;
    let in_map: bool;
    match value {
        Value::List(items) => {
            assert(value@->List_0.len() == items.len());
            assert(value@->List_0[i as int] == items@[i as int]@);
            out.push('-');
            out.push(' ');
            child = &items[i];
            in_map = false;
        },
        Value::Mapping(entries) => {
            assert(i < entries@.len());
            push_key_text(out, entries.key_at(i).as_str(), leaf_opts);
            out.push(':');
            child = entries.value_at(i);
            in_map = true;
            assert(decreases_to!(value@ => value@->Mapping_0[i as int].1));
        },
        _ => {
            return ;
        },
    }
    assert(child@ == child_of(value@, (i + 1) as nat));
    assert(child@.wf());
    assert(decreases_to!(value@ => child@));
    let ghost headed = out@;
    assert(headed =~= indented + line_head(value@, *opts, (i + 1) as nat));
    if check_collection(child) {
        out.push('\n');
        push_block(out, child, opts, leaf_opts, deeper);
        assert(out@ =~= old(out)@ + (prefix@ + line_of(value@, *opts, (i + 1) as nat)
            + seq!['\n'] + nested(value@, *opts, prefix@, (i + 1) as nat)));
    } else {
        if in_map {
            out.push(' ');
        }
        push_leaf(out, child, leaf_opts, "hex");
        assert(out@ =~= headed + line_value(value@, *opts, (i + 1) as nat));
        out.push('\n');
        assert(out@ =~= old(out)@ + (prefix@ + line_of(value@, *opts, (i + 1) as nat)
            + seq!['\n'] + nested(value@, *opts, prefix@, (i + 1) as nat)));
    }
}

/// Appends the JAML text of a value.
#[verifier::rlimit(50)]
fn push_block(
    out: &mut Vec<char>,
    value: &Value,
    opts: &Options,
    leaf_opts: &crate::formatter::options::Options,
    prefix: &Vec<char>,
)
    requires
        value.wf(),
        leaf_opts@ == leaf_options(*opts),
    ensures
        final(out)@ == old(out)@ + block(value@, *opts, prefix@),
    decreases value@, 1nat,
{
    let n: usize = match value {
        Value::List(items) => {
            assert(value@->List_0.len() == items.len());
            items.len()
        },
        Value::Mapping(entries) => entries.len(),
        _ => {
            push_leaf(out, value, leaf_opts, "hex");
            return ;
        },
    };
    let mut deeper: Vec<char> = Vec::new();
    push_all(&mut deeper, prefix);
    deeper.push(' ');
    deeper.push(' ');
    assert(deeper@ =~= prefix@ + seq![' ', ' ']);
    let mut i: usize = 0;
    assert(out@ =~= old(out)@ + block_children(value@, *opts, prefix@, 0));
    while i < n
        invariant
            i <= n,
            n + 1 == width(value@),
            value@ is List || value@ is Mapping,
            value.wf(),
            leaf_opts@ == leaf_options(*opts),
            deeper@ == prefix@ + seq![' ', ' '],
            out@ == old(out)@ + block_children(value@, *opts, prefix@, i as nat),
        decreases n - i,
    {
        let ghost done = block_children(value@, *opts, prefix@, i as nat);
        push_child(out, value, i, opts, leaf_opts, prefix, &deeper);
        i += 1;
        assert(block_children(value@, *opts, prefix@, i as nat) == done + prefix@ + line_of(
            value@,
            *opts,
            i as nat,
        ) + seq!['\n'] + nested(value@, *opts, prefix@, i as nat));
        assert(out@ =~= old(out)@ + block_children(value@, *opts, prefix@, i as nat));
    }
}

/// The JAML text of a value under the given options.
pub fn format_with_opts(value: &Value, opts: &Options) -> (r: String)
    requires
        value.wf(),
    ensures
        r@ == block(value@, *opts, Seq::empty()),
{
    let mut out: Vec<char> = Vec::new();
    let leaf_opts = leaf_options_of(opts);
    let prefix: Vec<char> = Vec::new();
    push_block(&mut out, value, opts, &leaf_opts, &prefix);
    assert(out@ =~= block(value@, *opts, Seq::empty()));
    string_of(&out)
}

/// The JAML text of a value under the default options.
pub fn format(value: &Value) -> (r: String)
    requires
        value.wf(),
    ensures
        r@ == block(value@, crate::jaml::formatter::options::default_options(), Seq::empty()),
{
    format_with_opts(value, &Options::new())
}

} // verus!
