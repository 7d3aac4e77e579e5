//! Reading JAML, the indentation-based syntax.
//!
//! A document is read in two steps. First the text is cut into lines; blank
//! lines and comment lines are dropped and the indentation of every other
//! line is measured. Then the lines are read as nested blocks: a list is a
//! run of `- item` lines at one level, a map a run of `key: value` lines at
//! one level, and what follows a dash or a colon is either a value on the
//! same line or a block one level deeper on the lines below.

use vstd::prelude::*;
use crate::error::ErrorModel;
pub use crate::error::Error;
use crate::jaml::parser::indent::{established, measured, Style, Tracker};
use crate::parser::{key_at, line_end, parse_key, parse_value, scan_line, value_at};
use crate::text::{chars_of, slice_of, string_of};
use crate::value::{has_key, with_entry, Entries, Value, ValueModel};

pub mod indent;

verus! {

/// A line of a document that is neither blank nor a comment.
#[derive(Debug)]
pub struct Line {
    /// The number of the line in the text, counted from one.
    pub number: usize,
    /// The indentation level.
    pub level: usize,
    /// The offset in the text of the first character after the indentation.
    pub start: usize,
    /// The characters after the indentation, up to the end of the line.
    pub text: Vec<char>,
}

/// The mathematical content of a [`Line`].
pub struct LineModel {
    pub number: int,
    pub level: int,
    pub start: int,
    pub text: Seq<char>,
}

impl View for Line {
    type V = LineModel;

    open spec fn view(&self) -> LineModel {
        LineModel {
            number: self.number as int,
            level: self.level as int,
            start: self.start as int,
            text: self.text@,
        }
    }
}

/// The views of a sequence of lines.
pub open spec fn line_views(lines: Seq<Line>) -> Seq<LineModel> {
    Seq::new(lines.len(), |i: int| lines[i]@)
}

/// The characters that indentation is made of.
pub open spec fn is_indent_char(c: char) -> bool {
    c == ' ' || c == '\t'
}

/// White space inside a line.
pub open spec fn is_blank_char(c: char) -> bool {
    c == ' ' || c == '\t' || c == '\r'
}

/// The end of the run of indentation characters that starts at `pos`.
pub open spec fn indent_end(s: Seq<char>, pos: int) -> int
    decreases s.len() - pos,
{
    if 0 <= pos < s.len() && is_indent_char(s[pos]) {
        indent_end(s, pos + 1)
    } else {
        pos
    }
}

/// The end of the run of white space that starts at `pos`.
pub open spec fn blank_end(t: Seq<char>, pos: int) -> int
    decreases t.len() - pos,
{
    if 0 <= pos < t.len() && is_blank_char(t[pos]) {
        blank_end(t, pos + 1)
    } else {
        pos
    }
}

/// Whether nothing but white space and a `#` comment stands from `pos` on.
pub open spec fn trailing_ok(t: Seq<char>, pos: int) -> bool {
    let p = blank_end(t, pos);
    p >= t.len() || t[p] == '#'
}

/// The lines of the text from `pos` on, after the lines in `acc`, where
/// `newlines` line feeds stand before `pos` and `style` is the indentation
/// unit established so far. The first indentation error ends the reading.
pub open spec fn lines_from(
    s: Seq<char>,
    pos: int,
    newlines: int,
    style: Option<Style>,
    acc: Seq<LineModel>,
) -> Result<Seq<LineModel>, ErrorModel>
    decreases s.len() - pos,
{
    if pos < 0 || pos >= s.len() {
        Ok(acc)
    } else {
        let e = line_end(s, pos);
        let i = indent_end(s, pos);
        if !(pos <= i <= e <= s.len()) {
            Ok(acc)
        } else {
            let text = s.subrange(i, e);
            if trailing_ok(text, 0) {
                if e >= s.len() {
                    Ok(acc)
                } else {
                    lines_from(s, e + 1, newlines + 1, style, acc)
                }
            } else {
                let indent = s.subrange(pos, i);
                match measured(style, indent) {
                    Err(err) => Err(err),
                    Ok(level) => {
                        let line = LineModel { number: newlines + 1, level, start: i, text };
                        if e >= s.len() {
                            Ok(acc.push(line))
                        } else {
                            lines_from(
                                s,
                                e + 1,
                                newlines + 1,
                                established(style, indent),
                                acc.push(line),
                            )
                        }
                    },
                }
            }
        }
    }
}

/// The lines of a text.
pub open spec fn lines_of(s: Seq<char>) -> Result<Seq<LineModel>, ErrorModel> {
    lines_from(s, 0, 0, None, Seq::empty())
}

/// Whether a line is a list item: a dash that ends the line or is followed
/// by white space.
pub open spec fn is_item(t: Seq<char>) -> bool {
    t.len() > 0 && t[0] == '-' && (t.len() == 1 || is_blank_char(t[1]))
}

/// The key of a map entry line with the position after its colon; `None`
/// where the line is no map entry. A map entry starts with a key, as in
/// JASN, followed by optional white space and a colon.
pub open spec fn entry_key(t: Seq<char>) -> Option<(Seq<char>, int)> {
    match key_at(t, 0) {
        Ok((key, b)) => {
            let p = blank_end(t, b);
            if 0 <= p < t.len() && t[p] == ':' {
                Some((key, p + 1))
            } else {
                None
            }
        },
        Err(_) => None,
    }
}

/// An error of a line as an error of the document: the position of a
/// syntax error counts from the start of the text.
pub open spec fn shifted(e: ErrorModel, by: int) -> ErrorModel {
    match e {
        ErrorModel::Syntax(p) => ErrorModel::Syntax(p + by),
        _ => e,
    }
}

/// The value written on a line from `from` on: a scalar or a bracketed
/// list or map, as in JASN, with nothing after it but white space and a
/// comment.
pub open spec fn inline_value(line: LineModel, from: int) -> Result<ValueModel, ErrorModel> {
    let p = blank_end(line.text, from);
    match value_at(line.text, p) {
        Err(e) => Err(shifted(e, line.start)),
        Ok((v, q)) => if trailing_ok(line.text, q) {
            Ok(v)
        } else {
            Err(ErrorModel::Syntax(line.start + blank_end(line.text, q)))
        },
    }
}

/// The value that starts on line `idx`, whose level is `level`, with the
/// index of the first line after it.
pub open spec fn block_at(lines: Seq<LineModel>, idx: int, level: int) -> Result<
    (ValueModel, int),
    ErrorModel,
>
    decreases lines.len() - idx, 2int,
{
    if idx < 0 || idx >= lines.len() {
        Err(ErrorModel::EmptyDocument)
    } else if is_item(lines[idx].text) {
        list_block(lines, idx, level, Seq::empty())
    } else if entry_key(lines[idx].text).is_some() {
        map_block(lines, idx, level, Seq::empty())
    } else {
        match inline_value(lines[idx], 0) {
            Ok(v) => Ok((v, idx + 1)),
            Err(e) => Err(e),
        }
    }
}

/// The value of the list item or map entry on line `idx`, which stands at
/// `level`, where `from` is the position after its dash or colon; with the
/// index of the first line after the value.
///
/// Where only white space or a comment follows, the value is the block on
/// the lines below, which must start exactly one level deeper: a missing
/// block is a missing-value error naming the line, a deeper one an
/// unexpected-indentation error. Otherwise the value stands on the line.
pub open spec fn child_value(lines: Seq<LineModel>, idx: int, level: int, from: int) -> Result<
    (ValueModel, int),
    ErrorModel,
>
    decreases lines.len() - idx, 0int,
{
    if idx < 0 || idx >= lines.len() {
        Err(ErrorModel::EmptyDocument)
    } else if trailing_ok(lines[idx].text, from) {
        if idx + 1 >= lines.len() || lines[idx + 1].level <= level {
            Err(ErrorModel::MissingValue(lines[idx].number))
        } else if lines[idx + 1].level > level + 1 {
            Err(ErrorModel::UnexpectedIndent(level + 1, lines[idx + 1].level))
        } else {
            block_at(lines, idx + 1, level + 1)
        }
    } else {
        match inline_value(lines[idx], from) {
            Ok(v) => Ok((v, idx + 1)),
            Err(e) => Err(e),
        }
    }
}

/// The list whose items before line `idx` are `acc`, where line `idx`
/// stands at the list's level. The list ends before the first line at a
/// lower level; a line at a higher level is an unexpected-indentation
/// error, and a line at the list's level that is no item a syntax error.
pub open spec fn list_block(
    lines: Seq<LineModel>,
    idx: int,
    level: int,
    acc: Seq<ValueModel>,
) -> Result<(ValueModel, int), ErrorModel>
    decreases lines.len() - idx, 1int,
{
    if idx < 0 || idx >= lines.len() {
        Err(ErrorModel::EmptyDocument)
    } else if !is_item(lines[idx].text) {
        Err(ErrorModel::Syntax(lines[idx].start))
    } else {
        match child_value(lines, idx, level, 1) {
            Err(e) => Err(e),
            Ok((v, next)) => if next <= idx {
                Err(ErrorModel::Syntax(lines[idx].start))
            } else if next >= lines.len() || lines[next].level < level {
                Ok((ValueModel::List(acc.push(v)), next))
            } else if lines[next].level > level {
                Err(ErrorModel::UnexpectedIndent(level, lines[next].level))
            } else {
                list_block(lines, next, level, acc.push(v))
            },
        }
    }
}

/// The map whose entries before line `idx` are `acc`; as [`list_block`].
/// A key that `acc` holds already is a duplicate-key error.
pub open spec fn map_block(
    lines: Seq<LineModel>,
    idx: int,
    level: int,
    acc: Seq<(Seq<char>, ValueModel)>,
) -> Result<(ValueModel, int), ErrorModel>
    decreases lines.len() - idx, 1int,
{
    if idx < 0 || idx >= lines.len() {
        Err(ErrorModel::EmptyDocument)
    } else {
        match entry_key(lines[idx].text) {
            None => Err(ErrorModel::Syntax(lines[idx].start)),
            Some((key, from)) => if has_key(acc, key) {
                Err(ErrorModel::DuplicateKey(key))
            } else {
                match child_value(lines, idx, level, from) {
                    Err(e) => Err(e),
                    Ok((v, next)) => if next <= idx {
                        Err(ErrorModel::Syntax(lines[idx].start))
                    } else if next >= lines.len() || lines[next].level < level {
                        Ok((ValueModel::Mapping(with_entry(acc, key, v)), next))
                    } else if lines[next].level > level {
                        Err(ErrorModel::UnexpectedIndent(level, lines[next].level))
                    } else {
                        map_block(lines, next, level, with_entry(acc, key, v))
                    },
                }
            },
        }
    }
}

/// The value of the lines of a document: one block at level 0. No line at
/// all is an empty-document error; a line after the value is an
/// unexpected-indentation error where it is indented, else a syntax error.
pub open spec fn blocks(lines: Seq<LineModel>) -> Result<ValueModel, ErrorModel> {
    if lines.len() == 0 {
        Err(ErrorModel::EmptyDocument)
    } else if lines[0].level != 0 {
        Err(ErrorModel::UnexpectedIndent(0, lines[0].level))
    } else {
        match block_at(lines, 0, 0) {
            Err(e) => Err(e),
            Ok((v, next)) => if 0 <= next < lines.len() {
                if lines[next].level > 0 {
                    Err(ErrorModel::UnexpectedIndent(0, lines[next].level))
                } else {
                    Err(ErrorModel::Syntax(lines[next].start))
                }
            } else {
                Ok(v)
            },
        }
    }
}

/// The value of a whole JAML document.
pub open spec fn document(s: Seq<char>) -> Result<ValueModel, ErrorModel> {
    match lines_of(s) {
        Err(e) => Err(e),
        Ok(lines) => blocks(lines),
    }
}

/// Whether every line's text lies within a text of the given length.
pub open spec fn lines_within(lines: Seq<Line>, len: usize) -> bool {
    forall|i: int| 0 <= i < lines.len() ==> (#[trigger] lines[i]).start + lines[i].text@.len() <= len
}

fn scan_indent(s: &Vec<char>, pos: usize) -> (r: usize)
    requires
        pos <= s.len(),
    ensures
        r == indent_end(s@, pos as int),
        pos <= r <= s.len(),
{
    let mut i: usize = pos;
    while i < s.len() && (s[i] == ' ' || s[i] == '\t')
        invariant
            pos <= i <= s.len(),
            indent_end(s@, pos as int) == indent_end(s@, i as int),
        decreases s.len() - i,
    {
        i += 1;
    }
    i
}

fn scan_blank(t: &Vec<char>, pos: usize) -> (r: usize)
    requires
        pos <= t.len(),
    ensures
        r == blank_end(t@, pos as int),
        pos <= r <= t.len(),
{
    let mut i: usize = pos;
    while i < t.len() && (t[i] == ' ' || t[i] == '\t' || t[i] == '\r')
        invariant
            pos <= i <= t.len(),
            blank_end(t@, pos as int) == blank_end(t@, i as int),
        decreases t.len() - i,
    {
        i += 1;
    }
    i
}

fn check_trailing(t: &Vec<char>, pos: usize) -> (r: bool)
    requires
        pos <= t.len(),
    ensures
        r == trailing_ok(t@, pos as int),
{
    let p = scan_blank(t, pos);
    p >= t.len() || t[p] == '#'
}

/// `indent_end` stops at the end of the line at the latest.
proof fn lemma_indent_before_line_end(s: Seq<char>, pos: int)
    requires
        0 <= pos <= s.len(),
    ensures
        pos <= indent_end(s, pos) <= line_end(s, pos) <= s.len(),
    decreases s.len() - pos,
{
    if pos < s.len() && s[pos] != '\n' {
        lemma_indent_before_line_end(s, pos + 1);
    }
}

/// The view of the outcome of cutting a text into lines.
pub open spec fn lines_result(r: Result<Vec<Line>, Error>) -> Result<Seq<LineModel>, ErrorModel> {
    match r {
        Ok(lines) => Ok(line_views(lines@)),
        Err(e) => Err(e@),
    }
}

/// Cuts a text into its lines; see [`lines_of`].
#[verifier::rlimit(50)]
pub fn split_lines(s: &Vec<char>) -> (r: Result<Vec<Line>, Error>)
    ensures
        lines_result(r) == lines_of(s@),
        r matches Ok(lines) ==> lines_within(lines@, s.len()),
{
    let mut lines: Vec<Line> = Vec::new();
    let mut tracker = Tracker::new();
    let mut pos: usize = 0;
    let mut newlines: usize = 0;
    assert(line_views(lines@) =~= Seq::<LineModel>::empty());
    while pos < s.len()
        invariant
            pos <= s.len(),
            newlines <= pos,
            tracker.wf(),
            lines_of(s@) == lines_from(
                s@,
                pos as int,
                newlines as int,
                tracker@,
                line_views(lines@),
            ),
            lines_within(lines@, s.len()),
        decreases s.len() - pos,
    {
        let e = scan_line(s, pos);
        let i = scan_indent(s, pos);
        proof {
            lemma_indent_before_line_end(s@, pos as int);
        }
        let text = slice_of(s, i, e);
        if !check_trailing(&text, 0) {
            let indent = slice_of(s, pos, i);
            match tracker.validate_chars(&indent) {
                Err(err) => {
                    return Err(err);
                },
                Ok(level) => {
                    let ghost before = line_views(lines@);
                    let line = Line { number: newlines + 1, level, start: i, text };
                    lines.push(line);
                    assert(line_views(lines@) =~= before.push(line@));
                },
            }
        }
        if e >= s.len() {
            return Ok(lines);
        }
        pos = e + 1;
        newlines = newlines + 1;
    }
    Ok(lines)
}

fn shift_error(e: Error, by: usize, Ghost(len): Ghost<usize>) -> (r: Error)
    requires
        e.within(len),
        by + len <= usize::MAX,
    ensures
        r@ == shifted(e@, by as int),
{
    match e {
        Error::Syntax(p) => Error::Syntax(p + by),
        other => other,
    }
}

/// The view of the outcome of reading a value on a line.
pub open spec fn inline_result(r: Result<Value, Error>) -> Result<ValueModel, ErrorModel> {
    match r {
        Ok(v) => Ok(v@),
        Err(e) => Err(e@),
    }
}

#[verifier::rlimit(50)]
fn parse_inline(line: &Line, from: usize) -> (r: Result<Value, Error>)
    requires
        from <= line.text.len(),
        line.start + line.text@.len() <= usize::MAX,
    ensures
        inline_result(r) == inline_value(line@, from as int),
        r matches Ok(v) ==> v.wf(),
{
    let p = scan_blank(&line.text, from);
    match parse_value(&line.text, p) {
        Err(e) => Err(shift_error(e, line.start, Ghost(line.text.len()))),
        Ok((v, q)) => {
            if check_trailing(&line.text, q) {
                Ok(v)
            } else {
                Err(Error::Syntax(line.start + scan_blank(&line.text, q)))
            }
        },
    }
}

fn check_item(t: &Vec<char>) -> (r: bool)
    ensures
        r == is_item(t@),
{
    t.len() > 0 && t[0] == '-' && (t.len() == 1 || t[1] == ' ' || t[1] == '\t' || t[1] == '\r')
}

#[verifier::rlimit(50)]
fn find_entry_key(t: &Vec<char>) -> (r: Option<(Vec<char>, usize)>)
    ensures
        match r {
            Some((key, from)) => entry_key(t@) == Some((key@, from as int)) && from <= t.len(),
            None => entry_key(t@).is_none(),
        },
{
    match parse_key(t, 0) {
        Ok((key, b)) => {
            let p = scan_blank(t, b);
            if p < t.len() && t[p] == ':' {
                Some((key, p + 1))
            } else {
                None
            }
        },
        Err(_) => None,
    }
}

/// The view of the outcome of reading a block.
pub open spec fn block_result(r: Result<(Value, usize), Error>) -> Result<
    (ValueModel, int),
    ErrorModel,
> {
    match r {
        Ok((v, next)) => Ok((v@, next as int)),
        Err(e) => Err(e@),
    }
}

/// Reads the value of the item or entry on line `idx`; see [`child_value`].
#[verifier::rlimit(50)]
fn parse_child(lines: &Vec<Line>, idx: usize, level: usize, from: usize) -> (r: Result<
    (Value, usize),
    Error,
>)
    requires
        idx < lines.len(),
        from <= lines[idx as int].text.len(),
        lines_within(lines@, usize::MAX),
    ensures
        block_result(r) == child_value(line_views(lines@), idx as int, level as int, from as int),
        r matches Ok((v, next)) ==> v.wf() && idx < next <= lines.len(),
    decreases lines.len() - idx, 0nat,
{
    let line = &lines[idx];
    assert(line_views(lines@)[idx as int] == line@);
    if check_trailing(&line.text, from) {
        if idx + 1 >= lines.len() {
            return Err(Error::MissingValue(line.number));
        }
        let below = lines[idx + 1].level;
        assert(line_views(lines@)[idx as int + 1] == lines[idx as int + 1]@);
        if below <= level {
            Err(Error::MissingValue(line.number))
        } else if below > level + 1 {
            Err(Error::UnexpectedIndent(level + 1, below))
        } else {
            parse_block(lines, idx + 1, level + 1)
        }
    } else {
        match parse_inline(line, from) {
            Ok(v) => Ok((v, idx + 1)),
            Err(e) => Err(e),
        }
    }
}

/// Reads the value that starts on line `idx`; see [`block_at`].
#[verifier::rlimit(50)]
fn parse_block(lines: &Vec<Line>, idx: usize, level: usize) -> (r: Result<(Value, usize), Error>)
    requires
        idx < lines.len(),
        lines_within(lines@, usize::MAX),
    ensures
        block_result(r) == block_at(line_views(lines@), idx as int, level as int),
        r matches Ok((v, next)) ==> v.wf() && idx < next <= lines.len(),
    decreases lines.len() - idx, 2nat,
{
    let ghost all = line_views(lines@);
    assert(all[idx as int] == lines[idx as int]@);
    if check_item(&lines[idx].text) {
        let mut items: Vec<Value> = Vec::new();
        let mut at: usize = idx;
        assert(crate::parser::views(items@) =~= Seq::<ValueModel>::empty());
        loop
            invariant
                idx <= at < lines.len(),
                all == line_views(lines@),
                lines_within(lines@, usize::MAX),
                block_at(all, idx as int, level as int) == list_block(
                    all,
                    at as int,
                    level as int,
                    crate::parser::views(items@),
                ),
                forall|j: int| 0 <= j < items@.len() ==> (#[trigger] items@[j]).wf(),
            decreases lines.len() - at,
        {
            assert(all[at as int] == lines[at as int]@);
            if !check_item(&lines[at].text) {
                return Err(Error::Syntax(lines[at].start));
            }
            let (v, next) = match parse_child(lines, at, level, 1) {
                Ok(pair) => pair,
                Err(e) => {
                    return Err(e);
                },
            };
            let ghost before = crate::parser::views(items@);
            items.push(v);
            assert(crate::parser::views(items@) =~= before.push(v@));
            if next < lines.len() {
                assert(all[next as int] == lines[next as int]@);
            }
            if next >= lines.len() || lines[next].level < level {
                let list = Value::List(items);
                assert(list@->List_0 =~= crate::parser::views(items@));
                return Ok((list, next));
            }
            if lines[next].level > level {
                return Err(Error::UnexpectedIndent(level, lines[next].level));
            }
            at = next;
        }
    } else if find_entry_key(&lines[idx].text).is_some() {
        let mut entries = Entries::new();
        let mut at: usize = idx;
        loop
            invariant
                idx <= at < lines.len(),
                all == line_views(lines@),
                lines_within(lines@, usize::MAX),
                block_at(all, idx as int, level as int) == map_block(
                    all,
                    at as int,
                    level as int,
                    entries@,
                ),
                entries.wf(),
            decreases lines.len() - at,
        {
            assert(all[at as int] == lines[at as int]@);
            let (key, from) = match find_entry_key(&lines[at].text) {
                Some(pair) => pair,
                None => {
                    return Err(Error::Syntax(lines[at].start));
                },
            };
            let name = string_of(&key);
            if entries.contains_key(name.as_str()) {
                return Err(Error::DuplicateKey(name));
            }
            let (v, next) = match parse_child(lines, at, level, from) {
                Ok(pair) => pair,
                Err(e) => {
                    return Err(e);
                },
            };
            entries.insert(name, v);
            if next < lines.len() {
                assert(all[next as int] == lines[next as int]@);
            }
            if next >= lines.len() || lines[next].level < level {
                return Ok((Value::Mapping(entries), next));
            }
            if lines[next].level > level {
                return Err(Error::UnexpectedIndent(level, lines[next].level));
            }
            at = next;
        }
    } else {
        match parse_inline(&lines[idx], 0) {
            Ok(v) => Ok((v, idx + 1)),
            Err(e) => Err(e),
        }
    }
}

/// The view of the outcome of reading a document.
pub open spec fn document_result(r: Result<Value, Error>) -> Result<ValueModel, ErrorModel> {
    match r {
        Ok(v) => Ok(v@),
        Err(e) => Err(e@),
    }
}

/// Reads the lines of a document as one value; see [`blocks`].
#[verifier::rlimit(50)]
pub fn parse_lines(lines: &Vec<Line>) -> (r: Result<Value, Error>)
    requires
        lines_within(lines@, usize::MAX),
    ensures
        document_result(r) == blocks(line_views(lines@)),
        r matches Ok(v) ==> v.wf(),
{
    if lines.len() == 0 {
        return Err(Error::EmptyDocument);
    }
    assert(line_views(lines@)[0] == lines[0]@);
    if lines[0].level != 0 {
        return Err(Error::UnexpectedIndent(0, lines[0].level));
    }
    match parse_block(lines, 0, 0) {
        Err(e) => Err(e),
        Ok((v, next)) => {
            if next < lines.len() {
                assert(line_views(lines@)[next as int] == lines[next as int]@);
                if lines[next].level > 0 {
                    Err(Error::UnexpectedIndent(0, lines[next].level))
                } else {
                    Err(Error::Syntax(lines[next].start))
                }
            } else {
                Ok(v)
            }
        },
    }
}

/// Reads a JAML document.
///
/// The document is one value: a list of `- item` lines, a map of
/// `key: value` lines, or a single scalar. Nesting is by indentation; the
/// first indented line sets the unit. `#` starts a comment and blank lines
/// do not count. The result is exactly what [`document`] says of the
/// characters of the text: the value, or the first error.
pub fn parse(input: &str) -> (r: Result<Value, Error>)
    ensures
        document_result(r) == document(input@),
        r matches Ok(v) ==> v.wf(),
{
    let chars = chars_of(input);
    match split_lines(&chars) {
        Err(e) => Err(e),
        Ok(lines) => parse_lines(&lines),
    }
}

} // verus!
